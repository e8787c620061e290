//! A photo's sidecar: the JSON file beside a screenshot that records where
//! and under which weather it was taken, and what the player wrote about it.

use vstd::prelude::*;
use crate::measure::{measure, signed, INFINITE, Measure};
use crate::narrowing::{narrow_share, narrowed, share, UNIT};

verus! {

/// `serde_json::Value`, known by what it holds: see `json`.
#[verifier::external_type_specification]
#[verifier::external_body]
pub struct ExValue(serde_json::Value);

/// `serde_json::Error`, carried through unopened.
#[verifier::external_type_specification]
#[verifier::external_body]
pub struct ExError(serde_json::Error);

/// What a JSON value holds.
#[verifier::ext_equal]
pub enum Json {
    Null,
    Bool(bool),
    /// A number: the integer it is, where it was written as one, and the bits
    /// of its 64-bit floating value.
    Number { whole: Option<int>, bits: u64 },
    Text(Seq<char>),
    List(Seq<Json>),
    Object(Map<Seq<char>, Json>),
}

/// What a `serde_json::Value` holds.
pub uninterp spec fn json(v: serde_json::Value) -> Json;

/// What `serde_json::from_str` reads from a text, or nothing where it refuses
/// the text.
pub uninterp spec fn parsed(raw: Seq<char>) -> Option<Json>;

/// The text that `serde_json::to_string_pretty` writes for a value.
pub uninterp spec fn pretty(j: Json) -> Seq<char>;

/// The field of an object.
pub open spec fn member(j: Json, key: Seq<char>) -> Option<Json> {
    match j {
        Json::Object(m) => if m.dom().contains(key) {
            Some(m[key])
        } else {
            None
        },
        _ => None,
    }
}

/// Calls `serde_json::from_str`: a text is read in one way or refused.
#[verifier::external_body]
pub(crate) fn parse(raw: &str) -> (r: Result<serde_json::Value, serde_json::Error>)
    ensures
        r is Ok <==> parsed(raw@) is Some,
        r matches Ok(v) ==> json(v) == parsed(raw@)->0,
{
    serde_json::from_str(raw)
}

/// How deep a value may nest and still be read again.
pub const DEPTH: u32 = 100;

/// A size that fractions keep within to be read again (1e300).
pub const LARGE: Measure = 0x7E37_E43C_8800_759C;

/// A value without deep nesting and without fractions near the largest.
pub open spec fn modest(j: Json, depth: nat) -> bool
    decreases depth,
{
    match j {
        Json::Number { whole, bits } => whole is Some || -LARGE <= signed(bits) <= LARGE,
        Json::List(items) => depth > 0 && forall|i: int|
            0 <= i < items.len() ==> modest(#[trigger] items[i], (depth - 1) as nat),
        Json::Object(m) => depth > 0 && forall|key: Seq<char>|
            m.dom().contains(key) ==> modest(#[trigger] m[key], (depth - 1) as nat),
        _ => true,
    }
}

/// Two values that differ at most in their fractions, down to a depth.
pub open spec fn alike(j: Json, k: Json, depth: nat) -> bool
    decreases depth,
{
    match (j, k) {
        (Json::Number { whole: None, .. }, Json::Number { .. }) => true,
        (Json::List(a), Json::List(b)) => a.len() == b.len() && (depth > 0 ==> forall|i: int|
            0 <= i < a.len() ==> alike(#[trigger] a[i], b[i], (depth - 1) as nat)),
        (Json::Object(a), Json::Object(b)) => a.dom() == b.dom() && (depth > 0 ==> forall|
            key: Seq<char>,
        |
            a.dom().contains(key) ==> alike(#[trigger] a[key], b[key], (depth - 1) as nat)),
        _ => j == k,
    }
}

/// A text that gives a value back: what is read from it has the same fields,
/// items, texts, truths and integers, and a modest value is always read.
pub open spec fn gives_back(text: Seq<char>, j: Json) -> bool {
    &&& modest(j, DEPTH as nat) ==> parsed(text) is Some
    &&& parsed(text) matches Some(k) ==> alike(j, k, DEPTH as nat)
}

/// Calls `serde_json::to_string_pretty`, which refuses no value: what the
/// value holds fixes what is written, and object fields stand in the order of
/// their names. The reader takes the text back, except that it refuses deeper
/// nesting than its limit and numbers past the largest, and that it may round
/// a fraction differently in the last place.
#[verifier::external_body]
fn print(js: &serde_json::Value) -> (r: Result<String, serde_json::Error>)
    ensures
        r is Ok,
        r matches Ok(text) ==> text@ == pretty(json(*js)) && gives_back(text@, json(*js)),
{
    serde_json::to_string_pretty(js)
}

/// Calls `serde_json::Value::get` with a name: the field of an object, and
/// nothing of any other value.
#[verifier::external_body]
pub(crate) fn get<'a>(js: &'a serde_json::Value, key: &str) -> (r: Option<&'a serde_json::Value>)
    ensures
        r is Some <==> member(json(*js), key@) is Some,
        r matches Some(v) ==> json(*v) == member(json(*js), key@)->0,
{
    js.get(key)
}

/// Calls `serde_json::Value::as_str`: the characters of a text.
#[verifier::external_body]
pub(crate) fn as_text(js: &serde_json::Value) -> (r: Option<&str>)
    ensures
        r is Some <==> json(*js) is Text,
        r matches Some(s) ==> json(*js) == Json::Text(s@),
{
    js.as_str()
}

/// Calls `serde_json::Value::as_f64`: the floating value of a number, handed
/// on as its bits.
#[verifier::external_body]
pub(crate) fn as_number(js: &serde_json::Value) -> (r: Option<u64>)
    ensures
        r is Some <==> json(*js) is Number,
        r matches Some(bits) ==> bits == json(*js)->Number_bits,
{
    js.as_f64().map(|v| v.to_bits())
}

/// Calls `serde_json::Value::as_i64`: a number written as an integer, where
/// it fits.
#[verifier::external_body]
pub(crate) fn as_whole(js: &serde_json::Value) -> (r: Option<i64>)
    ensures
        r == whole(json(*js)),
{
    js.as_i64()
}

/// Calls `serde_json::Value::as_bool`.
#[verifier::external_body]
fn as_truth(js: &serde_json::Value) -> (r: Option<bool>)
    ensures
        r is Some <==> json(*js) is Bool,
        r matches Some(b) ==> json(*js) == Json::Bool(b),
{
    js.as_bool()
}

/// Calls `serde_json::Value::is_null`.
#[verifier::external_body]
fn is_null(js: &serde_json::Value) -> (r: bool)
    ensures
        r == (json(*js) is Null),
{
    js.is_null()
}

/// Calls `serde_json::Value::is_object`.
#[verifier::external_body]
fn is_object(js: &serde_json::Value) -> (r: bool)
    ensures
        r == (json(*js) is Object),
{
    js.is_object()
}

/// Calls `serde_json::Value::as_array`: the items of a list, in order.
#[verifier::external_body]
fn as_items(js: &serde_json::Value) -> (r: Option<&Vec<serde_json::Value>>)
    ensures
        r is Some <==> json(*js) is List,
        r matches Some(v) ==> v@.len() == json(*js)->List_0.len() && forall|i: int|
            0 <= i < v@.len() ==> json(#[trigger] v@[i]) == json(*js)->List_0[i],
{
    js.as_array()
}

/// Calls `serde_json::Map::new`: an object without fields.
#[verifier::external_body]
fn empty_object() -> (r: serde_json::Value)
    ensures
        json(r) == Json::Object(Map::empty()),
{
    serde_json::Value::Object(serde_json::Map::new())
}

/// Calls `serde_json::Map::insert` on an object: the field holds the text
/// afterwards, the other fields are as before.
#[verifier::external_body]
fn put_text(js: &mut serde_json::Value, key: &str, text: &str)
    requires
        json(*old(js)) is Object,
    ensures
        json(*final(js)) == Json::Object(
            json(*old(js))->Object_0.insert(key@, Json::Text(text@)),
        ),
{
    if let Some(fields) = js.as_object_mut() {
        fields.insert(key.to_string(), serde_json::Value::String(text.to_string()));
    }
}

/// The integer of a number, where it was written as one and fits.
pub open spec fn whole(j: Json) -> Option<i64> {
    match j {
        Json::Number { whole: Some(n), .. } if i64::MIN <= n <= i64::MAX => Some(n as i64),
        _ => None,
    }
}

/// A free-text field: missing or not a text reads as empty.
pub open spec fn text_field(j: Json, key: Seq<char>) -> Seq<char> {
    match member(j, key) {
        Some(Json::Text(s)) => s,
        _ => Seq::empty(),
    }
}

/// A free-text field: missing or not a text reads as empty.
pub fn sidecar_str(js: &serde_json::Value, key: &str) -> (r: String)
    ensures
        r@ == text_field(json(*js), key@),
{
    match get(js, key) {
        None => String::new(),
        Some(v) => match as_text(v) {
            None => String::new(),
            Some(s) => s.to_owned(),
        },
    }
}

/// A value with its two notes set. What is not an object becomes one.
pub open spec fn noted(j: Json, title: Seq<char>, note: Seq<char>) -> Json {
    let fields = match j {
        Json::Object(m) => m,
        _ => Map::empty(),
    };
    Json::Object(
        fields.insert("title"@, Json::Text(title)).insert("note"@, Json::Text(note)),
    )
}

/// Set `title` and `note` on a sidecar, keeping every other field. A value
/// that is not an object becomes a fresh object holding just these two.
pub fn apply_notes(js: &mut serde_json::Value, title: &str, note: &str)
    ensures
        json(*final(js)) == noted(json(*old(js)), title@, note@),
{
    if !is_object(js) {
        *js = empty_object();
    }
    put_text(js, "title", title);
    put_text(js, "note", note);
}

/// What a sidecar's text holds. A missing or unreadable sidecar counts as one
/// without fields.
pub open spec fn held(raw: Option<Seq<char>>) -> Json {
    match raw {
        Some(text) => match parsed(text) {
            Some(j) => j,
            None => Json::Object(Map::empty()),
        },
        None => Json::Object(Map::empty()),
    }
}

/// Set the notes in a sidecar's text: read it, set the two fields, write it
/// again. A missing or unreadable sidecar counts as one without fields.
pub fn edited_sidecar(raw: Option<String>, title: &str, note: &str) -> (r: Result<
    String,
    serde_json::Error,
>)
    ensures
        ({
            let text = match raw {
                Some(s) => Some(s@),
                None => None,
            };
            &&& r is Ok
            &&& r->Ok_0@ == pretty(noted(held(text), title@, note@))
            &&& gives_back(r->Ok_0@, noted(held(text), title@, note@))
        }),
{
    let mut js = match raw {
        Some(text) => match parse(&text) {
            Ok(v) => v,
            Err(_) => empty_object(),
        },
        None => empty_object(),
    };
    apply_notes(&mut js, title, note);
    print(&js)
}

/// A pinned weather: two shares, as stored 32 bits each.
#[derive(Clone, Copy, PartialEq, Eq, Structural, Debug)]
pub struct Pin {
    pub cover: u32,
    pub precip: u32,
}

/// The weather that a sidecar records: switched on or off, pinned or moving,
/// at a stored time.
#[derive(Clone, Copy, PartialEq, Eq, Structural, Debug)]
pub struct SidecarWeather {
    pub on: bool,
    pub pinned: Option<Pin>,
    pub time: Option<u64>,
}

/// Finite and not negative.
pub open spec fn instant(bits: u64) -> bool {
    0 <= signed(bits) < INFINITE
}

/// The field is missing or null.
pub open spec fn absent(field: Option<Json>) -> bool {
    field is None || field->0 is Null
}

/// A pin is a list of two shares, each kept as the nearest 32-bit value.
pub open spec fn pin_of(j: Json) -> Option<Pin> {
    match j {
        Json::List(items) => if items.len() == 2 {
            match (items[0], items[1]) {
                (Json::Number { bits: c, .. }, Json::Number { bits: r, .. }) if share(c) && share(r) => {
                    Some(Pin { cover: narrowed(c), precip: narrowed(r) })
                },
                _ => None,
            }
        } else {
            None
        },
        _ => None,
    }
}

pub open spec fn time_of(j: Json) -> Option<u64> {
    match j {
        Json::Number { bits, .. } if instant(bits) => Some(bits),
        _ => None,
    }
}

/// The weather of a sidecar. The switch must be there; a pin or a time may be
/// missing or null, but a malformed one spoils the whole record.
pub open spec fn weather_of(j: Json) -> Option<SidecarWeather> {
    match member(j, "weather"@) {
        Some(w) => match member(w, "on"@) {
            Some(Json::Bool(on)) => {
                let pin = member(w, "pinned"@);
                let time = member(w, "t_s"@);
                if (absent(pin) || pin_of(pin->0) is Some) && (absent(time) || time_of(time->0) is Some) {
                    Some(
                        SidecarWeather {
                            on,
                            pinned: if absent(pin) {
                                None
                            } else {
                                pin_of(pin->0)
                            },
                            time: if absent(time) {
                                None
                            } else {
                                time_of(time->0)
                            },
                        },
                    )
                } else {
                    None
                }
            },
            _ => None,
        },
        None => None,
    }
}

fn read_pin(js: &serde_json::Value) -> (r: Option<Pin>)
    ensures
        r == pin_of(json(*js)),
{
    let items = match as_items(js) {
        Some(v) => v,
        None => {
            return None;
        },
    };
    if items.len() != 2 {
        return None;
    }
    assert(json(items@[0]) == json(*js)->List_0[0]);
    assert(json(items@[1]) == json(*js)->List_0[1]);
    match (as_number(&items[0]), as_number(&items[1])) {
        (Some(c), Some(r)) => {
            let mc: Measure = measure(c);
            let mr: Measure = measure(r);
            if 0 <= mc && mc <= UNIT as i64 && 0 <= mr && mr <= UNIT as i64 {
                Some(Pin { cover: narrow_share(c), precip: narrow_share(r) })
            } else {
                None
            }
        },
        _ => None,
    }
}

/// The weather of a sidecar. The switch must be there; a pin or a time may be
/// missing or null, but a malformed one spoils the whole record.
pub fn sidecar_weather(js: &serde_json::Value) -> (r: Option<SidecarWeather>)
    ensures
        r == weather_of(json(*js)),
{
    let weather = match get(js, "weather") {
        Some(w) => w,
        None => {
            return None;
        },
    };
    let on: bool = match get(weather, "on") {
        None => {
            return None;
        },
        Some(v) => match as_truth(v) {
            Some(b) => b,
            None => {
                return None;
            },
        },
    };
    let pinned: Option<Pin> = match get(weather, "pinned") {
        None => None,
        Some(v) => if is_null(v) {
            None
        } else {
            match read_pin(v) {
                Some(p) => Some(p),
                None => {
                    return None;
                },
            }
        },
    };
    let time: Option<u64> = match get(weather, "t_s") {
        None => None,
        Some(v) => if is_null(v) {
            None
        } else {
            match as_number(v) {
                Some(bits) => {
                    let m: Measure = measure(bits);
                    if 0 <= m && m < INFINITE {
                        Some(bits)
                    } else {
                        return None;
                    }
                },
                None => {
                    return None;
                },
            }
        },
    };
    Some(SidecarWeather { on, pinned, time })
}

/// Notes come back as they were set, whatever the sidecar was before.
pub proof fn notes_round_trip(j: Json, title: Seq<char>, note: Seq<char>)
    ensures
        text_field(noted(j, title, note), "title"@) == title,
        text_field(noted(j, title, note), "note"@) == note,
{
    reveal_strlit("title");
    reveal_strlit("note");
    assert("title"@.len() != "note"@.len());
}

/// Notes that were set and written are read back from the text, and so is
/// every other field, up to its fractions. A modest sidecar is always read.
pub proof fn written_notes_are_read_back(
    text: Seq<char>,
    j: Json,
    title: Seq<char>,
    note: Seq<char>,
    key: Seq<char>,
)
    requires
        gives_back(text, noted(j, title, note)),
    ensures
        modest(j, DEPTH as nat) ==> parsed(text) is Some,
        parsed(text) matches Some(k) ==> {
            &&& text_field(k, "title"@) == title
            &&& text_field(k, "note"@) == note
            &&& key != "title"@ && key != "note"@ ==> (member(k, key) is Some <==> member(j, key)
                is Some)
            &&& key != "title"@ && key != "note"@ && member(j, key) is Some ==> alike(
                member(j, key)->0,
                member(k, key)->0,
                (DEPTH - 1) as nat,
            )
        },
{
    let whole = noted(j, title, note);
    notes_round_trip(j, title, note);
    let m = whole->Object_0;
    if modest(j, DEPTH as nat) {
        assert forall|name: Seq<char>| m.dom().contains(name) implies modest(
            #[trigger] m[name],
            (DEPTH - 1) as nat,
        ) by {
            if name != "title"@ && name != "note"@ {
                assert(m[name] == j->Object_0[name]);
            }
        }
        assert(modest(whole, DEPTH as nat));
    }
    if let Some(k) = parsed(text) {
        assert(m.dom().contains("title"@) && m.dom().contains("note"@));
        assert(alike(m["title"@], k->Object_0["title"@], (DEPTH - 1) as nat));
        assert(alike(m["note"@], k->Object_0["note"@], (DEPTH - 1) as nat));
        if key != "title"@ && key != "note"@ && member(j, key) is Some {
            assert(m[key] == member(j, key)->0);
            assert(alike(m[key], k->Object_0[key], (DEPTH - 1) as nat));
        }
    }
}

/// Setting notes keeps every other field of an object, and adds no other.
pub proof fn notes_keep_other_fields(j: Json, title: Seq<char>, note: Seq<char>, key: Seq<char>)
    requires
        key != "title"@,
        key != "note"@,
    ensures
        member(noted(j, title, note), key) == member(j, key),
{
}

/// Setting notes again leaves only the last.
pub proof fn last_notes_win(
    j: Json,
    title: Seq<char>,
    note: Seq<char>,
    title2: Seq<char>,
    note2: Seq<char>,
)
    ensures
        noted(noted(j, title, note), title2, note2) == noted(j, title2, note2),
{
    let fields = match j {
        Json::Object(m) => m,
        _ => Map::empty(),
    };
    reveal_strlit("title");
    reveal_strlit("note");
    assert("title"@.len() != "note"@.len());
    assert(noted(noted(j, title, note), title2, note2)->Object_0 =~= noted(
        j,
        title2,
        note2,
    )->Object_0);
}

/// Notes do not change the recorded weather.
pub proof fn notes_keep_the_weather(j: Json, title: Seq<char>, note: Seq<char>)
    ensures
        weather_of(noted(j, title, note)) == weather_of(j),
{
    reveal_strlit("title");
    reveal_strlit("note");
    reveal_strlit("weather");
    assert("weather"@.len() != "title"@.len() && "weather"@.len() != "note"@.len());
    notes_keep_other_fields(j, title, note, "weather"@);
}

/// A number of these bits.
pub open spec fn is_number(j: Json, bits: u64) -> bool {
    j matches Json::Number { bits: b, .. } && b == bits
}

/// The recorded weather is the switch, the pin and the time of the `weather`
/// field: without a pin or a time, or with null in its place, that part is
/// open.
pub proof fn sidecars_tell_the_weather(j: Json, w: Json, on: bool, c: u64, r: u64, t: u64)
    requires
        member(j, "weather"@) == Some(w),
        member(w, "on"@) == Some(Json::Bool(on)),
    ensures
        ({
            let (pin, time) = (member(w, "pinned"@), member(w, "t_s"@));
            let unpinned = pin is None || pin == Some(Json::Null);
            let untimed = time is None || time == Some(Json::Null);
            let pinned = pin is Some && pin->0 is List && pin->0->List_0.len() == 2 && is_number(
                pin->0->List_0[0],
                c,
            ) && is_number(pin->0->List_0[1], r);
            let timed = time is Some && is_number(time->0, t);
            let shares = (c <= 0x3FF0_0000_0000_0000 || c == 0x8000_0000_0000_0000) && (r
                <= 0x3FF0_0000_0000_0000 || r == 0x8000_0000_0000_0000);
            let instant = t < 0x7FF0_0000_0000_0000 || t == 0x8000_0000_0000_0000;
            &&& unpinned && untimed ==> weather_of(j) == Some(
                SidecarWeather { on, pinned: None, time: None },
            )
            &&& unpinned && timed ==> weather_of(j) == (if instant {
                Some(SidecarWeather { on, pinned: None, time: Some(t) })
            } else {
                None
            })
            &&& pinned && untimed ==> weather_of(j) == (if shares {
                Some(
                    SidecarWeather {
                        on,
                        pinned: Some(Pin { cover: narrowed(c), precip: narrowed(r) }),
                        time: None,
                    },
                )
            } else {
                None
            })
            &&& pinned && timed ==> weather_of(j) == (if shares && instant {
                Some(
                    SidecarWeather {
                        on,
                        pinned: Some(Pin { cover: narrowed(c), precip: narrowed(r) }),
                        time: Some(t),
                    },
                )
            } else {
                None
            })
            &&& pin is Some && !(pin->0 is Null) && !(pin->0 is List) ==> weather_of(j) is None
            &&& pin is Some && pin->0 is List && pin->0->List_0.len() != 2 ==> weather_of(j) is None
            &&& time is Some && !(time->0 is Null) && !(time->0 is Number) ==> weather_of(j) is None
        }),
{
}

/// Without a `weather` field, or without a switch in it, no weather is
/// recorded.
pub proof fn weather_needs_its_switch(j: Json)
    ensures
        weather_of(j) is Some ==> member(j, "weather"@) is Some,
        weather_of(j) matches Some(w) ==> member(member(j, "weather"@)->0, "on"@) == Some(
            Json::Bool(w.on),
        ),
{
}

/// Fields are those of an object, and integers those written as such.
pub proof fn fields_are_read_as_they_stand(m: Map<Seq<char>, Json>, key: Seq<char>, s: Seq<char>, n: int, bits: u64)
    ensures
        m.dom().contains(key) ==> member(Json::Object(m), key) == Some(m[key]),
        !m.dom().contains(key) ==> member(Json::Object(m), key) is None,
        m.dom().contains(key) && m[key] == Json::Text(s) ==> text_field(Json::Object(m), key) == s,
        m.dom().contains(key) && !(m[key] is Text) ==> text_field(Json::Object(m), key).len() == 0,
        !m.dom().contains(key) ==> text_field(Json::Object(m), key).len() == 0,
        i64::MIN <= n <= i64::MAX ==> whole(Json::Number { whole: Some(n), bits }) == Some(n as i64),
        n < i64::MIN || n > i64::MAX ==> whole(Json::Number { whole: Some(n), bits }) is None,
        whole(Json::Number { whole: None, bits }) is None,
        whole(Json::Text(s)) is None,
{
}

/// Notes are set on what the sidecar held, and on nothing where it held no
/// readable value.
pub proof fn notes_are_set_on_what_was_held(text: Seq<char>, title: Seq<char>, note: Seq<char>, key: Seq<char>)
    requires
        key != "title"@,
        key != "note"@,
    ensures
        parsed(text) matches Some(j) ==> member(noted(held(Some(text)), title, note), key) == member(
            j,
            key,
        ),
        parsed(text) is None ==> member(noted(held(Some(text)), title, note), key) is None,
        member(noted(held(None), title, note), key) is None,
        text_field(noted(held(Some(text)), title, note), "title"@) == title,
        text_field(noted(held(Some(text)), title, note), "note"@) == note,
        text_field(noted(held(None), title, note), "title"@) == title,
        text_field(noted(held(None), title, note), "note"@) == note,
{
    notes_round_trip(held(Some(text)), title, note);
    notes_round_trip(held(None), title, note);
    notes_keep_other_fields(held(Some(text)), title, note, key);
    notes_keep_other_fields(held(None), title, note, key);
}

} // verus!
