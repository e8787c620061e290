//! Text the player and the file system hand in: words, names, numbers.

use vstd::prelude::*;

verus! {

/// White space, as Unicode has it.
pub open spec fn white(c: char) -> bool {
    ||| '\u{9}' <= c <= '\u{d}'
    ||| c == ' '
    ||| c == '\u{85}'
    ||| c == '\u{a0}'
    ||| c == '\u{1680}'
    ||| '\u{2000}' <= c <= '\u{200a}'
    ||| c == '\u{2028}'
    ||| c == '\u{2029}'
    ||| c == '\u{202f}'
    ||| c == '\u{205f}'
    ||| c == '\u{3000}'
}

pub fn is_white(c: char) -> (r: bool)
    ensures
        r == white(c),
{
    ('\u{9}' <= c && c <= '\u{d}') || c == ' ' || c == '\u{85}' || c == '\u{a0}' || c == '\u{1680}'
        || ('\u{2000}' <= c && c <= '\u{200a}') || c == '\u{2028}' || c == '\u{2029}' || c
        == '\u{202f}' || c == '\u{205f}' || c == '\u{3000}'
}

/// All white space, or empty.
pub open spec fn blank(s: Seq<char>) -> bool {
    forall|i: int| 0 <= i < s.len() ==> white(#[trigger] s[i])
}

pub fn is_blank(s: &str) -> (r: bool)
    ensures
        r == blank(s@),
{
    let n: usize = s.unicode_len();
    let mut i: usize = 0;
    while i < n
        invariant
            i <= n == s@.len(),
            forall|k: int| 0 <= k < i ==> white(#[trigger] s@[k]),
        decreases n - i,
    {
        if !is_white(s.get_char(i)) {
            assert(!white(s@[i as int]));
            return false;
        }
        i += 1;
    }
    true
}

/// Where the first non-white character at or after `i` stands; the end if
/// there is none.
pub open spec fn word_start(s: Seq<char>, i: int) -> int
    decreases s.len() - i,
{
    if i >= s.len() || i < 0 {
        s.len() as int
    } else if white(s[i]) {
        word_start(s, i + 1)
    } else {
        i
    }
}

/// Where the first white character at or after `i` stands; the end if there
/// is none.
pub open spec fn word_end(s: Seq<char>, i: int) -> int
    decreases s.len() - i,
{
    if i >= s.len() || i < 0 {
        s.len() as int
    } else if white(s[i]) {
        i
    } else {
        word_end(s, i + 1)
    }
}

proof fn lemma_word_bounds(s: Seq<char>, i: int)
    requires
        0 <= i <= s.len(),
    ensures
        i <= word_start(s, i) <= s.len(),
        i <= word_end(s, i) <= s.len(),
        i < s.len() && !white(s[i]) ==> word_end(s, i) > i,
        word_start(s, i) < s.len() ==> !white(s[word_start(s, i)]),
    decreases s.len() - i,
{
    if i < s.len() {
        lemma_word_bounds(s, i + 1);
    }
}

/// The words of a text from `i` on.
pub open spec fn words_from(s: Seq<char>, i: int) -> Seq<Seq<char>>
    decreases s.len() - i,
    when 0 <= i <= s.len()
    via words_shrink
{
    let a = word_start(s, i);
    if a >= s.len() {
        Seq::empty()
    } else {
        let b = word_end(s, a);
        seq![s.subrange(a, b)] + words_from(s, b)
    }
}

#[via_fn]
proof fn words_shrink(s: Seq<char>, i: int) {
    lemma_word_bounds(s, i);
    let a = word_start(s, i);
    if a < s.len() {
        lemma_word_bounds(s, a);
    }
}

/// The words of a text, parted by white space.
pub open spec fn words(s: Seq<char>) -> Seq<Seq<char>> {
    words_from(s, 0)
}

/// The characters of each text in a list.
pub open spec fn texts(v: Seq<String>) -> Seq<Seq<char>> {
    Seq::new(v.len(), |i: int| v[i]@)
}

fn next_start(s: &str, n: usize, from: usize) -> (r: usize)
    requires
        n == s@.len(),
        from <= n,
    ensures
        r == word_start(s@, from as int),
{
    let mut i: usize = from;
    while i < n && is_white(s.get_char(i))
        invariant
            n == s@.len(),
            from <= i <= n,
            word_start(s@, i as int) == word_start(s@, from as int),
        decreases n - i,
    {
        i += 1;
    }
    i
}

fn next_end(s: &str, n: usize, from: usize) -> (r: usize)
    requires
        n == s@.len(),
        from <= n,
    ensures
        r == word_end(s@, from as int),
{
    let mut i: usize = from;
    while i < n && !is_white(s.get_char(i))
        invariant
            n == s@.len(),
            from <= i <= n,
            word_end(s@, i as int) == word_end(s@, from as int),
        decreases n - i,
    {
        i += 1;
    }
    i
}

/// The words of a text, parted by white space.
pub fn split_words(s: &str) -> (out: Vec<String>)
    ensures
        texts(out@) == words(s@),
{
    let n: usize = s.unicode_len();
    let mut out: Vec<String> = Vec::new();
    let mut at: usize = next_start(s, n, 0);
    proof {
        lemma_word_bounds(s@, 0);
        assert(texts(out@) + words_from(s@, 0) =~= words(s@));
    }
    let ghost mut seen: int = 0;
    while at < n
        invariant
            n == s@.len(),
            0 <= seen <= at <= n,
            at == word_start(s@, seen),
            texts(out@) + words_from(s@, seen) == words(s@),
        decreases n - at,
    {
        let end: usize = next_end(s, n, at);
        proof {
            lemma_word_bounds(s@, seen);
            lemma_word_bounds(s@, at as int);
        }
        let ghost before = out@;
        out.push(s.substring_char(at, end).to_owned());
        proof {
            lemma_word_bounds(s@, end as int);
            assert(texts(out@) =~= texts(before) + seq![s@.subrange(at as int, end as int)]);
            assert(texts(out@) + words_from(s@, end as int) =~= texts(before) + words_from(s@, seen));
            seen = end as int;
        }
        at = next_start(s, n, end);
    }
    proof {
        assert(texts(out@) + words_from(s@, seen) =~= texts(out@));
    }
    out
}

/// A text without the white space at its ends.
pub open spec fn trimmed(s: Seq<char>) -> Seq<char>
    decreases s.len(),
{
    if s.len() == 0 {
        s
    } else if white(s[0]) {
        trimmed(s.subrange(1, s.len() as int))
    } else if white(s.last()) {
        trimmed(s.drop_last())
    } else {
        s
    }
}

/// A text without the white space at its ends.
pub fn trim(s: &str) -> (r: String)
    ensures
        r@ == trimmed(s@),
{
    let n: usize = s.unicode_len();
    let mut a: usize = 0;
    let mut b: usize = n;
    assert(s@.subrange(0, n as int) =~= s@);
    while a < b && is_white(s.get_char(a))
        invariant
            n == s@.len(),
            a <= b == n,
            trimmed(s@.subrange(a as int, b as int)) == trimmed(s@),
        decreases b - a,
    {
        proof {
            let t = s@.subrange(a as int, b as int);
            assert(t.subrange(1, t.len() as int) =~= s@.subrange(a + 1, b as int));
        }
        a += 1;
    }
    while a < b && is_white(s.get_char(b - 1))
        invariant
            n == s@.len(),
            a <= b <= n,
            a < b ==> !white(s@[a as int]),
            trimmed(s@.subrange(a as int, b as int)) == trimmed(s@),
        decreases b - a,
    {
        proof {
            let t = s@.subrange(a as int, b as int);
            assert(t.drop_last() =~= s@.subrange(a as int, b - 1));
        }
        b -= 1;
    }
    let r = s.substring_char(a, b);
    proof {
        let t = s@.subrange(a as int, b as int);
        assert(a < b ==> t[0] == s@[a as int] && t.last() == s@[b - 1]);
        assert(trimmed(t) == t);
    }
    r.to_owned()
}

/// `pat` stands in `s` at `i`.
pub open spec fn stands_at(s: Seq<char>, pat: Seq<char>, i: int) -> bool {
    0 <= i && i + pat.len() <= s.len() && s.subrange(i, i + pat.len()) == pat
}

fn matches_at(s: &str, n: usize, pat: &str, m: usize, i: usize) -> (r: bool)
    requires
        n == s@.len(),
        m == pat@.len(),
        i + m <= n,
    ensures
        r == stands_at(s@, pat@, i as int),
{
    let mut k: usize = 0;
    while k < m
        invariant
            n == s@.len(),
            m == pat@.len(),
            i + m <= n,
            k <= m,
            forall|j: int| 0 <= j < k ==> s@[i + j] == #[trigger] pat@[j],
        decreases m - k,
    {
        if s.get_char(i + k) != pat.get_char(k) {
            assert(s@.subrange(i as int, i + m)[k as int] != pat@[k as int]);
            return false;
        }
        k += 1;
    }
    assert(s@.subrange(i as int, i + m) =~= pat@);
    true
}

/// `s` begins with `pat`.
pub fn begins_with(s: &str, pat: &str) -> (r: bool)
    ensures
        r == stands_at(s@, pat@, 0),
{
    let n: usize = s.unicode_len();
    let m: usize = pat.unicode_len();
    m <= n && matches_at(s, n, pat, m, 0)
}

/// `s` ends with `pat`.
pub fn finishes_with(s: &str, pat: &str) -> (r: bool)
    ensures
        r == stands_at(s@, pat@, s@.len() - pat@.len()),
{
    let n: usize = s.unicode_len();
    let m: usize = pat.unicode_len();
    m <= n && matches_at(s, n, pat, m, n - m)
}

/// Two texts are the same.
pub fn same_text(a: &str, b: &str) -> (r: bool)
    ensures
        r == (a@ == b@),
{
    let n: usize = a.unicode_len();
    let m: usize = b.unicode_len();
    if n != m {
        return false;
    }
    let r: bool = matches_at(a, n, b, m, 0);
    assert(a@.subrange(0, n as int) =~= a@);
    r
}

/// Where `pat` first stands in `s`, at or after `i`.
pub open spec fn first_from(s: Seq<char>, pat: Seq<char>, i: int) -> Option<int>
    decreases s.len() + 1 - i,
{
    if i < 0 || i > s.len() {
        None
    } else if stands_at(s, pat, i) {
        Some(i)
    } else {
        first_from(s, pat, i + 1)
    }
}

proof fn lemma_too_short(s: Seq<char>, pat: Seq<char>, i: int)
    requires
        0 <= i,
        i + pat.len() > s.len(),
    ensures
        first_from(s, pat, i) is None,
    decreases s.len() + 1 - i,
{
    if i <= s.len() {
        lemma_too_short(s, pat, i + 1);
    }
}

fn find(s: &str, pat: &str) -> (r: Option<usize>)
    ensures
        match r {
            None => first_from(s@, pat@, 0) is None,
            Some(i) => first_from(s@, pat@, 0) == Some(i as int) && i + pat@.len() <= s@.len(),
        },
{
    let n: usize = s.unicode_len();
    let m: usize = pat.unicode_len();
    if m > n {
        proof {
            lemma_too_short(s@, pat@, 0);
        }
        return None;
    }
    let last: usize = n - m;
    let mut i: usize = 0;
    while i < last
        invariant
            n == s@.len(),
            m == pat@.len(),
            i <= last == n - m,
            first_from(s@, pat@, i as int) == first_from(s@, pat@, 0),
        decreases last - i,
    {
        if matches_at(s, n, pat, m, i) {
            return Some(i);
        }
        i += 1;
    }
    if matches_at(s, n, pat, m, last) {
        return Some(last);
    }
    proof {
        lemma_too_short(s@, pat@, last + 1);
    }
    None
}

/// The text before the first `pat`, or all of it.
pub open spec fn before_first(s: Seq<char>, pat: Seq<char>) -> Seq<char> {
    match first_from(s, pat, 0) {
        None => s,
        Some(i) => s.subrange(0, i),
    }
}

/// The text after the first `pat`.
pub open spec fn after_first(s: Seq<char>, pat: Seq<char>) -> Option<Seq<char>> {
    match first_from(s, pat, 0) {
        None => None,
        Some(i) => Some(s.subrange(i + pat.len(), s.len() as int)),
    }
}

fn cut_before<'a>(s: &'a str, pat: &str) -> (r: &'a str)
    ensures
        r@ == before_first(s@, pat@),
{
    match find(s, pat) {
        None => s,
        Some(i) => s.substring_char(0, i),
    }
}

/// The piece of a name that follows `key`: up to the next `key` and to the
/// first `until`.
pub open spec fn piece_after(name: Seq<char>, key: Seq<char>, until: Seq<char>) -> Option<Seq<char>> {
    match after_first(name, key) {
        None => None,
        Some(rest) => Some(before_first(before_first(rest, key), until)),
    }
}

/// The piece of a name that follows `key`: up to the next `key` and to the
/// first `until`.
pub fn grab(name: &str, key: &str, until: &str) -> (r: Option<String>)
    ensures
        match r {
            None => piece_after(name@, key@, until@) is None,
            Some(p) => piece_after(name@, key@, until@) == Some(p@),
        },
{
    let n: usize = name.unicode_len();
    let m: usize = key.unicode_len();
    match find(name, key) {
        None => None,
        Some(i) => {
            let rest = name.substring_char(i + m, n);
            Some(cut_before(cut_before(rest, key), until).to_owned())
        },
    }
}

/// The character of a digit.
pub open spec fn digit(d: int) -> char {
    if d == 0 {
        '0'
    } else if d == 1 {
        '1'
    } else if d == 2 {
        '2'
    } else if d == 3 {
        '3'
    } else if d == 4 {
        '4'
    } else if d == 5 {
        '5'
    } else if d == 6 {
        '6'
    } else if d == 7 {
        '7'
    } else if d == 8 {
        '8'
    } else {
        '9'
    }
}

/// A number in decimal.
pub open spec fn decimal(n: nat) -> Seq<char>
    decreases n,
{
    if n < 10 {
        seq![digit(n as int)]
    } else {
        decimal(n / 10).push(digit((n % 10) as int))
    }
}

fn digit_text(d: usize) -> (r: &'static str)
    requires
        d < 10,
    ensures
        r@ == seq![digit(d as int)],
{
    proof {
        reveal_strlit("0");
        reveal_strlit("1");
        reveal_strlit("2");
        reveal_strlit("3");
        reveal_strlit("4");
        reveal_strlit("5");
        reveal_strlit("6");
        reveal_strlit("7");
        reveal_strlit("8");
        reveal_strlit("9");
    }
    let r: &'static str = match d {
        0 => "0",
        1 => "1",
        2 => "2",
        3 => "3",
        4 => "4",
        5 => "5",
        6 => "6",
        7 => "7",
        8 => "8",
        _ => "9",
    };
    assert(r@ =~= seq![digit(d as int)]);
    r
}

/// Append a number in decimal.
pub fn push_decimal(out: &mut String, n: usize)
    ensures
        final(out)@ == old(out)@ + decimal(n as nat),
    decreases n,
{
    if n < 10 {
        out.append(digit_text(n));
    } else {
        let ghost start = out@;
        push_decimal(out, n / 10);
        out.append(digit_text(n % 10));
        assert(out@ =~= start + decimal(n as nat));
    }
}

/// Words hold no white space and are not empty.
pub proof fn words_are_words(s: Seq<char>, k: int)
    requires
        0 <= k < words(s).len(),
    ensures
        words(s)[k].len() > 0,
        forall|i: int| 0 <= i < words(s)[k].len() ==> !white(#[trigger] words(s)[k][i]),
{
    lemma_words_from(s, 0, k);
}

proof fn lemma_words_from(s: Seq<char>, i: int, k: int)
    requires
        0 <= i <= s.len(),
        0 <= k < words_from(s, i).len(),
    ensures
        words_from(s, i)[k].len() > 0,
        forall|j: int| 0 <= j < words_from(s, i)[k].len() ==> !white(#[trigger] words_from(s, i)[k][j]),
    decreases s.len() - i,
{
    lemma_word_bounds(s, i);
    let a = word_start(s, i);
    lemma_word_bounds(s, a);
    let b = word_end(s, a);
    let w = s.subrange(a, b);
    lemma_inside_word(s, a);
    if k == 0 {
        assert(words_from(s, i)[0] == w);
        assert forall|j: int| 0 <= j < w.len() implies !white(#[trigger] w[j]) by {
            assert(w[j] == s[a + j]);
        }
    } else {
        lemma_words_from(s, b, k - 1);
        assert(words_from(s, i)[k] == words_from(s, b)[k - 1]);
    }
}

proof fn lemma_inside_word(s: Seq<char>, a: int)
    requires
        0 <= a <= s.len(),
    ensures
        forall|j: int| a <= j < word_end(s, a) ==> !white(#[trigger] s[j]),
    decreases s.len() - a,
{
    if a < s.len() {
        lemma_inside_word(s, a + 1);
    }
}

/// White space is tab to carriage return, the blank, the next line, and the
/// wider blanks and line ends.
pub proof fn blanks_are_white(c: char)
    ensures
        white(c) <==> {
            let n = c as int;
            ||| 9 <= n <= 13
            ||| n == 0x20 || n == 0x85 || n == 0xA0 || n == 0x1680
            ||| 0x2000 <= n <= 0x200A
            ||| n == 0x2028 || n == 0x2029 || n == 0x202F || n == 0x205F || n == 0x3000
        },
{
}

/// Only white characters make a text blank.
pub proof fn one_mark_makes_a_text(s: Seq<char>, i: int)
    ensures
        s.len() == 0 ==> blank(s),
        0 <= i < s.len() && !white(s[i]) ==> !blank(s),
        !blank(s) ==> exists|k: int| 0 <= k < s.len() && !white(#[trigger] s[k]),
{
}

proof fn lemma_shift(s: Seq<char>, i: int, k: int)
    requires
        0 <= i,
        0 <= k,
        i + k <= s.len(),
    ensures
        ({
            let t = s.subrange(i, s.len() as int);
            &&& word_start(s, i + k) == i + word_start(t, k)
            &&& word_end(s, i + k) == i + word_end(t, k)
        }),
    decreases s.len() - i - k,
{
    let t = s.subrange(i, s.len() as int);
    if i + k < s.len() {
        assert(t[k] == s[i + k]);
        lemma_shift(s, i, k + 1);
    }
}

proof fn lemma_words_shift(s: Seq<char>, i: int, k: int)
    requires
        0 <= i,
        0 <= k,
        i + k <= s.len(),
    ensures
        words_from(s, i + k) == words_from(s.subrange(i, s.len() as int), k),
    decreases s.len() - i - k,
{
    let t = s.subrange(i, s.len() as int);
    lemma_shift(s, i, k);
    lemma_word_bounds(s, i + k);
    lemma_word_bounds(t, k);
    let a = word_start(t, k);
    if a < t.len() {
        lemma_shift(s, i, a);
        lemma_word_bounds(t, a);
        lemma_word_bounds(s, i + a);
        let b = word_end(t, a);
        assert(s.subrange(i + a, i + b) =~= t.subrange(a, b));
        lemma_words_shift(s, i, b);
    }
}

proof fn lemma_end_at(s: Seq<char>, a: int, b: int)
    requires
        0 <= a <= b <= s.len(),
        forall|k: int| a <= k < b ==> !white(#[trigger] s[k]),
        b == s.len() || white(s[b]),
    ensures
        word_end(s, a) == b,
    decreases b - a,
{
    if a < b {
        lemma_end_at(s, a + 1, b);
    }
}

/// A text without white space is one word.
pub proof fn unbroken_texts_are_words(s: Seq<char>)
    requires
        s.len() > 0,
        forall|i: int| 0 <= i < s.len() ==> !white(#[trigger] s[i]),
    ensures
        words(s) == seq![s],
{
    lemma_end_at(s, 0, s.len() as int);
    assert(!white(s[0]));
    assert(s.subrange(0, s.len() as int) =~= s);
    assert(words_from(s, s.len() as int) =~= Seq::<Seq<char>>::empty());
    assert(words(s) =~= seq![s]);
}

/// White space parts words: before a word it is skipped, and after one the
/// rest of the text gives the other words. Blank texts have none.
pub proof fn white_space_parts_words(w: Seq<char>, c: char, rest: Seq<char>)
    requires
        white(c),
        forall|i: int| 0 <= i < w.len() ==> !white(#[trigger] w[i]),
    ensures
        words(Seq::empty()) == Seq::<Seq<char>>::empty(),
        words(seq![c] + rest) == words(rest),
        w.len() > 0 ==> words(w + seq![c] + rest) == seq![w] + words(rest),
{
    assert(words(Seq::<char>::empty()) =~= Seq::<Seq<char>>::empty());
    let s = seq![c] + rest;
    assert(s.subrange(1, s.len() as int) =~= rest);
    assert(s[0] == c);
    lemma_words_shift(s, 1, 0);
    lemma_shift(s, 1, 0);
    assert(word_start(s, 0) == word_start(s, 1));
    assert(words_from(s, 0) == words_from(s, 1));
    if w.len() > 0 {
        let t = w + seq![c] + rest;
        let n = w.len() as int;
        assert forall|k: int| 0 <= k < n implies !white(#[trigger] t[k]) by {
            assert(t[k] == w[k]);
        }
        assert(t[n] == c);
        lemma_end_at(t, 0, n);
        assert(t.subrange(0, n) =~= w);
        assert(t.subrange(n, t.len() as int) =~= s);
        assert(!white(t[0]));
        lemma_words_shift(t, n, 0);
        assert(words_from(t, 0) == seq![w] + words_from(t, n));
    }
}

/// Trimming cuts white space off both ends and nothing else: it tells where
/// the kept part begins and ends.
pub proof fn trimming_cuts_the_ends(s: Seq<char>) -> (r: (int, int))
    ensures
        0 <= r.0 <= r.1 <= s.len(),
        trimmed(s) == s.subrange(r.0, r.1),
        forall|i: int| 0 <= i < r.0 ==> white(#[trigger] s[i]),
        forall|i: int| r.1 <= i < s.len() ==> white(#[trigger] s[i]),
        r.0 < r.1 ==> !white(s[r.0]) && !white(s[r.1 - 1]),
    decreases s.len(),
{
    if s.len() == 0 {
        assert(s.subrange(0, 0) =~= s);
        (0, 0)
    } else if white(s[0]) {
        let t = s.subrange(1, s.len() as int);
        let (a, b) = trimming_cuts_the_ends(t);
        assert(t.subrange(a, b) =~= s.subrange(a + 1, b + 1));
        assert forall|i: int| 0 <= i < a + 1 implies white(#[trigger] s[i]) by {
            if i > 0 {
                assert(s[i] == t[i - 1]);
            }
        }
        assert forall|i: int| b + 1 <= i < s.len() implies white(#[trigger] s[i]) by {
            assert(s[i] == t[i - 1]);
        }
        (a + 1, b + 1)
    } else if white(s.last()) {
        let t = s.drop_last();
        let (a, b) = trimming_cuts_the_ends(t);
        assert(t.subrange(a, b) =~= s.subrange(a, b));
        assert forall|i: int| 0 <= i < a implies white(#[trigger] s[i]) by {
            assert(s[i] == t[i]);
        }
        assert forall|i: int| b <= i < s.len() implies white(#[trigger] s[i]) by {
            if i < t.len() {
                assert(s[i] == t[i]);
            }
        }
        (a, b)
    } else {
        assert(s.subrange(0, s.len() as int) =~= s);
        (0, s.len() as int)
    }
}

/// A pattern stands where each of its characters does.
pub proof fn patterns_stand_character_by_character(s: Seq<char>, pat: Seq<char>, i: int)
    ensures
        stands_at(s, pat, i) <==> 0 <= i && i + pat.len() <= s.len() && forall|k: int|
            0 <= k < pat.len() ==> s[i + k] == #[trigger] pat[k],
{
    if 0 <= i && i + pat.len() <= s.len() {
        let t = s.subrange(i, i + pat.len());
        if stands_at(s, pat, i) {
            assert forall|k: int| 0 <= k < pat.len() implies s[i + k] == #[trigger] pat[k] by {
                assert(t[k] == s[i + k]);
            }
        }
        if forall|k: int| 0 <= k < pat.len() ==> s[i + k] == #[trigger] pat[k] {
            assert(t =~= pat);
        }
    }
}

proof fn lemma_first(s: Seq<char>, pat: Seq<char>, i: int, k: int)
    requires
        0 <= i <= k,
    ensures
        first_from(s, pat, i) matches Some(f) ==> i <= f && stands_at(s, pat, f) && (k < f
            ==> !stands_at(s, pat, k)),
        first_from(s, pat, i) is None ==> !stands_at(s, pat, k),
    decreases s.len() + 1 - i,
{
    if i <= s.len() && !stands_at(s, pat, i) {
        if i < k {
            lemma_first(s, pat, i + 1, k);
        } else {
            lemma_first(s, pat, i + 1, k + 1);
        }
    }
}

/// A search finds the first place where a pattern stands, if there is one.
pub proof fn searches_find_the_first_place(s: Seq<char>, pat: Seq<char>, k: int)
    requires
        0 <= k,
    ensures
        first_from(s, pat, 0) matches Some(f) ==> 0 <= f && stands_at(s, pat, f) && (k < f
            ==> !stands_at(s, pat, k)),
        first_from(s, pat, 0) is None ==> !stands_at(s, pat, k),
{
    lemma_first(s, pat, 0, k);
}

/// The piece after a key begins right behind the first place of the key, holds
/// neither the key nor the mark it runs up to, and ends at the text's end or
/// before one of them.
pub proof fn pieces_run_from_key_to_mark(name: Seq<char>, key: Seq<char>, until: Seq<char>, k: int)
    requires
        0 <= k,
    ensures
        piece_after(name, key, until) is None ==> !stands_at(name, key, k),
        piece_after(name, key, until) matches Some(p) ==> {
            let i = first_from(name, key, 0)->0;
            let rest = name.subrange(i + key.len(), name.len() as int);
            &&& first_from(name, key, 0) is Some && stands_at(name, key, i)
            &&& p.len() <= rest.len() && p == rest.subrange(0, p.len() as int)
            &&& key.len() > 0 ==> !stands_at(p, key, k)
            &&& until.len() > 0 ==> !stands_at(p, until, k)
            &&& p.len() == rest.len() || stands_at(rest, key, p.len() as int) || stands_at(
                rest,
                until,
                p.len() as int,
            )
        },
{
    lemma_first(name, key, 0, k);
    if let Some(p) = piece_after(name, key, until) {
        let i = first_from(name, key, 0)->0;
        let rest = name.subrange(i + key.len(), name.len() as int);
        let whole = before_first(rest, key);
        lemma_first(rest, key, 0, k);
        lemma_first(whole, until, 0, k);
        if let Some(f) = first_from(rest, key, 0) {
            assert(whole == rest.subrange(0, f));
        }
        assert(whole =~= rest.subrange(0, whole.len() as int));
        assert(p =~= whole.subrange(0, p.len() as int));
        assert(p =~= rest.subrange(0, p.len() as int));
        if stands_at(p, key, k) {
            assert(rest.subrange(k, k + key.len()) =~= p.subrange(k, k + key.len()));
            assert(stands_at(rest, key, k));
        }
        if stands_at(p, until, k) {
            assert(whole.subrange(k, k + until.len()) =~= p.subrange(k, k + until.len()));
            assert(stands_at(whole, until, k));
        }
        if p.len() < whole.len() {
            let m = p.len() as int;
            assert(stands_at(whole, until, m));
            assert(rest.subrange(m, m + until.len()) =~= whole.subrange(m, m + until.len()));
        }
    }
}

/// The number that a row of decimal digits stands for.
pub open spec fn worth(s: Seq<char>) -> int
    decreases s.len(),
{
    if s.len() == 0 {
        0
    } else {
        10 * worth(s.drop_last()) + (s.last() as int - 48)
    }
}

/// A number in decimal is a row of digits worth the number, without a needless
/// zero in front.
pub proof fn decimals_are_worth_their_number(n: nat, i: int)
    ensures
        worth(decimal(n)) == n,
        decimal(n).len() >= 1,
        0 <= i < decimal(n).len() ==> 48 <= decimal(n)[i] as int <= 57,
        decimal(n).len() > 1 ==> decimal(n)[0] as int != 48,
    decreases n,
{
    let d = digit((n % 10) as int);
    assert(d as int == 48 + n % 10);
    if n < 10 {
        assert(decimal(n) =~= seq![digit(n as int)]);
        assert(decimal(n).drop_last() =~= Seq::<char>::empty());
        assert(worth(decimal(n).drop_last()) == 0);
    } else {
        let head = decimal(n / 10);
        decimals_are_worth_their_number(n / 10, i);
        assert(decimal(n) == head.push(d));
        assert(decimal(n).drop_last() =~= head);
        assert(decimal(n)[0] == head[0]);
        if head.len() == 1 {
            assert(head.drop_last() =~= Seq::<char>::empty());
            assert(worth(head.drop_last()) == 0);
            assert(worth(head) == head[0] as int - 48);
        }
    }
}

} // verus!
