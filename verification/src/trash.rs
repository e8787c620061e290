//! Moving photos to the trash: which names they get there, what is counted,
//! and how the popup stands afterwards.

use vstd::prelude::*;
use crate::photo::Photo;
use crate::photo_map::{cleared, roll_view, MapState, PhotoMap};
use crate::text::{decimal, digit, push_decimal};

verus! {

/// The name, without its extension, of a trashed file: the file's own, or with
/// a number where that is taken.
pub open spec fn numbered(stem: Seq<char>, suffix: nat) -> Seq<char> {
    if suffix == 0 {
        stem
    } else {
        stem + "-"@ + decimal(suffix)
    }
}

/// The name, without its extension, of a trashed file.
pub fn trash_name(stem: &String, suffix: usize) -> (r: String)
    ensures
        r@ == numbered(stem@, suffix as nat),
{
    let mut r = stem.clone();
    if suffix > 0 {
        r.append("-");
        push_decimal(&mut r, suffix);
    }
    r
}

/// A search for a free name. A photo and its sidecar move together, so both
/// names must be free.
#[derive(Clone, Copy, PartialEq, Eq, Structural, Debug)]
pub struct NameSearch {
    pub suffix: usize,
}

/// What a search does next.
#[derive(Clone, Copy, PartialEq, Eq, Structural, Debug)]
pub enum NameStep {
    /// Both names are free.
    Free,
    /// Try the next number.
    Next,
    /// No number is left.
    Exhausted,
}

impl NameSearch {
    /// Start with the file's own name.
    pub fn new() -> (s: Self)
        ensures
            s.suffix == 0,
    {
        NameSearch { suffix: 0 }
    }

    /// Take in whether the two names of the present number exist.
    pub fn answer(&mut self, photo_exists: bool, sidecar_exists: bool) -> (step: NameStep)
        ensures
            ({
                let taken = photo_exists || sidecar_exists;
                &&& step == (if !taken {
                    NameStep::Free
                } else if old(self).suffix < usize::MAX {
                    NameStep::Next
                } else {
                    NameStep::Exhausted
                })
                &&& final(self).suffix == (if step == NameStep::Next {
                    old(self).suffix + 1
                } else {
                    old(self).suffix as int
                })
            }),
    {
        if !photo_exists && !sidecar_exists {
            NameStep::Free
        } else if self.suffix < usize::MAX {
            self.suffix += 1;
            NameStep::Next
        } else {
            NameStep::Exhausted
        }
    }
}

/// How the move of one photo ended.
#[derive(Clone, Copy, PartialEq, Eq, Structural, Debug)]
pub enum MoveOutcome {
    /// No free name was found.
    NoName,
    /// The photo could not be moved.
    PhotoStuck,
    /// The photo was moved; it has no sidecar.
    PhotoMoved,
    /// The photo and its sidecar were moved.
    BothMoved,
    /// The sidecar could not be moved, and the photo was put back, or not.
    SidecarStuck { put_back: bool },
}

/// The files moved and the failures so far.
#[derive(Clone, Copy, PartialEq, Eq, Structural, Debug)]
pub struct Sweep {
    pub moved: usize,
    pub failed: usize,
}

pub open spec fn moved_by(o: MoveOutcome) -> nat {
    match o {
        MoveOutcome::PhotoMoved => 1,
        MoveOutcome::BothMoved => 2,
        _ => 0,
    }
}

pub open spec fn failed_by(o: MoveOutcome) -> nat {
    match o {
        MoveOutcome::NoName | MoveOutcome::PhotoStuck => 1,
        MoveOutcome::PhotoMoved | MoveOutcome::BothMoved => 0,
        MoveOutcome::SidecarStuck { put_back } => if put_back {
            1
        } else {
            2
        },
    }
}

impl Sweep {
    /// Nothing moved yet.
    pub fn new() -> (s: Self)
        ensures
            s.moved == 0 && s.failed == 0,
    {
        Sweep { moved: 0, failed: 0 }
    }

    /// Count one photo. A photo put back counts as not moved.
    pub fn count(&mut self, o: MoveOutcome)
        requires
            old(self).moved + 2 <= usize::MAX,
            old(self).failed + 2 <= usize::MAX,
        ensures
            final(self).moved == old(self).moved + moved_by(o),
            final(self).failed == old(self).failed + failed_by(o),
    {
        match o {
            MoveOutcome::NoName | MoveOutcome::PhotoStuck => {
                self.failed += 1;
            },
            MoveOutcome::PhotoMoved => {
                self.moved += 1;
            },
            MoveOutcome::BothMoved => {
                self.moved += 2;
            },
            MoveOutcome::SidecarStuck { put_back } => {
                self.failed += 1;
                if !put_back {
                    self.failed += 1;
                }
            },
        }
    }

    pub open spec fn line(self) -> Seq<char> {
        if self.failed == 0 {
            "moved "@ + decimal(self.moved as nat) + " file(s) to interchange/trash/"@
        } else {
            "moved "@ + decimal(self.moved as nat) + " file(s); "@ + decimal(self.failed as nat)
                + " file failure(s)"@
        }
    }

    /// The line that tells how a sweep went.
    pub fn status(&self) -> (r: String)
        ensures
            r@ == self.line(),
    {
        let mut r = String::new();
        r.append("moved ");
        push_decimal(&mut r, self.moved);
        if self.failed == 0 {
            r.append(" file(s) to interchange/trash/");
        } else {
            r.append(" file(s); ");
            push_decimal(&mut r, self.failed);
            r.append(" file failure(s)");
        }
        assert(r@ =~= self.line());
        r
    }
}

/// The checked photos that are still on the roll, in the roll's order.
pub open spec fn doomed(s: MapState, n: int) -> Seq<usize>
    decreases n,
{
    if n <= 0 {
        Seq::empty()
    } else if s.checked.contains((n - 1) as usize) {
        doomed(s, n - 1).push((n - 1) as usize)
    } else {
        doomed(s, n - 1)
    }
}

impl PhotoMap {
    /// The photos to move to the trash.
    pub fn to_delete(&self) -> (out: Vec<usize>)
        ensures
            out@ == doomed(self@, self@.photos.len() as int),
    {
        broadcast use vstd::std_specs::hash::group_hash_axioms;

        let mut out: Vec<usize> = Vec::new();
        let mut i: usize = 0;
        while i < self.photos.len()
            invariant
                i <= self.photos@.len(),
                out@ == doomed(self@, i as int),
            decreases self.photos@.len() - i,
        {
            if self.checked.contains(&i) {
                out.push(i);
            }
            i += 1;
        }
        out
    }

    /// A sweep is over: tell how it went, select nothing, and take the roll as
    /// it is now. The question is answered.
    pub fn swept(&mut self, sweep: &Sweep, roll: Vec<Photo>)
        ensures
            final(self)@ == (MapState {
                status: sweep.line(),
                photos: roll_view(roll@),
                confirm_delete: false,
                ..cleared(old(self)@)
            }),
    {
        self.status = sweep.status();
        self.checked.clear();
        self.selected = None;
        self.preview = None;
        self.lightbox_tex = None;
        self.lightbox_open = false;
        self.photos = roll;
        self.confirm_delete = false;
    }

    /// The trash could not be opened: nothing is moved and nothing changes but
    /// the status and the question.
    pub fn sweep_refused(&mut self, reason: &str)
        ensures
            final(self)@ == (MapState {
                status: "trash unavailable: "@ + reason@,
                confirm_delete: false,
                ..old(self)@
            }),
    {
        let mut status = String::new();
        status.append("trash unavailable: ");
        status.append(reason);
        assert(status@ =~= "trash unavailable: "@ + reason@);
        self.status = status;
        self.confirm_delete = false;
    }

    /// Tell that a photo's notes were saved, or why not.
    pub fn notes_saved(&mut self, name: &str, failure: Option<&str>)
        ensures
            final(self)@ == (MapState {
                status: match failure {
                    None => "saved notes for "@ + name@,
                    Some(e) => "note save failed: "@ + e@,
                },
                ..old(self)@
            }),
    {
        let mut status = String::new();
        match failure {
            None => {
                status.append("saved notes for ");
                status.append(name);
                assert(status@ =~= "saved notes for "@ + name@);
            },
            Some(e) => {
                status.append("note save failed: ");
                status.append(e);
                assert(status@ =~= "note save failed: "@ + e@);
            },
        }
        self.status = status;
    }
}

proof fn lemma_doomed(s: MapState, n: int, i: usize)
    requires
        0 <= n <= usize::MAX,
    ensures
        doomed(s, n).contains(i) <==> i < n && s.checked.contains(i),
    decreases n,
{
    if n > 0 {
        lemma_doomed(s, n - 1, i);
        let last = (n - 1) as usize;
        let head = doomed(s, n - 1);
        if s.checked.contains(last) {
            let all = head.push(last);
            if head.contains(i) {
                let k = choose|k: int| 0 <= k < head.len() && head[k] == i;
                assert(all[k] == i);
            }
            if all.contains(i) && i != last {
                let k = choose|k: int| 0 <= k < all.len() && all[k] == i;
                assert(head[k] == i);
            }
            assert(all[head.len() as int] == last);
        }
    }
}

/// Exactly the checked photos of the roll are moved.
pub proof fn only_checked_photos_are_moved(s: MapState, i: usize)
    requires
        s.photos.len() <= usize::MAX,
    ensures
        doomed(s, s.photos.len() as int).contains(i) <==> i < s.photos.len() && s.checked.contains(i),
{
    lemma_doomed(s, s.photos.len() as int, i);
}

/// No photo is lost track of: each is moved, or counted as a failure.
pub proof fn every_move_is_counted(o: MoveOutcome)
    ensures
        moved_by(o) + failed_by(o) >= 1,
        moved_by(o) > 0 ==> failed_by(o) == 0,
{
}

proof fn lemma_decimal_injective(a: nat, b: nat)
    requires
        decimal(a) == decimal(b),
    ensures
        a == b,
    decreases a,
{
    if a < 10 {
        assert(decimal(a).len() == 1);
        if b >= 10 {
            lemma_decimal_len(b / 10);
            assert(decimal(b).len() >= 2);
        } else {
            assert(decimal(a)[0] == digit(a as int) && decimal(b)[0] == digit(b as int));
        }
    } else {
        lemma_decimal_len(a / 10);
        if b < 10 {
            assert(decimal(b).len() == 1);
        } else {
            assert(decimal(a).last() == digit((a % 10) as int));
            assert(decimal(b).last() == digit((b % 10) as int));
            assert(a % 10 == b % 10);
            assert(decimal(a).drop_last() =~= decimal(a / 10));
            assert(decimal(b).drop_last() =~= decimal(b / 10));
            lemma_decimal_injective(a / 10, b / 10);
        }
    }
}

proof fn lemma_decimal_len(n: nat)
    ensures
        decimal(n).len() >= 1,
    decreases n,
{
    if n >= 10 {
        lemma_decimal_len(n / 10);
    }
}

/// Different numbers give different names.
pub proof fn trash_names_differ(stem: Seq<char>, a: nat, b: nat)
    requires
        a != b,
    ensures
        numbered(stem, a) != numbered(stem, b),
{
    reveal_strlit("-");
    if numbered(stem, a) == numbered(stem, b) {
        if a > 0 && b > 0 {
            let cut = (stem + "-"@).len() as int;
            assert(numbered(stem, a).subrange(cut, numbered(stem, a).len() as int) =~= decimal(a));
            assert(numbered(stem, b).subrange(cut, numbered(stem, b).len() as int) =~= decimal(b));
            lemma_decimal_injective(a, b);
        } else {
            assert(numbered(stem, a).len() != numbered(stem, b).len());
        }
    }
}

/// A trashed file keeps its name, and gets a dash and a number behind it where
/// that is taken.
pub proof fn trashed_files_keep_their_name(stem: Seq<char>, suffix: nat)
    ensures
        numbered(stem, 0) == stem,
        suffix > 0 ==> {
            let name = numbered(stem, suffix);
            &&& name.len() == stem.len() + 1 + decimal(suffix).len()
            &&& name.subrange(0, stem.len() as int) == stem
            &&& name[stem.len() as int] == '-'
            &&& name.subrange(stem.len() as int + 1, name.len() as int) == decimal(suffix)
        },
{
    reveal_strlit("-");
    if suffix > 0 {
        let name = numbered(stem, suffix);
        assert(name.subrange(0, stem.len() as int) =~= stem);
        assert(name.subrange(stem.len() as int + 1, name.len() as int) =~= decimal(suffix));
    }
}

/// A photo and its sidecar count as two moved files, a photo alone as one. A
/// photo that stays counts as one failure, and one that lost its sidecar on
/// the way as two.
pub proof fn moves_are_counted_by_file(o: MoveOutcome)
    ensures
        o == MoveOutcome::BothMoved ==> moved_by(o) == 2 && failed_by(o) == 0,
        o == MoveOutcome::PhotoMoved ==> moved_by(o) == 1 && failed_by(o) == 0,
        o == MoveOutcome::NoName || o == MoveOutcome::PhotoStuck ==> moved_by(o) == 0 && failed_by(o)
            == 1,
        o == (MoveOutcome::SidecarStuck { put_back: true }) ==> moved_by(o) == 0 && failed_by(o) == 1,
        o == (MoveOutcome::SidecarStuck { put_back: false }) ==> moved_by(o) == 0 && failed_by(o) == 2,
{
}

/// Photos are moved in the roll's order, each once.
pub proof fn photos_are_moved_in_order(s: MapState, n: int, i: int, j: int)
    requires
        0 <= n <= usize::MAX,
        0 <= i < j < doomed(s, n).len(),
    ensures
        doomed(s, n)[i] < doomed(s, n)[j],
    decreases n,
{
    if n > 0 {
        let head = doomed(s, n - 1);
        if j < head.len() {
            photos_are_moved_in_order(s, n - 1, i, j);
        } else {
            lemma_doomed(s, n - 1, head[i]);
            assert(head.contains(head[i]));
        }
    }
}

/// The line tells the moved files, and the failures where there were any.
pub proof fn sweeps_tell_what_moved(s: Sweep)
    ensures
        s.failed == 0 ==> s.line() == "moved "@ + decimal(s.moved as nat)
            + " file(s) to interchange/trash/"@,
        s.failed > 0 ==> s.line() == "moved "@ + decimal(s.moved as nat) + " file(s); "@ + decimal(
            s.failed as nat,
        ) + " file failure(s)"@,
{
}

} // verus!
