//! The client-side selection and clipboard: a set of selected entries and an
//! exclusive clipboard mode that a paste turns into a copy or a move.
use vstd::prelude::*;
use crate::unit::{Unit, UnitKind};

verus! {

/// The pending clipboard operation on the current selection.
#[derive(Clone, Copy, Debug, PartialEq, Eq, Structural)]
pub enum ClipboardMode {
    Idle,
    Copy,
    Cut,
}

/// What a paste asks the file operations to do.
#[derive(Clone, Copy, Debug, PartialEq, Eq, Structural)]
pub enum TransferKind {
    Copy,
    Move,
}

/// A copy or move of `sources` into the directory `destination`.
#[derive(Debug)]
pub struct Transfer {
    pub kind: TransferKind,
    pub sources: Vec<String>,
    pub destination: String,
}

/// The abstract state: the set of selected paths and the clipboard mode.
pub struct SelectionView {
    pub held: Set<Seq<char>>,
    pub mode: ClipboardMode,
}

/// The selection set after toggling `p`.
pub open spec fn toggled(held: Set<Seq<char>>, p: Seq<char>) -> Set<Seq<char>> {
    if held.contains(p) {
        held.remove(p)
    } else {
        held.insert(p)
    }
}

/// The state after toggling `p`: an emptied selection drops the mode.
pub open spec fn toggle_step(v: SelectionView, p: Seq<char>) -> SelectionView {
    let h = toggled(v.held, p);
    SelectionView { held: h, mode: if h == Set::<Seq<char>>::empty() { ClipboardMode::Idle } else { v.mode } }
}

/// The state after asking for mode `m`; `allowed` says whether the selection
/// may enter the clipboard (non-empty, no directory).
pub open spec fn enter_step(v: SelectionView, allowed: bool, m: ClipboardMode) -> SelectionView {
    if allowed {
        SelectionView { held: v.held, mode: m }
    } else {
        v
    }
}

/// The state after clearing.
pub open spec fn cleared() -> SelectionView {
    SelectionView { held: Set::empty(), mode: ClipboardMode::Idle }
}

/// The transfer kind that a paste dispatches in mode `m`, if any.
pub open spec fn paste_kind(m: ClipboardMode) -> Option<TransferKind> {
    match m {
        ClipboardMode::Idle => None,
        ClipboardMode::Copy => Some(TransferKind::Copy),
        ClipboardMode::Cut => Some(TransferKind::Move),
    }
}

/// The set of the paths in `s`.
pub open spec fn path_set(s: Seq<String>) -> Set<Seq<char>> {
    Set::new(|p: Seq<char>| exists|i: int| 0 <= i < s.len() && #[trigger] s[i]@ == p)
}

/// The selection after toggling each path of `ps` in turn.
pub open spec fn toggle_all(held: Set<Seq<char>>, ps: Seq<Seq<char>>) -> Set<Seq<char>>
    decreases ps.len(),
{
    if ps.len() == 0 {
        held
    } else {
        toggled(toggle_all(held, ps.drop_last()), ps.last())
    }
}

/// How many times `p` occurs in `ps`.
pub open spec fn occurrences(ps: Seq<Seq<char>>, p: Seq<char>) -> nat
    decreases ps.len(),
{
    if ps.len() == 0 {
        0
    } else {
        occurrences(ps.drop_last(), p) + if ps.last() == p { 1nat } else { 0nat }
    }
}

/// Starting from an empty selection, toggling the paths of `ps` one after
/// another selects exactly the paths toggled an odd number of times.
pub proof fn lemma_toggle_parity(ps: Seq<Seq<char>>)
    ensures
        toggle_all(Set::empty(), ps) == Set::new(|p: Seq<char>| occurrences(ps, p) % 2 == 1),
    decreases ps.len(),
{
    if ps.len() > 0 {
        lemma_toggle_parity(ps.drop_last());
    }
    assert(toggle_all(Set::empty(), ps) =~= Set::new(|p: Seq<char>| occurrences(ps, p) % 2 == 1));
}

/// Entering Cut after Copy replaces the mode: when the selection could be
/// held, the result is the Cut mode over the very set that was selected,
/// not a combination of the two.
pub proof fn lemma_cut_replaces_copy(s1: Selected, s2: Selected, s3: Selected)
    requires
        s2@ == enter_step(s1@, s1.may_hold(), ClipboardMode::Copy),
        s2.holds_dir() == s1.holds_dir(),
        s3@ == enter_step(s2@, s2.may_hold(), ClipboardMode::Cut),
    ensures
        s3.held() == s2.held(),
        s3.held() == s1.held(),
        s1.may_hold() ==> s3.mode_of() == ClipboardMode::Cut,
{
}

/// Entering Copy after Cut replaces the mode in the same way.
pub proof fn lemma_copy_replaces_cut(s1: Selected, s2: Selected, s3: Selected)
    requires
        s2@ == enter_step(s1@, s1.may_hold(), ClipboardMode::Cut),
        s2.holds_dir() == s1.holds_dir(),
        s3@ == enter_step(s2@, s2.may_hold(), ClipboardMode::Copy),
    ensures
        s3.held() == s2.held(),
        s3.held() == s1.held(),
        s1.may_hold() ==> s3.mode_of() == ClipboardMode::Copy,
{
}

/// A selection emptied by a toggle or by clearing is always idle.
pub proof fn lemma_emptied_is_idle(v: SelectionView, p: Seq<char>)
    ensures
        toggle_step(v, p).held == Set::<Seq<char>>::empty() ==> toggle_step(v, p).mode
            == ClipboardMode::Idle,
        cleared().held == Set::<Seq<char>>::empty() && cleared().mode == ClipboardMode::Idle,
{
}

/// The selected entries and the clipboard mode.
#[derive(Debug)]
pub struct Selected {
    units: Vec<Unit>,
    mode: ClipboardMode,
}

impl Selected {
    /// The set of selected paths.
    pub closed spec fn held(&self) -> Set<Seq<char>> {
        Set::new(
            |p: Seq<char>|
                exists|i: int| 0 <= i < self.units@.len() && #[trigger] self.units@[i].path@ == p,
        )
    }

    pub closed spec fn mode_of(&self) -> ClipboardMode {
        self.mode
    }

    /// Some selected entry is a directory.
    pub closed spec fn holds_dir(&self) -> bool {
        exists|i: int| 0 <= i < self.units@.len() && #[trigger] self.units@[i].kind == UnitKind::Directory
    }

    pub open spec fn view(&self) -> SelectionView {
        SelectionView { held: self.held(), mode: self.mode_of() }
    }

    /// The selection may enter the clipboard or be deleted.
    pub open spec fn may_hold(&self) -> bool {
        self.held() != Set::<Seq<char>>::empty() && !self.holds_dir()
    }

    /// No path is selected twice, and an empty selection has no mode.
    pub closed spec fn wf(&self) -> bool {
        &&& forall|i: int, j: int|
            0 <= i < j < self.units@.len() ==> self.units@[i].path@ != self.units@[j].path@
        &&& (self.units@.len() == 0 ==> self.mode == ClipboardMode::Idle)
    }

    proof fn lemma_empty(&self)
        ensures
            (self.held() == Set::<Seq<char>>::empty()) == (self.units@.len() == 0),
    {
        if self.units@.len() > 0 {
            assert(self.held().contains(self.units@[0].path@));
        } else {
            assert(self.held() =~= Set::<Seq<char>>::empty());
        }
    }

    /// Every state reached by the methods pairs an empty selection with
    /// the idle mode.
    pub proof fn lemma_empty_is_idle(&self)
        requires
            self.wf(),
        ensures
            self.held() == Set::<Seq<char>>::empty() ==> self.mode_of() == ClipboardMode::Idle,
    {
        self.lemma_empty();
    }

    pub fn new() -> (r: Selected)
        ensures
            r.wf(),
            r@ == cleared(),
    {
        let r = Selected { units: Vec::new(), mode: ClipboardMode::Idle };
        proof {
            assert(r.held() =~= Set::<Seq<char>>::empty());
        }
        r
    }

    pub fn mode(&self) -> (r: ClipboardMode)
        ensures
            r == self.mode_of(),
    {
        self.mode
    }

    /// Nothing is selected.
    pub fn is_clear(&self) -> (r: bool)
        ensures
            r == (self.held() == Set::<Seq<char>>::empty()),
    {
        proof {
            self.lemma_empty();
        }
        self.units.len() == 0
    }

    fn position(&self, path: &String) -> (r: Option<usize>)
        ensures
            match r {
                Some(i) => i < self.units@.len() && self.units@[i as int].path@ == path@,
                None => !self.held().contains(path@),
            },
    {
        let mut i: usize = 0;
        while i < self.units.len()
            invariant
                i <= self.units@.len(),
                forall|j: int| 0 <= j < i ==> self.units@[j].path@ != path@,
            decreases self.units@.len() - i,
        {
            if self.units[i].path == *path {
                return Some(i);
            }
            i = i + 1;
        }
        None
    }

    /// Whether the entry is selected (by path).
    pub fn is_selected(&self, unit: &Unit) -> (r: bool)
        ensures
            r == self.held().contains(unit.path@),
    {
        self.position(&unit.path).is_some()
    }

    /// Whether some selected entry is a directory.
    pub fn has_dirs(&self) -> (r: bool)
        ensures
            r == self.holds_dir(),
    {
        let mut i: usize = 0;
        while i < self.units.len()
            invariant
                i <= self.units@.len(),
                forall|j: int| 0 <= j < i ==> self.units@[j].kind != UnitKind::Directory,
            decreases self.units@.len() - i,
        {
            if self.units[i].kind == UnitKind::Directory {
                return true;
            }
            i = i + 1;
        }
        false
    }

    /// The selected paths, each once.
    pub fn as_paths(&self) -> (r: Vec<String>)
        requires
            self.wf(),
        ensures
            path_set(r@) == self.held(),
            r@.len() == self.held().len(),
    {
        let mut out: Vec<String> = Vec::new();
        let mut i: usize = 0;
        while i < self.units.len()
            invariant
                i <= self.units@.len(),
                out@.len() == i,
                forall|j: int| 0 <= j < i ==> #[trigger] out@[j]@ == self.units@[j].path@,
            decreases self.units@.len() - i,
        {
            out.push(self.units[i].path.clone());
            i = i + 1;
        }
        proof {
            assert forall|p: Seq<char>| path_set(out@).contains(p) == self.held().contains(p) by {
                if path_set(out@).contains(p) {
                    let j = choose|j: int| 0 <= j < out@.len() && #[trigger] out@[j]@ == p;
                    assert(self.units@[j].path@ == p);
                }
                if self.held().contains(p) {
                    let j = choose|j: int| 0 <= j < self.units@.len() && #[trigger] self.units@[j].path@ == p;
                    assert(out@[j]@ == p);
                }
            }
            assert(path_set(out@) =~= self.held());
            let q = out@.map_values(|c: String| c@);
            assert(q.to_set() =~= path_set(out@)) by {
                assert forall|p: Seq<char>| q.to_set().contains(p) implies path_set(out@).contains(p) by {
                    let j = choose|j: int| 0 <= j < q.len() && q[j] == p;
                    assert(out@[j]@ == p);
                }
                assert forall|p: Seq<char>| path_set(out@).contains(p) implies q.to_set().contains(p) by {
                    let j = choose|j: int| 0 <= j < out@.len() && #[trigger] out@[j]@ == p;
                    assert(q[j] == p);
                }
            }
            assert forall|i: int, j: int|
                0 <= i < q.len() && 0 <= j < q.len() && i != j implies q[i] != q[j] by {
                assert(q[i] == self.units@[i].path@ && q[j] == self.units@[j].path@);
            }
            assert(q.no_duplicates());
            q.unique_seq_to_set();
        }
        out
    }

    /// Empties the selection and drops the clipboard mode.
    pub fn clear(&mut self)
        ensures
            final(self).wf(),
            final(self)@ == cleared(),
    {
        self.units.clear();
        self.mode = ClipboardMode::Idle;
        proof {
            assert(self.held() =~= Set::<Seq<char>>::empty());
        }
    }

    /// Drops the entry (by path) from the selection if it is there; a
    /// selection left empty drops the clipboard mode.
    pub fn remove_unit(&mut self, unit: &Unit)
        requires
            old(self).wf(),
        ensures
            final(self).wf(),
            final(self).held() == old(self).held().remove(unit.path@),
            final(self).mode_of() == (if final(self).held() == Set::<Seq<char>>::empty() {
                ClipboardMode::Idle
            } else {
                old(self).mode_of()
            }),
            final(self).holds_dir() ==> old(self).holds_dir(),
    {
        let ghost p = unit.path@;
        let ghost old_units = self.units@;
        let ghost old_held = self.held();
        if let Some(i) = self.position(&unit.path) {
            self.units.remove(i);
            proof {
                assert forall|q: Seq<char>| self.held().contains(q) == old_held.remove(p).contains(q) by {
                    if self.held().contains(q) {
                        let j = choose|j: int| 0 <= j < self.units@.len() && #[trigger] self.units@[j].path@ == q;
                        if j < i {
                            assert(old_units[j].path@ == q);
                        } else {
                            assert(old_units[j + 1].path@ == q);
                        }
                    }
                    if old_held.remove(p).contains(q) {
                        let j = choose|j: int| 0 <= j < old_units.len() && #[trigger] old_units[j].path@ == q;
                        if j < i {
                            assert(self.units@[j].path@ == q);
                        } else {
                            assert(j != i);
                            assert(self.units@[j - 1].path@ == q);
                        }
                    }
                }
                assert(self.held() =~= old_held.remove(p));
                if self.holds_dir() {
                    let j = choose|j: int|
                        0 <= j < self.units@.len() && #[trigger] self.units@[j].kind == UnitKind::Directory;
                    if j < i {
                        assert(old_units[j].kind == UnitKind::Directory);
                    } else {
                        assert(old_units[j + 1].kind == UnitKind::Directory);
                    }
                }
            }
        } else {
            proof {
                assert(old_held.remove(p) =~= old_held);
            }
        }
        if self.units.len() == 0 {
            self.mode = ClipboardMode::Idle;
        }
        proof {
            self.lemma_empty();
        }
    }

    /// Drops the clipboard mode and keeps the selection.
    pub fn none(&mut self)
        ensures
            final(self).held() == old(self).held(),
            final(self).holds_dir() == old(self).holds_dir(),
            final(self).mode_of() == ClipboardMode::Idle,
            old(self).wf() ==> final(self).wf(),
    {
        self.mode = ClipboardMode::Idle;
    }

    /// Adds the entry to the selection, or removes it if its path is already
    /// selected; a selection left empty drops the clipboard mode.
    pub fn toggle_unit_selection(&mut self, unit: Unit)
        requires
            old(self).wf(),
        ensures
            final(self).wf(),
            final(self)@ == toggle_step(old(self)@, unit.path@),
    {
        let ghost p = unit.path@;
        let ghost old_units = self.units@;
        let ghost old_held = self.held();
        if self.position(&unit.path).is_some() {
            self.remove_unit(&unit);
        } else {
            self.units.push(unit);
            proof {
                assert forall|q: Seq<char>| self.held().contains(q) == old_held.insert(p).contains(q) by {
                    if self.held().contains(q) {
                        let j = choose|j: int| 0 <= j < self.units@.len() && #[trigger] self.units@[j].path@ == q;
                        if j < old_units.len() {
                            assert(old_units[j].path@ == q);
                        }
                    }
                    if old_held.contains(q) {
                        let j = choose|j: int| 0 <= j < old_units.len() && #[trigger] old_units[j].path@ == q;
                        assert(self.units@[j].path@ == q);
                    }
                    if q == p {
                        assert(self.units@[old_units.len() as int].path@ == q);
                    }
                }
                assert(self.held() =~= old_held.insert(p));
                assert forall|i: int, j: int|
                    0 <= i < j < self.units@.len() implies self.units@[i].path@ != self.units@[j].path@ by {
                    if j == old_units.len() {
                        assert(old_held.contains(self.units@[i].path@));
                    }
                }
                self.lemma_empty();
            }
        }
    }

    fn enter(&mut self, m: ClipboardMode) -> (r: bool)
        requires
            old(self).wf(),
        ensures
            final(self).wf(),
            r == old(self).may_hold(),
            final(self)@ == enter_step(old(self)@, r, m),
            final(self).holds_dir() == old(self).holds_dir(),
    {
        proof {
            self.lemma_empty();
        }
        if self.units.len() > 0 && !self.has_dirs() {
            self.mode = m;
            true
        } else {
            false
        }
    }

    /// Holds the selection for a copy, replacing any earlier mode. Refused
    /// (returns false, nothing changes) on an empty selection or one that
    /// holds a directory.
    pub fn copy(&mut self) -> (r: bool)
        requires
            old(self).wf(),
        ensures
            final(self).wf(),
            r == old(self).may_hold(),
            final(self)@ == enter_step(old(self)@, r, ClipboardMode::Copy),
            final(self).holds_dir() == old(self).holds_dir(),
    {
        self.enter(ClipboardMode::Copy)
    }

    /// Holds the selection for a move, replacing any earlier mode. Refused
    /// as `copy` is.
    pub fn cut(&mut self) -> (r: bool)
        requires
            old(self).wf(),
        ensures
            final(self).wf(),
            r == old(self).may_hold(),
            final(self)@ == enter_step(old(self)@, r, ClipboardMode::Cut),
            final(self).holds_dir() == old(self).holds_dir(),
    {
        self.enter(ClipboardMode::Cut)
    }

    /// Resolves the clipboard into a transfer to `destination`. In the idle
    /// mode nothing is dispatched and nothing changes; otherwise the held
    /// paths go out as a copy (mode Copy) or a move (mode Cut), and the
    /// selection is cleared whatever the transfer's outcome will be.
    pub fn paste(&mut self, destination: String) -> (r: Option<Transfer>)
        requires
            old(self).wf(),
        ensures
            final(self).wf(),
            match r {
                None => paste_kind(old(self).mode_of()) is None && *final(self) == *old(self),
                Some(t) => paste_kind(old(self).mode_of()) == Some(t.kind)
                    && path_set(t.sources@) == old(self).held()
                    && t.sources@.len() == old(self).held().len()
                    && t.destination@ == destination@
                    && final(self)@ == cleared(),
            },
    {
        let kind = match self.mode {
            ClipboardMode::Idle => {
                return None;
            },
            ClipboardMode::Copy => TransferKind::Copy,
            ClipboardMode::Cut => TransferKind::Move,
        };
        let sources = self.as_paths();
        self.clear();
        Some(Transfer { kind, sources, destination })
    }

    /// Hands out the selected paths for download and clears the selection.
    /// Refused (None, nothing changes) on an empty selection or one that
    /// holds a directory.
    pub fn download_selected(&mut self) -> (r: Option<Vec<String>>)
        requires
            old(self).wf(),
        ensures
            final(self).wf(),
            match r {
                None => !old(self).may_hold() && *final(self) == *old(self),
                Some(ps) => old(self).may_hold() && path_set(ps@) == old(self).held()
                    && ps@.len() == old(self).held().len() && final(self)@ == cleared(),
            },
    {
        self.delete()
    }

    /// Hands out the selected paths for deletion and clears the selection.
    /// Refused (None, nothing changes) on an empty selection or one that
    /// holds a directory.
    pub fn delete(&mut self) -> (r: Option<Vec<String>>)
        requires
            old(self).wf(),
        ensures
            final(self).wf(),
            match r {
                None => !old(self).may_hold() && *final(self) == *old(self),
                Some(ps) => old(self).may_hold() && path_set(ps@) == old(self).held()
                    && ps@.len() == old(self).held().len() && final(self)@ == cleared(),
            },
    {
        proof {
            self.lemma_empty();
        }
        if self.units.len() == 0 || self.has_dirs() {
            return None;
        }
        let ps = self.as_paths();
        self.clear();
        Some(ps)
    }
}

} // verus!
