//! Filesystem entries as shown to the user: their kind, their display name
//! and the display order (kind first, then name).
use vstd::prelude::*;

verus! {

/// The classified kind of an entry. Declaration order is display order.
#[derive(Clone, Copy, Debug, PartialEq, Eq, Structural)]
pub enum UnitKind {
    Directory,
    Video,
    Audio,
    File,
}

/// Position of a kind in the display order.
pub open spec fn kind_rank(k: UnitKind) -> int {
    match k {
        UnitKind::Directory => 0,
        UnitKind::Video => 1,
        UnitKind::Audio => 2,
        UnitKind::File => 3,
    }
}

/// One filesystem entry: its path relative to the root, and its kind.
/// Two units are equal exactly when their paths are equal.
#[derive(Debug)]
pub struct Unit {
    pub path: String,
    pub kind: UnitKind,
}

impl PartialEq for Unit {
    fn eq(&self, o: &Unit) -> (r: bool) {
        self.path == o.path
    }
}

impl vstd::std_specs::cmp::PartialEqSpecImpl for Unit {
    open spec fn obeys_eq_spec() -> bool {
        true
    }

    open spec fn eq_spec(&self, o: &Unit) -> bool {
        self.path@ == o.path@
    }
}

/// Index of the last `/` in `s`, or -1 when there is none.
pub open spec fn last_slash(s: Seq<char>) -> int
    decreases s.len(),
{
    if s.len() == 0 {
        -1
    } else if s.last() == '/' {
        s.len() - 1
    } else {
        last_slash(s.drop_last())
    }
}

/// The display name of a path: what follows its last `/`.
pub open spec fn name_of(s: Seq<char>) -> Seq<char> {
    s.subrange(last_slash(s) + 1, s.len() as int)
}

/// `s` ends with `suf`.
pub open spec fn has_suffix(s: Seq<char>, suf: Seq<char>) -> bool {
    s.len() >= suf.len() && s.subrange(s.len() - suf.len(), s.len() as int) == suf
}

/// The name carries a video extension.
pub open spec fn is_video_name(n: Seq<char>) -> bool {
    has_suffix(n, ".mp4"@) || has_suffix(n, ".mkv"@) || has_suffix(n, ".webm"@)
        || has_suffix(n, ".avi"@) || has_suffix(n, ".mov"@)
}

/// The name carries an audio extension.
pub open spec fn is_audio_name(n: Seq<char>) -> bool {
    has_suffix(n, ".mp3"@) || has_suffix(n, ".wav"@) || has_suffix(n, ".ogg"@)
        || has_suffix(n, ".flac"@) || has_suffix(n, ".m4a"@)
}

/// The kind of an entry named `n`: directories by what the disk says, the
/// rest by extension.
pub open spec fn kind_of(n: Seq<char>, is_dir: bool) -> UnitKind {
    if is_dir {
        UnitKind::Directory
    } else if is_video_name(n) {
        UnitKind::Video
    } else if is_audio_name(n) {
        UnitKind::Audio
    } else {
        UnitKind::File
    }
}

/// Strict lexicographic order on character sequences (by code point).
pub open spec fn seq_lt(a: Seq<char>, b: Seq<char>) -> bool
    decreases a.len(),
{
    if a.len() == 0 {
        b.len() > 0
    } else if b.len() == 0 {
        false
    } else if (a[0] as u32) < (b[0] as u32) {
        true
    } else if a[0] == b[0] {
        seq_lt(a.drop_first(), b.drop_first())
    } else {
        false
    }
}

/// Strict display order: by kind, then by display name.
pub open spec fn unit_lt(a: Unit, b: Unit) -> bool {
    kind_rank(a.kind) < kind_rank(b.kind) || (a.kind == b.kind && seq_lt(
        name_of(a.path@),
        name_of(b.path@),
    ))
}

/// No unit of `s` stands before one that should precede it.
pub open spec fn sorted_units(s: Seq<Unit>) -> bool {
    forall|i: int| 0 <= i < s.len() - 1 ==> !unit_lt(#[trigger] s[i + 1], s[i])
}

proof fn lemma_seq_lt_asym(a: Seq<char>, b: Seq<char>)
    ensures
        !(seq_lt(a, b) && seq_lt(b, a)),
    decreases a.len(),
{
    if a.len() > 0 && b.len() > 0 && a[0] == b[0] {
        lemma_seq_lt_asym(a.drop_first(), b.drop_first());
    }
}

proof fn lemma_unit_lt_asym(a: Unit, b: Unit)
    ensures
        !(unit_lt(a, b) && unit_lt(b, a)),
{
    lemma_seq_lt_asym(name_of(a.path@), name_of(b.path@));
}

proof fn lemma_seq_lt_skip(a: Seq<char>, b: Seq<char>, i: int)
    requires
        0 <= i <= a.len(),
        i <= b.len(),
        a.take(i) == b.take(i),
    ensures
        seq_lt(a, b) == seq_lt(a.skip(i), b.skip(i)),
    decreases i,
{
    if i > 0 {
        assert(a[0] == a.take(i)[0]);
        assert(b[0] == b.take(i)[0]);
        assert(a.drop_first().take(i - 1) =~= a.take(i).drop_first());
        assert(b.drop_first().take(i - 1) =~= b.take(i).drop_first());
        lemma_seq_lt_skip(a.drop_first(), b.drop_first(), i - 1);
        assert(a.drop_first().skip(i - 1) =~= a.skip(i));
        assert(b.drop_first().skip(i - 1) =~= b.skip(i));
    } else {
        assert(a.skip(0) =~= a);
        assert(b.skip(0) =~= b);
    }
}

/// Compares two strings in lexicographic order of their characters.
pub fn str_lt(a: &str, b: &str) -> (r: bool)
    ensures
        r == seq_lt(a@, b@),
{
    let la = a.unicode_len();
    let lb = b.unicode_len();
    let mut i: usize = 0;
    while i < la && i < lb && a.get_char(i) == b.get_char(i)
        invariant
            la == a@.len(),
            lb == b@.len(),
            i <= la,
            i <= lb,
            a@.take(i as int) == b@.take(i as int),
        decreases la - i,
    {
        assert(a@.take(i + 1) =~= a@.take(i as int).push(a@[i as int]));
        assert(b@.take(i + 1) =~= b@.take(i as int).push(b@[i as int]));
        i = i + 1;
    }
    proof {
        lemma_seq_lt_skip(a@, b@, i as int);
    }
    if i == la {
        proof {
            assert(a@.skip(i as int).len() == 0);
        }
        i < lb
    } else if i == lb {
        false
    } else {
        let ca = a.get_char(i);
        let cb = b.get_char(i);
        proof {
            assert(a@.skip(i as int)[0] == ca);
            assert(b@.skip(i as int)[0] == cb);
        }
        (ca as u32) < (cb as u32)
    }
}

/// `s` ends with `suf`.
pub fn ends_with(s: &str, suf: &str) -> (r: bool)
    ensures
        r == has_suffix(s@, suf@),
{
    let ls = s.unicode_len();
    let lf = suf.unicode_len();
    if lf > ls {
        return false;
    }
    let off = ls - lf;
    let mut i: usize = 0;
    while i < lf
        invariant
            ls == s@.len(),
            lf == suf@.len(),
            off == ls - lf,
            i <= lf,
            forall|j: int| 0 <= j < i ==> s@[off + j] == suf@[j],
        decreases lf - i,
    {
        if s.get_char(off + i) != suf.get_char(i) {
            proof {
                assert(s@.subrange(off as int, ls as int)[i as int] != suf@[i as int]);
            }
            return false;
        }
        i = i + 1;
    }
    assert(s@.subrange(off as int, ls as int) =~= suf@);
    true
}

proof fn lemma_last_slash(s: Seq<char>, i: int)
    requires
        0 <= i <= s.len(),
        i == 0 || s[i - 1] == '/',
        forall|j: int| i <= j < s.len() ==> s[j] != '/',
    ensures
        last_slash(s) == i - 1,
    decreases s.len(),
{
    if s.len() > i {
        lemma_last_slash(s.drop_last(), i);
    }
}

/// The display name of a path: the text after its last `/`.
pub fn display_name(path: &str) -> (r: &str)
    ensures
        r@ == name_of(path@),
{
    let len = path.unicode_len();
    let mut i: usize = len;
    while i > 0 && path.get_char(i - 1) != '/'
        invariant
            len == path@.len(),
            i <= len,
            forall|j: int| i <= j < len ==> path@[j] != '/',
        decreases i,
    {
        i = i - 1;
    }
    proof {
        lemma_last_slash(path@, i as int);
    }
    path.substring_char(i, len)
}

/// Classifies an entry named `name` (its path, or its file name).
pub fn classify(name: &str, is_dir: bool) -> (r: UnitKind)
    ensures
        r == kind_of(name@, is_dir),
{
    if is_dir {
        UnitKind::Directory
    } else if ends_with(name, ".mp4") || ends_with(name, ".mkv") || ends_with(name, ".webm")
        || ends_with(name, ".avi") || ends_with(name, ".mov") {
        UnitKind::Video
    } else if ends_with(name, ".mp3") || ends_with(name, ".wav") || ends_with(name, ".ogg")
        || ends_with(name, ".flac") || ends_with(name, ".m4a") {
        UnitKind::Audio
    } else {
        UnitKind::File
    }
}

fn rank(k: UnitKind) -> (r: u8)
    ensures
        r as int == kind_rank(k),
{
    match k {
        UnitKind::Directory => 0,
        UnitKind::Video => 1,
        UnitKind::Audio => 2,
        UnitKind::File => 3,
    }
}

impl Unit {
    /// A unit for the entry at `path`, classified by its name.
    pub fn new(path: String, is_dir: bool) -> (r: Unit)
        ensures
            r.path@ == path@,
            r.kind == kind_of(path@, is_dir),
    {
        let kind = classify(path.as_str(), is_dir);
        Unit { path, kind }
    }

    /// The display name: the last component of the path.
    pub fn name(&self) -> (r: &str)
        ensures
            r@ == name_of(self.path@),
    {
        display_name(self.path.as_str())
    }

    /// Whether `self` stands strictly before `o` in display order.
    pub fn precedes(&self, o: &Unit) -> (r: bool)
        ensures
            r == unit_lt(*self, *o),
    {
        let a = rank(self.kind);
        let b = rank(o.kind);
        if a < b {
            true
        } else if a > b {
            false
        } else {
            str_lt(self.name(), o.name())
        }
    }
}

/// The relative path of the child `name` of the directory `dir` (the root
/// itself when `dir` is empty).
pub open spec fn child_path(dir: Seq<char>, name: Seq<char>) -> Seq<char> {
    if dir.len() == 0 {
        name
    } else {
        dir + "/"@ + name
    }
}

/// Builds the listing of directory `dir` from its children as the disk
/// reports them: each name with whether it is a directory. One unit per
/// child, in the same order, with its relative path and its kind.
pub fn list_units(dir: &str, entries: &Vec<(String, bool)>) -> (r: Vec<Unit>)
    ensures
        r@.len() == entries@.len(),
        forall|i: int|
            0 <= i < entries@.len() ==> (#[trigger] r@[i]).path@ == child_path(dir@, entries@[i].0@)
                && r@[i].kind == kind_of(entries@[i].0@, entries@[i].1),
{
    let mut out: Vec<Unit> = Vec::new();
    let mut i: usize = 0;
    while i < entries.len()
        invariant
            i <= entries@.len(),
            out@.len() == i,
            forall|j: int|
                0 <= j < i ==> (#[trigger] out@[j]).path@ == child_path(dir@, entries@[j].0@)
                    && out@[j].kind == kind_of(entries@[j].0@, entries@[j].1),
        decreases entries@.len() - i,
    {
        let name = &entries[i].0;
        let is_dir = entries[i].1;
        let path = if dir.unicode_len() == 0 {
            name.clone()
        } else {
            let mut p = dir.to_owned();
            p.append("/");
            p.append(name.as_str());
            p
        };
        let kind = classify(name.as_str(), is_dir);
        out.push(Unit { path, kind });
        i = i + 1;
    }
    out
}

/// Sorts a listing into display order: directories first, then videos,
/// audio and other files, each group by name. The result holds exactly
/// the units given.
pub fn sort_units(units: Vec<Unit>) -> (r: Vec<Unit>)
    ensures
        sorted_units(r@),
        r@.to_multiset() == units@.to_multiset(),
{
    broadcast use vstd::seq_lib::group_to_multiset_ensures;

    let mut rest = units;
    let mut out: Vec<Unit> = Vec::new();
    while rest.len() > 0
        invariant
            sorted_units(out@),
            out@.to_multiset().add(rest@.to_multiset()) == units@.to_multiset(),
        decreases rest.len(),
    {
        let ghost before = rest@;
        let x = rest.pop().unwrap();
        proof {
            assert(before =~= rest@.push(x));
        }
        let mut p: usize = 0;
        while p < out.len() && !x.precedes(&out[p])
            invariant
                p <= out.len(),
                forall|q: int| 0 <= q < p ==> !unit_lt(x, #[trigger] out@[q]),
            decreases out.len() - p,
        {
            p = p + 1;
        }
        let ghost old_out = out@;
        proof {
            if p < out.len() {
                assert(unit_lt(x, out@[p as int]));
                lemma_unit_lt_asym(x, out@[p as int]);
            }
            if p > 0 {
                assert(!unit_lt(x, out@[p - 1]));
            }
            rest@.to_multiset_ensures();
            assert(before.to_multiset() == rest@.to_multiset().insert(x));
        }
        out.insert(p, x);
        proof {
            vstd::seq_lib::to_multiset_insert(old_out, p as int, x);
            assert(out@.to_multiset().add(rest@.to_multiset()) =~= units@.to_multiset());
            assert forall|i: int| 0 <= i < out@.len() - 1 implies !unit_lt(
                #[trigger] out@[i + 1],
                out@[i],
            ) by {
                if i + 1 < p {
                    assert(out@[i] == old_out[i] && out@[i + 1] == old_out[i + 1]);
                } else if i + 1 == p {
                    assert(out@[i] == old_out[i] && out@[i + 1] == x);
                } else if i == p {
                    assert(out@[i] == x && out@[i + 1] == old_out[i]);
                } else {
                    let k = i - 1;
                    assert(out@[i] == old_out[k] && out@[i + 1] == old_out[k + 1]);
                }
            }
        }
    }
    out
}

} // verus!
