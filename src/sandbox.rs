//! Resolution of client-supplied relative paths against the sandbox root.
//! Resolution is lexical: `.` and empty components are dropped, `..`
//! climbs one component, and any climb above the root, or an absolute
//! path, is refused.
use vstd::prelude::*;
use crate::error::OpError;

verus! {

/// The component stack after one more component; None once the path has
/// climbed above the root.
pub open spec fn push_comp(st: Option<Seq<Seq<char>>>, comp: Seq<char>) -> Option<Seq<Seq<char>>> {
    match st {
        None => None,
        Some(stk) => if comp.len() == 0 || comp == "."@ {
            Some(stk)
        } else if comp == ".."@ {
            if stk.len() == 0 {
                None
            } else {
                Some(stk.drop_last())
            }
        } else {
            Some(stk.push(comp))
        },
    }
}

/// Reads `s` left to right: the component stack so far, and the component
/// that is still open.
pub open spec fn scan(s: Seq<char>) -> (Option<Seq<Seq<char>>>, Seq<char>)
    decreases s.len(),
{
    if s.len() == 0 {
        (Some(Seq::empty()), Seq::empty())
    } else {
        let (st, cur) = scan(s.drop_last());
        if s.last() == '/' {
            (push_comp(st, cur), Seq::empty())
        } else {
            (st, cur.push(s.last()))
        }
    }
}

/// The components of a relative path once `.` and `..` are resolved, or
/// None when the path is absolute or escapes.
pub open spec fn normalize(s: Seq<char>) -> Option<Seq<Seq<char>>> {
    if s.len() > 0 && s[0] == '/' {
        None
    } else {
        let (st, cur) = scan(s);
        push_comp(st, cur)
    }
}

/// `root` followed by each component, each after a `/`.
pub open spec fn join(root: Seq<char>, comps: Seq<Seq<char>>) -> Seq<char>
    decreases comps.len(),
{
    if comps.len() == 0 {
        root
    } else {
        join(root, comps.drop_last()) + "/"@ + comps.last()
    }
}

/// The path that `rel` names under `root`, if it stays inside.
pub open spec fn resolved(root: Seq<char>, rel: Seq<char>) -> Option<Seq<char>> {
    match normalize(rel) {
        Some(c) => Some(join(root, c)),
        None => None,
    }
}

/// `p` is `root` or lies below it.
pub open spec fn within(root: Seq<char>, p: Seq<char>) -> bool {
    p.len() >= root.len() && p.subrange(0, root.len() as int) == root && (p.len() == root.len()
        || p[root.len() as int] == '/')
}

proof fn lemma_none_sticks(s: Seq<char>, i: int)
    requires
        0 <= i <= s.len(),
        scan(s.take(i)).0 is None,
    ensures
        scan(s).0 is None,
    decreases s.len() - i,
{
    if i < s.len() {
        assert(s.take(i + 1).drop_last() =~= s.take(i));
        lemma_none_sticks(s, i + 1);
    } else {
        assert(s.take(i) =~= s);
    }
}

/// Climbing above any root with `..` is refused.
pub proof fn lemma_parent_escape(root: Seq<char>)
    ensures
        resolved(root, "../../etc/passwd"@) is None,
{
    let s = "../../etc/passwd"@;
    reveal_strlit("../../etc/passwd");
    reveal_strlit("..");
    reveal_strlit(".");
    assert(s.take(3) =~= seq!['.', '.', '/']);
    assert(s.take(3).drop_last() =~= seq!['.', '.']);
    assert(seq!['.', '.'].drop_last() =~= seq!['.']);
    assert(seq!['.'].drop_last() =~= Seq::<char>::empty());
    assert(Seq::<char>::empty().push('.') =~= seq!['.']);
    assert(seq!['.'].push('.') =~= seq!['.', '.']);
    assert(seq!['.', '.'] =~= ".."@);
    let e = Seq::<char>::empty();
    assert(scan(e) == (Some(Seq::<Seq<char>>::empty()), e));
    assert(scan(seq!['.']) == (Some(Seq::<Seq<char>>::empty()), seq!['.']));
    assert(scan(seq!['.', '.']) == (Some(Seq::<Seq<char>>::empty()), seq!['.', '.']));
    assert(scan(s.take(3)).0 is None);
    lemma_none_sticks(s, 3);
}

/// A plain relative path is appended to any root component by component.
pub proof fn lemma_plain_path(root: Seq<char>)
    ensures
        resolved(root, "a/b/c"@) == Some(root + "/a/b/c"@),
{
    reveal_strlit("a/b/c");
    reveal_strlit("/a/b/c");
    reveal_strlit("/");
    reveal_strlit("..");
    reveal_strlit(".");
    let s = "a/b/c"@;
    let e = Seq::<char>::empty();
    let a = seq!['a'];
    let b = seq!['b'];
    let c = seq!['c'];
    assert(s.drop_last() =~= seq!['a', '/', 'b', '/']);
    assert(seq!['a', '/', 'b', '/'].drop_last() =~= seq!['a', '/', 'b']);
    assert(seq!['a', '/', 'b'].drop_last() =~= seq!['a', '/']);
    assert(seq!['a', '/'].drop_last() =~= a);
    assert(a.drop_last() =~= e);
    assert(e.push('a') =~= a);
    assert(e.push('b') =~= b);
    assert(e.push('c') =~= c);
    assert(a != "."@ && a != ".."@) by {
        assert(a[0] != "."@[0]);
    }
    assert(b != "."@ && b != ".."@) by {
        assert(b[0] != "."@[0]);
    }
    assert(c != "."@ && c != ".."@) by {
        assert(c[0] != "."@[0]);
    }
    assert(Seq::<Seq<char>>::empty().push(a) =~= seq![a]);
    assert(seq![a].push(b) =~= seq![a, b]);
    assert(seq![a, b].push(c) =~= seq![a, b, c]);
    assert(scan(e) == (Some(Seq::<Seq<char>>::empty()), e));
    assert(scan(a) == (Some(Seq::<Seq<char>>::empty()), a));
    assert(scan(seq!['a', '/']) == (Some(seq![a]), e));
    assert(scan(seq!['a', '/', 'b']) == (Some(seq![a]), b));
    assert(scan(seq!['a', '/', 'b', '/']) == (Some(seq![a, b]), e));
    assert(scan(s) == (Some(seq![a, b]), c));
    assert(normalize(s) == Some(seq![a, b, c]));
    assert(seq![a, b, c].drop_last() =~= seq![a, b]);
    assert(seq![a, b].drop_last() =~= seq![a]);
    assert(seq![a].drop_last() =~= Seq::<Seq<char>>::empty());
    assert(join(root, Seq::<Seq<char>>::empty()) == root);
    assert(join(root, seq![a]) == root + "/"@ + a);
    assert(join(root, seq![a, b]) == root + "/"@ + a + "/"@ + b);
    assert(join(root, seq![a, b, c]) == root + "/"@ + a + "/"@ + b + "/"@ + c);
    assert(root + "/"@ + a + "/"@ + b + "/"@ + c =~= root + "/a/b/c"@);
}

/// The character sequences of a list of strings.
pub open spec fn views(v: Seq<String>) -> Seq<Seq<char>> {
    v.map_values(|c: String| c@)
}

fn is_dot(s: &str) -> (r: bool)
    ensures
        r == (s@ == "."@),
{
    proof {
        reveal_strlit(".");
    }
    let r = s.unicode_len() == 1 && s.get_char(0) == '.';
    proof {
        if r {
            assert(s@ =~= "."@);
        }
    }
    r
}

fn is_dot_dot(s: &str) -> (r: bool)
    ensures
        r == (s@ == ".."@),
{
    proof {
        reveal_strlit("..");
    }
    let r = s.unicode_len() == 2 && s.get_char(0) == '.' && s.get_char(1) == '.';
    proof {
        if r {
            assert(s@ =~= ".."@);
        }
    }
    r
}

/// Applies one component to the stack; false when it climbs above the root.
fn push_component(stack: &mut Vec<String>, comp: &str) -> (ok: bool)
    ensures
        ok == (push_comp(Some(views(old(stack)@)), comp@) is Some),
        ok ==> push_comp(Some(views(old(stack)@)), comp@) == Some(views(final(stack)@)),
{
    if comp.unicode_len() == 0 || is_dot(comp) {
        true
    } else if is_dot_dot(comp) {
        if stack.len() == 0 {
            false
        } else {
            stack.pop();
            proof {
                assert(views(old(stack)@).drop_last() =~= views(stack@));
            }
            true
        }
    } else {
        stack.push(comp.to_owned());
        proof {
            assert(views(old(stack)@).push(comp@) =~= views(stack@));
        }
        true
    }
}

/// Resolves `rel` under `root`: `Ok` with the joined path exactly when it
/// stays inside the root, `PathEscape` otherwise. Touches no disk.
pub fn resolve(root: &str, rel: &str) -> (r: Result<String, OpError>)
    ensures
        match r {
            Ok(p) => resolved(root@, rel@) == Some(p@),
            Err(e) => resolved(root@, rel@) is None && e == OpError::PathEscape,
        },
{
    let len = rel.unicode_len();
    if len > 0 && rel.get_char(0) == '/' {
        return Err(OpError::PathEscape);
    }
    let mut stack: Vec<String> = Vec::new();
    let mut start: usize = 0;
    let mut i: usize = 0;
    proof {
        assert(rel@.take(0) =~= Seq::<char>::empty());
        assert(views(stack@) =~= Seq::<Seq<char>>::empty());
    }
    while i < len
        invariant
            len == rel@.len(),
            start <= i <= len,
            !(len > 0 && rel@[0] == '/'),
            scan(rel@.take(i as int)) == (Some(views(stack@)), rel@.subrange(start as int, i as int)),
        decreases len - i,
    {
        let c = rel.get_char(i);
        proof {
            assert(rel@.take(i + 1).drop_last() =~= rel@.take(i as int));
            assert(rel@.take(i + 1).last() == c);
        }
        if c == '/' {
            let comp = rel.substring_char(start, i);
            if !push_component(&mut stack, comp) {
                proof {
                    assert(scan(rel@.take(i + 1)).0 is None);
                    lemma_none_sticks(rel@, i + 1);
                }
                return Err(OpError::PathEscape);
            }
            start = i + 1;
        } else {
            proof {
                assert(rel@.subrange(start as int, i + 1) =~= rel@.subrange(start as int, i as int).push(c));
            }
        }
        i = i + 1;
    }
    proof {
        assert(rel@.take(len as int) =~= rel@);
    }
    let last = rel.substring_char(start, len);
    if !push_component(&mut stack, last) {
        return Err(OpError::PathEscape);
    }
    let ghost comps = views(stack@);
    let mut out = root.to_owned();
    let mut k: usize = 0;
    proof {
        assert(comps.take(0) =~= Seq::<Seq<char>>::empty());
    }
    while k < stack.len()
        invariant
            k <= stack@.len(),
            comps == views(stack@),
            out@ == join(root@, comps.take(k as int)),
        decreases stack@.len() - k,
    {
        out.append("/");
        out.append(stack[k].as_str());
        proof {
            assert(comps.take(k + 1).drop_last() =~= comps.take(k as int));
        }
        k = k + 1;
    }
    proof {
        assert(comps.take(stack@.len() as int) =~= comps);
    }
    Ok(out)
}

/// Whether `path` is `root` itself or lies below it: the check applied to
/// a path after the disk has resolved its links.
pub fn is_within(root: &str, path: &str) -> (r: bool)
    ensures
        r == within(root@, path@),
{
    let lr = root.unicode_len();
    let lp = path.unicode_len();
    if lp < lr {
        return false;
    }
    let mut i: usize = 0;
    while i < lr
        invariant
            lr == root@.len(),
            lp == path@.len(),
            lr <= lp,
            i <= lr,
            forall|j: int| 0 <= j < i ==> path@[j] == root@[j],
        decreases lr - i,
    {
        if path.get_char(i) != root.get_char(i) {
            proof {
                assert(path@.subrange(0, lr as int)[i as int] != root@[i as int]);
            }
            return false;
        }
        i = i + 1;
    }
    assert(path@.subrange(0, lr as int) =~= root@);
    lp == lr || path.get_char(lr) == '/'
}

} // verus!
