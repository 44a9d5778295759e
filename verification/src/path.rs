//! When two spellings of a file-system path name the same place.
//!
//! Paths are compared by their components, as `std::path::Path` compares
//! them: repeated and trailing '/' do not count, nor do '.' components other
//! than one at the very start of a relative path.

use vstd::prelude::*;
use crate::text::{chars_of, push_char};

verus! {

/// The runs of characters between the '/' of a path, in order (empty runs
/// included; there is always at least one).
pub open spec fn pieces(p: Seq<char>) -> Seq<Seq<char>>
    decreases p.len(),
{
    if p.len() == 0 {
        seq![Seq::<char>::empty()]
    } else {
        let s = pieces(p.drop_last());
        if p.last() == '/' {
            s.push(Seq::<char>::empty())
        } else {
            s.update(s.len() - 1, s.last().push(p.last()))
        }
    }
}

/// Whether run `i` is a component: it is not empty, and it is not '.' unless
/// it opens the path.
pub open spec fn is_component(pcs: Seq<Seq<char>>, i: int) -> bool {
    pcs[i].len() > 0 && (pcs[i] != seq!['.'] || i == 0)
}

/// The components among the first `n` runs, in order.
pub open spec fn components_within(pcs: Seq<Seq<char>>, n: int) -> Seq<Seq<char>>
    decreases n,
{
    if n <= 0 {
        Seq::empty()
    } else if is_component(pcs, n - 1) {
        components_within(pcs, n - 1).push(pcs[n - 1])
    } else {
        components_within(pcs, n - 1)
    }
}

/// The components of a path.
pub open spec fn components(p: Seq<char>) -> Seq<Seq<char>> {
    components_within(pieces(p), pieces(p).len() as int)
}

/// Components joined by '/'.
pub open spec fn join(cs: Seq<Seq<char>>) -> Seq<char>
    decreases cs.len(),
{
    if cs.len() == 0 {
        Seq::empty()
    } else if cs.len() == 1 {
        cs[0]
    } else {
        join(cs.drop_last()) + seq!['/'] + cs.last()
    }
}

/// Whether a path starts at the root.
pub open spec fn is_rooted(p: Seq<char>) -> bool {
    p.len() > 0 && p[0] == '/'
}

/// The normal spelling of a path: '/' first if it is rooted, then its
/// components joined by single '/'.
pub open spec fn normal_path(p: Seq<char>) -> Seq<char> {
    (if is_rooted(p) { seq!['/'] } else { Seq::<char>::empty() }) + join(components(p))
}

/// Whether two spellings name the same path.
pub open spec fn same_path(a: Seq<char>, b: Seq<char>) -> bool {
    normal_path(a) == normal_path(b)
}

proof fn lemma_components_prefix(a: Seq<Seq<char>>, b: Seq<Seq<char>>, n: int)
    requires
        0 <= n <= a.len(),
        n <= b.len(),
        forall|i: int| 0 <= i < n ==> a[i] == b[i],
    ensures
        components_within(a, n) == components_within(b, n),
    decreases n,
{
    if n > 0 {
        lemma_components_prefix(a, b, n - 1);
        assert(is_component(a, n - 1) == is_component(b, n - 1));
    }
}

proof fn lemma_join_push(cs: Seq<Seq<char>>, x: Seq<char>)
    ensures
        join(cs.push(x)) == if cs.len() == 0 { x } else { join(cs) + seq!['/'] + x },
{
    assert(cs.push(x).drop_last() == cs);
}

/// Appends the characters of `cs` to `out`.
fn push_all(out: &mut String, cs: &Vec<char>)
    ensures
        final(out)@ == old(out)@ + cs@,
{
    let mut i: usize = 0;
    while i < cs.len()
        invariant
            i <= cs@.len(),
            out@ == old(out)@ + cs@.take(i as int),
        decreases cs.len() - i,
    {
        push_char(out, cs[i]);
        assert(cs@.take(i + 1) == cs@.take(i as int).push(cs@[i as int]));
        i = i + 1;
    }
    assert(cs@.take(cs@.len() as int) == cs@);
}

/// Adds run `idx`, held in `cur`, to `out` when it is a component.
fn emit(out: &mut String, cur: &Vec<char>, idx: usize, any: &mut bool)
    ensures
        ({
            let keep = cur@.len() > 0 && (cur@ != seq!['.'] || idx == 0);
            &&& *final(any) == (*old(any) || keep)
            &&& final(out)@ == if !keep {
                old(out)@
            } else if *old(any) {
                old(out)@ + seq!['/'] + cur@
            } else {
                old(out)@ + cur@
            }
        }),
{
    let dot = cur.len() == 1 && cur[0] == '.';
    proof {
        if cur@.len() == 1 {
            assert(dot == (cur@ == seq!['.'])) by {
                if cur@ == seq!['.'] {
                    assert(cur@[0] == '.');
                }
                if cur@[0] == '.' {
                    assert(cur@ =~= seq!['.']);
                }
            }
        } else {
            assert(cur@.len() != seq!['.'].len());
        }
    }
    if cur.len() > 0 && (!dot || idx == 0) {
        if *any {
            push_char(out, '/');
        }
        push_all(out, cur);
        *any = true;
    }
}

/// The normal spelling of a path (see `normal_path`).
pub fn normalize_path(p: &str) -> (n: String)
    ensures
        n@ == normal_path(p@),
{
    let cs = chars_of(p);
    let mut out = String::new();
    if cs.len() > 0 && cs[0] == '/' {
        push_char(&mut out, '/');
    }
    let ghost root = out@;
    assert(root == (if is_rooted(p@) { seq!['/'] } else { Seq::<char>::empty() }));
    let mut cur: Vec<char> = Vec::new();
    let mut idx: usize = 0;
    let mut any = false;
    let mut i: usize = 0;
    assert(p@.take(0) == Seq::<char>::empty());
    while i < cs.len()
        invariant
            cs@ == p@,
            i <= cs@.len(),
            idx <= i,
            pieces(p@.take(i as int)).len() == idx + 1,
            cur@ == pieces(p@.take(i as int))[idx as int],
            out@ == root + join(components_within(pieces(p@.take(i as int)), idx as int)),
            any == (components_within(pieces(p@.take(i as int)), idx as int).len() > 0),
        decreases cs.len() - i,
    {
        let c = cs[i];
        let ghost old_pcs = pieces(p@.take(i as int));
        let ghost new_pcs = pieces(p@.take(i + 1));
        let ghost done = components_within(old_pcs, idx as int);
        proof {
            assert(p@.take(i + 1).drop_last() == p@.take(i as int));
            assert(p@.take(i + 1).last() == c);
        }
        if c == '/' {
            emit(&mut out, &cur, idx, &mut any);
            proof {
                assert(new_pcs == old_pcs.push(Seq::<char>::empty()));
                lemma_components_prefix(old_pcs, new_pcs, idx as int);
                assert(new_pcs[idx as int] == cur@);
                lemma_join_push(done, cur@);
                if is_component(new_pcs, idx as int) {
                    assert(components_within(new_pcs, idx + 1) == done.push(cur@));
                } else {
                    assert(components_within(new_pcs, idx + 1) == done);
                }
            }
            cur = Vec::new();
            idx = idx + 1;
            assert(cur@ == new_pcs[idx as int]);
        } else {
            cur.push(c);
            proof {
                assert(new_pcs == old_pcs.update(idx as int, old_pcs[idx as int].push(c)));
                lemma_components_prefix(old_pcs, new_pcs, idx as int);
            }
        }
        i = i + 1;
    }
    let ghost pcs = pieces(p@.take(i as int));
    let ghost done = components_within(pcs, idx as int);
    emit(&mut out, &cur, idx, &mut any);
    proof {
        assert(p@.take(i as int) == p@);
        lemma_join_push(done, cur@);
        if is_component(pcs, idx as int) {
            assert(components_within(pcs, idx + 1) == done.push(cur@));
        } else {
            assert(components_within(pcs, idx + 1) == done);
        }
    }
    out
}

/// Whether two spellings name the same path.
pub fn paths_equal(a: &str, b: &str) -> (r: bool)
    ensures
        r == same_path(a@, b@),
{
    let na = normalize_path(a);
    let nb = normalize_path(b);
    na == nb
}

/// A '/' added at the end of a non-empty path names the same place.
pub proof fn lemma_trailing_slash(p: Seq<char>)
    requires
        p.len() > 0,
    ensures
        same_path(p, p.push('/')),
{
    let q = p.push('/');
    assert(q.drop_last() == p);
    let a = pieces(p);
    let b = pieces(q);
    assert(b == a.push(Seq::<char>::empty()));
    lemma_components_prefix(a, b, a.len() as int);
    assert(!is_component(b, a.len() as int));
    assert(q[0] == p[0]);
}

} // verus!
