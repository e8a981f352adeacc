//! Reachability over adjacency lists keyed by `unique_id`.

use vstd::prelude::*;
use vstd::set_lib::*;

use crate::sorted::{StrMap, StrSet};
use crate::text::Text;

verus! {

/// Adjacency: each key with its neighbours in recorded order.
pub type Adjacency = Map<Text, Seq<Text>>;

/// The neighbours of `a`; none where `a` has no entry.
pub open spec fn neighbours(adj: Adjacency, a: Text) -> Seq<Text> {
    if adj.contains_key(a) {
        adj[a]
    } else {
        Seq::empty()
    }
}

/// `b` is a neighbour of `a`.
pub open spec fn linked(adj: Adjacency, a: Text, b: Text) -> bool {
    neighbours(adj, a).contains(b)
}

/// Each element of `p` is a neighbour of the one before it.
pub open spec fn is_path(adj: Adjacency, p: Seq<Text>) -> bool {
    forall|i: int| 0 <= i < p.len() - 1 ==> linked(adj, #[trigger] p[i], p[i + 1])
}

/// There is a walk of exactly `n` hops from `a` to `b`.
#[verifier::opaque]
pub open spec fn walk(adj: Adjacency, a: Text, b: Text, n: nat) -> bool {
    exists|p: Seq<Text>| #[trigger] is_path(adj, p) && p.len() == n + 1 && p.first() == a && p.last() == b
}

/// A walk followed by a hop is a walk.
pub proof fn walk_extend(adj: Adjacency, a: Text, m: Text, b: Text, n: nat)
    requires
        walk(adj, a, m, n),
        linked(adj, m, b),
    ensures
        walk(adj, a, b, n + 1),
{
    reveal(walk);
    let p = choose|p: Seq<Text>| #[trigger] is_path(adj, p) && p.len() == n + 1 && p.first() == a && p.last() == m;
    let q = p.push(b);
    assert(is_path(adj, q)) by {
        assert forall|i: int| 0 <= i < q.len() - 1 implies linked(adj, #[trigger] q[i], q[i + 1]) by {
            if i < p.len() - 1 {
                assert(linked(adj, p[i], p[i + 1]));
            }
        }
    }
}

/// The last stop before the end of a walk.
pub proof fn walk_last(adj: Adjacency, a: Text, b: Text, n: nat) -> (m: Text)
    requires
        walk(adj, a, b, n),
        n >= 1,
    ensures
        walk(adj, a, m, (n - 1) as nat),
        linked(adj, m, b),
{
    reveal(walk);
    let p = choose|p: Seq<Text>| #[trigger] is_path(adj, p) && p.len() == n + 1 && p.first() == a && p.last() == b;
    let q = p.drop_last();
    assert(is_path(adj, q)) by {
        assert forall|i: int| 0 <= i < q.len() - 1 implies linked(adj, #[trigger] q[i], q[i + 1]) by {
            assert(linked(adj, p[i], p[i + 1]));
        }
    }
    assert(linked(adj, p[n - 1], p[n - 1 + 1]));
    q.last()
}

/// The first stop of a walk.
pub proof fn walk_first(adj: Adjacency, a: Text, b: Text, n: nat) -> (m: Text)
    requires
        walk(adj, a, b, n),
        n >= 1,
    ensures
        linked(adj, a, m),
{
    reveal(walk);
    let p = choose|p: Seq<Text>| #[trigger] is_path(adj, p) && p.len() == n + 1 && p.first() == a && p.last() == b;
    assert(linked(adj, p[0int], p[0int + 1]));
    p[1]
}

/// The walk of no hop.
pub proof fn walk_start(adj: Adjacency, a: Text)
    ensures
        walk(adj, a, a, 0),
{
    reveal(walk);
    assert(is_path(adj, seq![a]));
}

/// A walk of no hop stays where it is.
pub proof fn walk_zero(adj: Adjacency, a: Text, b: Text)
    requires
        walk(adj, a, b, 0),
    ensures
        a == b,
{
    reveal(walk);
}

/// Whether a hop count is within an optional limit.
pub open spec fn within(n: nat, depth: Option<usize>) -> bool {
    match depth {
        Some(d) => n <= d,
        None => true,
    }
}

/// What can be reached from `start` in at least one hop and at most `depth`
/// hops, `start` itself left out.
pub open spec fn reach(adj: Adjacency, start: Text, depth: Option<usize>) -> Set<Text> {
    Set::new(|v: Text| v != start && exists|n: nat| n >= 1 && within(n, depth) && #[trigger] walk(adj, start, v, n))
}

/// Every neighbour of every key lies in `known`.
pub open spec fn stays_in(adj: Adjacency, known: Set<Text>) -> bool {
    forall|a: Text, b: Text| #[trigger] linked(adj, a, b) ==> known.contains(b)
}

/// What can be reached lies where the neighbours lie.
pub proof fn reach_stays(adj: Adjacency, start: Text, depth: Option<usize>, known: Set<Text>)
    requires
        stays_in(adj, known),
    ensures
        reach(adj, start, depth).subset_of(known),
{
    assert forall|v: Text| reach(adj, start, depth).contains(v) implies known.contains(v) by {
        let n = choose|n: nat| n >= 1 && within(n, depth) && #[trigger] walk(adj, start, v, n);
        let m = walk_last(adj, start, v, n);
        assert(linked(adj, m, v));
    }
}

/// Walks compose.
pub proof fn walk_join(adj: Adjacency, a: Text, b: Text, c: Text, n: nat, m: nat)
    requires
        walk(adj, a, b, n),
        walk(adj, b, c, m),
    ensures
        walk(adj, a, c, n + m),
    decreases m,
{
    if m > 0 {
        let d = walk_last(adj, b, c, m);
        walk_join(adj, a, b, d, n, (m - 1) as nat);
        walk_extend(adj, a, d, c, (n + m - 1) as nat);
    } else {
        walk_zero(adj, b, c);
    }
}

/// Adds the neighbours of the frontier to `visited`; what was new comes back.
fn next_level(adjacency: &StrMap<Vec<String>>, frontier: &Vec<String>, visited: &mut StrSet, known: Ghost<Set<Text>>) -> (next: Vec<String>)
    requires
        adjacency.wf(),
        stays_in(adjacency.deep_view(), known@),
        old(visited).wf(),
        old(visited)@.subset_of(known@),
    ensures
        final(visited).wf(),
        final(visited)@.subset_of(known@),
        old(visited)@.subset_of(final(visited)@),
        forall|v: Text| #[trigger] next.deep_view().contains(v) <==> final(visited)@.contains(v) && !old(visited)@.contains(v),
        forall|v: Text| #[trigger] final(visited)@.contains(v) && !old(visited)@.contains(v) ==> exists|k: int|
            0 <= k < frontier@.len() && linked(adjacency.deep_view(), #[trigger] frontier.deep_view()[k], v),
        forall|u: Text, v: Text| frontier.deep_view().contains(u) && #[trigger] linked(adjacency.deep_view(), u, v)
            ==> final(visited)@.contains(v),
{
    let ghost adj = adjacency.deep_view();
    let ghost v0 = visited@;
    let ghost f0 = frontier.deep_view();
    let mut next: Vec<String> = Vec::new();
    let mut i: usize = 0;
    while i < frontier.len()
        invariant
            adjacency.wf(),
            adj == adjacency.deep_view(),
            i <= frontier@.len(),
            f0 == frontier.deep_view(),
            visited.wf(),
            stays_in(adj, known@),
            visited@.subset_of(known@),
            v0.subset_of(visited@),
            forall|v: Text| #[trigger] next.deep_view().contains(v) <==> visited@.contains(v) && !v0.contains(v),
            forall|v: Text| #[trigger] visited@.contains(v) && !v0.contains(v) ==> exists|k: int| 0 <= k < f0.len() && linked(adj, #[trigger] f0[k], v),
            forall|k: int, v: Text| 0 <= k < i && #[trigger] linked(adj, f0[k], v) ==> visited@.contains(v),
        decreases frontier@.len() - i,
    {
        let ghost cur = frontier@[i as int]@;
        assert(f0[i as int] == cur);
        match adjacency.get(frontier[i].as_str()) {
            Some(ns) => {
                let mut j: usize = 0;
                assert(adj[cur] == ns.deep_view());
                while j < ns.len()
                    invariant
                        adjacency.wf(),
                        adj == adjacency.deep_view(),
                        i < frontier@.len(),
                        j <= ns@.len(),
                        f0[i as int] == cur,
                        f0.len() == frontier@.len(),
                        adj.contains_key(cur),
                        adj[cur] == ns.deep_view(),
                        visited.wf(),
                        stays_in(adj, known@),
                        visited@.subset_of(known@),
                        v0.subset_of(visited@),
                        forall|v: Text| #[trigger] next.deep_view().contains(v) <==> visited@.contains(v) && !v0.contains(v),
                        forall|v: Text| #[trigger] visited@.contains(v) && !v0.contains(v) ==> exists|k: int| 0 <= k < f0.len() && linked(adj, #[trigger] f0[k], v),
                        forall|k: int, v: Text| 0 <= k < i && #[trigger] linked(adj, f0[k], v) ==> visited@.contains(v),
                        forall|k: int| 0 <= k < j ==> visited@.contains(#[trigger] ns.deep_view()[k]),
                    decreases ns@.len() - j,
                {
                    let ghost nb = ns@[j as int]@;
                    let ghost n0 = next.deep_view();
                    proof {
                        assert(ns.deep_view()[j as int] == nb);
                        assert(linked(adj, cur, nb));
                        assert(linked(adj, f0[i as int], nb));
                    }
                    let fresh = visited.insert(ns[j].clone());
                    if fresh {
                        next.push(ns[j].clone());
                        proof {
                            assert(next.deep_view() =~= n0.push(nb));
                            assert forall|v: Text| #[trigger] next.deep_view().contains(v) <==> visited@.contains(v) && !v0.contains(v) by {
                                if n0.contains(v) {
                                    let k = n0.index_of(v);
                                    assert(next.deep_view()[k] == v);
                                }
                                assert(next.deep_view()[n0.len() as int] == nb);
                            }
                        }
                    }
                    j = j + 1;
                }
                proof {
                    assert forall|k: int, v: Text| 0 <= k < i + 1 && #[trigger] linked(adj, f0[k], v) implies visited@.contains(v) by {
                        if k == i {
                            let x = ns.deep_view().index_of(v);
                            assert(ns.deep_view()[x] == v);
                        }
                    }
                }
            },
            None => {},
        }
        i = i + 1;
    }
    proof {
        assert forall|u: Text, v: Text| f0.contains(u) && #[trigger] linked(adj, u, v) implies visited@.contains(v) by {
            let k = f0.index_of(u);
            assert(linked(adj, f0[k], v));
        }
    }
    next
}

/// What the search knows after `depth` levels: everything within `depth` hops
/// has been seen, and whatever was seen before the last level has been expanded.
spec fn level_inv(adj: Adjacency, s: Text, seen: Set<Text>, front: Seq<Text>, depth: nat) -> bool {
    &&& forall|v: Text| #[trigger] seen.contains(v) ==> exists|n: nat| 1 <= n <= depth && #[trigger] walk(adj, s, v, n)
    &&& forall|v: Text| #[trigger] front.contains(v) ==> walk(adj, s, v, depth)
    &&& forall|v: Text| #[trigger] front.contains(v) ==> (depth == 0 && v == s) || seen.contains(v)
    &&& depth == 0 ==> front.contains(s)
    &&& forall|v: Text, n: nat| 1 <= n <= depth && #[trigger] walk(adj, s, v, n) ==> seen.contains(v)
    &&& forall|u: Text, v: Text|
        (seen.contains(u) || u == s) && !front.contains(u) && #[trigger] linked(adj, u, v) ==> seen.contains(v)
}

proof fn level_step(adj: Adjacency, s: Text, v0: Set<Text>, f0: Seq<Text>, v1: Set<Text>, n1: Seq<Text>, depth: nat)
    requires
        level_inv(adj, s, v0, f0, depth),
        v0.subset_of(v1),
        forall|v: Text| #[trigger] n1.contains(v) <==> v1.contains(v) && !v0.contains(v),
        forall|v: Text| #[trigger] v1.contains(v) && !v0.contains(v) ==> exists|k: int|
            0 <= k < f0.len() && linked(adj, #[trigger] f0[k], v),
        forall|u: Text, v: Text| f0.contains(u) && #[trigger] linked(adj, u, v) ==> v1.contains(v),
    ensures
        level_inv(adj, s, v1, n1, depth + 1),
{
    let d1 = depth + 1;
    assert forall|v: Text| #[trigger] n1.contains(v) implies walk(adj, s, v, d1) by {
        let k = choose|k: int| 0 <= k < f0.len() && linked(adj, #[trigger] f0[k], v);
        assert(f0.contains(f0[k]));
        walk_extend(adj, s, f0[k], v, depth);
    }
    assert forall|v: Text| #[trigger] v1.contains(v) implies exists|n: nat| 1 <= n <= d1 && #[trigger] walk(adj, s, v, n) by {
        if v0.contains(v) {
            let n = choose|n: nat| 1 <= n <= depth && #[trigger] walk(adj, s, v, n);
            assert(1 <= n <= d1 && walk(adj, s, v, n));
        } else {
            assert(n1.contains(v));
            assert(walk(adj, s, v, d1));
        }
    }
    assert forall|v: Text, n: nat| 1 <= n <= d1 && #[trigger] walk(adj, s, v, n) implies v1.contains(v) by {
        if n == d1 {
            let m = walk_last(adj, s, v, n);
            if !f0.contains(m) {
                if depth == 0 {
                    walk_zero(adj, s, m);
                } else {
                    assert(v0.contains(m));
                }
                assert(v0.contains(v));
            }
        } else {
            assert(v0.contains(v));
        }
    }
}

/// Level-by-level search from `start`, limited to `max_depth` hops.
pub(crate) fn closure_depth(adjacency: &StrMap<Vec<String>>, start: &str, max_depth: Option<usize>, known: Ghost<Set<Text>>) -> (r: StrSet)
    requires
        adjacency.wf(),
        stays_in(adjacency.deep_view(), known@),
        known@.finite(),
    ensures
        r.wf(),
        r@ == reach(adjacency.deep_view(), start@, max_depth),
{
    let ghost adj = adjacency.deep_view();
    let ghost s = start@;
    let mut visited = StrSet::new();
    let mut frontier: Vec<String> = Vec::new();
    frontier.push(start.to_owned());
    let mut left: Option<usize> = max_depth;
    let ghost mut depth: nat = 0;
    proof {
        assert(frontier.deep_view() =~= seq![s]);
        walk_start(adj, s);
        assert(frontier.deep_view().contains(s)) by {
            assert(frontier.deep_view()[0] == s);
        }
    }
    while frontier.len() > 0
        invariant_except_break
            true,
        invariant
            adjacency.wf(),
            adj == adjacency.deep_view(),
            s == start@,
            visited.wf(),
            stays_in(adj, known@),
            known@.finite(),
            visited@.subset_of(known@),
            within(depth, max_depth),
            left is Some == max_depth is Some,
            left matches Some(l) ==> l + depth == max_depth->0,
            level_inv(adj, s, visited@, frontier.deep_view(), depth),
        ensures
            left == Some(0usize) || frontier@.len() == 0,
        decreases known@.len() - visited@.len(), frontier@.len(),
    {
        if let Some(l) = left {
            if l == 0 {
                break;
            }
        }
        let ghost v0 = visited@;
        let ghost f0 = frontier.deep_view();
        let next = next_level(adjacency, &frontier, &mut visited, known);
        proof {
            lemma_len_subset(visited@, known@);
            lemma_len_subset(v0, visited@);
            if next@.len() > 0 {
                let x = next.deep_view()[0];
                assert(next.deep_view().contains(x));
                v0.lemma_subset_not_in_lt(visited@, x);
            }
            level_step(adj, s, v0, f0, visited@, next.deep_view(), depth);
        }
        frontier = next;
        left = match left {
            Some(l) => Some(l - 1),
            None => None,
        };
        proof {
            depth = depth + 1;
        }
    }
    proof {
        if frontier@.len() == 0 {
            assert(forall|u: Text| !frontier.deep_view().contains(u));
            assert forall|v: Text, n: nat| n >= 1 && #[trigger] walk(adj, s, v, n) implies visited@.contains(v) by {
                closed_reaches(adj, s, visited@, v, n);
            }
        }
    }
    visited.remove(start);
    proof {
        assert forall|v: Text| visited@.contains(v) <==> reach(adj, s, max_depth).contains(v) by {
            if visited@.contains(v) {
                let n = choose|n: nat| 1 <= n <= depth && #[trigger] walk(adj, s, v, n);
                assert(n >= 1 && within(n, max_depth) && walk(adj, s, v, n));
            }
            if reach(adj, s, max_depth).contains(v) {
                let n = choose|n: nat| n >= 1 && within(n, max_depth) && #[trigger] walk(adj, s, v, n);
            }
        }
        assert(visited@ =~= reach(adj, s, max_depth));
    }
    visited
}

proof fn closed_reaches(adj: Adjacency, s: Text, seen: Set<Text>, v: Text, n: nat)
    requires
        n >= 1,
        walk(adj, s, v, n),
        forall|u: Text, w: Text| (seen.contains(u) || u == s) && #[trigger] linked(adj, u, w) ==> seen.contains(w),
    ensures
        seen.contains(v),
    decreases n,
{
    let m = walk_last(adj, s, v, n);
    if n >= 2 {
        closed_reaches(adj, s, seen, m, (n - 1) as nat);
    } else {
        walk_zero(adj, s, m);
    }
}

} // verus!
