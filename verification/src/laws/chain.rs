//! What the longest chain is: a way down the graph without repetition, and in
//! a graph without cycles one that no other way down is longer than, and that
//! has the smallest ids of those that are as long.

use vstd::prelude::*;
use vstd::set_lib::*;

use crate::app::analysis::{
    best_link, chain_from, chain_ids, chain_names, chain_start, kids_of, len_at, link_of, links_of, LinkModel,
};
use crate::dag::DagModel;
use crate::graph::{is_path, linked, neighbours, walk};
use crate::layout::capped;
use crate::sorted::{ascending, in_order_sorted, listing, listing_exists, Sortable};
use crate::text::{text_le, text_lt, Text};

verus! {

/// No node can be reached from itself.
pub open spec fn acyclic(d: DagModel) -> bool {
    forall|u: Text, n: nat| n >= 1 ==> !#[trigger] walk(d.children, u, u, n)
}

proof fn kid_is_linked(d: DagModel, u: Text)
    ensures
        forall|k: Text| #[trigger] kids_of(d, u).contains(k) <==> linked(d.children, u, k),
        in_turn(kids_of(d, u)),
{
    in_order_sorted::<String>(neighbours(d.children, u));
    let kids = kids_of(d, u);
    let le = |a: Text, b: Text| <String as Sortable>::leq(a, b);
    assert forall|i: int, j: int| 0 <= i < j < kids.len() implies text_le(#[trigger] kids[i], #[trigger] kids[j]) by {
        assert(le(kids[i], kids[j]));
    }
}

/// Ascending, with repetitions.
spec fn in_turn(s: Seq<Text>) -> bool {
    forall|i: int, j: int| 0 <= i < j < s.len() ==> text_le(#[trigger] s[i], #[trigger] s[j])
}

// ---- every chain is a way down ----

/// Links lead from a node to one of its children.
spec fn lead_down(d: DagModel, known: Map<Text, LinkModel>) -> bool {
    forall|u: Text| #[trigger] known.contains_key(u) ==> (known[u].next matches Some(k) ==> linked(d.children, u, k))
}

proof fn link_leads_down(d: DagModel, u: Text, known: Map<Text, LinkModel>, open: Set<Text>, n: nat)
    requires
        lead_down(d, known),
    ensures
        lead_down(d, link_of(d, u, known, open, n).1),
    decreases n, 0nat,
{
    if !known.contains_key(u) && !open.contains(u) && n > 0 {
        kid_is_linked(d, u);
        best_leads_down(d, u, kids_of(d, u), known, open.insert(u), (n - 1) as nat);
    }
}

proof fn best_leads_down(d: DagModel, u: Text, kids: Seq<Text>, known: Map<Text, LinkModel>, open: Set<Text>, n: nat)
    requires
        lead_down(d, known),
        forall|k: Text| #[trigger] kids.contains(k) ==> linked(d.children, u, k),
    ensures
        lead_down(d, best_link(d, kids, known, open, n).1),
        best_link(d, kids, known, open, n).0.next matches Some(k) ==> linked(d.children, u, k),
    decreases n, kids.len() + 1,
{
    if kids.len() > 0 {
        let rest = kids.drop_last();
        assert forall|k: Text| #[trigger] rest.contains(k) implies linked(d.children, u, k) by {
            let i = rest.index_of(k);
            assert(kids[i] == k);
            assert(kids.contains(k));
        }
        best_leads_down(d, u, rest, known, open, n);
        let (best, k1) = best_link(d, rest, known, open, n);
        link_leads_down(d, kids.last(), k1, open, n);
        assert(kids[kids.len() - 1] == kids.last());
        assert(kids.contains(kids.last()));
    }
}

proof fn links_lead_down(d: DagModel, ids: Seq<Text>, n: nat)
    ensures
        lead_down(d, links_of(d, ids, n)),
    decreases ids.len(),
{
    if ids.len() > 0 {
        links_lead_down(d, ids.drop_last(), n);
        link_leads_down(d, ids.last(), links_of(d, ids.drop_last(), n), Set::empty(), n);
    }
}

proof fn chain_is_way_down(d: DagModel, links: Map<Text, LinkModel>, at: Option<Text>, seen: Set<Text>, n: nat)
    requires
        lead_down(d, links),
    ensures
        ({
            let c = chain_from(links, at, seen, n);
            &&& is_path(d.children, c)
            &&& c.no_duplicates()
            &&& forall|u: Text| #[trigger] c.contains(u) ==> !seen.contains(u)
            &&& c.len() > 0 ==> at == Some(c[0])
            &&& (at is Some && n > 0 && !seen.contains(at->0)) ==> c.len() > 0
        }),
    decreases n,
{
    if let Some(u) = at {
        if n > 0 && !seen.contains(u) {
            let next = if links.contains_key(u) { links[u].next } else { None };
            chain_is_way_down(d, links, next, seen.insert(u), (n - 1) as nat);
            let r = chain_from(links, next, seen.insert(u), (n - 1) as nat);
            let c = chain_from(links, at, seen, n);
            assert(c =~= seq![u] + r);
            assert forall|i: int| 0 <= i < c.len() - 1 implies linked(d.children, #[trigger] c[i], c[i + 1]) by {
                if i == 0 {
                    assert(next == Some(r[0]));
                } else {
                    assert(c[i] == r[i - 1] && c[i + 1] == r[i]);
                    assert(linked(d.children, r[i - 1], r[i - 1 + 1]));
                }
            }
            assert forall|w: Text| #[trigger] c.contains(w) implies !seen.contains(w) by {
                let k = c.index_of(w);
                if k > 0 {
                    assert(r[k - 1] == w);
                    assert(r.contains(w));
                }
            }
            assert(!r.contains(u)) by {
                if r.contains(u) {
                    assert(seen.insert(u).contains(u));
                }
            }
            assert(c.no_duplicates()) by {
                assert forall|i: int, j: int| 0 <= i < c.len() && 0 <= j < c.len() && i != j implies c[i] != c[j] by {
                    if i == 0 {
                        assert(r.contains(r[j - 1]));
                    } else if j == 0 {
                        assert(r.contains(r[i - 1]));
                    }
                }
            }
        }
    }
}

proof fn start_is_among(links: Map<Text, LinkModel>, ids: Seq<Text>)
    ensures
        ids.len() > 0 <==> chain_start(links, ids) is Some,
        chain_start(links, ids) matches Some(u) ==> ids.contains(u) && forall|v: Text|
            #[trigger] ids.contains(v) ==> len_at(links, v) <= len_at(links, u),
    decreases ids.len(),
{
    if ids.len() > 0 {
        let rest = ids.drop_last();
        let x = ids.last();
        start_is_among(links, rest);
        assert(ids[ids.len() - 1] == x);
        let s = chain_start(links, ids)->0;
        if let Some(b) = chain_start(links, rest) {
            let k = rest.index_of(b);
            assert(ids[k] == b);
        }
        assert forall|v: Text| #[trigger] ids.contains(v) implies len_at(links, v) <= len_at(links, s) by {
            if v != x {
                let k = ids.index_of(v);
                assert(rest[k] == v);
                assert(rest.contains(v));
            }
        }
    }
}

/// The longest chain follows the edges of the graph, never comes to a node
/// twice, and is empty only for an empty graph. This holds on cycles too.
pub proof fn chain_is_a_simple_path(d: DagModel)
    requires
        d.valid(),
    ensures
        is_path(d.children, chain_ids(d)),
        chain_ids(d).no_duplicates(),
        chain_ids(d).len() == 0 <==> d.nodes.dom().len() == 0,
        chain_names(d).len() == chain_ids(d).len(),
{
    let ids = listing(d.nodes.dom());
    let links = links_of(d, ids, ids.len());
    listing_exists(d.nodes.dom());
    links_lead_down(d, ids, ids.len());
    start_is_among(links, ids);
    chain_is_way_down(d, links, chain_start(links, ids), Set::empty(), ids.len());
}

// ---- without cycles it is the longest ----

proof fn part_of_path(d: DagModel, p: Seq<Text>, i: int, j: int)
    requires
        is_path(d.children, p),
        0 <= i < j < p.len(),
    ensures
        walk(d.children, p[i], p[j], (j - i) as nat),
{
    reveal(walk);
    let q = p.subrange(i, j + 1);
    assert(is_path(d.children, q)) by {
        assert forall|k: int| 0 <= k < q.len() - 1 implies linked(d.children, #[trigger] q[k], q[k + 1]) by {
            assert(linked(d.children, p[i + k], p[i + k + 1]));
        }
    }
    assert(q.first() == p[i] && q.last() == p[j]);
}

proof fn path_is_short(d: DagModel, p: Seq<Text>)
    requires
        d.valid(),
        acyclic(d),
        is_path(d.children, p),
        p.len() > 0,
        d.nodes.contains_key(p[0]),
    ensures
        p.no_duplicates(),
        p.len() <= d.nodes.dom().len(),
{
    assert forall|i: int, j: int| 0 <= i < p.len() && 0 <= j < p.len() && i != j implies p[i] != p[j] by {
        if i < j {
            part_of_path(d, p, i, j);
        } else {
            part_of_path(d, p, j, i);
        }
    }
    p.unique_seq_to_set();
    assert(p.to_set().subset_of(d.nodes.dom())) by {
        assert forall|u: Text| p.to_set().contains(u) implies d.nodes.dom().contains(u) by {
            let k = p.index_of(u);
            if k > 0 {
                assert(linked(d.children, p[k - 1], p[k - 1 + 1]));
            }
        }
    }
    lemma_len_subset(p.to_set(), d.nodes.dom());
}

/// A link is right: it goes to a child whose own chain is one shorter, no
/// child has a longer one, and of the children with equally long chains it is
/// the smallest.
spec fn link_ok(d: DagModel, known: Map<Text, LinkModel>, u: Text) -> bool {
    &&& known[u].len >= 1
    &&& forall|k: Text| #[trigger] linked(d.children, u, k) ==> known.contains_key(k) && known[k].len + 1 <= known[u].len
    &&& match known[u].next {
        Some(k) => linked(d.children, u, k) && known.contains_key(k) && known[u].len == known[k].len + 1 && forall|j: Text| #[trigger]
            linked(d.children, u, j) && known[u].len == known[j].len + 1 ==> text_le(k, j),
        None => known[u].len == 1,
    }
}

spec fn links_ok(d: DagModel, known: Map<Text, LinkModel>) -> bool {
    forall|u: Text| #[trigger] known.contains_key(u) ==> d.nodes.contains_key(u) && link_ok(d, known, u)
}

/// The chain that the links spell out from a node.
spec fn spelled(known: Map<Text, LinkModel>, u: Text, n: nat) -> Seq<Text>
    decreases n,
{
    if n == 0 || !known.contains_key(u) {
        Seq::empty()
    } else {
        match known[u].next {
            Some(k) => seq![u] + spelled(known, k, (n - 1) as nat),
            None => seq![u],
        }
    }
}

proof fn spelled_is_path(d: DagModel, known: Map<Text, LinkModel>, u: Text, n: nat)
    requires
        links_ok(d, known),
        known.contains_key(u),
        n == known[u].len,
    ensures
        is_path(d.children, spelled(known, u, n)),
        spelled(known, u, n).len() == n,
        spelled(known, u, n)[0] == u,
    decreases n,
{
    assert(link_ok(d, known, u));
    if let Some(k) = known[u].next {
        spelled_is_path(d, known, k, (n - 1) as nat);
        let r = spelled(known, k, (n - 1) as nat);
        let c = spelled(known, u, n);
        assert(c =~= seq![u] + r);
        assert forall|i: int| 0 <= i < c.len() - 1 implies linked(d.children, #[trigger] c[i], c[i + 1]) by {
            if i > 0 {
                assert(c[i] == r[i - 1] && c[i + 1] == r[i]);
                assert(linked(d.children, r[i - 1], r[i - 1 + 1]));
            } else {
                assert(c[1] == r[0]);
            }
        }
    }
}

proof fn no_way_is_longer(d: DagModel, known: Map<Text, LinkModel>, p: Seq<Text>)
    requires
        links_ok(d, known),
        is_path(d.children, p),
        p.len() > 0,
        known.contains_key(p[0]),
    ensures
        p.len() <= known[p[0]].len,
    decreases p.len(),
{
    assert(link_ok(d, known, p[0]));
    if p.len() > 1 {
        let q = p.drop_first();
        let zero = 0int;
        assert(linked(d.children, p[zero], p[zero + 1]));
        assert(is_path(d.children, q)) by {
            assert forall|i: int| 0 <= i < q.len() - 1 implies linked(d.children, #[trigger] q[i], q[i + 1]) by {
                assert(linked(d.children, p[i + 1], p[i + 1 + 1]));
            }
        }
        assert(q[0] == p[1]);
        no_way_is_longer(d, known, q);
    }
}

/// The chain behind a child and the node before it fit in the graph.
proof fn room_for_one_more(d: DagModel, known: Map<Text, LinkModel>, u: Text, k: Text)
    requires
        d.valid(),
        acyclic(d),
        links_ok(d, known),
        known.contains_key(k),
        d.nodes.contains_key(u),
        linked(d.children, u, k),
    ensures
        known[k].len + 1 <= d.nodes.dom().len(),
{
    let n = known[k].len as nat;
    spelled_is_path(d, known, k, n);
    let r = spelled(known, k, n);
    let p = seq![u] + r;
    assert(is_path(d.children, p)) by {
        assert forall|i: int| 0 <= i < p.len() - 1 implies linked(d.children, #[trigger] p[i], p[i + 1]) by {
            if i > 0 {
                assert(p[i] == r[i - 1] && p[i + 1] == r[i]);
                assert(linked(d.children, r[i - 1], r[i - 1 + 1]));
            } else {
                assert(p[1] == r[0]);
            }
        }
    }
    assert(p[0] == u);
    path_is_short(d, p);
}

/// From every open node a walk leads to `u`.
spec fn open_above(d: DagModel, open: Set<Text>, u: Text) -> bool {
    forall|o: Text| #[trigger] open.contains(o) ==> exists|n: nat| n >= 1 && #[trigger] walk(d.children, o, u, n)
}

proof fn open_stays_above(d: DagModel, open: Set<Text>, u: Text, k: Text)
    requires
        open_above(d, open, u),
        linked(d.children, u, k),
    ensures
        open_above(d, open.insert(u), k),
{
    assert forall|o: Text| #[trigger] open.insert(u).contains(o) implies exists|n: nat| n >= 1 && #[trigger] walk(d.children, o, k, n) by {
        if o == u {
            crate::graph::walk_start(d.children, u);
            crate::graph::walk_extend(d.children, u, u, k, 0);
            assert(1 >= 1 && walk(d.children, u, k, 1));
        } else {
            let n = choose|n: nat| n >= 1 && #[trigger] walk(d.children, o, u, n);
            crate::graph::walk_extend(d.children, o, u, k, n);
            assert(n + 1 >= 1 && walk(d.children, o, k, n + 1));
        }
    }
}

proof fn extended_ok(d: DagModel, known: Map<Text, LinkModel>, u: Text, l: LinkModel)
    requires
        links_ok(d, known),
        !known.contains_key(u),
        d.nodes.contains_key(u),
        acyclic(d),
        link_ok(d, known.insert(u, l), u),
    ensures
        links_ok(d, known.insert(u, l)),
{
    let m = known.insert(u, l);
    assert forall|v: Text| #[trigger] m.contains_key(v) implies d.nodes.contains_key(v) && link_ok(d, m, v) by {
        if v != u {
            assert(known.contains_key(v));
            assert(link_ok(d, known, v));
            assert forall|k: Text| #[trigger] linked(d.children, v, k) implies m.contains_key(k) && m[k].len + 1 <= m[v].len by {
                assert(known.contains_key(k));
            }
            if let Some(k) = known[v].next {
                assert forall|j: Text| #[trigger] linked(d.children, v, j) && m[v].len == m[j].len + 1 implies text_le(k, j) by {
                    assert(known.contains_key(j));
                }
            }
        }
    }
}

/// `b` knows all that `a` knows.
spec fn extends(a: Map<Text, LinkModel>, b: Map<Text, LinkModel>) -> bool {
    forall|v: Text| #[trigger] a.contains_key(v) ==> b.contains_key(v) && b[v] == a[v]
}

proof fn extends_joins(a: Map<Text, LinkModel>, b: Map<Text, LinkModel>, c: Map<Text, LinkModel>)
    requires
        extends(a, b),
        extends(b, c),
    ensures
        extends(a, c),
{
    assert forall|v: Text| #[trigger] a.contains_key(v) implies c.contains_key(v) && c[v] == a[v] by {
        assert(b.contains_key(v));
    }
}

proof fn link_is_right(d: DagModel, u: Text, known: Map<Text, LinkModel>, open: Set<Text>, n: nat)
    requires
        d.valid(),
        d.nodes.dom().len() <= usize::MAX,
        acyclic(d),
        links_ok(d, known),
        d.nodes.contains_key(u),
        open.subset_of(d.nodes.dom()),
        open.finite(),
        n + open.len() >= d.nodes.dom().len(),
        open_above(d, open, u),
        forall|o: Text| #[trigger] open.contains(o) ==> !known.contains_key(o),
    ensures
        ({
            let (l, after) = link_of(d, u, known, open, n);
            &&& links_ok(d, after)
            &&& extends(known, after)
            &&& after.contains_key(u)
            &&& after[u] == l
            &&& forall|o: Text| #[trigger] open.contains(o) ==> !after.contains_key(o)
        }),
    decreases n, 0nat,
{
    if !known.contains_key(u) {
        if open.contains(u) {
            let k = choose|k: nat| k >= 1 && #[trigger] walk(d.children, u, u, k);
            assert(false);
        }
        if n == 0 {
            lemma_len_subset(open, d.nodes.dom());
            lemma_subset_equality(open, d.nodes.dom());
            assert(open.contains(u));
        }
        let more = open.insert(u);
        let kids = kids_of(d, u);
        kid_is_linked(d, u);
        best_is_right(d, u, kids, known, open, (n - 1) as nat);
        let (best, mid) = best_link(d, kids, known, more, (n - 1) as nat);
        let after = mid.insert(u, best);
        assert(!mid.contains_key(u)) by {
            assert(more.contains(u));
        }
        assert(link_ok(d, after, u)) by {
            reveal(is_best);
            assert forall|k: Text| #[trigger] linked(d.children, u, k) implies after.contains_key(k) && after[k].len + 1 <= after[u].len by {
                assert(kids.contains(k));
                if k == u {
                    crate::graph::walk_start(d.children, u);
                    crate::graph::walk_extend(d.children, u, u, u, 0);
                    assert(walk(d.children, u, u, 1));
                }
            }
            if let Some(k) = best.next {
                if k == u {
                    crate::graph::walk_start(d.children, u);
                    crate::graph::walk_extend(d.children, u, u, u, 0);
                    assert(walk(d.children, u, u, 1));
                }
                assert forall|j: Text| #[trigger] linked(d.children, u, j) && after[u].len == after[j].len + 1 implies text_le(k, j) by {
                    assert(kids.contains(j));
                    if j == u {
                        crate::graph::walk_start(d.children, u);
                        crate::graph::walk_extend(d.children, u, u, u, 0);
                        assert(walk(d.children, u, u, 1));
                    }
                }
            }
        }
        extended_ok(d, mid, u, best);
        assert(extends(mid, after));
        extends_joins(known, mid, after);
        assert forall|o: Text| #[trigger] open.contains(o) implies !after.contains_key(o) by {
            assert(more.contains(o));
        }
    }
}

/// A link over some children of `u` is the best one: no child has a longer
/// chain, and of those with equally long chains it is the smallest.
#[verifier::opaque]
spec fn is_best(d: DagModel, u: Text, kids: Seq<Text>, known: Map<Text, LinkModel>, best: LinkModel) -> bool {
    &&& best.len >= 1
    &&& forall|k: Text| #[trigger] kids.contains(k) ==> known.contains_key(k) && known[k].len + 1 <= best.len
    &&& match best.next {
        Some(k) => linked(d.children, u, k) && kids.contains(k) && known.contains_key(k) && best.len == known[k].len + 1 && forall|
            j: Text,
        | #[trigger]
            kids.contains(j) && best.len == known[j].len + 1 ==> text_le(k, j),
        None => best.len == 1,
    }
}

proof fn best_of_more(d: DagModel, u: Text, kids: Seq<Text>, k1: Map<Text, LinkModel>, k2: Map<Text, LinkModel>, best: LinkModel)
    requires
        kids.len() > 0,
        in_turn(kids),
        is_best(d, u, kids.drop_last(), k1, best),
        extends(k1, k2),
        k2.contains_key(kids.last()),
        k2[kids.last()].len >= 1,
        linked(d.children, u, kids.last()),
        k2[kids.last()].len + 1 <= usize::MAX,
    ensures
        is_best(
            d,
            u,
            kids,
            k2,
            if k2[kids.last()].len + 1 > best.len {
                LinkModel { len: (k2[kids.last()].len + 1) as usize, next: Some(kids.last()) }
            } else {
                best
            },
        ),
{
    reveal(is_best);
    let rest = kids.drop_last();
    let x = kids.last();
    assert(kids[kids.len() - 1] == x);
    assert(kids.contains(x));
    assert forall|k: Text| #[trigger] kids.contains(k) implies k == x || (rest.contains(k) && k1.contains_key(k) && k2[k] == k1[k]) by {
        if k != x {
            let i = kids.index_of(k);
            assert(rest[i] == k);
            assert(rest.contains(k));
        }
    }
    if let Some(k) = best.next {
        let i = rest.index_of(k);
        assert(kids[i] == k);
        assert(kids.contains(k));
        assert(text_le(kids[i], kids[kids.len() - 1]));
    }
}

proof fn best_is_right(d: DagModel, u: Text, kids: Seq<Text>, known: Map<Text, LinkModel>, open: Set<Text>, n: nat)
    requires
        d.valid(),
        d.nodes.dom().len() <= usize::MAX,
        acyclic(d),
        links_ok(d, known),
        d.nodes.contains_key(u),
        !open.contains(u),
        !known.contains_key(u),
        open.subset_of(d.nodes.dom()),
        open.finite(),
        n + 1 + open.len() >= d.nodes.dom().len(),
        open_above(d, open, u),
        forall|o: Text| #[trigger] open.contains(o) ==> !known.contains_key(o),
        forall|k: Text| #[trigger] kids.contains(k) ==> linked(d.children, u, k),
        in_turn(kids),
    ensures
        ({
            let (best, after) = best_link(d, kids, known, open.insert(u), n);
            &&& links_ok(d, after)
            &&& extends(known, after)
            &&& is_best(d, u, kids, after, best)
            &&& forall|o: Text| #[trigger] open.insert(u).contains(o) ==> !after.contains_key(o)
        }),
    decreases n, kids.len() + 1,
{
    let more = open.insert(u);
    if kids.len() > 0 {
        let rest = kids.drop_last();
        let x = kids.last();
        assert(kids[kids.len() - 1] == x);
        assert(kids.contains(x));
        assert forall|k: Text| #[trigger] rest.contains(k) implies linked(d.children, u, k) by {
            let i = rest.index_of(k);
            assert(kids[i] == k);
            assert(kids.contains(k));
        }
        assert(in_turn(rest)) by {
            assert forall|i: int, j: int| 0 <= i < j < rest.len() implies text_le(#[trigger] rest[i], #[trigger] rest[j]) by {
                assert(text_le(kids[i], kids[j]));
            }
        }
        best_is_right(d, u, rest, known, open, n);
        let (best, k1) = best_link(d, rest, known, more, n);
        assert(extends(known, k1));
        open_stays_above(d, open, u, x);
        assert(d.nodes.contains_key(x)) by {
            assert(linked(d.children, u, x));
        }
        link_is_right(d, x, k1, more, n);
        let (l, k2) = link_of(d, x, k1, more, n);
        assert(extends(k1, k2));
        room_for_one_more(d, k2, u, x);
        assert(link_ok(d, k2, x));
        assert(capped(l.len + 1) == l.len + 1);
        extends_joins(known, k1, k2);
        best_of_more(d, u, kids, k1, k2, best);
    } else {
        reveal(is_best);
        assert forall|o: Text| #[trigger] more.contains(o) implies !known.contains_key(o) by {
            if o != u {
                assert(open.contains(o));
            }
        }
    }
}

proof fn links_are_right(d: DagModel, ids: Seq<Text>, n: nat)
    requires
        d.valid(),
        d.nodes.dom().len() <= usize::MAX,
        acyclic(d),
        n >= d.nodes.dom().len(),
        forall|u: Text| #[trigger] ids.contains(u) ==> d.nodes.contains_key(u),
    ensures
        links_ok(d, links_of(d, ids, n)),
        forall|u: Text| #[trigger] ids.contains(u) ==> links_of(d, ids, n).contains_key(u),
    decreases ids.len(),
{
    if ids.len() > 0 {
        let rest = ids.drop_last();
        let x = ids.last();
        assert(ids[ids.len() - 1] == x);
        assert(ids.contains(x));
        assert forall|u: Text| #[trigger] rest.contains(u) implies d.nodes.contains_key(u) by {
            let k = rest.index_of(u);
            assert(ids[k] == u);
            assert(ids.contains(u));
        }
        links_are_right(d, rest, n);
        let known = links_of(d, rest, n);
        link_is_right(d, x, known, Set::empty(), n);
        assert forall|u: Text| #[trigger] ids.contains(u) implies links_of(d, ids, n).contains_key(u) by {
            if u != x {
                let k = ids.index_of(u);
                assert(rest[k] == u);
                assert(rest.contains(u));
                assert(known.contains_key(u));
            }
        }
    }
}

proof fn chain_spells_links(d: DagModel, links: Map<Text, LinkModel>, u: Text, seen: Set<Text>, n: nat)
    requires
        links_ok(d, links),
        links.contains_key(u),
        n >= links[u].len,
        forall|w: Text| #[trigger] spelled(links, u, links[u].len as nat).contains(w) ==> !seen.contains(w),
        spelled(links, u, links[u].len as nat).no_duplicates(),
    ensures
        chain_from(links, Some(u), seen, n) == spelled(links, u, links[u].len as nat),
    decreases n,
{
    assert(link_ok(d, links, u));
    let m = links[u].len as nat;
    let s = spelled(links, u, m);
    spelled_is_path(d, links, u, m);
    assert(s.contains(s[0]));
    assert(!seen.contains(u));
    match links[u].next {
        Some(k) => {
            let r = spelled(links, k, (m - 1) as nat);
            assert(s =~= seq![u] + r);
            assert forall|w: Text| #[trigger] r.contains(w) implies !seen.insert(u).contains(w) by {
                let i = r.index_of(w);
                assert(s[i + 1] == w);
                assert(s.contains(w));
                if w == u {
                    assert(s[0] == s[i + 1]);
                }
            }
            assert(r.no_duplicates()) by {
                assert forall|i: int, j: int| 0 <= i < r.len() && 0 <= j < r.len() && i != j implies r[i] != r[j] by {
                    assert(s[i + 1] == r[i] && s[j + 1] == r[j]);
                }
            }
            chain_spells_links(d, links, k, seen.insert(u), (n - 1) as nat);
        },
        None => {
            assert(chain_from(links, None, seen.insert(u), (n - 1) as nat) == Seq::<Text>::empty());
            assert(seq![u] + Seq::<Text>::empty() =~= seq![u]);
        },
    }
}

/// In a graph without cycles no way down the graph is longer than the longest
/// chain.
pub proof fn chain_is_longest(d: DagModel, p: Seq<Text>)
    requires
        d.valid(),
        d.nodes.dom().len() <= usize::MAX,
        acyclic(d),
        is_path(d.children, p),
        p.len() > 0,
        d.nodes.contains_key(p[0]),
    ensures
        p.len() <= chain_ids(d).len(),
{
    let ids = listing(d.nodes.dom());
    let n = ids.len();
    let links = links_of(d, ids, n);
    listing_exists(d.nodes.dom());
    links_are_right(d, ids, n);
    start_is_among(links, ids);
    assert(ids.contains(p[0]));
    let s = chain_start(links, ids)->0;
    assert(ids.contains(s));
    assert(links.contains_key(s));
    no_way_is_longer(d, links, p);
    assert(len_at(links, p[0]) <= len_at(links, s));
    let m = links[s].len as nat;
    spelled_is_path(d, links, s, m);
    path_is_short(d, spelled(links, s, m));
    chain_spells_links(d, links, s, Set::empty(), n);
}

// ---- of equally long chains it has the smallest ids ----

/// `c` comes before `p`, or is `p`: at the first place at which they differ `c`
/// has the smaller id.
pub open spec fn no_later(c: Seq<Text>, p: Seq<Text>) -> bool
    decreases c.len(),
{
    c.len() == p.len() && (c.len() == 0 || text_lt(c[0], p[0]) || (c[0] == p[0] && no_later(c.drop_first(), p.drop_first())))
}

proof fn start_is_first(links: Map<Text, LinkModel>, ids: Seq<Text>)
    requires
        ascending(ids),
    ensures
        chain_start(links, ids) matches Some(u) ==> forall|v: Text|
            #[trigger] ids.contains(v) && len_at(links, v) == len_at(links, u) ==> text_le(u, v),
    decreases ids.len(),
{
    if ids.len() > 0 {
        let rest = ids.drop_last();
        let x = ids.last();
        assert(ascending(rest));
        start_is_first(links, rest);
        start_is_among(links, rest);
        let s = chain_start(links, ids)->0;
        assert forall|v: Text| #[trigger] ids.contains(v) && len_at(links, v) == len_at(links, s) implies text_le(s, v) by {
            let k = ids.index_of(v);
            if v != x {
                assert(rest[k] == v);
                assert(rest.contains(v));
            } else if let Some(b) = chain_start(links, rest) {
                if s == b {
                    let i = rest.index_of(b);
                    assert(ids[i] == b);
                    assert(text_lt(ids[i], ids[ids.len() - 1]));
                }
            }
        }
    }
}

proof fn spelled_is_first(d: DagModel, known: Map<Text, LinkModel>, p: Seq<Text>)
    requires
        links_ok(d, known),
        is_path(d.children, p),
        p.len() > 0,
        known.contains_key(p[0]),
        p.len() == known[p[0]].len,
    ensures
        no_later(spelled(known, p[0], p.len()), p),
    decreases p.len(),
{
    let u = p[0];
    let n = p.len();
    assert(link_ok(d, known, u));
    spelled_is_path(d, known, u, n);
    let c = spelled(known, u, n);
    if n > 1 {
        let q = p.drop_first();
        let zero = 0int;
        assert(linked(d.children, p[zero], p[zero + 1]));
        assert(is_path(d.children, q)) by {
            assert forall|i: int| 0 <= i < q.len() - 1 implies linked(d.children, #[trigger] q[i], q[i + 1]) by {
                assert(linked(d.children, p[i + 1], p[i + 1 + 1]));
            }
        }
        let j = q[0];
        assert(linked(d.children, u, j));
        no_way_is_longer(d, known, q);
        assert(known[u].len == known[j].len + 1);
        let k = known[u].next->0;
        assert(text_le(k, j));
        let r = spelled(known, k, (n - 1) as nat);
        assert(c =~= seq![u] + r);
        assert(c.drop_first() =~= r);
        spelled_is_path(d, known, k, (n - 1) as nat);
        if k == j {
            spelled_is_first(d, known, q);
        }
        assert(no_later(r, q));
    } else {
        assert(c.drop_first() =~= Seq::<Text>::empty());
        assert(p.drop_first() =~= Seq::<Text>::empty());
        assert(no_later(c.drop_first(), p.drop_first()));
    }
}

/// In a graph without cycles the longest chain comes first among the ways down
/// that are as long: at the first place at which another one differs from it,
/// the chain has the smaller id.
pub proof fn chain_has_the_smallest_ids(d: DagModel, p: Seq<Text>)
    requires
        d.valid(),
        d.nodes.dom().len() <= usize::MAX,
        acyclic(d),
        is_path(d.children, p),
        p.len() > 0,
        d.nodes.contains_key(p[0]),
        p.len() == chain_ids(d).len(),
    ensures
        no_later(chain_ids(d), p),
{
    let ids = listing(d.nodes.dom());
    let n = ids.len();
    let links = links_of(d, ids, n);
    listing_exists(d.nodes.dom());
    links_are_right(d, ids, n);
    start_is_among(links, ids);
    start_is_first(links, ids);
    assert(ids.contains(p[0]));
    let s = chain_start(links, ids)->0;
    assert(ids.contains(s));
    assert(links.contains_key(s));
    let m = links[s].len as nat;
    spelled_is_path(d, links, s, m);
    path_is_short(d, spelled(links, s, m));
    chain_spells_links(d, links, s, Set::empty(), n);
    let c = chain_ids(d);
    assert(c == spelled(links, s, m));
    no_way_is_longer(d, links, p);
    assert(len_at(links, p[0]) <= len_at(links, s));
    assert(links[p[0]].len == m);
    assert(text_le(s, p[0]));
    if s == p[0] {
        spelled_is_first(d, links, p);
    }
}

} // verus!
