//! The order of the model list, what the filters and searches leave of it, and
//! where cycling goes in it.

use vstd::prelude::*;

use super::pull::{place_is_rank, stands_at};
use crate::app::{coherent, AppModel, ListFilter};
use crate::dag::{DagModel, NodeModel};
use crate::model_list::{
    around, cycled, in_order_rows, in_order_rows_sorted, layer_of, match_positions, model_rows, models_of, row_le,
    row_of, subsequence, KeepModel, RowModel, SortMode,
};
use crate::sorted::{filter_keeps, listing, listing_exists};
use crate::text::{text_le, text_lt_irreflexive, Text};

verus! {

// ---- order ----

/// What a sort mode puts first within a layer.
pub open spec fn weight_of(n: NodeModel, mode: SortMode) -> nat {
    match mode {
        SortMode::Layer => 0,
        SortMode::Downstream => n.direct_down,
        SortMode::Tests => n.test_count,
    }
}

/// The model list goes by the place of the layer in the flow of a project.
/// Within a layer more children or more tests come first where the list is
/// sorted by them; then the names decide.
pub proof fn list_is_in_order(d: DagModel, mode: SortMode, i: int, j: int)
    requires
        d.valid(),
        0 <= i < j < models_of(d, mode).len(),
    ensures
        ({
            let a = models_of(d, mode)[i];
            let b = models_of(d, mode)[j];
            &&& forall|x: int, y: int| #[trigger] stands_at(a, x) && #[trigger] stands_at(b, y) ==> x <= y
            &&& layer_of(a) == layer_of(b) ==> weight_of(a, mode) >= weight_of(b, mode)
            &&& layer_of(a) == layer_of(b) && weight_of(a, mode) == weight_of(b, mode) ==> text_le(a.name, b.name)
            &&& layer_of(a) == layer_of(b) && weight_of(a, mode) == weight_of(b, mode) && a.name == b.name ==> text_le(
                a.unique_id,
                b.unique_id,
            )
            &&& stands_at(a, 4) && stands_at(b, 4) && layer_of(a) is Some && layer_of(b) is Some ==> text_le(
                layer_of(a)->0,
                layer_of(b)->0,
            )
        }),
{
    broadcast use text_lt_irreflexive;
    let ids = listing(d.nodes.dom());
    let p = |u: Text| d.nodes[u].resource_type == "model"@;
    let rows = model_rows(d, ids, mode);
    let l = in_order_rows(rows);
    let list = models_of(d, mode);
    listing_exists(d.nodes.dom());
    in_order_rows_sorted(rows);
    let le = |a: RowModel, b: RowModel| row_le(a, b);
    assert(le(l[i], l[j]));
    assert forall|k: int| 0 <= k < l.len() implies #[trigger] l[k] == row_of(list[k], mode) by {
        assert(l.contains(l[k]));
        assert(rows.contains(l[k]));
        let m = rows.index_of(l[k]);
        let u = ids.filter(p)[m];
        assert(ids.filter(p).contains(u));
        filter_keeps(ids, p, u);
        assert(d.nodes.dom().contains(u));
        assert(d.nodes.contains_key(u));
        assert(rows[m] == row_of(d.nodes[u], mode));
    }
    let a = list[i];
    let b = list[j];
    assert forall|x: int, y: int| #[trigger] stands_at(a, x) && #[trigger] stands_at(b, y) implies x <= y by {
        place_is_rank(a, x);
        place_is_rank(b, y);
    }
    place_is_rank(a, 4);
    place_is_rank(b, 4);
}

// ---- matching ----

/// The characters of `q` stand in `s` at these places, from left to right.
pub open spec fn found_at(q: Text, s: Text, places: Seq<nat>) -> bool {
    &&& places.len() == q.len()
    &&& forall|i: int| 0 <= i < q.len() ==> #[trigger] places[i] < s.len() && s[places[i] as int] == q[i]
    &&& forall|i: int, j: int| 0 <= i < j < q.len() ==> #[trigger] places[i] < #[trigger] places[j]
}

proof fn found_where_matched(q: Text, s: Text, at: nat)
    requires
        subsequence(q, s),
    ensures
        ({
            let m = match_positions(q, s, at);
            &&& m.len() == q.len()
            &&& forall|i: int| 0 <= i < q.len() ==> at <= #[trigger] m[i] < at + s.len() && s[m[i] - at] == q[i]
            &&& forall|i: int, j: int| 0 <= i < j < q.len() ==> #[trigger] m[i] < #[trigger] m[j]
        }),
    decreases s.len(),
{
    if q.len() > 0 && s.len() > 0 {
        let t = s.drop_first();
        if q[0] == s[0] {
            let r = q.drop_first();
            found_where_matched(r, t, at + 1);
            let m = match_positions(q, s, at);
            let n = match_positions(r, t, at + 1);
            assert forall|i: int| 0 <= i < q.len() implies at <= #[trigger] m[i] < at + s.len() && s[m[i] - at] == q[i] by {
                if i > 0 {
                    assert(m[i] == n[i - 1]);
                    assert(t[n[i - 1] - at - 1] == r[i - 1]);
                }
            }
            assert forall|i: int, j: int| 0 <= i < j < q.len() implies #[trigger] m[i] < #[trigger] m[j] by {
                assert(m[j] == n[j - 1]);
                if i > 0 {
                    assert(m[i] == n[i - 1]);
                }
            }
        } else {
            found_where_matched(q, t, at + 1);
            let m = match_positions(q, s, at);
            assert(m == match_positions(q, t, at + 1));
            assert forall|i: int| 0 <= i < q.len() implies at <= #[trigger] m[i] < at + s.len() && s[m[i] - at] == q[i] by {
                assert(t[m[i] - at - 1] == q[i]);
            }
        }
    }
}

proof fn matched_where_found(q: Text, s: Text, places: Seq<nat>)
    requires
        found_at(q, s, places),
    ensures
        subsequence(q, s),
        forall|i: int| 0 <= i < q.len() ==> #[trigger] match_positions(q, s, 0)[i] <= places[i],
        match_positions(q, s, 0).len() == q.len(),
    decreases s.len(),
{
    if q.len() > 0 {
        assert(places[0] < s.len());
        let t = s.drop_first();
        shifted(q, t, 0, 1);
        shifted(q.drop_first(), t, 0, 1);
        if q[0] == s[0] {
            let r = q.drop_first();
            let rest = Seq::new(r.len(), |i: int| (places[i + 1] - 1) as nat);
            assert forall|i: int| 0 <= i < r.len() implies #[trigger] rest[i] < t.len() && t[rest[i] as int] == r[i] && rest[i] + 1 == places[i + 1] by {
                assert(places[0] < places[i + 1]);
            }
            assert(found_at(r, t, rest));
            matched_where_found(r, t, rest);
            let m = match_positions(q, s, 0);
            let n = match_positions(r, t, 0);
            let k = match_positions(r, t, 1);
            assert forall|i: int| 0 <= i < q.len() implies #[trigger] m[i] <= places[i] by {
                if i > 0 {
                    assert(m[i] == k[i - 1]);
                    assert(k[i - 1] == n[i - 1] + 1);
                    assert(rest[i - 1] + 1 == places[i]);
                }
            }
        } else {
            let back = Seq::new(q.len(), |i: int| (places[i] - 1) as nat);
            assert(places[0] != 0);
            assert forall|i: int| 0 <= i < q.len() implies #[trigger] back[i] < t.len() && t[back[i] as int] == q[i] && back[i] + 1 == places[i] by {
                if i > 0 {
                    assert(places[0] < places[i]);
                }
            }
            assert(found_at(q, t, back));
            matched_where_found(q, t, back);
            let m = match_positions(q, s, 0);
            let n = match_positions(q, t, 0);
            let k = match_positions(q, t, 1);
            assert forall|i: int| 0 <= i < q.len() implies #[trigger] m[i] <= places[i] by {
                assert(m[i] == k[i]);
                assert(k[i] == n[i] + 1);
                assert(back[i] + 1 == places[i]);
            }
        }
    }
}

proof fn shifted(q: Text, s: Text, at: nat, by_: nat)
    ensures
        match_positions(q, s, at + by_).len() == match_positions(q, s, at).len(),
        forall|i: int| 0 <= i < match_positions(q, s, at).len() ==> #[trigger] match_positions(q, s, at + by_)[i] == match_positions(q, s, at)[i] + by_,
    decreases s.len(),
{
    if q.len() > 0 && s.len() > 0 {
        shifted(q.drop_first(), s.drop_first(), at + 1, by_);
        shifted(q, s.drop_first(), at + 1, by_);
    }
}

/// A query matches a name where its characters stand in the name from left to
/// right, and the marked places are the leftmost such ones.
pub proof fn queries_match_in_order(q: Text, s: Text)
    ensures
        subsequence(q, s) <==> exists|places: Seq<nat>| found_at(q, s, places),
        subsequence(q, s) ==> found_at(q, s, match_positions(q, s, 0)),
        forall|places: Seq<nat>, i: int|
            #[trigger] found_at(q, s, places) && 0 <= i < q.len() ==> #[trigger] match_positions(q, s, 0)[i] <= places[i],
{
    if subsequence(q, s) {
        found_where_matched(q, s, 0);
        assert(found_at(q, s, match_positions(q, s, 0)));
    }
    assert forall|places: Seq<nat>, i: int| #[trigger] found_at(q, s, places) && 0 <= i < q.len() implies #[trigger] match_positions(q, s, 0)[i]
        <= places[i] by {
        matched_where_found(q, s, places);
    }
    if exists|places: Seq<nat>| found_at(q, s, places) {
        let places = choose|places: Seq<nat>| found_at(q, s, places);
        matched_where_found(q, s, places);
    }
}

// ---- what is listed ----

/// What a persistent filter leaves in the list.
pub open spec fn let_through(a: AppModel, n: NodeModel) -> bool {
    match a.list_filter {
        ListFilter::All => true,
        ListFilter::Untested => (n.resource_type == "model"@ || n.resource_type == "snapshot"@ || n.resource_type == "seed"@) && n.test_count == 0,
        ListFilter::Bookmarked => a.bookmarks.contains(n.unique_id),
    }
}

/// Without a search the list shows exactly the models of the graph that the
/// persistent filter lets through.
pub proof fn list_shows_the_filtered(a: AppModel, n: NodeModel)
    requires
        coherent(a),
        a.filter is None,
    ensures
        a.active().contains(n) <==> a.dag.nodes.contains_key(n.unique_id) && a.dag.nodes[n.unique_id] == n && n.resource_type == "model"@
            && let_through(a, n),
{
    reveal(coherent);
    super::models_members(a.dag, a.sort);
    filter_keeps(a.model_list, |n: NodeModel| KeepModel::Untested.keeps(n), n);
    filter_keeps(a.model_list, |n: NodeModel| KeepModel::Bookmarked(a.bookmarks).keeps(n), n);
    assert(a.model_list.contains(n) <==> a.dag.nodes.contains_key(n.unique_id) && a.dag.nodes[n.unique_id] == n && n.resource_type == "model"@);
}

/// A list search shows exactly those of the unsearched list whose name the
/// query matches.
pub proof fn search_shows_the_matching(a: AppModel, n: NodeModel)
    requires
        a.list_search() is Some,
    ensures
        a.refiltered().active().contains(n) <==> a.base().contains(n) && exists|places: Seq<nat>|
            found_at(a.list_search()->0.query, n.name, places),
{
    reveal(AppModel::refiltered);
    let s = a.list_search()->0;
    filter_keeps(a.base(), |n: NodeModel| subsequence(s.query, n.name), n);
    queries_match_in_order(s.query, n.name);
}

// ---- cycling ----

/// A place of the list whose model is kept.
pub open spec fn kept_at(list: Seq<NodeModel>, keep: KeepModel, i: int) -> bool {
    0 <= i < list.len() && keep.keeps(list[i])
}

proof fn forward_is_next(list: Seq<NodeModel>, start: int, keep: KeepModel, off: int)
    requires
        0 <= start < list.len(),
        1 <= off <= list.len() + 1,
        forall|k: int| 1 <= k < off ==> !keep.keeps(list[#[trigger] around(start, k, list.len() as int, true)]),
    ensures
        match cycled(list, start, true, keep, off) {
            Some(i) => exists|k: int| off <= k <= list.len() && i == #[trigger] around(start, k, list.len() as int, true) && kept_at(list, keep, i) && forall|
                m: int,
            |
                1 <= m < k ==> !keep.keeps(list[#[trigger] around(start, m, list.len() as int, true)]),
            None => forall|k: int| 1 <= k <= list.len() ==> !keep.keeps(list[#[trigger] around(start, k, list.len() as int, true)]),
        },
    decreases list.len() + 1 - off,
{
    let n = list.len() as int;
    if off <= n {
        let i = around(start, off, n, true);
        assert(0 <= i < n) by (nonlinear_arith)
            requires
                n > 0,
                i == (start + off) % n,
        ;
        if !keep.keeps(list[i]) {
            forward_is_next(list, start, keep, off + 1);
        }
    }
}

proof fn backward_is_next(list: Seq<NodeModel>, start: int, keep: KeepModel, off: int)
    requires
        0 <= start < list.len(),
        1 <= off <= list.len() + 1,
        forall|k: int| 1 <= k < off ==> !keep.keeps(list[#[trigger] around(start, k, list.len() as int, false)]),
    ensures
        match cycled(list, start, false, keep, off) {
            Some(i) => exists|k: int| off <= k <= list.len() && i == #[trigger] around(start, k, list.len() as int, false) && kept_at(list, keep, i) && forall|
                m: int,
            |
                1 <= m < k ==> !keep.keeps(list[#[trigger] around(start, m, list.len() as int, false)]),
            None => forall|k: int| 1 <= k <= list.len() ==> !keep.keeps(list[#[trigger] around(start, k, list.len() as int, false)]),
        },
    decreases list.len() + 1 - off,
{
    let n = list.len() as int;
    if off <= n {
        let i = around(start, off, n, false);
        assert(0 <= i < n) by (nonlinear_arith)
            requires
                n > 0,
                i == (start + n - off % n) % n,
        ;
        if !keep.keeps(list[i]) {
            backward_is_next(list, start, keep, off + 1);
        }
    }
}

proof fn around_forward(start: int, k: int, n: int)
    requires
        0 <= start < n,
        1 <= k <= n,
    ensures
        around(start, k, n, true) == if start + k < n { start + k } else { start + k - n },
{
    let x = start + k;
    if x < n {
        assert(x % n == x) by (nonlinear_arith)
            requires
                0 <= x < n,
        ;
    } else {
        assert(x % n == x - n) by (nonlinear_arith)
            requires
                n <= x < 2 * n,
        ;
    }
}

proof fn around_backward(start: int, k: int, n: int)
    requires
        0 <= start < n,
        1 <= k <= n,
    ensures
        around(start, k, n, false) == if k <= start { start - k } else { start - k + n },
{
    assert(k % n == if k < n { k } else { 0 }) by (nonlinear_arith)
        requires
            1 <= k <= n,
    ;
    let x = start + n - k % n;
    if x < n {
        assert(x % n == x) by (nonlinear_arith)
            requires
                0 <= x < n,
        ;
    } else {
        assert(x % n == x - n) by (nonlinear_arith)
            requires
                n <= x < 2 * n,
        ;
    }
}

/// Forward, cycling goes to the next kept model below, and from the end on to
/// the first one; it finds none only where no model is kept.
pub proof fn cycling_goes_to_the_next(list: Seq<NodeModel>, start: int, keep: KeepModel)
    requires
        0 <= start < list.len(),
    ensures
        match cycled(list, start, true, keep, 1) {
            Some(i) => {
                &&& kept_at(list, keep, i)
                &&& i > start ==> forall|j: int| start < j && #[trigger] kept_at(list, keep, j) ==> i <= j
                &&& i <= start ==> forall|j: int| #[trigger] kept_at(list, keep, j) ==> i <= j <= start
            },
            None => forall|j: int| !#[trigger] kept_at(list, keep, j),
        },
{
    let n = list.len() as int;
    forward_is_next(list, start, keep, 1);
    assert forall|k: int| 1 <= k <= n implies #[trigger] around(start, k, n, true) == if start + k < n { start + k } else { start + k - n } by {
        around_forward(start, k, n);
    }
    match cycled(list, start, true, keep, 1) {
        Some(i) => {
            let k = choose|k: int| 1 <= k <= n && i == #[trigger] around(start, k, n, true) && kept_at(list, keep, i) && forall|m: int|
                1 <= m < k ==> !keep.keeps(list[#[trigger] around(start, m, n, true)]);
            assert forall|j: int| #[trigger] kept_at(list, keep, j) implies (if i > start { start < j ==> i <= j } else { i <= j <= start }) by {
                let m = if j > start { j - start } else { j - start + n };
                around_forward(start, m, n);
                if m < k {
                    assert(!keep.keeps(list[around(start, m, n, true)]));
                }
            }
        },
        None => {
            assert forall|j: int| !#[trigger] kept_at(list, keep, j) by {
                if kept_at(list, keep, j) {
                    let m = if j > start { j - start } else { j - start + n };
                    around_forward(start, m, n);
                    assert(!keep.keeps(list[around(start, m, n, true)]));
                }
            }
        },
    }
}

/// Backward, cycling goes to the next kept model above, and from the top on to
/// the last one; it finds none only where no model is kept.
pub proof fn cycling_goes_to_the_previous(list: Seq<NodeModel>, start: int, keep: KeepModel)
    requires
        0 <= start < list.len(),
    ensures
        match cycled(list, start, false, keep, 1) {
            Some(i) => {
                &&& kept_at(list, keep, i)
                &&& i < start ==> forall|j: int| j < start && #[trigger] kept_at(list, keep, j) ==> j <= i
                &&& i >= start ==> forall|j: int| #[trigger] kept_at(list, keep, j) ==> start <= j <= i
            },
            None => forall|j: int| !#[trigger] kept_at(list, keep, j),
        },
{
    let n = list.len() as int;
    backward_is_next(list, start, keep, 1);
    assert forall|k: int| 1 <= k <= n implies #[trigger] around(start, k, n, false) == if k <= start { start - k } else { start - k + n } by {
        around_backward(start, k, n);
    }
    match cycled(list, start, false, keep, 1) {
        Some(i) => {
            let k = choose|k: int| 1 <= k <= n && i == #[trigger] around(start, k, n, false) && kept_at(list, keep, i) && forall|m: int|
                1 <= m < k ==> !keep.keeps(list[#[trigger] around(start, m, n, false)]);
            assert forall|j: int| #[trigger] kept_at(list, keep, j) implies (if i < start { j < start ==> j <= i } else { start <= j <= i }) by {
                let m = if j < start { start - j } else { start - j + n };
                around_backward(start, m, n);
                if m < k {
                    assert(!keep.keeps(list[around(start, m, n, false)]));
                }
            }
        },
        None => {
            assert forall|j: int| !#[trigger] kept_at(list, keep, j) by {
                if kept_at(list, keep, j) {
                    let m = if j < start { start - j } else { start - j + n };
                    around_backward(start, m, n);
                    assert(!keep.keeps(list[around(start, m, n, false)]));
                }
            }
        },
    }
}

/// A filter that lets everything through.
pub(crate) proof fn kept_whole<A>(s: Seq<A>, p: spec_fn(A) -> bool)
    requires
        forall|i: int| 0 <= i < s.len() ==> p(#[trigger] s[i]),
    ensures
        s.filter(p) == s,
    decreases s.len(),
{
    reveal(Seq::filter);
    if s.len() > 0 {
        let r = s.drop_last();
        assert forall|i: int| 0 <= i < r.len() implies p(#[trigger] r[i]) by {
            assert(r[i] == s[i]);
        }
        kept_whole(r, p);
        assert(s[s.len() - 1] == s.last());
        assert(r.push(s.last()) =~= s);
    }
}

} // verus!
