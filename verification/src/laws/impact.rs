//! What the impact report and the impact counts agree on.

use vstd::prelude::*;

use crate::app::analysis::{breakdown, exposed_ids, exposures_below};
use crate::app::report::{
    bullets, count_line, counted_heading, exposures_section, impact_head, is_listed, names_in, transitive_line,
};
use crate::app::AppModel;
use crate::dag::DagModel;
use crate::graph::{reach, reach_stays};
use crate::sorted::{in_order_sorted, listing, listing_exists};
use crate::text::Text;

verus! {

proof fn filter_splits(s: Seq<Text>, p: spec_fn(Text) -> bool, q: spec_fn(Text) -> bool)
    requires
        forall|i: int| 0 <= i < s.len() ==> p(#[trigger] s[i]) != q(s[i]),
    ensures
        s.filter(p).len() + s.filter(q).len() == s.len(),
    decreases s.len(),
{
    reveal(Seq::filter);
    if s.len() > 0 {
        let r = s.drop_last();
        assert forall|i: int| 0 <= i < r.len() implies p(#[trigger] r[i]) != q(r[i]) by {
            assert(r[i] == s[i]);
        }
        filter_splits(r, p, q);
        assert(s[s.len() - 1] == s.last());
    }
}

proof fn filter_all(s: Seq<Text>, p: spec_fn(Text) -> bool)
    requires
        forall|i: int| 0 <= i < s.len() ==> p(#[trigger] s[i]),
    ensures
        s.filter(p).len() == s.len(),
    decreases s.len(),
{
    reveal(Seq::filter);
    if s.len() > 0 {
        let r = s.drop_last();
        assert forall|i: int| 0 <= i < r.len() implies p(#[trigger] r[i]) by {
            assert(r[i] == s[i]);
        }
        filter_all(r, p);
        assert(s[s.len() - 1] == s.last());
    }
}

/// The lists of the impact report have as many entries as the counts say: the
/// descendants without exposures, the ancestors, and the exposures.
pub proof fn report_lists_what_is_counted(d: DagModel, uid: Text)
    requires
        d.valid(),
    ensures
        names_in(d, reach(d.children, uid, None), false).len() == breakdown(d, uid).0,
        names_in(d, reach(d.parents, uid, None), true).len() == breakdown(d, uid).1,
        exposures_below(d, uid).len() == breakdown(d, uid).2,
{
    let known = d.nodes.dom();
    let down = reach(d.children, uid, None);
    let up = reach(d.parents, uid, None);
    reach_stays(d.children, uid, None, known);
    reach_stays(d.parents, uid, None, known);
    vstd::set_lib::lemma_set_subset_finite(known, down);
    vstd::set_lib::lemma_set_subset_finite(known, up);
    listing_exists(down);
    listing_exists(up);
    let exposed = |u: Text| d.nodes.contains_key(u) && d.nodes[u].resource_type == "exposure"@;
    let name = |u: Text| d.nodes[u].name;
    assert forall|i: int| 0 <= i < listing(down).len() implies is_listed(d, #[trigger] listing(down)[i], false) != exposed(
        listing(down)[i],
    ) by {
        assert(listing(down).contains(listing(down)[i]));
        assert(known.contains(listing(down)[i]));
    }
    filter_splits(listing(down), |u: Text| is_listed(d, u, false), exposed);
    assert forall|i: int| 0 <= i < listing(up).len() implies is_listed(d, #[trigger] listing(up)[i], true) by {
        assert(listing(up).contains(listing(up)[i]));
        assert(known.contains(listing(up)[i]));
    }
    filter_all(listing(up), |u: Text| is_listed(d, u, true));
    in_order_sorted::<String>(listing(down).filter(|u: Text| is_listed(d, u, false)).map_values(name));
    in_order_sorted::<String>(listing(up).filter(|u: Text| is_listed(d, u, true)).map_values(name));
    in_order_sorted::<(String, String)>(exposed_ids(d, uid).map_values(|u: Text| (d.nodes[u].name, u)));
}

/// The numbers that the impact report quotes are those of the status bar: in
/// the line that counts ancestors and descendants, over each list, and for the
/// exposures, which have a section exactly where there are any.
pub proof fn report_matches_the_counts(a: AppModel)
    requires
        a.dag.valid(),
        a.selected_id() is Some,
        a.dag.nodes.contains_key(a.selected_id()->0),
    ensures
        ({
            let d = a.dag;
            let uid = a.selected_id()->0;
            let b = breakdown(d, uid);
            a.impact() == Some(
                impact_head(d.nodes[uid], uid) + transitive_line(b.1, b.0) + count_line("affected exposures"@, b.2) + counted_heading(
                    "##"@,
                    "Downstream (blast radius)"@,
                    b.0,
                ) + bullets(names_in(d, reach(d.children, uid, None), false)) + counted_heading("##"@, "Upstream"@, b.1) + bullets(
                    names_in(d, reach(d.parents, uid, None), true),
                ) + exposures_section(exposures_below(d, uid)),
            )
        }),
{
    report_lists_what_is_counted(a.dag, a.selected_id()->0);
    reveal(AppModel::impact);
}

} // verus!
