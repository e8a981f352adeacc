//! What the trail of re-roots always shows.

use vstd::prelude::*;

use crate::app::lineage::{first_fit, trail_names, trail_of, trails_of, widths_of};
use crate::app::AppModel;
use crate::text::{joined, Text};

verus! {

/// `t` ends with `end`.
pub open spec fn ends_with(t: Text, end: Text) -> bool {
    end.len() <= t.len() && t.skip(t.len() - end.len()) == end
}

proof fn joined_ends(parts: Seq<Text>, sep: Text, before: Text)
    requires
        parts.len() > 0,
    ensures
        ends_with(before + joined(parts, sep), parts.last()),
{
    let t = before + joined(parts, sep);
    let end = parts.last();
    if parts.len() == 1 {
        assert(joined(parts, sep) == end);
    } else {
        let front = joined(parts.drop_last(), sep) + sep;
        assert(joined(parts, sep) == front + end);
    }
    assert(t.skip(t.len() - end.len()) =~= end);
}

proof fn fit_is_candidate(cs: Seq<Text>, ws: Seq<usize>, max: usize)
    ensures
        first_fit(cs, ws, max) matches Some(t) ==> cs.contains(t),
    decreases cs.len(),
{
    if cs.len() > 0 && ws.len() > 0 && ws[0] > max {
        fit_is_candidate(cs.drop_first(), ws.drop_first(), max);
        if let Some(t) = first_fit(cs.drop_first(), ws.drop_first(), max) {
            let k = cs.drop_first().index_of(t);
            assert(cs[k + 1] == t);
        }
    } else if cs.len() > 0 {
        assert(cs.contains(cs[0]));
    }
}

/// However narrow the title is, the trail ends with the whole name of the root.
pub proof fn trails_end_with_the_root(a: AppModel, max: usize)
    requires
        a.selected_id() is Some,
    ensures
        trail_of(a, max) matches Some(t) ==> ends_with(t, a.name_of(a.selected_id()->0)),
{
    let root = a.selected_id()->0;
    let names = trail_names(a, root);
    let full = joined(names, " > "@);
    let cs = trails_of(full, names);
    assert(names.last() == a.name_of(root));
    fit_is_candidate(cs, widths_of(cs), max);
    assert forall|t: Text| cs.contains(t) implies ends_with(t, names.last()) by {
        let k = cs.index_of(t);
        if k == 0 {
            joined_ends(names, " > "@, Seq::empty());
            assert(Seq::<char>::empty() + full =~= full);
        } else {
            assert(names.skip(k).last() == names.last());
            joined_ends(names.skip(k), " > "@, ".. > "@);
        }
    }
    let short = ".. > "@ + names.last();
    assert(short.skip(short.len() - names.last().len()) =~= names.last());
}

} // verus!
