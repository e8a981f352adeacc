//! Short names for ids: each id gets a base name, and a number behind it where
//! that name is taken.

use vstd::prelude::*;
use vstd::set_lib::*;

use crate::sorted::StrSet;
use crate::text::{decimal, decimal_injective, push_decimal, Text};

verus! {

/// `base` with a number behind it.
pub open spec fn numbered(base: Text, n: nat) -> Text {
    base + "_"@ + decimal(n)
}

/// `n` is the first number from 2 on whose numbered id is free.
pub open spec fn first_free(base: Text, used: Set<Text>, n: nat) -> bool {
    n >= 2 && !used.contains(numbered(base, n)) && forall|k: nat| 2 <= k < n ==> used.contains(#[trigger] numbered(base, k))
}

/// `base` where that is free, else with the first free number.
pub open spec fn free_id(base: Text, used: Set<Text>) -> Text {
    if !used.contains(base) {
        base
    } else {
        numbered(base, choose|n: nat| first_free(base, used, n))
    }
}

/// The names given out so far, and the words that are taken.
pub struct Given {
    pub ids: Map<Text, Text>,
    pub used: Set<Text>,
}

/// Names for `uids` in order, none given twice and none out of `start`.
pub open spec fn given(uids: Seq<Text>, start: Set<Text>, base: spec_fn(Text) -> Text) -> Given
    decreases uids.len(),
{
    if uids.len() == 0 {
        Given { ids: Map::empty(), used: start }
    } else {
        let g = given(uids.drop_last(), start, base);
        let id = free_id(base(uids.last()), g.used);
        Given { ids: g.ids.insert(uids.last(), id), used: g.used.insert(id) }
    }
}

/// The numbered ids of 2 up to `n`, without `n`.
pub open spec fn numbered_below(base: Text, n: nat) -> Set<Text>
    decreases n,
{
    if n <= 2 {
        Set::empty()
    } else {
        numbered_below(base, (n - 1) as nat).insert(numbered(base, (n - 1) as nat))
    }
}

proof fn numbered_injective(base: Text, a: nat, b: nat)
    requires
        numbered(base, a) == numbered(base, b),
    ensures
        a == b,
{
    let x = numbered(base, a);
    let y = numbered(base, b);
    let k = (base + "_"@).len() as int;
    assert(x.skip(k) =~= decimal(a));
    assert(y.skip(k) =~= decimal(b));
    decimal_injective(a, b);
}

pub proof fn numbered_below_size(base: Text, n: nat)
    requires
        n >= 2,
    ensures
        numbered_below(base, n).finite(),
        numbered_below(base, n).len() == n - 2,
        forall|x: Text| #[trigger] numbered_below(base, n).contains(x) <==> exists|k: nat| 2 <= k < n && x == #[trigger] numbered(base, k),
    decreases n,
{
    if n > 2 {
        let m = (n - 1) as nat;
        numbered_below_size(base, m);
        assert(!numbered_below(base, m).contains(numbered(base, m))) by {
            if numbered_below(base, m).contains(numbered(base, m)) {
                let k = choose|k: nat| 2 <= k < m && numbered(base, m) == #[trigger] numbered(base, k);
                numbered_injective(base, m, k);
            }
        }
        assert forall|x: Text| #[trigger] numbered_below(base, n).contains(x) <==> exists|k: nat| 2 <= k < n && x == #[trigger] numbered(base, k) by {
            if exists|k: nat| 2 <= k < n && x == #[trigger] numbered(base, k) {
                let k = choose|k: nat| 2 <= k < n && x == #[trigger] numbered(base, k);
                if k < m {
                    assert(numbered_below(base, m).contains(x));
                }
            }
            if numbered_below(base, m).contains(x) {
                let k = choose|k: nat| 2 <= k < m && x == #[trigger] numbered(base, k);
                assert(2 <= k < n && x == numbered(base, k));
            }
            if x == numbered(base, m) {
                assert(2 <= m < n);
            }
        }
    }
}

/// All numbered names below `n` are taken.
pub open spec fn all_taken(base: Text, used: Set<Text>, n: nat) -> bool {
    n >= 2 && forall|k: nat| 2 <= k < n ==> used.contains(#[trigger] numbered(base, k))
}

/// The numbers that have to be tried fit in a machine word.
pub open spec fn room(base: Text, used: Set<Text>) -> bool {
    forall|n: nat| #[trigger] all_taken(base, used, n) ==> n <= usize::MAX
}

/// As many names are taken as numbers were tried.
pub proof fn taken_count(base: Text, used: Set<Text>, n: nat)
    requires
        used.finite(),
        used.contains(base),
        all_taken(base, used, n),
    ensures
        n <= used.len() + 1,
{
    numbered_below_size(base, n);
    let s = numbered_below(base, n);
    assert(!s.contains(base)) by {
        if s.contains(base) {
            let k = choose|k: nat| 2 <= k < n && base == #[trigger] numbered(base, k);
            reveal_strlit("_");
            assert(numbered(base, k).len() > base.len());
        }
    }
    let all = s.insert(base);
    assert(all.subset_of(used)) by {
        assert forall|x: Text| all.contains(x) implies used.contains(x) by {
            if s.contains(x) {
                let k = choose|k: nat| 2 <= k < n && x == #[trigger] numbered(base, k);
                assert(used.contains(numbered(base, k)));
            }
        }
    }
    lemma_len_subset(all, used);
}

/// The first free name for `base`.
pub fn pick_id(base: &str, used: &StrSet) -> (r: String)
    requires
        used.wf(),
        used@.contains(base@) ==> room(base@, used@),
    ensures
        r@ == free_id(base@, used@),
        !used@.contains(r@),
{
    if !used.contains(base) {
        return base.to_owned();
    }
    let mut n: usize = 2;
    proof {
        used.items_listed();
        assert(all_taken(base@, used@, 2));
    }
    loop
        invariant
            used.wf(),
            used@.finite(),
            used@.contains(base@),
            room(base@, used@),
            all_taken(base@, used@, n as nat),
        decreases used@.len() + 1 - n,
    {
        let mut id = base.to_owned();
        id.append("_");
        push_decimal(&mut id, n);
        assert(id@ == numbered(base@, n as nat));
        proof {
            taken_count(base@, used@, n as nat);
        }
        if !used.contains(id.as_str()) {
            proof {
                assert(first_free(base@, used@, n as nat));
                let m = choose|m: nat| first_free(base@, used@, m);
                assert(first_free(base@, used@, m));
                if m < n {
                    assert(used@.contains(numbered(base@, m)));
                }
                if (n as nat) < m {
                    assert(used@.contains(numbered(base@, n as nat)));
                }
            }
            return id;
        }
        proof {
            assert(all_taken(base@, used@, (n + 1) as nat)) by {
                assert forall|k: nat| 2 <= k < n + 1 implies used@.contains(#[trigger] numbered(base@, k)) by {
                    if k == n {
                    }
                }
            }
            taken_count(base@, used@, (n + 1) as nat);
        }
        n = n + 1;
    }
}

/// Names are given to exactly the ids, never one of the words taken at the
/// start, and never the same name twice.
pub proof fn given_facts(uids: Seq<Text>, start: Set<Text>, base: spec_fn(Text) -> Text)
    requires
        uids.no_duplicates(),
        start.finite(),
    ensures
        given(uids, start, base).used.finite(),
        given(uids, start, base).used.len() == start.len() + uids.len(),
        start.subset_of(given(uids, start, base).used),
        forall|u: Text| #[trigger] given(uids, start, base).ids.contains_key(u) <==> uids.contains(u),
        forall|u: Text| uids.contains(u) ==> given(uids, start, base).used.contains(#[trigger] given(uids, start, base).ids[u])
            && !start.contains(given(uids, start, base).ids[u]),
        forall|u: Text, v: Text| uids.contains(u) && uids.contains(v) && u != v ==> #[trigger] given(uids, start, base).ids[u]
            != #[trigger] given(uids, start, base).ids[v],
    decreases uids.len(),
{
    if uids.len() > 0 {
        let rest = uids.drop_last();
        let x = uids.last();
        given_facts(rest, start, base);
        let g = given(rest, start, base);
        let b = base(x);
        let id = free_id(b, g.used);
        assert(!g.used.contains(id)) by {
            if g.used.contains(b) {
                free_number_exists(b, g.used, 2);
                let n = choose|n: nat| first_free(b, g.used, n);
                assert(first_free(b, g.used, n));
            }
        }
        assert forall|u: Text| uids.contains(u) <==> rest.contains(u) || u == x by {
            if rest.contains(u) {
                let k = rest.index_of(u);
                assert(uids[k] == u);
            }
            assert(uids[uids.len() - 1] == x);
            if uids.contains(u) && u != x {
                let k = uids.index_of(u);
                assert(rest[k] == u);
            }
        }
        assert(!rest.contains(x)) by {
            if rest.contains(x) {
                let k = rest.index_of(x);
                assert(uids[k] == uids[uids.len() - 1]);
            }
        }
        let h = given(uids, start, base);
        assert forall|u: Text, v: Text| uids.contains(u) && uids.contains(v) && u != v implies #[trigger] h.ids[u] != #[trigger] h.ids[v] by {
            if u == x {
                assert(g.used.contains(g.ids[v]));
            } else if v == x {
                assert(g.used.contains(g.ids[u]));
            }
        }
    }
}

/// Some number is free for every base.
pub proof fn free_number_exists(base: Text, used: Set<Text>, n: nat)
    requires
        used.finite(),
        used.contains(base),
        all_taken(base, used, n),
    ensures
        exists|m: nat| first_free(base, used, m),
    decreases used.len() + 1 - n,
{
    taken_count(base, used, n);
    if used.contains(numbered(base, n)) {
        assert(all_taken(base, used, n + 1)) by {
            assert forall|k: nat| 2 <= k < n + 1 implies used.contains(#[trigger] numbered(base, k)) by {}
        }
        taken_count(base, used, n + 1);
        free_number_exists(base, used, n + 1);
    } else {
        assert(first_free(base, used, n));
    }
}

} // verus!
