//! Sorting, and string-keyed maps and sets that keep their keys in order.

use vstd::prelude::*;
use vstd::relations::*;
use vstd::seq_lib::*;

use crate::text::{
    group_text_order, str_eq, str_lt, text_le, text_le_total, text_lt, text_lt_connected, text_lt_irreflexive,
    text_lt_transitive, Text,
};

verus! {

// ---- sorting ----

/// A type whose values are totally ordered by their models.
pub trait Sortable: DeepView + Sized {
    /// The order on models, reflexive.
    spec fn leq(a: Self::V, b: Self::V) -> bool;

    /// The order is total, transitive and antisymmetric.
    proof fn leq_total()
        ensures
            total_ordering(|a: Self::V, b: Self::V| Self::leq(a, b)),
    ;

    /// Whether `self` comes before `other` or is the same value.
    fn at_most(&self, other: &Self) -> (r: bool)
        ensures
            r == Self::leq(self.deep_view(), other.deep_view()),
    ;
}

/// The ascending arrangement of a sequence of models.
pub open spec fn in_order<T: Sortable>(s: Seq<T::V>) -> Seq<T::V> {
    s.sort_by(|a: T::V, b: T::V| T::leq(a, b))
}

/// A sorted rearrangement of `s` is `in_order(s)`.
pub proof fn in_order_unique<T: Sortable>(s: Seq<T::V>, r: Seq<T::V>)
    requires
        sorted_by(r, |a: T::V, b: T::V| T::leq(a, b)),
        r.to_multiset() == s.to_multiset(),
    ensures
        r == in_order::<T>(s),
{
    let le = |a: T::V, b: T::V| T::leq(a, b);
    T::leq_total();
    s.lemma_sort_by_ensures(le);
    lemma_sorted_unique(r, s.sort_by(le), le);
}

/// `in_order` rearranges its argument and the result is ascending.
pub proof fn in_order_sorted<T: Sortable>(s: Seq<T::V>)
    ensures
        sorted_by(in_order::<T>(s), |a: T::V, b: T::V| T::leq(a, b)),
        in_order::<T>(s).to_multiset() == s.to_multiset(),
        in_order::<T>(s).len() == s.len(),
        forall|x: T::V| #[trigger] in_order::<T>(s).contains(x) <==> s.contains(x),
{
    let le = |a: T::V, b: T::V| T::leq(a, b);
    T::leq_total();
    s.lemma_sort_by_ensures(le);
    broadcast use group_to_multiset_ensures;
    assert(s.to_multiset().len() == s.sort_by(le).to_multiset().len());
    assert forall|x: T::V| #[trigger] in_order::<T>(s).contains(x) <==> s.contains(x) by {
        assert(s.contains(x) <==> s.to_multiset().count(x) > 0);
        assert(s.sort_by(le).contains(x) <==> s.sort_by(le).to_multiset().count(x) > 0);
    }
}

/// Puts `x` at its place in an ascending vector.
pub fn insert_ordered<T: Sortable>(v: &mut Vec<T>, x: T)
    requires
        sorted_by(old(v).deep_view(), |a: T::V, b: T::V| T::leq(a, b)),
    ensures
        sorted_by(final(v).deep_view(), |a: T::V, b: T::V| T::leq(a, b)),
        final(v).deep_view().to_multiset() == old(v).deep_view().to_multiset().insert(x.deep_view()),
        final(v)@.len() == old(v)@.len() + 1,
{
    let ghost le = |a: T::V, b: T::V| T::leq(a, b);
    let ghost before = v.deep_view();
    proof {
        T::leq_total();
    }
    let mut i: usize = 0;
    while i < v.len() && v[i].at_most(&x)
        invariant
            i <= v@.len(),
            v.deep_view() == before,
            before == old(v).deep_view(),
            forall|j: int| 0 <= j < i ==> T::leq(before[j], x.deep_view()),
        decreases v@.len() - i,
    {
        i = i + 1;
    }
    let ghost xv = x.deep_view();
    proof {
        if i < v@.len() {
            assert(!T::leq(before[i as int], xv));
            assert(le(before[i as int], xv) || le(xv, before[i as int]));
        }
    }
    v.insert(i, x);
    proof {
        assert(v.deep_view() =~= before.insert(i as int, xv));
        to_multiset_insert(before, i as int, xv);
        let after = v.deep_view();
        assert forall|a: int, b: int| 0 <= a < b < after.len() implies #[trigger] le(after[a], after[b]) by {
            let sa = if a < i { a } else { a - 1 };
            let sb = if b < i { b } else { b - 1 };
            if a == i {
                if sb > i {
                    assert(le(before[i as int], before[sb]));
                    assert(le(xv, before[i as int]));
                }
            } else if b == i {
            } else {
                assert(le(before[sa], before[sb]));
            }
        }
    }
}

/// Sorts a vector.
pub fn sort<T: Sortable>(v: Vec<T>) -> (r: Vec<T>)
    ensures
        r.deep_view() == in_order::<T>(v.deep_view()),
        r@.len() == v@.len(),
{
    let ghost all = v.deep_view();
    let mut rest = v;
    let mut out: Vec<T> = Vec::new();
    proof {
        broadcast use group_to_multiset_ensures;
        assert(all.skip(all.len() as int) =~= Seq::empty());
        assert(out.deep_view() =~= Seq::empty());
        assert(rest.deep_view() =~= all.take(all.len() as int));
    }
    loop
        invariant
            rest@.len() + out@.len() == all.len(),
            rest.deep_view() == all.take(rest@.len() as int),
            sorted_by(out.deep_view(), |a: T::V, b: T::V| T::leq(a, b)),
            out.deep_view().to_multiset() == all.skip(rest@.len() as int).to_multiset(),
        ensures
            rest@.len() == 0,
        decreases rest@.len(),
    {
        let ghost n = rest@.len();
        let ghost before = rest.deep_view();
        match rest.pop() {
            Some(x) => {
                proof {
                    assert(before[n - 1] == x.deep_view());
                    assert(all[n - 1] == x.deep_view());
                    assert(rest.deep_view() =~= all.take(n - 1));
                    assert(all.skip(n - 1) =~= all.skip(n as int).insert(0, all[n - 1]));
                    to_multiset_insert(all.skip(n as int), 0, all[n - 1]);
                }
                insert_ordered(&mut out, x);
            },
            None => {
                break;
            },
        }
    }
    proof {
        assert(all.skip(0) =~= all);
        in_order_unique::<T>(all, out.deep_view());
    }
    out
}

/// The ascending listing, without repetition, of a set of models.
pub open spec fn distinct_in_order<T: Sortable>(set: Set<T::V>) -> Seq<T::V> {
    choose|l: Seq<T::V>|
        sorted_by(l, |a: T::V, b: T::V| T::leq(a, b)) && l.no_duplicates() && #[trigger] l.to_set() == set
}

/// An ascending sequence without repetition is the listing of its elements.
pub proof fn distinct_in_order_unique<T: Sortable>(l: Seq<T::V>)
    requires
        sorted_by(l, |a: T::V, b: T::V| T::leq(a, b)),
        l.no_duplicates(),
    ensures
        distinct_in_order::<T>(l.to_set()) == l,
{
    let le = |a: T::V, b: T::V| T::leq(a, b);
    let c = distinct_in_order::<T>(l.to_set());
    assert(sorted_by(l, le) && l.no_duplicates() && l.to_set() == l.to_set());
    assert(sorted_by(c, le) && c.no_duplicates() && c.to_set() == l.to_set());
    T::leq_total();
    broadcast use group_to_multiset_ensures;
    c.lemma_multiset_has_no_duplicates();
    l.lemma_multiset_has_no_duplicates();
    assert forall|x: T::V| c.to_multiset().count(x) == l.to_multiset().count(x) by {
        assert(c.to_set().contains(x) <==> l.to_set().contains(x));
        assert(c.contains(x) <==> c.to_multiset().count(x) > 0);
        assert(l.contains(x) <==> l.to_multiset().count(x) > 0);
        if c.contains(x) {
            assert(c.to_multiset().contains(x));
            assert(l.to_multiset().contains(x));
        }
    }
    assert(c.to_multiset() =~= l.to_multiset());
    lemma_sorted_unique(c, l, le);
}

/// Every finite set of models has an ascending listing without repetition.
pub proof fn distinct_in_order_exists<T: Sortable>(set: Set<T::V>)
    requires
        set.finite(),
    ensures
        distinct_in_order::<T>(set).to_set() == set,
        distinct_in_order::<T>(set).no_duplicates(),
        sorted_by(distinct_in_order::<T>(set), |a: T::V, b: T::V| T::leq(a, b)),
{
    let le = |a: T::V, b: T::V| T::leq(a, b);
    let s = set.to_seq();
    set.lemma_to_seq_to_set_id();
    enumerated(set);
    let l = in_order::<T>(s);
    in_order_sorted::<T>(s);
    broadcast use group_to_multiset_ensures;
    assert forall|x: T::V| l.to_set().contains(x) <==> set.contains(x) by {
        assert(l.contains(x) <==> s.contains(x));
        assert(s.to_set().contains(x) <==> s.contains(x));
    }
    assert(l.to_set() =~= set);
    s.lemma_multiset_has_no_duplicates();
    l.lemma_multiset_has_no_duplicates_conv();
    assert(sorted_by(l, le) && l.no_duplicates() && l.to_set() == set);
}

proof fn enumerated<A>(set: Set<A>)
    requires
        set.finite(),
    ensures
        set.to_seq().no_duplicates(),
    decreases set.len(),
{
    if set.len() > 0 {
        let x = set.choose();
        let rest = set.remove(x);
        enumerated(rest);
        rest.lemma_to_seq_to_set_id();
        let r = rest.to_seq();
        assert forall|i: int, j: int| 0 <= i < set.to_seq().len() && 0 <= j < set.to_seq().len() && i != j implies set.to_seq()[i]
            != set.to_seq()[j] by {
            assert(!r.contains(x)) by {
                assert(r.to_set().contains(x) <==> r.contains(x));
            }
        }
    }
}

/// Sorts a vector and drops repetitions.
pub fn sort_distinct<T: Sortable>(v: Vec<T>) -> (r: Vec<T>)
    ensures
        r.deep_view() == distinct_in_order::<T>(v.deep_view().to_set()),
        r.deep_view().to_set() == v.deep_view().to_set(),
        r.deep_view().no_duplicates(),
        sorted_by(r.deep_view(), |a: T::V, b: T::V| T::leq(a, b)),
{
    let ghost all = v.deep_view();
    let ghost le = |a: T::V, b: T::V| T::leq(a, b);
    let mut rest = sort(v);
    let ghost ordered = rest.deep_view();
    let mut rev: Vec<T> = Vec::new();
    proof {
        T::leq_total();
        in_order_sorted::<T>(all);
        assert(rest.deep_view() =~= ordered.take(ordered.len() as int));
    }
    // The tail of the sorted vector without repetitions, last element first.
    loop
        invariant
            le == (|a: T::V, b: T::V| T::leq(a, b)),
            total_ordering(le),
            sorted_by(ordered, le),
            rest@.len() <= ordered.len(),
            rest.deep_view() == ordered.take(rest@.len() as int),
            forall|i: int, j: int| 0 <= i < j < rev@.len() ==> le(#[trigger] rev.deep_view()[j], #[trigger] rev.deep_view()[i])
                && rev.deep_view()[i] != rev.deep_view()[j],
            forall|x: T::V| #[trigger] rev.deep_view().contains(x) <==> ordered.skip(rest@.len() as int).contains(x),
        ensures
            rest@.len() == 0,
        decreases rest@.len(),
    {
        let ghost n = rest@.len();
        let ghost rest0 = rest.deep_view();
        let ghost rev0 = rev.deep_view();
        match rest.pop() {
            Some(x) => {
                let ghost xv = x.deep_view();
                proof {
                    assert(rest0[n - 1] == xv);
                    assert(ordered[n - 1] == xv);
                    assert(rest.deep_view() =~= ordered.take(n - 1));
                    let t0 = ordered.skip(n as int);
                    let t1 = ordered.skip(n - 1);
                    assert(t1[0] == xv);
                    assert forall|y: T::V| t1.contains(y) <==> (y == xv || t0.contains(y)) by {
                        if t1.contains(y) {
                            let k = t1.index_of(y);
                            if k > 0 {
                                assert(t0[k - 1] == y);
                            }
                        }
                        if t0.contains(y) {
                            let k = t0.index_of(y);
                            assert(t1[k + 1] == y);
                        }
                    }
                    assert forall|i: int| 0 <= i < rev0.len() implies le(xv, #[trigger] rev0[i]) by {
                        assert(rev0.contains(rev0[i]));
                        let k = t0.index_of(rev0[i]);
                        assert(ordered[n + k] == rev0[i]);
                        assert(le(ordered[n - 1], ordered[n + k]));
                    }
                }
                let repeated = if rev.len() > 0 {
                    rev[rev.len() - 1].at_most(&x)
                } else {
                    false
                };
                if !repeated {
                    rev.push(x);
                    proof {
                        let r1 = rev.deep_view();
                        assert(r1 =~= rev0.push(xv));
                        assert forall|i: int| 0 <= i < rev0.len() implies #[trigger] rev0[i] != xv by {
                            if rev0[i] == xv {
                                if i < rev0.len() - 1 {
                                    assert(le(rev0[rev0.len() - 1], rev0[i]));
                                }
                                assert(le(xv, xv));
                            }
                        }
                        assert forall|y: T::V| #[trigger] r1.contains(y) <==> ordered.skip(n - 1).contains(y) by {
                            assert(r1.contains(y) <==> (y == xv || rev0.contains(y))) by {
                                if rev0.contains(y) {
                                    let k = rev0.index_of(y);
                                    assert(r1[k] == y);
                                }
                                assert(r1[rev0.len() as int] == xv);
                            }
                        }
                    }
                } else {
                    proof {
                        let last = rev0[rev0.len() - 1];
                        assert(le(last, xv) && le(xv, last));
                        assert(last == xv);
                        assert(rev0.contains(xv));
                    }
                }
            },
            None => {
                break;
            },
        }
    }
    let mut out: Vec<T> = Vec::new();
    let ghost revv = rev.deep_view();
    proof {
        assert(rev.deep_view() =~= revv.take(revv.len() as int));
    }
    loop
        invariant
            rev@.len() + out@.len() == revv.len(),
            rev.deep_view() == revv.take(rev@.len() as int),
            forall|i: int| 0 <= i < out@.len() ==> #[trigger] out.deep_view()[i] == revv[revv.len() - 1 - i],
        ensures
            rev@.len() == 0,
        decreases rev@.len(),
    {
        let ghost n = rev@.len();
        let ghost r0 = rev.deep_view();
        match rev.pop() {
            Some(x) => {
                proof {
                    assert(r0[n - 1] == x.deep_view());
                    assert(rev.deep_view() =~= revv.take(n - 1));
                }
                let ghost o0 = out.deep_view();
                let ghost xv = x.deep_view();
                out.push(x);
                proof {
                    assert(out.deep_view() =~= o0.push(xv));
                }
            },
            None => {
                break;
            },
        }
    }
    proof {
        let o = out.deep_view();
        assert(o =~= revv.reverse());
        assert forall|i: int, j: int| 0 <= i < j < o.len() implies #[trigger] le(o[i], o[j]) && o[i] != o[j] by {
            let a = revv.len() - 1 - j;
            let b = revv.len() - 1 - i;
            assert(le(revv[b], revv[a]));
        }
        assert(ordered.skip(0) =~= ordered);
        assert forall|x: T::V| o.to_set().contains(x) <==> all.to_set().contains(x) by {
            if o.contains(x) {
                let k = o.index_of(x);
                assert(revv[revv.len() - 1 - k] == x);
                assert(revv.contains(x));
            }
            if revv.contains(x) {
                let k = revv.index_of(x);
                assert(o[revv.len() - 1 - k] == x);
            }
            assert(revv.contains(x) <==> ordered.contains(x));
            assert(in_order::<T>(all).contains(x) <==> all.contains(x));
        }
        assert(o.to_set() =~= all.to_set());
        assert(sorted_by(o, le));
        assert(o.no_duplicates()) by {
            assert forall|i: int, j: int| 0 <= i < o.len() && 0 <= j < o.len() && i != j implies o[i] != o[j] by {
                if i < j {
                    assert(le(o[i], o[j]) && o[i] != o[j]);
                } else {
                    assert(le(o[j], o[i]) && o[j] != o[i]);
                }
            }
        }
        distinct_in_order_unique::<T>(o);
    }
    out
}

impl Sortable for String {
    open spec fn leq(a: Text, b: Text) -> bool {
        text_le(a, b)
    }

    proof fn leq_total() {
        text_le_total();
        assert((|a: Text, b: Text| Self::leq(a, b)) =~= (|a: Text, b: Text| text_le(a, b)));
    }

    fn at_most(&self, other: &Self) -> (r: bool) {
        let greater = str_lt(other.as_str(), self.as_str());
        proof {
            assert(self.deep_view() == self@ && other.deep_view() == other@);
            assert(greater == text_lt(other@, self@));
            text_lt_connected(self@, other@);
            text_lt_irreflexive(self@);
            if text_lt(self@, other@) && text_lt(other@, self@) {
                text_lt_transitive(self@, other@, self@);
            }
            assert(greater == !text_le(self@, other@));
            assert(Self::leq(self@, other@) == text_le(self@, other@));
        }
        !greater
    }
}

/// The order on pairs of texts: by the first, then by the second.
pub open spec fn pair_le(a: (Text, Text), b: (Text, Text)) -> bool {
    text_lt(a.0, b.0) || (a.0 == b.0 && text_le(a.1, b.1))
}

impl Sortable for (String, String) {
    open spec fn leq(a: (Text, Text), b: (Text, Text)) -> bool {
        pair_le(a, b)
    }

    proof fn leq_total() {
        broadcast use group_text_order;
        let r = |a: (Text, Text), b: (Text, Text)| Self::leq(a, b);
        assert forall|x: (Text, Text), y: (Text, Text)| #[trigger] r(x, y) && #[trigger] r(y, x) implies x == y by {
            text_lt_irreflexive(x.0);
            text_lt_irreflexive(x.1);
        }
        assert forall|x: (Text, Text), y: (Text, Text), z: (Text, Text)| #[trigger] r(x, y) && #[trigger] r(y, z) implies r(x, z) by {
        }
        assert forall|x: (Text, Text), y: (Text, Text)| #[trigger] r(x, y) || #[trigger] r(y, x) by {
            text_lt_connected(x.0, y.0);
            text_lt_connected(x.1, y.1);
        }
    }

    fn at_most(&self, other: &Self) -> (r: bool) {
        proof {
            broadcast use group_text_order;
            text_lt_connected(self.0@, other.0@);
        }
        if str_lt(self.0.as_str(), other.0.as_str()) {
            true
        } else if str_lt(other.0.as_str(), self.0.as_str()) {
            false
        } else {
            self.1.at_most(&other.1)
        }
    }
}

// ---- ascending listings ----

/// Strictly ascending, hence without repetition.
pub open spec fn ascending(s: Seq<Text>) -> bool {
    forall|i: int, j: int| 0 <= i < j < s.len() ==> text_lt(#[trigger] s[i], #[trigger] s[j])
}

/// The ascending listing of a set of texts.
pub open spec fn listing(s: Set<Text>) -> Seq<Text> {
    choose|l: Seq<Text>| ascending(l) && #[trigger] l.to_set() == s
}

proof fn ascending_unique(a: Seq<Text>, b: Seq<Text>)
    requires
        ascending(a),
        ascending(b),
        a.to_set() == b.to_set(),
    ensures
        a == b,
    decreases a.len(),
{
    broadcast use group_text_order;
    if a.len() == 0 {
        if b.len() > 0 {
            assert(b.to_set().contains(b[0]));
            assert(a.to_set().contains(b[0]));
        }
        assert(a =~= b);
    } else {
        assert(a.to_set().contains(a.last()));
        assert(b.to_set().contains(a.last()));
        let i = b.index_of(a.last());
        assert(b.to_set().contains(b.last()));
        assert(a.to_set().contains(b.last()));
        let j = a.index_of(b.last());
        if i < b.len() - 1 {
            assert(text_lt(b[i], b.last()));
            if j < a.len() - 1 {
                assert(text_lt(a[j], a.last()));
                text_lt_transitive(a.last(), b.last(), a.last());
            }
        }
        assert(a.last() == b.last());
        let a2 = a.drop_last();
        let b2 = b.drop_last();
        assert forall|x: Text| a2.to_set().contains(x) <==> b2.to_set().contains(x) by {
            if a2.to_set().contains(x) {
                let k = a2.index_of(x);
                assert(a[k] == x);
                assert(a.to_set().contains(x));
                assert(b.to_set().contains(x));
                let m = b.index_of(x);
                assert(text_lt(a[k], a.last()));
                assert(b2[m] == x);
            }
            if b2.to_set().contains(x) {
                let k = b2.index_of(x);
                assert(b[k] == x);
                assert(b.to_set().contains(x));
                assert(a.to_set().contains(x));
                let m = a.index_of(x);
                assert(text_lt(b[k], b.last()));
                assert(a2[m] == x);
            }
        }
        assert(a2.to_set() =~= b2.to_set());
        ascending_unique(a2, b2);
        assert(a =~= a2.push(a.last()));
        assert(b =~= b2.push(b.last()));
    }
}

/// An ascending sequence is the listing of its own elements.
pub proof fn listing_of(l: Seq<Text>)
    requires
        ascending(l),
    ensures
        listing(l.to_set()) == l,
{
    let c = listing(l.to_set());
    assert(ascending(c) && c.to_set() == l.to_set());
    ascending_unique(c, l);
}

/// Elements of an ascending sequence stand at one place only.
pub proof fn ascending_index(l: Seq<Text>, i: int)
    requires
        ascending(l),
        0 <= i < l.len(),
    ensures
        l.index_of(l[i]) == i,
        l.contains(l[i]),
{
    broadcast use group_text_order;
    let k = l.index_of(l[i]);
    if k < i {
        assert(text_lt(l[k], l[i]));
    }
    if i < k {
        assert(text_lt(l[i], l[k]));
    }
}

/// Where a key stands, or where it would be inserted.
fn find_slot(keys: &Vec<String>, key: &str) -> (r: (bool, usize))
    requires
        ascending(keys.deep_view()),
    ensures
        r.1 <= keys@.len(),
        r.0 == keys.deep_view().contains(key@),
        r.0 ==> r.1 < keys@.len() && keys@[r.1 as int]@ == key@,
        forall|i: int| 0 <= i < r.1 ==> text_lt(#[trigger] keys.deep_view()[i], key@),
        forall|i: int| r.1 <= i < keys@.len() && !r.0 ==> text_lt(key@, #[trigger] keys.deep_view()[i]),
{
    broadcast use group_text_order;
    let mut lo: usize = 0;
    let mut hi: usize = keys.len();
    let ghost ks = keys.deep_view();
    while lo < hi
        invariant
            lo <= hi <= keys@.len(),
            ks == keys.deep_view(),
            ascending(ks),
            forall|i: int| 0 <= i < lo ==> text_lt(#[trigger] ks[i], key@),
            forall|i: int| hi <= i < keys@.len() ==> !text_lt(#[trigger] ks[i], key@),
        decreases hi - lo,
    {
        let mid: usize = lo + (hi - lo) / 2;
        assert(ks[mid as int] == keys@[mid as int]@);
        if str_lt(keys[mid].as_str(), key) {
            proof {
                assert forall|i: int| 0 <= i < mid + 1 implies text_lt(#[trigger] ks[i], key@) by {
                    broadcast use group_text_order;
                    if i < mid {
                        assert(text_lt(ks[i], ks[mid as int]));
                    }
                }
            }
            lo = mid + 1;
        } else {
            proof {
                assert forall|i: int| mid <= i < keys@.len() implies !text_lt(#[trigger] ks[i], key@) by {
                    broadcast use group_text_order;
                    if i > mid {
                        assert(text_lt(ks[mid as int], ks[i]));
                    }
                }
            }
            hi = mid;
        }
    }
    if lo < keys.len() {
        assert(ks[lo as int] == keys@[lo as int]@);
        if str_eq(keys[lo].as_str(), key) {
            return (true, lo);
        }
        proof {
            text_lt_connected(ks[lo as int], key@);
        }
    }
    proof {
        assert forall|i: int| lo <= i < keys@.len() implies text_lt(key@, #[trigger] ks[i]) by {
            text_lt_connected(ks[i], key@);
            if i > lo {
                assert(text_lt(ks[lo as int], ks[i]));
                assert(text_lt(key@, ks[lo as int]));
            }
        }
        if ks.contains(key@) {
            let k = ks.index_of(key@);
            text_lt_irreflexive(key@);
        }
    }
    (false, lo)
}

proof fn ascending_insert(l: Seq<Text>, i: int, x: Text)
    requires
        ascending(l),
        0 <= i <= l.len(),
        forall|k: int| 0 <= k < i ==> text_lt(#[trigger] l[k], x),
        forall|k: int| i <= k < l.len() ==> text_lt(x, #[trigger] l[k]),
    ensures
        ascending(l.insert(i, x)),
        l.insert(i, x).to_set() == l.to_set().insert(x),
{
    let r = l.insert(i, x);
    assert forall|a: int, b: int| 0 <= a < b < r.len() implies text_lt(#[trigger] r[a], #[trigger] r[b]) by {
        let sa = if a < i { a } else { a - 1 };
        let sb = if b < i { b } else { b - 1 };
        if a != i && b != i {
            assert(text_lt(l[sa], l[sb]));
        } else if a == i {
            assert(text_lt(x, l[sb]));
        } else {
            assert(text_lt(l[sa], x));
        }
    }
    assert forall|y: Text| r.to_set().contains(y) <==> l.to_set().insert(x).contains(y) by {
        if r.contains(y) {
            let k = r.index_of(y);
            if k < i {
                assert(l[k] == y);
            } else if k > i {
                assert(l[k - 1] == y);
            }
        }
        if l.contains(y) {
            let k = l.index_of(y);
            if k < i {
                assert(r[k] == y);
            } else {
                assert(r[k + 1] == y);
            }
        }
        assert(r[i] == x);
    }
    assert(r.to_set() =~= l.to_set().insert(x));
}

spec fn slot_of(l: Seq<Text>, x: Text) -> int
    decreases l.len(),
{
    if l.len() == 0 {
        0
    } else if text_lt(l.last(), x) {
        l.len() as int
    } else {
        slot_of(l.drop_last(), x)
    }
}

proof fn slot_fits(l: Seq<Text>, x: Text)
    requires
        ascending(l),
        !l.contains(x),
    ensures
        0 <= slot_of(l, x) <= l.len(),
        forall|k: int| 0 <= k < slot_of(l, x) ==> text_lt(#[trigger] l[k], x),
        forall|k: int| slot_of(l, x) <= k < l.len() ==> text_lt(x, #[trigger] l[k]),
    decreases l.len(),
{
    broadcast use group_text_order;
    if l.len() > 0 {
        let r = l.drop_last();
        if text_lt(l.last(), x) {
            assert forall|k: int| 0 <= k < l.len() implies text_lt(#[trigger] l[k], x) by {
                if k < l.len() - 1 {
                    assert(text_lt(l[k], l.last()));
                }
            }
        } else {
            assert(!r.contains(x)) by {
                if r.contains(x) {
                    let k = r.index_of(x);
                    assert(l[k] == x);
                }
            }
            slot_fits(r, x);
            assert(l.contains(l.last()));
            text_lt_connected(l.last(), x);
            assert forall|k: int| 0 <= k < slot_of(l, x) implies text_lt(#[trigger] l[k], x) by {
                assert(r[k] == l[k]);
            }
            assert forall|k: int| slot_of(l, x) <= k < l.len() implies text_lt(x, #[trigger] l[k]) by {
                if k < r.len() {
                    assert(r[k] == l[k]);
                }
            }
        }
    }
}

/// Every finite set of texts has an ascending listing.
pub proof fn listing_exists(s: Set<Text>)
    requires
        s.finite(),
    ensures
        ascending(listing(s)),
        listing(s).to_set() == s,
        listing(s).no_duplicates(),
        listing(s).len() == s.len(),
        forall|x: Text| listing(s).contains(x) <==> s.contains(x),
    decreases s.len(),
{
    broadcast use group_text_order;
    if s.len() == 0 {
        let l = Seq::<Text>::empty();
        assert(s =~= Set::empty());
        assert(l.to_set() =~= s);
        assert(ascending(l) && l.to_set() == s);
    } else {
        let x = s.choose();
        let rest = s.remove(x);
        listing_exists(rest);
        let l = listing(rest);
        assert(!l.contains(x)) by {
            if l.contains(x) {
                assert(l.to_set().contains(x));
            }
        }
        slot_fits(l, x);
        ascending_insert(l, slot_of(l, x), x);
        let m = l.insert(slot_of(l, x), x);
        assert(m.to_set() =~= s);
        assert(ascending(m) && m.to_set() == s);
    }
    let l = listing(s);
    assert(ascending(l) && l.to_set() == s);
    assert forall|x: Text| l.contains(x) <==> s.contains(x) by {
        assert(l.to_set().contains(x) <==> l.contains(x));
    }
    l.unique_seq_to_set();
}

/// Whether two vectors hold the same models in the same order.
pub fn same_list<T: Sortable>(a: &Vec<T>, b: &Vec<T>) -> (r: bool)
    ensures
        r == (a.deep_view() == b.deep_view()),
{
    if a.len() != b.len() {
        assert(a.deep_view().len() != b.deep_view().len());
        return false;
    }
    let ghost le = |x: T::V, y: T::V| T::leq(x, y);
    proof {
        T::leq_total();
    }
    let mut i: usize = 0;
    while i < a.len()
        invariant
            i <= a@.len(),
            a@.len() == b@.len(),
            le == (|x: T::V, y: T::V| T::leq(x, y)),
            total_ordering(le),
            forall|j: int| 0 <= j < i ==> a@[j].deep_view() == b@[j].deep_view(),
        decreases a@.len() - i,
    {
        let ghost x = a@[i as int].deep_view();
        let ghost y = b@[i as int].deep_view();
        if !(a[i].at_most(&b[i]) && b[i].at_most(&a[i])) {
            proof {
                assert(a.deep_view()[i as int] == x);
                assert(b.deep_view()[i as int] == y);
                if x == y {
                    assert(le(x, y));
                }
            }
            return false;
        }
        assert(le(x, y) && le(y, x));
        i = i + 1;
    }
    assert(a.deep_view() =~= b.deep_view());
    true
}

/// Whether a vector holds a value with this model.
pub fn holds<T: Sortable>(v: &Vec<T>, x: &T) -> (r: bool)
    ensures
        r == v.deep_view().contains(x.deep_view()),
{
    let ghost le = |x: T::V, y: T::V| T::leq(x, y);
    proof {
        T::leq_total();
    }
    let mut i: usize = 0;
    while i < v.len()
        invariant
            i <= v@.len(),
            le == (|x: T::V, y: T::V| T::leq(x, y)),
            total_ordering(le),
            forall|j: int| 0 <= j < i ==> #[trigger] v.deep_view()[j] != x.deep_view(),
        decreases v@.len() - i,
    {
        let ghost a = v@[i as int].deep_view();
        assert(v.deep_view()[i as int] == a);
        if v[i].at_most(x) && x.at_most(&v[i]) {
            assert(le(a, x.deep_view()) && le(x.deep_view(), a));
            return true;
        }
        proof {
            if a == x.deep_view() {
                assert(le(a, a));
            }
        }
        i = i + 1;
    }
    false
}

/// The order on texts with an optional second part, none before any text.
pub open spec fn opt_pair_le(a: (Text, Option<Text>), b: (Text, Option<Text>)) -> bool {
    text_lt(a.0, b.0) || (a.0 == b.0 && match (a.1, b.1) {
        (None, _) => true,
        (Some(_), None) => false,
        (Some(x), Some(y)) => text_le(x, y),
    })
}

impl Sortable for (String, Option<String>) {
    open spec fn leq(a: (Text, Option<Text>), b: (Text, Option<Text>)) -> bool {
        opt_pair_le(a, b)
    }

    proof fn leq_total() {
        broadcast use group_text_order;
        let r = |a: (Text, Option<Text>), b: (Text, Option<Text>)| Self::leq(a, b);
        assert forall|x: (Text, Option<Text>), y: (Text, Option<Text>)| #[trigger] r(x, y) && #[trigger] r(y, x) implies x == y by {
            text_lt_irreflexive(x.0);
            if x.1 is Some {
                text_lt_irreflexive(x.1->0);
            }
        }
        assert forall|x: (Text, Option<Text>), y: (Text, Option<Text>), z: (Text, Option<Text>)|
            #[trigger] r(x, y) && #[trigger] r(y, z) implies r(x, z) by {}
        assert forall|x: (Text, Option<Text>), y: (Text, Option<Text>)| #[trigger] r(x, y) || #[trigger] r(y, x) by {
            text_lt_connected(x.0, y.0);
            if x.1 is Some && y.1 is Some {
                text_lt_connected(x.1->0, y.1->0);
            }
        }
    }

    fn at_most(&self, other: &Self) -> (r: bool) {
        proof {
            broadcast use group_text_order;
            text_lt_connected(self.0@, other.0@);
        }
        if str_lt(self.0.as_str(), other.0.as_str()) {
            return true;
        }
        if str_lt(other.0.as_str(), self.0.as_str()) {
            return false;
        }
        match (&self.1, &other.1) {
            (None, _) => true,
            (Some(_), None) => false,
            (Some(a), Some(b)) => a.at_most(b),
        }
    }
}

/// Two sequences are the same in order exactly when one rearranges the other.
pub proof fn in_order_same<T: Sortable>(a: Seq<T::V>, b: Seq<T::V>)
    ensures
        in_order::<T>(a) == in_order::<T>(b) <==> a.to_multiset() == b.to_multiset(),
{
    in_order_sorted::<T>(a);
    in_order_sorted::<T>(b);
    if a.to_multiset() == b.to_multiset() {
        in_order_unique::<T>(b, in_order::<T>(a));
    }
}

// ---- sets ----

/// A set of strings, held in ascending order.
#[derive(Debug, PartialEq, Eq)]
pub struct StrSet {
    keys: Vec<String>,
}

impl View for StrSet {
    type V = Set<Text>;

    closed spec fn view(&self) -> Set<Text> {
        self.keys.deep_view().to_set()
    }
}

impl StrSet {
    /// The elements are held strictly ascending.
    pub closed spec fn wf(&self) -> bool {
        ascending(self.keys.deep_view())
    }

    /// The elements in ascending order.
    pub closed spec fn items(&self) -> Seq<Text> {
        self.keys.deep_view()
    }

    /// What `items` is.
    pub proof fn items_listed(&self)
        requires
            self.wf(),
        ensures
            self.items() == listing(self@),
            ascending(self.items()),
            self.items().to_set() == self@,
            self.items().no_duplicates(),
            self@.finite(),
            self@.len() == self.items().len(),
    {
        listing_of(self.items());
        broadcast use group_text_order;
        self.items().unique_seq_to_set();
    }

    /// The empty set.
    pub fn new() -> (r: StrSet)
        ensures
            r.wf(),
            r@ == Set::<Text>::empty(),
    {
        let r = StrSet { keys: Vec::new() };
        assert(r@ =~= Set::<Text>::empty());
        r
    }

    /// Number of elements.
    pub fn len(&self) -> (r: usize)
        requires
            self.wf(),
        ensures
            r == self.items().len(),
            r == self@.len(),
    {
        proof {
            self.items_listed();
        }
        self.keys.len()
    }

    /// Whether the set has no element.
    pub fn is_empty(&self) -> (r: bool)
        requires
            self.wf(),
        ensures
            r == (self@ == Set::<Text>::empty()),
            r == (self@.len() == 0),
    {
        proof {
            self.items_listed();
            if self.keys@.len() == 0 {
                assert(self@ =~= Set::<Text>::empty());
            } else {
                assert(self.items().contains(self.items()[0]));
            }
        }
        self.keys.len() == 0
    }

    /// Membership.
    pub fn contains(&self, key: &str) -> (r: bool)
        requires
            self.wf(),
        ensures
            r == self@.contains(key@),
    {
        find_slot(&self.keys, key).0
    }

    /// The `i`-th element in ascending order.
    pub fn at(&self, i: usize) -> (r: &String)
        requires
            self.wf(),
            i < self.items().len(),
        ensures
            r@ == self.items()[i as int],
            self@.contains(r@),
    {
        proof {
            assert(self.items().contains(self.items()[i as int]));
        }
        &self.keys[i]
    }

    /// Adds an element; `true` if it was not there before.
    pub fn insert(&mut self, key: String) -> (r: bool)
        requires
            old(self).wf(),
        ensures
            final(self).wf(),
            final(self)@ == old(self)@.insert(key@),
            r == !old(self)@.contains(key@),
    {
        let slot = find_slot(&self.keys, key.as_str());
        let ghost before = self.keys.deep_view();
        if slot.0 {
            assert(self@ =~= old(self)@.insert(key@));
            false
        } else {
            let ghost k = key@;
            self.keys.insert(slot.1, key);
            proof {
                assert(self.keys.deep_view() =~= before.insert(slot.1 as int, k));
                ascending_insert(before, slot.1 as int, k);
            }
            true
        }
    }

    /// Takes an element out; `true` if it was there.
    pub fn remove(&mut self, key: &str) -> (r: bool)
        requires
            old(self).wf(),
        ensures
            final(self).wf(),
            final(self)@ == old(self)@.remove(key@),
            r == old(self)@.contains(key@),
    {
        let slot = find_slot(&self.keys, key);
        let ghost before = self.keys.deep_view();
        if slot.0 {
            self.keys.remove(slot.1);
            proof {
                let i = slot.1 as int;
                let after = self.keys.deep_view();
                assert(after =~= before.remove(i));
                assert forall|y: Text| after.to_set().contains(y) <==> before.to_set().remove(key@).contains(y) by {
                    broadcast use group_text_order;
                    if after.contains(y) {
                        let k = after.index_of(y);
                        let o = if k < i { k } else { k + 1 };
                        assert(before[o] == y);
                        if o < i {
                            assert(text_lt(before[o], before[i]));
                        } else {
                            assert(text_lt(before[i], before[o]));
                        }
                    }
                    if before.contains(y) && y != key@ {
                        let k = before.index_of(y);
                        let o = if k < i { k } else { k - 1 };
                        assert(after[o] == y);
                    }
                }
                assert(self@ =~= old(self)@.remove(key@));
            }
            true
        } else {
            assert(self@ =~= old(self)@.remove(key@));
            false
        }
    }
}

impl Clone for StrSet {
    fn clone(&self) -> (r: StrSet)
        ensures
            r@ == self@,
            r.items() == self.items(),
            r.wf() == self.wf(),
    {
        let keys = clone_strings(&self.keys);
        StrSet { keys }
    }
}

/// A copy of a vector of strings.
pub fn clone_strings(v: &Vec<String>) -> (r: Vec<String>)
    ensures
        r.deep_view() == v.deep_view(),
{
    let mut out: Vec<String> = Vec::new();
    let mut i: usize = 0;
    while i < v.len()
        invariant
            i <= v@.len(),
            out@.len() == i,
            forall|j: int| 0 <= j < i ==> out@[j]@ == v@[j]@,
        decreases v@.len() - i,
    {
        out.push(v[i].clone());
        i = i + 1;
    }
    assert(out.deep_view() =~= v.deep_view());
    out
}

/// Whether a vector of strings holds `s`.
pub fn contains_str(v: &Vec<String>, s: &str) -> (r: bool)
    ensures
        r == v.deep_view().contains(s@),
{
    let mut i: usize = 0;
    while i < v.len()
        invariant
            i <= v@.len(),
            forall|j: int| 0 <= j < i ==> v@[j]@ != s@,
        decreases v@.len() - i,
    {
        if str_eq(v[i].as_str(), s) {
            assert(v.deep_view()[i as int] == s@);
            return true;
        }
        i = i + 1;
    }
    false
}

// ---- maps ----

/// A map from strings, held in ascending key order.
#[derive(Debug, PartialEq, Eq)]
pub struct StrMap<V> {
    keys: Vec<String>,
    vals: Vec<V>,
}

impl<V> View for StrMap<V> {
    type V = Map<Text, V>;

    closed spec fn view(&self) -> Map<Text, V> {
        paired(self.keys.deep_view(), self.vals@)
    }
}

/// The map that pairs each key with the value at the same place.
spec fn paired<V>(keys: Seq<Text>, vals: Seq<V>) -> Map<Text, V> {
    Map::new(|k: Text| keys.contains(k), |k: Text| vals[keys.index_of(k)])
}

impl<V: DeepView> DeepView for StrMap<V> {
    type V = Map<Text, V::V>;

    open spec fn deep_view(&self) -> Map<Text, V::V> {
        self@.map_values(|v: V| v.deep_view())
    }
}

impl<V> StrMap<V> {
    /// One value per key, the keys strictly ascending.
    pub closed spec fn wf(&self) -> bool {
        self.keys@.len() == self.vals@.len() && ascending(self.keys.deep_view())
    }

    /// The keys in ascending order.
    pub closed spec fn key_list(&self) -> Seq<Text> {
        self.keys.deep_view()
    }

    /// What `key_list` is.
    pub proof fn keys_listed(&self)
        requires
            self.wf(),
        ensures
            self.key_list() == listing(self@.dom()),
            ascending(self.key_list()),
            self.key_list().to_set() == self@.dom(),
            self.key_list().no_duplicates(),
            self@.dom().finite(),
            self@.dom().len() == self.key_list().len(),
    {
        listing_of(self.key_list());
        broadcast use group_text_order;
        self.key_list().unique_seq_to_set();
        assert(self@.dom() =~= self.key_list().to_set());
    }

    /// The empty map.
    pub fn new() -> (r: StrMap<V>)
        ensures
            r.wf(),
            r@ == Map::<Text, V>::empty(),
    {
        let r = StrMap { keys: Vec::new(), vals: Vec::new() };
        assert(r@ =~= Map::<Text, V>::empty());
        r
    }

    /// Number of entries.
    pub fn len(&self) -> (r: usize)
        requires
            self.wf(),
        ensures
            r == self.key_list().len(),
            r == self@.dom().len(),
    {
        proof {
            self.keys_listed();
        }
        self.keys.len()
    }

    /// Whether the map has no entry.
    pub fn is_empty(&self) -> (r: bool)
        requires
            self.wf(),
        ensures
            r == (self@.dom().len() == 0),
    {
        proof {
            self.keys_listed();
        }
        self.keys.len() == 0
    }

    /// Whether a key has an entry.
    pub fn contains_key(&self, key: &str) -> (r: bool)
        requires
            self.wf(),
        ensures
            r == self@.contains_key(key@),
    {
        find_slot(&self.keys, key).0
    }

    /// The value of a key.
    pub fn get(&self, key: &str) -> (r: Option<&V>)
        requires
            self.wf(),
        ensures
            r is Some == self@.contains_key(key@),
            r matches Some(v) ==> *v == self@[key@],
    {
        let slot = find_slot(&self.keys, key);
        if slot.0 {
            proof {
                ascending_index(self.keys.deep_view(), slot.1 as int);
            }
            Some(&self.vals[slot.1])
        } else {
            None
        }
    }

    /// The position of a key in ascending order.
    pub fn position(&self, key: &str) -> (r: Option<usize>)
        requires
            self.wf(),
        ensures
            r is Some == self@.contains_key(key@),
            r matches Some(i) ==> i < self.key_list().len() && self.key_list()[i as int] == key@,
    {
        let slot = find_slot(&self.keys, key);
        if slot.0 {
            Some(slot.1)
        } else {
            None
        }
    }

    /// The `i`-th key in ascending order.
    pub fn key_at(&self, i: usize) -> (r: &String)
        requires
            self.wf(),
            i < self.key_list().len(),
        ensures
            r@ == self.key_list()[i as int],
            self@.contains_key(r@),
    {
        proof {
            ascending_index(self.keys.deep_view(), i as int);
        }
        &self.keys[i]
    }

    /// The value of the `i`-th key.
    pub fn value_at(&self, i: usize) -> (r: &V)
        requires
            self.wf(),
            i < self.key_list().len(),
        ensures
            *r == self@[self.key_list()[i as int]],
            self@.contains_key(self.key_list()[i as int]),
    {
        proof {
            ascending_index(self.keys.deep_view(), i as int);
        }
        &self.vals[i]
    }

    /// A mutable borrow of the value of the `i`-th key.
    pub fn value_mut(&mut self, i: usize) -> (r: &mut V)
        requires
            old(self).wf(),
            i < old(self).key_list().len(),
        ensures
            *r == old(self)@[old(self).key_list()[i as int]],
            old(self)@.contains_key(old(self).key_list()[i as int]),
            final(self).wf(),
            final(self).key_list() == old(self).key_list(),
            final(self)@ == old(self)@.insert(old(self).key_list()[i as int], *final(r)),
    {
        let ghost ks = self.keys.deep_view();
        let ghost vs = self.vals@;
        proof {
            ascending_index(ks, i as int);
            assert forall|v: V| paired(ks, #[trigger] vs.update(i as int, v)) == paired(ks, vs).insert(
                ks[i as int],
                v,
            ) by {
                assert(paired(ks, vs.update(i as int, v)) =~= paired(ks, vs).insert(ks[i as int], v));
            }
        }
        &mut self.vals[i]
    }

    /// Sets the value of a key, replacing an earlier one.
    pub fn insert(&mut self, key: String, val: V)
        requires
            old(self).wf(),
        ensures
            final(self).wf(),
            final(self)@ == old(self)@.insert(key@, val),
    {
        let slot = find_slot(&self.keys, key.as_str());
        let ghost before = self.keys.deep_view();
        let ghost vs = self.vals@;
        let i = slot.1;
        let ghost k0 = key@;
        if slot.0 {
            proof {
                ascending_index(before, i as int);
            }
            self.vals.set(i, val);
            assert(self@ =~= old(self)@.insert(k0, val));
        } else {
            self.keys.insert(i, key);
            self.vals.insert(i, val);
            proof {
                let after = self.keys.deep_view();
                assert(after =~= before.insert(i as int, k0));
                ascending_insert(before, i as int, k0);
                assert forall|k: Text| self@.contains_key(k) <==> old(self)@.insert(k0, val).contains_key(k) by {
                    assert(after.to_set().contains(k) <==> before.to_set().insert(k0).contains(k));
                }
                assert forall|k: Text| self@.contains_key(k) implies self@[k] == old(self)@.insert(k0, val)[k] by {
                    ascending_index(after, i as int);
                    if k != k0 {
                        assert(after.to_set().contains(k));
                        assert(before.to_set().contains(k));
                        let o = before.index_of(k);
                        let n = if o < i { o } else { o + 1 };
                        assert(after[n] == k);
                        ascending_index(after, n);
                        ascending_index(before, o);
                    }
                }
                assert(self@ =~= old(self)@.insert(k0, val));
            }
        }
    }
}

impl<V: DeepView> StrMap<V> {
    /// The models of the values follow an insertion.
    pub proof fn deep_insert(before: Map<Text, V>, after: Map<Text, V>, k: Text, v: V)
        requires
            after == before.insert(k, v),
        ensures
            after.map_values(|x: V| x.deep_view()) == before.map_values(|x: V| x.deep_view()).insert(k, v.deep_view()),
    {
        assert(after.map_values(|x: V| x.deep_view()) =~= before.map_values(|x: V| x.deep_view()).insert(k, v.deep_view()));
    }
}

/// What a filter keeps.
pub proof fn filter_keeps<A>(s: Seq<A>, p: spec_fn(A) -> bool, u: A)
    ensures
        s.filter(p).contains(u) <==> s.contains(u) && p(u),
    decreases s.len(),
{
    reveal(Seq::filter);
    if s.len() > 0 {
        let r = s.drop_last();
        let x = s.last();
        filter_keeps(r, p, u);
        assert(s.contains(u) <==> r.contains(u) || u == x) by {
            if r.contains(u) {
                let k = r.index_of(u);
                assert(s[k] == u);
            }
            assert(s[s.len() - 1] == x);
            if s.contains(u) && u != x {
                let k = s.index_of(u);
                assert(r[k] == u);
            }
        }
        let f = r.filter(p);
        if p(x) {
            assert(s.filter(p) == f.push(x));
            if f.contains(u) {
                let k = f.index_of(u);
                assert(f.push(x)[k] == u);
            }
            assert(f.push(x)[f.len() as int] == x);
            if f.push(x).contains(u) && u != x {
                let k = f.push(x).index_of(u);
                assert(f[k] == u);
            }
        }
    }
}

proof fn filter_ascends(l: Seq<Text>, p: spec_fn(Text) -> bool)
    requires
        ascending(l),
    ensures
        ascending(l.filter(p)),
    decreases l.len(),
{
    reveal(Seq::filter);
    if l.len() > 0 {
        let r = l.drop_last();
        assert(ascending(r));
        filter_ascends(r, p);
        let f = r.filter(p);
        if p(l.last()) {
            let g = l.filter(p);
            assert(g == f.push(l.last()));
            assert forall|i: int, j: int| 0 <= i < j < g.len() implies text_lt(#[trigger] g[i], #[trigger] g[j]) by {
                if j == f.len() {
                    assert(f.contains(f[i]));
                    filter_keeps(r, p, f[i]);
                    let k = r.index_of(f[i]);
                    assert(l[k] == f[i]);
                    assert(text_lt(l[k], l[l.len() - 1]));
                } else {
                    assert(text_lt(f[i], f[j]));
                }
            }
        }
    }
}

/// What a filter keeps of the listing of a set is the listing of what it keeps
/// of the set.
pub proof fn listing_filtered(s: Set<Text>, p: spec_fn(Text) -> bool)
    requires
        s.finite(),
    ensures
        listing(s).filter(p) == listing(Set::new(|u: Text| s.contains(u) && p(u))),
{
    listing_exists(s);
    let f = listing(s).filter(p);
    filter_ascends(listing(s), p);
    let part = Set::new(|u: Text| s.contains(u) && p(u));
    assert forall|u: Text| f.to_set().contains(u) <==> part.contains(u) by {
        filter_keeps(listing(s), p, u);
    }
    assert(f.to_set() =~= part);
    listing_of(f);
}

} // verus!
