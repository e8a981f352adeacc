//! What the operations on texts give, said of their characters.

use vstd::prelude::*;

use crate::dag::NodeModel;
use crate::model_list::{layer_of, rank_of};
use crate::text::{decimal, digit_char, is_white, joined, rendered, split, split_nonempty, trimmed, trimmed_end, trimmed_start, Text};

verus! {

// ---- trimming ----

/// Nothing but white space.
pub open spec fn blank(s: Text) -> bool {
    forall|i: int| 0 <= i < s.len() ==> is_white(#[trigger] s[i])
}

/// White space is what is left blank on a page: never a visible ASCII
/// character, and always the blank, the tabulator and the line breaks.
pub proof fn white_space_is_blank(c: char)
    ensures
        '!' <= c && c <= '~' ==> !is_white(c),
        c == ' ' || c == '\t' || c == '\n' || c == '\r' ==> is_white(c),
{
}

proof fn start_trimmed(s: Text) -> (a: Text)
    ensures
        s == a + trimmed_start(s),
        blank(a),
        trimmed_start(s).len() > 0 ==> !is_white(trimmed_start(s)[0]),
    decreases s.len(),
{
    if s.len() > 0 && is_white(s[0]) {
        let a = start_trimmed(s.drop_first());
        let r = seq![s[0]] + a;
        assert(s =~= seq![s[0]] + s.drop_first());
        assert(r + trimmed_start(s) =~= seq![s[0]] + (a + trimmed_start(s)));
        assert(blank(r)) by {
            assert forall|i: int| 0 <= i < r.len() implies is_white(#[trigger] r[i]) by {
                if i > 0 {
                    assert(r[i] == a[i - 1]);
                }
            }
        }
        r
    } else {
        assert(Seq::<char>::empty() + s =~= s);
        Seq::empty()
    }
}

proof fn end_trimmed(s: Text) -> (b: Text)
    ensures
        s == trimmed_end(s) + b,
        blank(b),
        trimmed_end(s).len() > 0 ==> !is_white(trimmed_end(s).last()),
        trimmed_end(s).len() > 0 ==> trimmed_end(s)[0] == s[0],
    decreases s.len(),
{
    if s.len() > 0 && is_white(s.last()) {
        let b = end_trimmed(s.drop_last());
        let r = b.push(s.last());
        assert(s =~= s.drop_last().push(s.last()));
        assert(trimmed_end(s) + r =~= (trimmed_end(s) + b).push(s.last()));
        r
    } else {
        assert(s + Seq::<char>::empty() =~= s);
        Seq::empty()
    }
}

/// Trimming takes white space off both ends, all of it and nothing else.
pub proof fn trimming_takes_the_ends(s: Text)
    ensures
        exists|a: Text, b: Text| blank(a) && blank(b) && s == #[trigger] (a + trimmed(s) + b),
        trimmed(s).len() > 0 ==> !is_white(trimmed(s)[0]) && !is_white(trimmed(s).last()),
{
    let a = start_trimmed(s);
    let b = end_trimmed(trimmed_start(s));
    assert(a + (trimmed(s) + b) =~= a + trimmed(s) + b);
    assert(s == a + trimmed(s) + b);
}

// ---- splitting and joining ----

pub(crate) proof fn split_without(s: Text, sep: char)
    requires
        !s.contains(sep),
    ensures
        split(s, sep) == seq![s],
    decreases s.len(),
{
    if s.len() > 0 {
        let r = s.drop_last();
        assert(!r.contains(sep)) by {
            if r.contains(sep) {
                assert(s[r.index_of(sep)] == sep);
            }
        }
        split_without(r, sep);
        assert(s[s.len() - 1] == s.last());
        assert(r.push(s.last()) =~= s);
        assert(split(s, sep) =~= seq![s]);
    } else {
        assert(s =~= Seq::empty());
    }
}

proof fn split_first(s: Text, l: Text, sep: char, rest: Text)
    requires
        s == l + seq![sep] + rest,
        !l.contains(sep),
    ensures
        split(s, sep).len() > 1,
        split(s, sep)[0] == l,
    decreases rest.len(),
{
    if rest.len() == 0 {
        assert(s.drop_last() =~= l);
        assert(s.last() == sep);
        split_without(l, sep);
    } else {
        let r = rest.drop_last();
        assert(s.drop_last() =~= l + seq![sep] + r);
        split_first(s.drop_last(), l, sep, r);
    }
}

proof fn first_place(s: Text, c: char) -> (i: int)
    requires
        s.contains(c),
    ensures
        0 <= i < s.len(),
        s[i] == c,
        !s.take(i).contains(c),
    decreases s.len(),
{
    let r = s.drop_last();
    if r.contains(c) {
        let i = first_place(r, c);
        assert(r.take(i) =~= s.take(i));
        i
    } else {
        let k = s.index_of(c);
        assert(k == s.len() - 1) by {
            if k < r.len() {
                assert(r[k] == c);
            }
        }
        assert(s.take(k) =~= r);
        k
    }
}

proof fn joined_grows(parts: Seq<Text>, x: Text, sep: Text)
    requires
        parts.len() > 0,
    ensures
        joined(parts.push(x), sep) == joined(parts, sep) + sep + x,
{
    assert(parts.push(x).drop_last() =~= parts);
}

/// The pieces of a split text hold no separator, and joined by it they are the
/// text again.
pub proof fn pieces_join_back(s: Text, sep: char)
    ensures
        joined(split(s, sep), seq![sep]) == s,
        forall|i: int| 0 <= i < split(s, sep).len() ==> !(#[trigger] split(s, sep)[i]).contains(sep),
    decreases s.len(),
{
    split_nonempty(s, sep);
    if s.len() == 0 {
        assert(s =~= Seq::empty());
        assert(!Seq::<char>::empty().contains(sep));
    } else {
        let r = s.drop_last();
        let ps = split(r, sep);
        let q = split(s, sep);
        pieces_join_back(r, sep);
        split_nonempty(r, sep);
        assert(s =~= r.push(s.last()));
        if s.last() == sep {
            joined_grows(ps, Seq::empty(), seq![sep]);
            assert(r + seq![sep] + Seq::<char>::empty() =~= s);
            assert forall|i: int| 0 <= i < q.len() implies !(#[trigger] q[i]).contains(sep) by {
                if i < ps.len() {
                    assert(q[i] == ps[i]);
                }
            }
        } else {
            let x = ps.last();
            let y = x.push(s.last());
            if ps.len() == 1 {
                assert(q =~= seq![y]);
                assert(y =~= s);
            } else {
                let front = ps.drop_last();
                assert(ps =~= front.push(x));
                assert(q =~= front.push(y));
                joined_grows(front, x, seq![sep]);
                joined_grows(front, y, seq![sep]);
                assert(joined(front, seq![sep]) + seq![sep] + y =~= s);
            }
            assert forall|i: int| 0 <= i < q.len() implies !(#[trigger] q[i]).contains(sep) by {
                if i < ps.len() - 1 {
                    assert(q[i] == ps[i]);
                } else {
                    assert(q[i] == y);
                    assert(!ps[ps.len() - 1].contains(sep));
                    if y.contains(sep) {
                        let k = y.index_of(sep);
                        if k < x.len() {
                            assert(x[k] == sep);
                        }
                    }
                }
            }
        }
    }
}

// ---- numbers ----

/// The number that a decimal notation stands for.
pub open spec fn number(s: Text) -> int
    decreases s.len(),
{
    if s.len() == 0 {
        0
    } else {
        number(s.drop_last()) * 10 + (s.last() as int - '0' as int)
    }
}

/// A number is written with digits, and reads back as itself.
pub proof fn decimals_read_back(n: nat)
    ensures
        number(decimal(n)) == n,
        forall|i: int| 0 <= i < decimal(n).len() ==> '0' <= #[trigger] decimal(n)[i] && decimal(n)[i] <= '9',
        n > 0 ==> decimal(n)[0] != '0',
        decimal(n).len() > 0,
    decreases n,
{
    if n < 10 {
        let s = seq![digit_char(n)];
        assert(s.drop_last() =~= Seq::empty());
        reveal_with_fuel(number, 2);
    } else {
        decimals_read_back(n / 10);
        let s = decimal(n);
        assert(s.drop_last() =~= decimal(n / 10));
        assert(s[0] == decimal(n / 10)[0]);
    }
}

// ---- texts made of parts ----

/// `part` stands in `s`.
pub open spec fn holds_text(s: Text, part: Text) -> bool {
    exists|i: int| 0 <= i && i + part.len() <= s.len() && #[trigger] s.subrange(i, i + part.len()) == part
}

pub proof fn holds_between(before: Text, part: Text, after: Text)
    ensures
        holds_text(before + part + after, part),
{
    let s = before + part + after;
    let i = before.len() as int;
    assert(s.subrange(i, i + part.len()) =~= part);
}

pub proof fn holds_within(s: Text, before: Text, after: Text, part: Text)
    requires
        holds_text(s, part),
    ensures
        holds_text(before + s + after, part),
{
    let i = choose|i: int| 0 <= i && i + part.len() <= s.len() && #[trigger] s.subrange(i, i + part.len()) == part;
    let t = before + s + after;
    let j = before.len() + i;
    assert(t.subrange(j, j + part.len()) =~= s.subrange(i, i + part.len()));
}

/// What is written for each element stands in the text for all of them.
pub proof fn every_part_is_written<A>(s: Seq<A>, f: spec_fn(A) -> Text, k: int)
    requires
        0 <= k < s.len(),
    ensures
        holds_text(rendered(s, f), f(s[k])),
    decreases s.len(),
{
    let r = s.drop_last();
    let e = Seq::<char>::empty();
    if k < r.len() {
        every_part_is_written(r, f, k);
        holds_within(rendered(r, f), e, f(s.last()), f(s[k]));
        assert(e + rendered(r, f) + f(s.last()) =~= rendered(s, f));
    } else {
        holds_between(rendered(r, f), f(s.last()), e);
        assert(rendered(r, f) + f(s.last()) + e =~= rendered(s, f));
    }
}

// ---- layers ----

/// The layer of a node is the first directory of its path: what stands before
/// the first `/`.
pub proof fn layer_is_the_first_directory(n: NodeModel, l: Text)
    ensures
        layer_of(n) == Some(l) <==> exists|rest: Text|
            !l.contains('/') && n.path == Some(#[trigger] (l + seq!['/'] + rest)),
        n.path is None ==> layer_of(n) is None,
        n.path matches Some(p) ==> (layer_of(n) is None <==> !p.contains('/')),
{
    if let Some(p) = n.path {
        if p.contains('/') {
            let i = first_place(p, '/');
            let l1 = p.take(i);
            let r1 = p.skip(i + 1);
            assert(p =~= l1 + seq!['/'] + r1);
            split_first(p, l1, '/', r1);
            if layer_of(n) == Some(l) {
                assert(n.path == Some(l + seq!['/'] + r1));
            }
        } else {
            split_without(p, '/');
        }
        if exists|rest: Text| !l.contains('/') && n.path == Some(#[trigger] (l + seq!['/'] + rest)) {
            let rest = choose|rest: Text| !l.contains('/') && n.path == Some(#[trigger] (l + seq!['/'] + rest));
            split_first(p, l, '/', rest);
            assert(p[l.len() as int] == '/');
        }
    }
}

/// The layers in the order in which a project flows.
pub open spec fn flow() -> Seq<Text> {
    seq!["staging"@, "intermediate"@, "marts"@, "utilities"@]
}

/// The named layers are ranked as the project flows, all others behind them.
pub proof fn ranks_follow_the_flow(l: Text)
    ensures
        forall|i: int| 0 <= i < 4 && l == #[trigger] flow()[i] ==> rank_of(l) == i,
        !flow().contains(l) ==> rank_of(l) == 4,
        rank_of(l) < 4 ==> flow()[rank_of(l) as int] == l,
{
    reveal_strlit("staging");
    reveal_strlit("intermediate");
    reveal_strlit("marts");
    reveal_strlit("utilities");
    assert("staging"@.len() == 7 && "intermediate"@.len() == 12 && "marts"@.len() == 5 && "utilities"@.len() == 9);
    assert(flow()[0] == "staging"@ && flow()[1] == "intermediate"@ && flow()[2] == "marts"@ && flow()[3] == "utilities"@);
}

} // verus!
