//! File paths as text, with `/` between components.

use vstd::prelude::*;

use crate::text::{chars_of, split, split_at_char, string_of, Text};

verus! {

/// A path without separators and `.` components at its end; the root stays.
pub open spec fn trimmed_tail(p: Text) -> Text
    decreases p.len(),
{
    if p.len() > 1 && (p.last() == '/' || (p.last() == '.' && p[p.len() - 2] == '/')) {
        trimmed_tail(p.drop_last())
    } else {
        p
    }
}

/// The place of the last `/`, -1 where there is none.
pub open spec fn last_slash(p: Text) -> int
    decreases p.len(),
{
    if p.len() == 0 {
        -1
    } else if p.last() == '/' {
        p.len() - 1
    } else {
        last_slash(p.drop_last())
    }
}

/// A path without its final component; none for the root and the empty path.
pub open spec fn parent_of(p: Text) -> Option<Text> {
    let t = trimmed_tail(p);
    if t.len() == 0 || t == seq!['/'] {
        None
    } else {
        Some(trimmed_tail(t.take(last_slash(t) + 1)))
    }
}

/// Where `rel` leads from `root`: an absolute `rel` replaces the root.
pub open spec fn joined_path(root: Text, rel: Text) -> Text {
    if rel.len() > 0 && rel[0] == '/' {
        rel
    } else if root.len() == 0 || root.last() == '/' {
        root + rel
    } else {
        root.push('/') + rel
    }
}

/// A path that stays below where it starts: not absolute, and without `..`.
pub open spec fn stays_below(p: Text) -> bool {
    !(p.len() > 0 && p[0] == '/') && !split(p, '/').contains(".."@)
}

fn tail_end(cs: &Vec<char>, to: usize) -> (r: usize)
    requires
        to <= cs@.len(),
    ensures
        r <= to,
        cs@.take(r as int) == trimmed_tail(cs@.take(to as int)),
{
    let mut n: usize = to;
    while n > 1 && (cs[n - 1] == '/' || (cs[n - 1] == '.' && cs[n - 2] == '/'))
        invariant
            n <= to <= cs@.len(),
            trimmed_tail(cs@.take(n as int)) == trimmed_tail(cs@.take(to as int)),
        decreases n,
    {
        assert(cs@.take(n as int).drop_last() =~= cs@.take(n - 1));
        n = n - 1;
    }
    n
}

/// The path without its final component.
pub fn parent(p: &str) -> (r: Option<String>)
    ensures
        r.deep_view() == parent_of(p@),
{
    let cs = chars_of(p);
    assert(cs@.take(cs@.len() as int) =~= cs@);
    let n = tail_end(&cs, cs.len());
    let ghost t = cs@.take(n as int);
    if n == 0 {
        return None;
    }
    if n == 1 && cs[0] == '/' {
        assert(t =~= seq!['/']);
        return None;
    }
    let mut k: usize = n;
    assert(t =~= t.take(k as int));
    while k > 0 && cs[k - 1] != '/'
        invariant
            k <= n <= cs@.len(),
            t == cs@.take(n as int),
            last_slash(t) == last_slash(t.take(k as int)),
        decreases k,
    {
        assert(t.take(k as int).drop_last() =~= t.take(k - 1));
        k = k - 1;
    }
    assert(last_slash(t) == k - 1);
    assert(t.take(k as int) =~= cs@.take(k as int));
    let m = tail_end(&cs, k);
    let r = string_of(&cs, 0, m);
    assert(cs@.subrange(0, m as int) =~= cs@.take(m as int));
    Some(r)
}

/// Where `rel` leads from `root`.
pub fn join_path(root: &str, rel: &str) -> (r: String)
    ensures
        r@ == joined_path(root@, rel@),
{
    let a = chars_of(root);
    let b = chars_of(rel);
    if b.len() > 0 && b[0] == '/' {
        return rel.to_owned();
    }
    let mut out = root.to_owned();
    if a.len() > 0 && a[a.len() - 1] != '/' {
        out.push('/');
    }
    out.append(rel);
    out
}

/// Whether a recorded path stays below where it starts.
pub fn is_below(p: &str) -> (r: bool)
    ensures
        r == stays_below(p@),
{
    let cs = chars_of(p);
    if cs.len() > 0 && cs[0] == '/' {
        return false;
    }
    let pieces = split_at_char(p, '/');
    !crate::sorted::contains_str(&pieces, "..")
}

/// The project root of a manifest path: two levels up, `.` where there are not
/// that many.
pub open spec fn root_of(manifest: Text) -> Text {
    match parent_of(manifest) {
        Some(p) => match parent_of(p) {
            Some(r) => r,
            None => "."@,
        },
        None => "."@,
    }
}

/// The dbt project root of a manifest in `<root>/target`.
pub fn derive_project_root(manifest: &str) -> (r: String)
    ensures
        r@ == root_of(manifest@),
{
    match parent(manifest) {
        Some(p) => match parent(p.as_str()) {
            Some(r) => r,
            None => ".".to_owned(),
        },
        None => ".".to_owned(),
    }
}

} // verus!
