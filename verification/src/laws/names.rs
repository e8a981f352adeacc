//! What names, labels, ids and paths are made of.

use vstd::prelude::*;

use super::texts::{decimals_read_back, split_without};
use crate::app::export::{file_name, id_base, label_char, label_text, mermaid_ids_of, reserved};
use crate::dag::project_segment;
use crate::docs::{cell, cell_char, stem_of};
use crate::naming::{first_free, free_number_exists, given, given_facts, numbered};
use crate::paths::{joined_path, last_slash, parent_of, root_of, trimmed_tail};
use crate::sorted::{listing, listing_exists};
use crate::text::{decimal, is_control, rendered, split, split_nonempty, Text};

verus! {

// ---- escaping ----

proof fn rendered_joins(a: Text, b: Text, f: spec_fn(char) -> Text)
    ensures
        rendered(a + b, f) == rendered(a, f) + rendered(b, f),
    decreases b.len(),
{
    if b.len() == 0 {
        assert(a + b =~= a);
        assert(rendered(a, f) + rendered(b, f) =~= rendered(a, f));
    } else {
        assert((a + b).drop_last() =~= a + b.drop_last());
        rendered_joins(a, b.drop_last(), f);
        assert(rendered(a + b, f) =~= rendered(a, f) + rendered(b, f));
    }
}

proof fn rendered_as_is(s: Text, f: spec_fn(char) -> Text)
    requires
        forall|i: int| 0 <= i < s.len() ==> f(#[trigger] s[i]) == seq![s[i]],
    ensures
        rendered(s, f) == s,
    decreases s.len(),
{
    if s.len() > 0 {
        let r = s.drop_last();
        assert forall|i: int| 0 <= i < r.len() implies f(#[trigger] r[i]) == seq![r[i]] by {
            assert(r[i] == s[i]);
        }
        rendered_as_is(r, f);
        assert(s[s.len() - 1] == s.last());
    }
    assert(rendered(s, f) =~= s);
}

proof fn rendered_one(c: char, f: spec_fn(char) -> Text)
    ensures
        rendered(seq![c], f) == f(c),
{
    let e = Seq::<char>::empty();
    assert(seq![c].drop_last() =~= e);
    assert(rendered(e, f) =~= e);
    assert(e + f(c) =~= f(c));
}

/// A label is written character by character: quotes as an entity, control
/// characters as a space, and everything else as it is.
pub proof fn labels_are_written_as_they_are(a: Text, b: Text)
    ensures
        label_text(a + b) == label_text(a) + label_text(b),
        label_text(seq!['"']) == "#quot;"@,
        (forall|i: int| 0 <= i < a.len() ==> #[trigger] a[i] != '"' && !is_control(a[i])) ==> label_text(a) == a,
        a.len() == 1 && is_control(a[0]) ==> label_text(a) == seq![' '],
{
    let f = |c: char| label_char(c);
    rendered_joins(a, b, f);
    rendered_one('"', f);
    if forall|i: int| 0 <= i < a.len() ==> #[trigger] a[i] != '"' && !is_control(a[i]) {
        rendered_as_is(a, f);
    }
    if a.len() == 1 && is_control(a[0]) {
        reveal_strlit(" ");
        rendered_one(a[0], f);
        assert(a =~= seq![a[0]]);
        assert(label_char(a[0]) =~= seq![' ']);
    }
}

/// A table cell is written character by character: a bar behind a backslash,
/// line breaks as a space, and everything else as it is.
pub proof fn cells_are_written_as_they_are(a: Text, b: Text)
    ensures
        cell(a + b) == cell(a) + cell(b),
        cell(seq!['|']) == seq!['\\', '|'],
        cell(seq!['\n']) == seq![' '],
        cell(seq!['\r']) == seq![' '],
        (forall|i: int| 0 <= i < a.len() ==> #[trigger] a[i] != '|' && a[i] != '\n' && a[i] != '\r') ==> cell(a) == a,
{
    let f = |c: char| cell_char(c);
    rendered_joins(a, b, f);
    reveal_strlit("\\|");
    reveal_strlit(" ");
    rendered_one('|', f);
    rendered_one('\n', f);
    rendered_one('\r', f);
    assert(cell_char('|') =~= seq!['\\', '|']);
    assert(cell_char('\n') =~= seq![' ']);
    assert(cell_char('\r') =~= seq![' ']);
    if forall|i: int| 0 <= i < a.len() ==> #[trigger] a[i] != '|' && a[i] != '\n' && a[i] != '\r' {
        rendered_as_is(a, f);
    }
}

/// A file name differs from the name only where that has a path separator.
pub proof fn file_names_keep_the_rest(name: Text, i: int)
    requires
        0 <= i < name.len(),
    ensures
        file_name(name)[i] == if name[i] == '/' || name[i] == '\\' { '_' } else { name[i] },
        file_name(name).len() == name.len(),
{
}

// ---- ids ----

/// A letter or digit of ASCII, or an underscore.
pub open spec fn word_char(c: char) -> bool {
    ('a' <= c && c <= 'z') || ('A' <= c && c <= 'Z') || ('0' <= c && c <= '9') || c == '_'
}

pub(crate) proof fn given_names(uids: Seq<Text>, start: Set<Text>, base: spec_fn(Text) -> Text, u: Text)
    requires
        uids.no_duplicates(),
        start.finite(),
        uids.contains(u),
    ensures
        ({
            let id = given(uids, start, base).ids[u];
            id == base(u) || exists|n: nat| n >= 2 && id == #[trigger] numbered(base(u), n)
        }),
        uids[0] == u && !start.contains(base(u)) ==> given(uids, start, base).ids[u] == base(u),
    decreases uids.len(),
{
    let r = uids.drop_last();
    let x = uids.last();
    assert(uids[uids.len() - 1] == x);
    if u == x {
        given_facts(r, start, base);
        let used = given(r, start, base).used;
        let b = base(x);
        if used.contains(b) {
            free_number_exists(b, used, 2);
            let n = choose|n: nat| first_free(b, used, n);
            assert(first_free(b, used, n));
            assert(given(uids, start, base).ids[u] == numbered(b, n));
        }
        if uids[0] == u {
            assert(uids.len() == 1);
            assert(r =~= Seq::<Text>::empty());
        }
    } else {
        let k = uids.index_of(u);
        assert(r[k] == u);
        given_names(r, start, base, u);
    }
}

/// A Mermaid id is the id of the node with every character but ASCII letters
/// and digits replaced by an underscore, and a number behind it where that is
/// taken; so it is a single word. The first node keeps its bare id unless that
/// is a reserved word.
pub proof fn mermaid_ids_are_words(uids: Set<Text>, u: Text)
    requires
        uids.finite(),
        uids.contains(u),
    ensures
        ({
            let id = mermaid_ids_of(uids)[u];
            &&& id.len() > 0
            &&& id.len() >= u.len()
            &&& forall|i: int| 0 <= i < id.len() ==> word_char(#[trigger] id[i])
            &&& forall|i: int| 0 <= i < u.len() ==> #[trigger] id[i] == (if word_char(u[i]) { u[i] } else { '_' })
            &&& listing(uids)[0] == u && !reserved().contains(id_base(u)) ==> id == id_base(u)
        }),
{
    let base = |w: Text| id_base(w);
    listing_exists(uids);
    let l = listing(uids);
    given_names(l, reserved(), base, u);
    let id = mermaid_ids_of(uids)[u];
    reveal_strlit("_");
    let b = id_base(u);
    assert(b.len() > 0);
    assert forall|i: int| 0 <= i < b.len() implies word_char(#[trigger] b[i]) by {}
    if id != b {
        let n = choose|n: nat| n >= 2 && id == #[trigger] numbered(b, n);
        decimals_read_back(n);
        assert forall|i: int| 0 <= i < id.len() implies word_char(#[trigger] id[i]) by {
            if i > b.len() {
                assert(id[i] == decimal(n)[i - b.len() - 1]);
            }
        }
    }
}

/// The file of a page is named after the id of the node: letters, digits, dots,
/// underscores and dashes stay, and every other character becomes an
/// underscore.
pub proof fn pages_are_named_after_ids(u: Text, i: int)
    requires
        0 <= i < u.len(),
    ensures
        stem_of(u).len() == u.len(),
        stem_of(u)[i] == if word_char(u[i]) || u[i] == '.' || u[i] == '-' { u[i] } else { '_' },
{
}

// ---- paths ----

/// A path that does not end in a separator or a `.` component.
pub open spec fn ends_in_a_name(p: Text) -> bool {
    &&& p.len() > 0
    &&& p.last() != '/'
    &&& !(p.last() == '.' && p.len() > 1 && p[p.len() - 2] == '/')
}

proof fn last_slash_of(p: Text, name: Text)
    requires
        !name.contains('/'),
    ensures
        last_slash(p.push('/') + name) == p.len(),
    decreases name.len(),
{
    let t = p.push('/') + name;
    if name.len() == 0 {
        assert(t =~= p.push('/'));
    } else {
        let r = name.drop_last();
        assert(!r.contains('/')) by {
            if r.contains('/') {
                assert(name[r.index_of('/')] == '/');
            }
        }
        assert(t.drop_last() =~= p.push('/') + r);
        last_slash_of(p, r);
        assert(t.last() == name[name.len() - 1]);
    }
}

/// The parent of a path is what stands before its last component.
pub proof fn parents_drop_the_last_name(p: Text, name: Text)
    requires
        ends_in_a_name(p),
        name.len() > 0,
        !name.contains('/'),
        name != seq!['.'],
    ensures
        parent_of(p.push('/') + name) == Some(p),
{
    let t = p.push('/') + name;
    assert(t.last() == name[name.len() - 1]);
    assert(t.last() != '/');
    if t.last() == '.' && t[t.len() - 2] == '/' {
        if name.len() == 1 {
            assert(name =~= seq!['.']);
        } else {
            assert(t[t.len() - 2] == name[name.len() - 2]);
        }
    }
    assert(trimmed_tail(t) == t);
    last_slash_of(p, name);
    assert(t != seq!['/']);
    let q = t.take(last_slash(t) + 1);
    assert(q =~= p.push('/'));
    assert(q.drop_last() =~= p);
    assert(trimmed_tail(q) == trimmed_tail(p));
    assert(trimmed_tail(p) == p);
}

/// The root of a project is two levels above its file in the target directory.
pub proof fn roots_are_two_levels_up(root: Text, dir: Text, file: Text)
    requires
        ends_in_a_name(root),
        dir.len() > 0,
        !dir.contains('/'),
        dir != seq!['.'],
        file.len() > 0,
        !file.contains('/'),
        file != seq!['.'],
    ensures
        root_of((root.push('/') + dir).push('/') + file) == root,
{
    let mid = root.push('/') + dir;
    assert(mid.last() == dir[dir.len() - 1]);
    if mid.last() == '.' && mid[mid.len() - 2] == '/' {
        if dir.len() == 1 {
            assert(dir =~= seq!['.']);
        } else {
            assert(mid[mid.len() - 2] == dir[dir.len() - 2]);
        }
    }
    parents_drop_the_last_name(root, dir);
    parents_drop_the_last_name(mid, file);
}

/// A relative path is put behind the root with one separator between them; an
/// absolute one stays as it is.
pub proof fn paths_are_joined_by_one_separator(root: Text, rel: Text)
    requires
        root.len() > 0,
    ensures
        ({
            let j = joined_path(root, rel);
            let absolute = rel.len() > 0 && rel[0] == '/';
            &&& absolute ==> j == rel
            &&& !absolute && root.last() != '/' ==> j == root + seq!['/'] + rel
            &&& !absolute && root.last() == '/' ==> j == root + rel
        }),
{
    assert(root.push('/') + rel =~= root + seq!['/'] + rel);
}

// ---- projects ----

proof fn split_begins(l: Text, rest: Text, sep: char)
    requires
        !l.contains(sep),
    ensures
        split(l + seq![sep] + rest, sep) == seq![l] + split(rest, sep),
    decreases rest.len(),
{
    let s = l + seq![sep] + rest;
    if rest.len() == 0 {
        assert(s.drop_last() =~= l);
        split_without(l, sep);
        assert(split(s, sep) =~= seq![l] + split(rest, sep));
    } else {
        let r = rest.drop_last();
        assert(s.drop_last() =~= l + seq![sep] + r);
        split_begins(l, r, sep);
        split_nonempty(r, sep);
        assert(s.last() == rest.last());
        assert(split(s, sep) =~= seq![l] + split(rest, sep));
    }
}

/// The project of an id is what stands between its first and its second dot.
pub proof fn projects_stand_behind_the_kind(kind: Text, project: Text, rest: Text)
    requires
        !kind.contains('.'),
        !project.contains('.'),
        project.len() > 0,
    ensures
        project_segment(kind + seq!['.'] + (project + seq!['.'] + rest)) == Some(project),
        project_segment(kind + seq!['.'] + project) == Some(project),
        project_segment(kind) is None,
{
    split_begins(kind, project + seq!['.'] + rest, '.');
    split_begins(project, rest, '.');
    split_begins(kind, project, '.');
    split_without(project, '.');
    split_without(kind, '.');
}

} // verus!
