//! What foreign text can never do to the texts that it is put into.

use vstd::prelude::*;

use crate::app::export::{dot_char, dot_text, file_name, label_char, label_text};
use crate::dag::DagModel;
use crate::docs::{cell, cell_char, files_of, page_links, page_path, stem_char, stem_of};
use crate::naming::{given, given_facts, numbered};
use crate::sorted::{listing, listing_exists};
use crate::app::AppModel;
use crate::paths::{joined_path, stays_below};
use crate::text::{decimal, digit_char, is_control, rendered, split, split_nonempty, Text};

verus! {

/// No quote and no control character is left in a Mermaid label, so a name can
/// neither close its label nor break out of its line.
pub proof fn labels_stay_closed(s: Text)
    ensures
        forall|i: int| 0 <= i < label_text(s).len() ==> #[trigger] label_text(s)[i] != '"' && !is_control(label_text(s)[i]),
    decreases s.len(),
{
    reveal_strlit("#quot;");
    reveal_strlit(" ");
    let f = |c: char| label_char(c);
    if s.len() > 0 {
        labels_stay_closed(s.drop_last());
        let a = rendered(s.drop_last(), f);
        let b = f(s.last());
        assert forall|i: int| 0 <= i < label_text(s).len() implies #[trigger] label_text(s)[i] != '"' && !is_control(label_text(s)[i]) by {
            if i < a.len() {
                assert(label_text(s)[i] == label_text(s.drop_last())[i]);
            } else {
                assert(label_text(s)[i] == b[i - a.len()]);
            }
        }
    }
}

/// No line break is left in a table cell, so a text can not end its row.
pub proof fn cells_stay_on_their_line(s: Text)
    ensures
        forall|i: int| 0 <= i < cell(s).len() ==> #[trigger] cell(s)[i] != '\n' && cell(s)[i] != '\r',
    decreases s.len(),
{
    reveal_strlit("\\|");
    reveal_strlit(" ");
    let f = |c: char| cell_char(c);
    if s.len() > 0 {
        cells_stay_on_their_line(s.drop_last());
        let a = rendered(s.drop_last(), f);
        let b = f(s.last());
        assert forall|i: int| 0 <= i < cell(s).len() implies #[trigger] cell(s)[i] != '\n' && cell(s)[i] != '\r' by {
            if i < a.len() {
                assert(cell(s)[i] == cell(s.drop_last())[i]);
            } else {
                assert(cell(s)[i] == b[i - a.len()]);
            }
        }
    }
}

/// Every `|` in a table cell has a backslash before it, so a text can not open
/// another column.
pub proof fn cells_stay_in_their_column(s: Text)
    ensures
        forall|i: int| 0 <= i < cell(s).len() && #[trigger] cell(s)[i] == '|' ==> i > 0 && cell(s)[i - 1] == '\\',
    decreases s.len(),
{
    reveal_strlit("\\|");
    reveal_strlit(" ");
    let f = |c: char| cell_char(c);
    if s.len() > 0 {
        cells_stay_in_their_column(s.drop_last());
        let a = rendered(s.drop_last(), f);
        let b = f(s.last());
        assert forall|i: int| 0 <= i < cell(s).len() && #[trigger] cell(s)[i] == '|' implies i > 0 && cell(s)[i - 1]
            == '\\' by {
            if i < a.len() {
                assert(cell(s)[i] == cell(s.drop_last())[i]);
                assert(cell(s)[i - 1] == cell(s.drop_last())[i - 1]);
            } else {
                assert(cell(s)[i] == b[i - a.len()]);
                assert(i - a.len() == 1);
                assert(cell(s)[i - 1] == b[0]);
            }
        }
    }
}

/// What a quoted Graphviz string with this body stands for; none where a quote
/// inside would end it, or where a backslash at the end would keep it open.
pub open spec fn quoted(body: Text) -> Option<Text>
    decreases body.len(),
{
    if body.len() == 0 {
        Some(Seq::empty())
    } else if body[0] == '"' || (body[0] == '\\' && body.len() == 1) {
        None
    } else {
        let n: int = if body[0] == '\\' {
            2
        } else {
            1
        };
        match quoted(body.skip(n)) {
            Some(rest) => Some(seq![body[n - 1]] + rest),
            None => None,
        }
    }
}

proof fn rendered_first<A>(s: Seq<A>, f: spec_fn(A) -> Text)
    requires
        s.len() > 0,
    ensures
        rendered(s, f) == f(s[0]) + rendered(s.skip(1), f),
    decreases s.len(),
{
    if s.len() == 1 {
        assert(s.drop_last() =~= Seq::<A>::empty());
        assert(s.skip(1) =~= Seq::<A>::empty());
        assert(rendered(s, f) =~= f(s[0]) + rendered(s.skip(1), f));
    } else {
        rendered_first(s.drop_last(), f);
        assert(s.drop_last().skip(1) =~= s.skip(1).drop_last());
        assert(rendered(s, f) =~= f(s[0]) + rendered(s.skip(1), f));
    }
}

/// An id or a label in a Graphviz diagram reads back as it was: no quote and no
/// backslash in it can end its string or keep it open.
pub proof fn graphviz_strings_read_back(s: Text)
    ensures
        quoted(dot_text(s)) == Some(s),
    decreases s.len(),
{
    reveal_strlit("\\\\");
    reveal_strlit("\\\"");
    let f = |c: char| dot_char(c);
    if s.len() > 0 {
        let rest = s.skip(1);
        graphviz_strings_read_back(rest);
        rendered_first(s, f);
        let head = dot_char(s[0]);
        let body = dot_text(s);
        assert(body == head + dot_text(rest));
        assert(body.skip(head.len() as int) =~= dot_text(rest));
        assert(seq![s[0]] + rest =~= s);
    } else {
        assert(dot_text(s) =~= Seq::<char>::empty());
        assert(s =~= Seq::<char>::empty());
    }
}

/// The file of an export is a single path component, whatever the node is
/// called.
pub proof fn export_stays_in_its_directory(name: Text)
    ensures
        !file_name(name).contains('/'),
        !file_name(name).contains('\\'),
        file_name(name).len() == name.len(),
{
    if file_name(name).contains('/') {
        let k = file_name(name).index_of('/');
        assert(file_name(name)[k] == '/');
    }
    if file_name(name).contains('\\') {
        let k = file_name(name).index_of('\\');
        assert(file_name(name)[k] == '\\');
    }
}

// ---- links between pages ----

proof fn decimal_has_no_slash(n: nat)
    ensures
        !decimal(n).contains('/'),
    decreases n,
{
    if n >= 10 {
        decimal_has_no_slash(n / 10);
        if decimal(n).contains('/') {
            let k = decimal(n).index_of('/');
            if k < decimal(n / 10).len() {
                assert(decimal(n / 10)[k] == '/');
            }
        }
    } else if decimal(n).contains('/') {
        let k = decimal(n).index_of('/');
        assert(decimal(n)[k] == digit_char(n));
    }
}

proof fn stem_has_no_slash(uid: Text)
    ensures
        !stem_of(uid).contains('/'),
{
    reveal_strlit("_");
    if stem_of(uid).contains('/') {
        let k = stem_of(uid).index_of('/');
        assert(stem_of(uid)[k] == '/');
        if uid.len() > 0 {
            assert(stem_of(uid)[k] == stem_char(uid[k]));
        }
    }
}

proof fn numbered_has_no_slash(base: Text, n: nat)
    requires
        !base.contains('/'),
    ensures
        !numbered(base, n).contains('/'),
{
    reveal_strlit("_");
    decimal_has_no_slash(n);
    let x = numbered(base, n);
    if x.contains('/') {
        let k = x.index_of('/');
        if k < base.len() {
            assert(base[k] == '/');
        } else if k > base.len() {
            assert(decimal(n)[k - base.len() - 1] == '/');
        }
    }
}

/// The file names given to some ids.
spec fn file_names(uids: Seq<Text>) -> Map<Text, Text> {
    given(uids, Set::empty(), |w: Text| stem_of(w)).ids
}

proof fn given_names_have_no_slash(uids: Seq<Text>)
    requires
        uids.no_duplicates(),
    ensures
        forall|u: Text| uids.contains(u) ==> !(#[trigger] file_names(uids)[u]).contains('/'),
    decreases uids.len(),
{
    let base = |w: Text| stem_of(w);
    if uids.len() > 0 {
        let rest = uids.drop_last();
        let x = uids.last();
        given_names_have_no_slash(rest);
        let g = given(rest, Set::empty(), base);
        stem_has_no_slash(x);
        if g.used.contains(stem_of(x)) {
            let b = stem_of(x);
            let n = choose|n: nat| crate::naming::first_free(b, g.used, n);
            numbered_has_no_slash(b, n);
        }
        assert forall|u: Text| uids.contains(u) implies !(#[trigger] file_names(uids)[u]).contains('/') by {
            if u != x {
                let k = uids.index_of(u);
                assert(rest[k] == u);
                assert(!file_names(rest)[u].contains('/'));
            }
        }
    }
}

proof fn split_last(a: Text, b: Text, sep: char)
    requires
        a.len() > 0,
        a.last() == sep,
        !b.contains(sep),
    ensures
        split(a + b, sep).last() == b,
    decreases b.len(),
{
    if b.len() == 0 {
        assert(a + b =~= a);
        split_nonempty(a.drop_last(), sep);
        assert(b =~= Seq::empty());
    } else {
        let r = b.drop_last();
        assert(!r.contains(sep)) by {
            if r.contains(sep) {
                let k = r.index_of(sep);
                assert(b[k] == sep);
            }
        }
        assert(b[b.len() - 1] == b.last());
        assert((a + b).drop_last() =~= a + r);
        assert((a + b).last() == b.last());
        split_last(a, r, sep);
        split_nonempty(a + r, sep);
        assert(r.push(b.last()) =~= b);
    }
}

/// The editor only opens files below the project root: what is opened is the
/// root and a recorded path that is neither absolute nor climbs.
pub proof fn opened_files_stay_in_the_project(a: AppModel)
    requires
        a.file_path() is Some,
    ensures
        exists|rel: Text| #[trigger] stays_below(rel) && a.file_path() == Some(joined_path(a.project_root, rel)),
        a.project_root.is_prefix_of(a.file_path()->0),
{
    reveal(AppModel::file_path);
    let rel = a.dag.details[a.selected_id()->0].original_file_path->0;
    assert(stays_below(rel));
    let p = joined_path(a.project_root, rel);
    assert(p.take(a.project_root.len() as int) =~= a.project_root);
}

/// A link from one page to another leads to the file of the other.
pub proof fn links_lead_to_pages(d: DagModel, u: Text)
    requires
        d.valid(),
        d.nodes.contains_key(u),
    ensures
        page_links(files_of(d)).contains_key(u),
        "models/"@ + page_links(files_of(d))[u] == files_of(d)[u],
{
    let base = |w: Text| stem_of(w);
    let ids = listing(d.nodes.dom());
    listing_exists(d.nodes.dom());
    given_facts(ids, Set::empty(), base);
    given_names_have_no_slash(ids);
    let g = given(ids, Set::empty(), base).ids;
    assert(ids.contains(u));
    assert(g.contains_key(u));
    let stem = g[u];
    assert(stem == file_names(ids)[u]);
    assert(!stem.contains('/'));
    reveal_strlit("models/");
    reveal_strlit(".md");
    let file = stem + ".md"@;
    assert(!file.contains('/')) by {
        if file.contains('/') {
            let k = file.index_of('/');
            if k < stem.len() {
                assert(stem[k] == '/');
            }
        }
    }
    assert(page_path(stem) =~= "models/"@ + file);
    split_last("models/"@, file, '/');
}

} // verus!
