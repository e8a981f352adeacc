//! What can be copied and exported: Mermaid, Graphviz and plain-text diagrams,
//! raw SQL, a dbt command, and the Markdown reports. All are functions of the
//! state, so the same state gives the same text.

use vstd::prelude::*;
use vstd::set_lib::*;

use crate::dag::{Edge, NodeInfo, NodeModel, Subgraph, SubgraphModel};
use crate::naming::{all_taken, given, given_facts, numbered, numbered_below, numbered_below_size, pick_id, room};
use crate::sorted::{listing, listing_exists, StrMap, StrSet};
use crate::text::{
    alnum, appended_in_turn, chars_of, control, is_alnum, is_control, rendered, rendered_all, rendered_step, str_eq,
    Text,
};

verus! {

// ---- escaping ----

/// What a character becomes in a Mermaid label: a quote becomes an entity, a
/// control character a space.
pub open spec fn label_char(c: char) -> Text {
    if c == '"' {
        "#quot;"@
    } else if is_control(c) {
        " "@
    } else {
        seq![c]
    }
}

/// A text inside a quoted Mermaid label.
pub open spec fn label_text(s: Text) -> Text {
    rendered(s, |c: char| label_char(c))
}

/// Escapes a text for a quoted Mermaid label.
pub fn mermaid_label(name: &str) -> (r: String)
    ensures
        r@ == label_text(name@),
{
    let cs = chars_of(name);
    let ghost f = |c: char| label_char(c);
    let mut out = String::new();
    let mut i: usize = 0;
    proof {
        rendered_all(cs@, f);
    }
    while i < cs.len()
        invariant
            i <= cs@.len(),
            f == (|c: char| label_char(c)),
            out@ == rendered(cs@.take(i as int), f),
        decreases cs@.len() - i,
    {
        proof {
            rendered_step(cs@, i as int, f);
        }
        let c = cs[i];
        if c == '"' {
            out.append("#quot;");
        } else if control(c) {
            out.append(" ");
        } else {
            let ghost o = out@;
            out.push(c);
            assert(out@ =~= o + seq![c]);
        }
        i = i + 1;
    }
    out
}

/// What a character becomes in a Graphviz string.
pub open spec fn dot_char(c: char) -> Text {
    if c == '\\' {
        "\\\\"@
    } else if c == '"' {
        "\\\""@
    } else {
        seq![c]
    }
}

/// A text inside a quoted Graphviz string.
pub open spec fn dot_text(s: Text) -> Text {
    rendered(s, |c: char| dot_char(c))
}

/// Escapes a text for a quoted Graphviz string.
fn dot_escape(s: &str) -> (r: String)
    ensures
        r@ == dot_text(s@),
{
    let cs = chars_of(s);
    let ghost f = |c: char| dot_char(c);
    let mut out = String::new();
    let mut i: usize = 0;
    proof {
        rendered_all(cs@, f);
    }
    while i < cs.len()
        invariant
            i <= cs@.len(),
            f == (|c: char| dot_char(c)),
            out@ == rendered(cs@.take(i as int), f),
        decreases cs@.len() - i,
    {
        proof {
            rendered_step(cs@, i as int, f);
        }
        let c = cs[i];
        if c == '\\' {
            out.append("\\\\");
        } else if c == '"' {
            out.append("\\\"");
        } else {
            let ghost o = out@;
            out.push(c);
            assert(out@ =~= o + seq![c]);
        }
        i = i + 1;
    }
    out
}

/// A name as a file name: path separators become underscores.
pub open spec fn file_name(s: Text) -> Text {
    s.map_values(
        |c: char|
            if c == '/' || c == '\\' {
                '_'
            } else {
                c
            },
    )
}

/// A name as a single path component.
pub fn safe_file_name(name: &str) -> (r: String)
    ensures
        r@ == file_name(name@),
{
    let cs = chars_of(name);
    let mut out = String::new();
    let mut i: usize = 0;
    while i < cs.len()
        invariant
            i <= cs@.len(),
            out@.len() == i,
            forall|j: int| 0 <= j < i ==> #[trigger] out@[j] == (if cs@[j] == '/' || cs@[j] == '\\' {
                '_'
            } else {
                cs@[j]
            }),
        decreases cs@.len() - i,
    {
        if cs[i] == '/' || cs[i] == '\\' {
            out.push('_');
        } else {
            out.push(cs[i]);
        }
        i = i + 1;
    }
    assert(out@ =~= file_name(name@));
    out
}

// ---- Mermaid ids ----

/// An id with every character but ASCII letters and digits replaced by `_`;
/// never empty.
pub open spec fn id_base(uid: Text) -> Text {
    if uid.len() == 0 {
        "_"@
    } else {
        uid.map_values(
            |c: char|
                if is_alnum(c) {
                    c
                } else {
                    '_'
                },
        )
    }
}

/// The words with a meaning of their own in Mermaid.
pub open spec fn reserved() -> Set<Text> {
    Set::<Text>::empty().insert("end"@).insert("subgraph"@).insert("graph"@).insert("flowchart"@).insert("direction"@).insert(
        "style"@,
    ).insert("linkStyle"@).insert("classDef"@).insert("class"@).insert("click"@)
}

/// The Mermaid id of each of a set of ids, given out in ascending order.
pub open spec fn mermaid_ids_of(uids: Set<Text>) -> Map<Text, Text> {
    given(listing(uids), reserved(), |u: Text| id_base(u)).ids
}

fn base_id(uid: &str) -> (r: String)
    ensures
        r@ == id_base(uid@),
{
    let cs = chars_of(uid);
    if cs.len() == 0 {
        return "_".to_owned();
    }
    let mut out = String::new();
    let mut i: usize = 0;
    while i < cs.len()
        invariant
            i <= cs@.len(),
            out@.len() == i,
            forall|j: int| 0 <= j < i ==> #[trigger] out@[j] == (if is_alnum(cs@[j]) {
                cs@[j]
            } else {
                '_'
            }),
        decreases cs@.len() - i,
    {
        if alnum(cs[i]) {
            out.push(cs[i]);
        } else {
            out.push('_');
        }
        i = i + 1;
    }
    assert(out@ =~= id_base(uid@));
    out
}

/// While all numbered ids below `n` are taken, more than `n` words are.
proof fn taken_bound(base: Text, used: Set<Text>, n: nat)
    requires
        used.finite(),
        used.contains(base),
        used.contains("graph"@),
        used.contains("style"@),
        n >= 2,
        forall|k: nat| 2 <= k < n ==> used.contains(#[trigger] numbered(base, k)),
    ensures
        n <= used.len(),
{
    numbered_below_size(base, n);
    reveal_strlit("graph");
    reveal_strlit("style");
    reveal_strlit("_");
    let s = numbered_below(base, n);
    assert forall|k: nat| #[trigger] numbered(base, k)[base.len() as int] == '_' by {}
    let t = s.insert(base);
    assert(!s.contains(base)) by {
        if s.contains(base) {
            let k = choose|k: nat| 2 <= k < n && base == #[trigger] numbered(base, k);
            assert(numbered(base, k).len() > base.len());
        }
    }
    let word = if base == "graph"@ {
        "style"@
    } else {
        "graph"@
    };
    assert("graph"@[0] != "style"@[0]);
    assert(!t.contains(word)) by {
        if s.contains(word) {
            let k = choose|k: nat| 2 <= k < n && word == #[trigger] numbered(base, k);
            assert(word[base.len() as int] == '_');
            assert(word.len() == 5);
            assert(base.len() < 5);
        }
    }
    let all = t.insert(word);
    assert(all.subset_of(used)) by {
        assert forall|x: Text| all.contains(x) implies used.contains(x) by {
            if s.contains(x) {
                let k = choose|k: nat| 2 <= k < n && x == #[trigger] numbered(base, k);
                assert(used.contains(numbered(base, k)));
            }
        }
    }
    lemma_len_subset(all, used);
}

/// Among the reserved words is one that no numbered id equals.
proof fn room_beside_reserved(base: Text, used: &StrSet)
    requires
        used.wf(),
        used@.contains(base),
        used@.contains("graph"@),
        used@.contains("style"@),
        used@.len() <= usize::MAX,
    ensures
        room(base, used@),
{
    used.items_listed();
    assert forall|n: nat| #[trigger] all_taken(base, used@, n) implies n <= usize::MAX by {
        taken_bound(base, used@, n);
    }
}

fn reserved_words() -> (r: StrSet)
    ensures
        r.wf(),
        r@ == reserved(),
{
    let mut s = StrSet::new();
    s.insert("end".to_owned());
    s.insert("subgraph".to_owned());
    s.insert("graph".to_owned());
    s.insert("flowchart".to_owned());
    s.insert("direction".to_owned());
    s.insert("style".to_owned());
    s.insert("linkStyle".to_owned());
    s.insert("classDef".to_owned());
    s.insert("class".to_owned());
    s.insert("click".to_owned());
    s
}

/// The Mermaid ids of a set of ids.
pub fn mermaid_ids(uids: &StrSet) -> (r: StrMap<String>)
    requires
        uids.wf(),
    ensures
        r.wf(),
        r.deep_view() == mermaid_ids_of(uids@),
        forall|u: Text| #[trigger] uids@.contains(u) ==> r@.contains_key(u),
{
    let ghost items = uids.items();
    let ghost base = |u: Text| id_base(u);
    let mut used = reserved_words();
    let mut ids: StrMap<String> = StrMap::new();
    let mut i: usize = 0;
    proof {
        uids.items_listed();
        assert(ids.deep_view() =~= given(items.take(0), reserved(), base).ids);
    }
    while i < uids.len()
        invariant
            uids.wf(),
            items == uids.items(),
            i <= items.len(),
            used.wf(),
            ids.wf(),
            base == (|u: Text| id_base(u)),
            used@ == given(items.take(i as int), reserved(), base).used,
            ids.deep_view() == given(items.take(i as int), reserved(), base).ids,
            used@.contains("graph"@),
            used@.contains("style"@),
            forall|j: int| 0 <= j < i ==> ids@.contains_key(#[trigger] items[j]),
        decreases items.len() - i,
    {
        let uid = uids.at(i);
        assert(items.take(i + 1).drop_last() =~= items.take(i as int));
        let stem = base_id(uid.as_str());
        let size: usize = used.len();
        proof {
            assert(used@.len() == size);
            if used@.contains(stem@) {
                room_beside_reserved(stem@, &used);
            }
        }
        let id = pick_id(stem.as_str(), &used);
        let copy = id.clone();
        proof {
            StrMap::<String>::deep_insert(ids@, ids@.insert(uid@, copy), uid@, copy);
        }
        ids.insert(uid.clone(), copy);
        used.insert(id);
        i = i + 1;
    }
    proof {
        assert(items.take(items.len() as int) =~= items);
        assert forall|u: Text| #[trigger] uids@.contains(u) implies ids@.contains_key(u) by {
            assert(items.to_set().contains(u));
            let k = items.index_of(u);
            assert(items[k] == u);
        }
    }
    ids
}

// ---- diagrams ----

/// What a node is shown as: its materialization, else its resource type.
pub open spec fn kind_text(n: NodeModel) -> Text {
    match n.materialized {
        Some(m) => m,
        None => n.resource_type,
    }
}

/// What a node is shown as: its materialization, else its resource type.
pub fn node_kind(n: &NodeInfo) -> (r: &str)
    ensures
        r@ == kind_text(n.deep_view()),
{
    match &n.materialized {
        Some(m) => m.as_str(),
        None => n.resource_type.as_str(),
    }
}

/// Every id that a subgraph names.
pub open spec fn named_ids(sg: SubgraphModel) -> Set<Text> {
    sg.nodes.map_values(|n: NodeModel| n.unique_id).to_set().union(
        sg.edges.map_values(|e: (Text, Text)| e.0).to_set(),
    ).union(sg.edges.map_values(|e: (Text, Text)| e.1).to_set())
}

/// The line of a node in a Mermaid diagram; the selected one is marked.
pub open spec fn mermaid_node(n: NodeModel, selected: Text, ids: Map<Text, Text>) -> Text {
    let mark = if n.unique_id == selected {
        " *"@
    } else {
        ""@
    };
    "  "@ + ids[n.unique_id] + "[\""@ + label_text(n.name + " ("@ + kind_text(n) + ")"@ + mark) + "\"]\n"@
}

/// The line of an edge in a Mermaid diagram.
pub open spec fn mermaid_edge(e: (Text, Text), ids: Map<Text, Text>) -> Text {
    "  "@ + ids[e.0] + " --> "@ + ids[e.1] + "\n"@
}

/// The line that links a node to its page, where it has one.
pub open spec fn mermaid_click(n: NodeModel, ids: Map<Text, Text>, links: Map<Text, Text>) -> Text {
    if links.contains_key(n.unique_id) {
        "  click "@ + ids[n.unique_id] + " \""@ + label_text(links[n.unique_id]) + "\"\n"@
    } else {
        Seq::empty()
    }
}

/// The opening fence and the lines of the nodes and edges of a Mermaid diagram.
pub open spec fn mermaid_body(sg: SubgraphModel) -> Text {
    let ids = mermaid_ids_of(named_ids(sg));
    "```mermaid\ngraph LR\n"@ + rendered(sg.nodes, |n: NodeModel| mermaid_node(n, sg.selected, ids)) + rendered(
        sg.edges,
        |e: (Text, Text)| mermaid_edge(e, ids),
    )
}

/// The lines of a Mermaid diagram that link its nodes to pages.
pub open spec fn mermaid_clicks(sg: SubgraphModel, links: Map<Text, Text>) -> Text {
    let ids = mermaid_ids_of(named_ids(sg));
    rendered(sg.nodes, |n: NodeModel| mermaid_click(n, ids, links))
}

/// A subgraph as a fenced Mermaid diagram, with links to pages.
pub open spec fn mermaid_text(sg: SubgraphModel, links: Map<Text, Text>) -> Text {
    mermaid_body(sg) + mermaid_clicks(sg, links) + "```\n"@
}

fn ids_named(sg: &Subgraph) -> (r: StrSet)
    ensures
        r.wf(),
        r@ == named_ids(sg.deep_view()),
        forall|i: int| 0 <= i < sg.nodes@.len() ==> r@.contains((#[trigger] sg.nodes@[i]).unique_id@),
        forall|i: int| 0 <= i < sg.edges@.len() ==> r@.contains((#[trigger] sg.edges@[i]).parent@) && r@.contains(sg.edges@[i].child@),
{
    let ghost m = sg.deep_view();
    let ghost ns = m.nodes.map_values(|n: NodeModel| n.unique_id);
    let ghost ps = m.edges.map_values(|e: (Text, Text)| e.0);
    let ghost cs = m.edges.map_values(|e: (Text, Text)| e.1);
    let mut s = StrSet::new();
    let mut i: usize = 0;
    assert(s@ =~= ns.take(0).to_set());
    while i < sg.nodes.len()
        invariant
            i <= sg.nodes@.len(),
            m == sg.deep_view(),
            ns == m.nodes.map_values(|n: NodeModel| n.unique_id),
            s.wf(),
            s@ == ns.take(i as int).to_set(),
        decreases sg.nodes@.len() - i,
    {
        proof {
            assert(ns[i as int] == sg.nodes@[i as int].unique_id@);
            assert(ns.take(i + 1) =~= ns.take(i as int).push(ns[i as int]));
            ns.take(i as int).lemma_push_to_set_commute(ns[i as int]);
        }
        s.insert(sg.nodes[i].unique_id.clone());
        i = i + 1;
    }
    assert(ns.take(ns.len() as int) =~= ns);
    let mut k: usize = 0;
    assert(s@ =~= ns.to_set().union(ps.take(0).to_set()).union(cs.take(0).to_set()));
    while k < sg.edges.len()
        invariant
            k <= sg.edges@.len(),
            m == sg.deep_view(),
            ps == m.edges.map_values(|e: (Text, Text)| e.0),
            cs == m.edges.map_values(|e: (Text, Text)| e.1),
            s.wf(),
            s@ == ns.to_set().union(ps.take(k as int).to_set()).union(cs.take(k as int).to_set()),
        decreases sg.edges@.len() - k,
    {
        proof {
            assert(m.edges[k as int] == sg.edges@[k as int].deep_view());
            assert(ps.take(k + 1) =~= ps.take(k as int).push(ps[k as int]));
            assert(cs.take(k + 1) =~= cs.take(k as int).push(cs[k as int]));
            ps.take(k as int).lemma_push_to_set_commute(ps[k as int]);
            cs.take(k as int).lemma_push_to_set_commute(cs[k as int]);
        }
        s.insert(sg.edges[k].parent.clone());
        s.insert(sg.edges[k].child.clone());
        assert(s@ =~= ns.to_set().union(ps.take(k + 1).to_set()).union(cs.take(k + 1).to_set()));
        k = k + 1;
    }
    proof {
        assert(ps.take(ps.len() as int) =~= ps);
        assert(cs.take(cs.len() as int) =~= cs);
        assert forall|i: int| 0 <= i < sg.nodes@.len() implies s@.contains((#[trigger] sg.nodes@[i]).unique_id@) by {
            assert(ns[i] == sg.nodes@[i].unique_id@);
            assert(ns.contains(ns[i]));
        }
        assert forall|i: int| 0 <= i < sg.edges@.len() implies s@.contains((#[trigger] sg.edges@[i]).parent@) && s@.contains(
            sg.edges@[i].child@,
        ) by {
            assert(m.edges[i] == sg.edges@[i].deep_view());
            assert(ps[i] == sg.edges@[i].parent@);
            assert(cs[i] == sg.edges@[i].child@);
            assert(ps.contains(ps[i]));
            assert(cs.contains(cs[i]));
        }
    }
    s
}

/// Appends the entry of `key`.
fn push_entry(out: &mut String, m: &StrMap<String>, key: &str)
    requires
        m.wf(),
        m@.contains_key(key@),
    ensures
        final(out)@ == old(out)@ + m.deep_view()[key@],
{
    match m.get(key) {
        Some(v) => out.append(v.as_str()),
        None => {},
    }
}

fn push_mermaid_node(out: &mut String, n: &NodeInfo, selected: &str, ids: &StrMap<String>)
    requires
        ids.wf(),
        ids@.contains_key(n.unique_id@),
    ensures
        final(out)@ == old(out)@ + mermaid_node(n.deep_view(), selected@, ids.deep_view()),
{
    broadcast use appended_in_turn;
    let ghost o = out@;
    let mut label = n.name.clone();
    label.append(" (");
    label.append(node_kind(n));
    label.append(")");
    if str_eq(n.unique_id.as_str(), selected) {
        label.append(" *");
    } else {
        label.append("");
    }
    let shown = mermaid_label(label.as_str());
    out.append("  ");
    push_entry(out, ids, n.unique_id.as_str());
    out.append("[\"");
    out.append(shown.as_str());
    out.append("\"]\n");
    assert(out@ == o + mermaid_node(n.deep_view(), selected@, ids.deep_view()));
}

fn push_mermaid_edge(out: &mut String, e: &Edge, ids: &StrMap<String>)
    requires
        ids.wf(),
        ids@.contains_key(e.parent@),
        ids@.contains_key(e.child@),
    ensures
        final(out)@ == old(out)@ + mermaid_edge(e.deep_view(), ids.deep_view()),
{
    broadcast use appended_in_turn;
    let ghost o = out@;
    out.append("  ");
    push_entry(out, ids, e.parent.as_str());
    out.append(" --> ");
    push_entry(out, ids, e.child.as_str());
    out.append("\n");
    assert(out@ == o + mermaid_edge(e.deep_view(), ids.deep_view()));
}

fn push_mermaid_click(out: &mut String, n: &NodeInfo, ids: &StrMap<String>, links: &StrMap<String>)
    requires
        ids.wf(),
        links.wf(),
        ids@.contains_key(n.unique_id@),
    ensures
        final(out)@ == old(out)@ + mermaid_click(n.deep_view(), ids.deep_view(), links.deep_view()),
{
    broadcast use appended_in_turn;
    let ghost o = out@;
    match links.get(n.unique_id.as_str()) {
        Some(href) => {
            out.append("  click ");
            push_entry(out, ids, n.unique_id.as_str());
            out.append(" \"");
            out.append(mermaid_label(href.as_str()).as_str());
            out.append("\"\n");
        },
        None => {},
    }
    assert(out@ == o + mermaid_click(n.deep_view(), ids.deep_view(), links.deep_view()));
}

/// Renders a subgraph as a fenced Mermaid diagram, with a `click` line for each
/// node that has a page.
pub fn subgraph_mermaid_linked(sg: &Subgraph, links: &StrMap<String>) -> (r: String)
    requires
        links.wf(),
    ensures
        r@ == mermaid_text(sg.deep_view(), links.deep_view()),
{
    let ghost m = sg.deep_view();
    let ids = mermaid_ids(&ids_named(sg));
    let ghost iv = ids.deep_view();
    let ghost lv = links.deep_view();
    let ghost fnode = |n: NodeModel| mermaid_node(n, m.selected, iv);
    let ghost fedge = |e: (Text, Text)| mermaid_edge(e, iv);
    let ghost fclick = |n: NodeModel| mermaid_click(n, iv, lv);
    let mut out = "```mermaid\ngraph LR\n".to_owned();
    let ghost o1 = out@;
    let mut i: usize = 0;
    proof {
        rendered_all(m.nodes, fnode);
        rendered_all(m.edges, fedge);
        rendered_all(m.nodes, fclick);
        assert(o1 + Seq::<char>::empty() =~= o1);
    }
    while i < sg.nodes.len()
        invariant
            i <= sg.nodes@.len(),
            m == sg.deep_view(),
            ids.wf(),
            iv == ids.deep_view(),
            fnode == (|n: NodeModel| mermaid_node(n, m.selected, iv)),
            forall|i: int| 0 <= i < sg.nodes@.len() ==> ids@.contains_key((#[trigger] sg.nodes@[i]).unique_id@),
            out@ == o1 + rendered(m.nodes.take(i as int), fnode),
        decreases sg.nodes@.len() - i,
    {
        let ghost o = out@;
        proof {
            rendered_step(m.nodes, i as int, fnode);
            assert(m.nodes[i as int] == sg.nodes@[i as int].deep_view());
            assert(ids@.contains_key(sg.nodes@[i as int].unique_id@));
        }
        push_mermaid_node(&mut out, &sg.nodes[i], sg.selected.as_str(), &ids);
        assert(out@ =~= o1 + rendered(m.nodes.take(i + 1), fnode));
        i = i + 1;
    }
    let ghost o2 = out@;
    let mut k: usize = 0;
    assert(o2 + Seq::<char>::empty() =~= o2);
    while k < sg.edges.len()
        invariant
            k <= sg.edges@.len(),
            m == sg.deep_view(),
            ids.wf(),
            iv == ids.deep_view(),
            fedge == (|e: (Text, Text)| mermaid_edge(e, iv)),
            forall|i: int| 0 <= i < sg.edges@.len() ==> ids@.contains_key((#[trigger] sg.edges@[i]).parent@) && ids@.contains_key(
                sg.edges@[i].child@,
            ),
            out@ == o2 + rendered(m.edges.take(k as int), fedge),
        decreases sg.edges@.len() - k,
    {
        proof {
            rendered_step(m.edges, k as int, fedge);
            assert(m.edges[k as int] == sg.edges@[k as int].deep_view());
            assert(ids@.contains_key(sg.edges@[k as int].parent@));
        }
        push_mermaid_edge(&mut out, &sg.edges[k], &ids);
        assert(out@ =~= o2 + rendered(m.edges.take(k + 1), fedge));
        k = k + 1;
    }
    let ghost o3 = out@;
    let mut c: usize = 0;
    assert(o3 + Seq::<char>::empty() =~= o3);
    while c < sg.nodes.len()
        invariant
            c <= sg.nodes@.len(),
            m == sg.deep_view(),
            ids.wf(),
            links.wf(),
            iv == ids.deep_view(),
            lv == links.deep_view(),
            fclick == (|n: NodeModel| mermaid_click(n, iv, lv)),
            forall|i: int| 0 <= i < sg.nodes@.len() ==> ids@.contains_key((#[trigger] sg.nodes@[i]).unique_id@),
            out@ == o3 + rendered(m.nodes.take(c as int), fclick),
        decreases sg.nodes@.len() - c,
    {
        proof {
            rendered_step(m.nodes, c as int, fclick);
            assert(m.nodes[c as int] == sg.nodes@[c as int].deep_view());
            assert(ids@.contains_key(sg.nodes@[c as int].unique_id@));
        }
        push_mermaid_click(&mut out, &sg.nodes[c], &ids, links);
        assert(out@ =~= o3 + rendered(m.nodes.take(c + 1), fclick));
        c = c + 1;
    }
    out.append("```\n");
    out
}

/// Renders a subgraph as a fenced Mermaid diagram.
pub fn subgraph_mermaid(sg: &Subgraph) -> (r: String)
    ensures
        r@ == mermaid_text(sg.deep_view(), Map::empty()),
{
    let none: StrMap<String> = StrMap::new();
    assert(none.deep_view() =~= Map::<Text, Text>::empty());
    subgraph_mermaid_linked(sg, &none)
}

/// The line of a node in a Graphviz diagram.
pub open spec fn dot_node(n: NodeModel) -> Text {
    "  \""@ + dot_text(n.unique_id) + "\" [label=\""@ + dot_text(n.name) + "\\n("@ + dot_text(kind_text(n)) + ")\"];\n"@
}

/// The line of an edge in a Graphviz diagram.
pub open spec fn dot_edge(e: (Text, Text)) -> Text {
    "  \""@ + dot_text(e.0) + "\" -> \""@ + dot_text(e.1) + "\";\n"@
}

/// A subgraph as a Graphviz digraph.
pub open spec fn dot_diagram(sg: SubgraphModel) -> Text {
    "digraph lineage {\n  rankdir=LR;\n  node [shape=box];\n"@ + rendered(sg.nodes, |n: NodeModel| dot_node(n)) + rendered(
        sg.edges,
        |e: (Text, Text)| dot_edge(e),
    ) + "}\n"@
}

/// Renders a subgraph as a Graphviz digraph.
pub fn subgraph_dot(sg: &Subgraph) -> (r: String)
    ensures
        r@ == dot_diagram(sg.deep_view()),
{
    let ghost m = sg.deep_view();
    let ghost fnode = |n: NodeModel| dot_node(n);
    let ghost fedge = |e: (Text, Text)| dot_edge(e);
    let mut out = "digraph lineage {\n  rankdir=LR;\n  node [shape=box];\n".to_owned();
    let ghost o1 = out@;
    let mut i: usize = 0;
    proof {
        rendered_all(m.nodes, fnode);
        rendered_all(m.edges, fedge);
        assert(o1 + Seq::<char>::empty() =~= o1);
    }
    while i < sg.nodes.len()
        invariant
            i <= sg.nodes@.len(),
            m == sg.deep_view(),
            fnode == (|n: NodeModel| dot_node(n)),
            out@ == o1 + rendered(m.nodes.take(i as int), fnode),
        decreases sg.nodes@.len() - i,
    {
        let ghost o = out@;
        let n = &sg.nodes[i];
        proof {
            rendered_step(m.nodes, i as int, fnode);
            assert(m.nodes[i as int] == n.deep_view());
        }
        out.append("  \"");
        out.append(dot_escape(n.unique_id.as_str()).as_str());
        out.append("\" [label=\"");
        out.append(dot_escape(n.name.as_str()).as_str());
        out.append("\\n(");
        out.append(dot_escape(node_kind(n)).as_str());
        out.append(")\"];\n");
        assert(out@ =~= o + dot_node(n.deep_view()));
        assert(out@ =~= o1 + rendered(m.nodes.take(i + 1), fnode));
        i = i + 1;
    }
    let ghost o2 = out@;
    let mut k: usize = 0;
    assert(o2 + Seq::<char>::empty() =~= o2);
    while k < sg.edges.len()
        invariant
            k <= sg.edges@.len(),
            m == sg.deep_view(),
            fedge == (|e: (Text, Text)| dot_edge(e)),
            out@ == o2 + rendered(m.edges.take(k as int), fedge),
        decreases sg.edges@.len() - k,
    {
        let ghost o = out@;
        let e = &sg.edges[k];
        proof {
            rendered_step(m.edges, k as int, fedge);
            assert(m.edges[k as int] == e.deep_view());
        }
        out.append("  \"");
        out.append(dot_escape(e.parent.as_str()).as_str());
        out.append("\" -> \"");
        out.append(dot_escape(e.child.as_str()).as_str());
        out.append("\";\n");
        assert(out@ =~= o + dot_edge(e.deep_view()));
        assert(out@ =~= o2 + rendered(m.edges.take(k + 1), fedge));
        k = k + 1;
    }
    out.append("}\n");
    out
}

// ---- laws on Mermaid ids ----

/// Two nodes never share a Mermaid id, and no id is a reserved word.
pub proof fn mermaid_ids_distinct(uids: Set<Text>, u: Text, v: Text)
    requires
        uids.finite(),
        uids.contains(u),
        uids.contains(v),
    ensures
        mermaid_ids_of(uids).contains_key(u),
        !reserved().contains(mermaid_ids_of(uids)[u]),
        mermaid_ids_of(uids)[u] == mermaid_ids_of(uids)[v] ==> u == v,
{
    let base = |u: Text| id_base(u);
    listing_exists(uids);
    given_facts(listing(uids), reserved(), base);
    assert(listing(uids).contains(u) && listing(uids).contains(v));
    assert(given(listing(uids), reserved(), base).ids.contains_key(u));
    if u != v {
        assert(given(listing(uids), reserved(), base).ids[u] != given(listing(uids), reserved(), base).ids[v]);
    }
    assert(!reserved().contains(given(listing(uids), reserved(), base).ids[u]));
}

} // verus!
