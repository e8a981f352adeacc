//! What the labels and copies say, and what keys with modifiers mean.

use vstd::prelude::*;

use super::names::paths_are_joined_by_one_separator;
use super::stats::{can_be_tested, nodes_where, passing_where};
use super::texts::{holds_text, split_without};
use super::written::diagrams_show_every_edge;
use crate::action::{
    fires, hits, kind_of, meaning, mode_group_decides, no_hit, offers, rows_of, Action, Direction, KeyCodeModel,
    KeyModel, ModeKind, ModeModel,
};
use crate::app::analysis::{chain_ids, chain_names, passing, NodeTest};
use crate::app::export::{dot_text, mermaid_ids_of, named_ids};
use crate::app::lineage::{pieces_from, next_place, shortenings, stands_at, view_label};
use crate::app::{first_named, fresh, stats_of, status_note, AppModel, LineageView, SourceModel};
use crate::dag::{project_of, project_segment, project_unique, DagModel, NodeModel};
use crate::effect::EffectModel;
use crate::layout::{layout_of, lines_text, GlyphMode};
use crate::paths::stays_below;
use crate::reducer::step;
use crate::text::{decimal, joined, split, split_nonempty, text_le, Text};
use crate::ui::{preset_themes, Preset, ThemeModel};

verus! {

// ---- copies ----

/// The copied diagrams show every edge of the lineage, and are copied exactly
/// where the lineage has a node.
pub proof fn copies_show_the_lineage(a: AppModel, p: Text, c: Text)
    requires
        a.subgraph().nodes.len() > 0,
    ensures
        ({
            let m = step(a, Action::YankMermaid).1.effects;
            let g = step(a, Action::YankDot).1.effects;
            let t = step(a, Action::YankAscii).1.effects;
            let ids = mermaid_ids_of(named_ids(a.subgraph()));
            &&& m.len() == 1 && m[0] is Yank && g.len() == 1 && g[0] is Yank
            &&& t == seq![EffectModel::Yank(lines_text(layout_of(a.subgraph(), a.glyphs, a.ui.density).rows))]
            &&& a.subgraph().edges.contains((p, c)) ==> holds_text(m[0]->Yank_0, "  "@ + ids[p] + " --> "@ + ids[c] + "\n"@)
            &&& a.subgraph().edges.contains((p, c)) ==> holds_text(
                g[0]->Yank_0,
                "  \""@ + dot_text(p) + "\" -> \""@ + dot_text(c) + "\";\n"@,
            )
        }),
{
    reveal(AppModel::mermaid);
    reveal(AppModel::dot);
    reveal(AppModel::ascii);
    if a.subgraph().edges.contains((p, c)) {
        diagrams_show_every_edge(a.subgraph(), Map::empty(), p, c);
    }
}

/// An export writes the drawing of the lineage to a file named after the
/// selected model.
pub proof fn exports_write_the_drawing(a: AppModel, n: NodeModel)
    requires
        a.selected() == Some(n),
        a.subgraph().nodes.len() > 0,
        !n.name.contains('/'),
        !n.name.contains('\\'),
    ensures
        step(a, Action::ExportLineage).1.effects == seq![
            EffectModel::WriteFile {
                path: n.name + "_lineage.txt"@,
                contents: lines_text(layout_of(a.subgraph(), a.glyphs, a.ui.density).rows),
            },
        ],
{
    reveal(AppModel::exported);
    reveal(AppModel::ascii);
    assert(crate::app::export::file_name(n.name) =~= n.name) by {
        assert forall|i: int| 0 <= i < n.name.len() implies crate::app::export::file_name(n.name)[i] == n.name[i] by {
            assert(n.name.contains(n.name[i]));
        }
    }
}

proof fn split_joins(x: Text, rest: Text, sep: char)
    ensures
        split(x + seq![sep] + rest, sep) == split(x, sep) + split(rest, sep),
    decreases rest.len(),
{
    let s = x + seq![sep] + rest;
    split_nonempty(x, sep);
    if rest.len() == 0 {
        assert(s.drop_last() =~= x);
        assert(split(s, sep) =~= split(x, sep) + split(rest, sep));
    } else {
        let r = rest.drop_last();
        assert(s.drop_last() =~= x + seq![sep] + r);
        split_joins(x, r, sep);
        split_nonempty(r, sep);
        assert(s.last() == rest.last());
        assert(split(s, sep) =~= split(x, sep) + split(rest, sep));
    }
}

proof fn dots_stand_alone()
    ensures
        split(".."@, '/') == seq![".."@],
{
    reveal_strlit("..");
    assert(!".."@.contains('/')) by {
        if ".."@.contains('/') {
            let k = ".."@.index_of('/');
            assert(k == 0 || k == 1);
        }
    }
    split_without(".."@, '/');
}

/// A path with a component that leads up is refused, wherever that stands, and
/// so is one that begins at the root.
pub proof fn paths_that_lead_up_are_refused(x: Text, y: Text)
    ensures
        !stays_below(".."@),
        !stays_below(".."@ + seq!['/'] + y),
        !stays_below(x + seq!['/'] + ".."@),
        !stays_below(x + seq!['/'] + (".."@ + seq!['/'] + y)),
        !stays_below(seq!['/'] + y),
{
    dots_stand_alone();
    let up = ".."@;
    split_joins(up, y, '/');
    split_joins(x, up, '/');
    split_joins(x, up + seq!['/'] + y, '/');
    let one = seq![up];
    assert(one[0] == up);
    assert(one.contains(up));
    let a = one + split(y, '/');
    assert(a[0] == up);
    let b = split(x, '/') + one;
    assert(b[split(x, '/').len() as int] == up);
    let c = split(x, '/') + a;
    assert(c[split(x, '/').len() as int] == up);
    assert((seq!['/'] + y)[0] == '/');
}

/// The editor opens the recorded file of the selected model below the root of
/// the project, where that file stays below it, and nothing else.
pub proof fn editor_opens_the_recorded_file(a: AppModel, u: Text)
    requires
        a.selected_id() == Some(u),
        a.dag.details.contains_key(u),
        a.project_root.len() > 0,
        a.project_root.last() != '/',
    ensures
        ({
            let e = step(a, Action::OpenEditor).1.effects;
            match a.dag.details[u].original_file_path {
                Some(p) => e == if stays_below(p) {
                    seq![EffectModel::OpenEditor(a.project_root + seq!['/'] + p)]
                } else {
                    seq![]
                },
                None => e.len() == 0,
            }
        }),
{
    reveal(AppModel::file_path);
    if let Some(p) = a.dag.details[u].original_file_path {
        paths_are_joined_by_one_separator(a.project_root, p);
    }
}

// ---- labels ----

/// The label of a view shows the sides that it has, and its depth where that is
/// limited; each view has its own.
pub proof fn view_labels_tell_views_apart(v: LineageView)
    ensures
        view_label(v, GlyphMode::Unicode) == (match (v.upstream, v.downstream) {
            (true, true) => "↑↓"@,
            (true, false) => "↑"@,
            (false, true) => "↓"@,
            (false, false) => "·"@,
        }) + (match v.depth {
            Some(n) => " "@ + "≤"@ + decimal(n as nat),
            None => Seq::<char>::empty(),
        }),
        view_label(v, GlyphMode::Ascii) == (match (v.upstream, v.downstream) {
            (true, true) => "<>"@,
            (true, false) => "<"@,
            (false, true) => ">"@,
            (false, false) => "-"@,
        }) + (match v.depth {
            Some(n) => " "@ + "<="@ + decimal(n as nat),
            None => Seq::<char>::empty(),
        }),
{
    assert forall|d: Text| #[trigger] (d + Seq::<char>::empty()) == d by {
        assert(d + Seq::<char>::empty() =~= d);
    }
    assert forall|d: Text, b: Text, n: Text| #[trigger] (d + " "@ + b + n) == d + (" "@ + b + n) by {
        assert(d + " "@ + b + n =~= d + (" "@ + b + n));
    }
}

/// The note on the selected node counts its tests, behind its materialization
/// where that is recorded.
pub proof fn notes_count_the_tests(a: AppModel, u: Text)
    requires
        a.selected_id() == Some(u),
        a.dag.details.contains_key(u),
    ensures
        ({
            let n = if a.dag.tests.contains_key(u) { a.dag.tests[u].len() } else { 0 };
            status_note(a) == Some(
                match a.dag.details[u].materialized {
                    Some(m) => if a.glyphs == GlyphMode::Unicode {
                        m + " · "@ + ("tests: "@ + decimal(n))
                    } else {
                        m + ", "@ + ("tests: "@ + decimal(n))
                    },
                    None => "tests: "@ + decimal(n),
                },
            )
        }),
{
}

/// Coverage counts, among the resources that can be tested, those with a test.
pub proof fn coverage_is_counted(d: DagModel)
    requires
        d.nodes.dom().finite(),
    ensures
        passing(d, NodeTest::Tested).len() == nodes_where(d, |u: Text| can_be_tested(d, u) && d.nodes[u].test_count > 0).len(),
        passing(d, NodeTest::Testable).len() == nodes_where(d, |u: Text| can_be_tested(d, u)).len(),
{
    passing_where(d, NodeTest::Testable, |u: Text| can_be_tested(d, u));
    passing_where(d, NodeTest::Tested, |u: Text| can_be_tested(d, u) && d.nodes[u].test_count > 0);
}

/// The first model of a list with a name is the one that is found by it.
pub proof fn first_of_a_name_is_found(list: Seq<NodeModel>, name: Text)
    ensures
        match first_named(list, name) {
            Some(u) => exists|i: int| 0 <= i < list.len() && (#[trigger] list[i]).name == name && list[i].unique_id == u && forall|j: int|
                0 <= j < i ==> (#[trigger] list[j]).name != name,
            None => forall|j: int| 0 <= j < list.len() ==> (#[trigger] list[j]).name != name,
        },
    decreases list.len(),
{
    if list.len() > 0 && list[0].name != name {
        let r = list.drop_first();
        first_of_a_name_is_found(r, name);
        match first_named(r, name) {
            Some(u) => {
                let i = choose|i: int| 0 <= i < r.len() && (#[trigger] r[i]).name == name && r[i].unique_id == u && forall|j: int|
                    0 <= j < i ==> (#[trigger] r[j]).name != name;
                assert(list[i + 1] == r[i]);
                assert forall|j: int| 0 <= j < i + 1 implies (#[trigger] list[j]).name != name by {
                    if j > 0 {
                        assert(r[j - 1] == list[j]);
                    }
                }
            },
            None => {
                assert forall|j: int| 0 <= j < list.len() implies (#[trigger] list[j]).name != name by {
                    if j > 0 {
                        assert(r[j - 1] == list[j]);
                    }
                }
            },
        }
    } else if list.len() > 0 {
        assert(list[0].name == name);
    }
}

// ---- shortened trails ----

proof fn next_place_is_next(s: Text, sep: Text, from: int)
    requires
        0 <= from,
    ensures
        match next_place(s, sep, from) {
            Some(i) => from <= i && stands_at(s, sep, i) && forall|j: int| from <= j < i ==> !#[trigger] stands_at(s, sep, j),
            None => forall|j: int| from <= j ==> !#[trigger] stands_at(s, sep, j),
        },
    decreases s.len() + 1 - from,
{
    if from + sep.len() <= s.len() && !stands_at(s, sep, from) {
        next_place_is_next(s, sep, from + 1);
    }
}

proof fn joined_first(x: Text, rest: Seq<Text>, sep: Text)
    requires
        rest.len() > 0,
    ensures
        joined(seq![x] + rest, sep) == x + sep + joined(rest, sep),
    decreases rest.len(),
{
    let all = seq![x] + rest;
    if rest.len() == 1 {
        assert(all.drop_last() =~= seq![x]);
        assert(all.last() == rest[0]);
        assert(joined(seq![x], sep) == x);
        assert(joined(rest, sep) == rest[0]);
    } else {
        assert(all.drop_last() =~= seq![x] + rest.drop_last());
        joined_first(x, rest.drop_last(), sep);
        assert(all.last() == rest.last());
        assert(joined(all, sep) =~= x + sep + joined(rest, sep));
    }
}

proof fn pieces_are_joined(s: Text, sep: Text, from: int)
    requires
        0 <= from <= s.len(),
        sep.len() > 0,
    ensures
        joined(pieces_from(s, sep, from), sep) == s.skip(from),
        pieces_from(s, sep, from).len() > 0,
    decreases s.len() - from,
{
    next_place_is_next(s, sep, from);
    match next_place(s, sep, from) {
        Some(i) => {
            let rest = pieces_from(s, sep, i + sep.len());
            pieces_are_joined(s, sep, i + sep.len());
            joined_first(s.subrange(from, i), rest, sep);
            assert(s.subrange(from, i) + sep + s.skip(i + sep.len()) =~= s.skip(from)) by {
                assert(s.subrange(i, i + sep.len()) == sep);
                assert forall|k: int| 0 <= k < sep.len() implies s[i + k] == #[trigger] sep[k] by {
                    assert(s.subrange(i, i + sep.len())[k] == s[i + k]);
                }
            }
        },
        None => {},
    }
}

/// A given trail is cut at its separators, and shortened by leaving out its
/// first entries one after the other: the first candidate is the trail itself,
/// the last its last entry.
pub proof fn trails_are_cut_at_separators(trail: Text)
    ensures
        ({
            let entries = pieces_from(trail, " > "@, 0);
            let cs = shortenings(trail);
            &&& entries.len() > 0
            &&& joined(entries, " > "@) == trail
            &&& cs.len() == entries.len()
            &&& cs[0] == trail
            &&& forall|k: int| 0 < k < cs.len() ==> #[trigger] cs[k] == ".. > "@ + joined(entries.skip(k), " > "@)
        }),
{
    reveal_strlit(" > ");
    pieces_are_joined(trail, " > "@, 0);
    assert(trail.skip(0) =~= trail);
}

// ---- the start ----

/// The state at the start: the first model selected, the whole lineage in view,
/// nothing filtered, marked, searched or compared, and no history.
pub proof fn start_shows_everything(d: DagModel, source: SourceModel, root: Text)
    ensures
        ({
            let a = fresh(d, source, root);
            &&& a.dag == d && a.source == source && a.project_root == root
            &&& a.ui.selected == 0
            &&& a.view.upstream && a.view.downstream && a.view.depth is None
            &&& a.filter is None && a.filtered_base is None && a.active() == a.model_list
            &&& a.bookmarks == Set::<Text>::empty() && a.back.len() == 0 && a.forward.len() == 0
            &&& a.cursor is None && a.diff is None && a.diff_base is None && a.notice is None
            &&& a.mode == ModeModel::Selection
            &&& a.theme_index == 0
            &&& a.glyphs == GlyphMode::Unicode
        }),
{
}

// ---- keys with modifiers ----

/// Alt keeps every key from meaning anything, alone or with a character that
/// would be typed.
pub proof fn alt_means_nothing(mode: ModeKind, k: KeyModel)
    requires
        k.alt,
        !k.control,
        !k.command,
    ensures
        meaning(mode, k) is None,
{
    mode_group_decides(mode, k);
    let rows = rows_of(mode);
    assert forall|i: int| 0 <= i < rows.len() implies !hits(#[trigger] rows[i], mode, k) by {
        if hits(rows[i], mode, k) {
            let j = choose|j: int| 0 <= j < rows[i].triggers.len() && fires(#[trigger] rows[i].triggers[j], k);
            assert(rows[i].triggers[j] is Key || rows[i].triggers[j] is Ctrl || rows[i].triggers[j] is Super);
        }
    }
    no_hit(rows, mode, k);
}

/// Ctrl-C quits in every mode, whatever else is held.
pub proof fn control_c_quits(mode: ModeKind, k: KeyModel)
    requires
        k.control,
        k.code == KeyCodeModel::Char('c'),
    ensures
        meaning(mode, k) == Some(Action::Quit),
{
}

/// The keys go to the mode that is shown.
pub proof fn keys_go_to_the_shown_mode(m: ModeModel)
    ensures
        kind_of(m) == ModeKind::Selection <==> m is Selection,
        kind_of(m) == ModeKind::Search <==> m is Search,
        kind_of(m) == ModeKind::Palette <==> m is Palette,
        kind_of(m) == ModeKind::Detail <==> m is Detail,
        kind_of(m) == ModeKind::Sql <==> m is Sql,
        kind_of(m) == ModeKind::Stats <==> m is Stats,
        kind_of(m) == ModeKind::Diff <==> m is Diff,
        kind_of(m) == ModeKind::Help <==> m is Help,
{
}

/// Confirming the palette closes it and does what the chosen command does; it
/// only closes where there is none.
pub proof fn palette_does_the_chosen(a: AppModel)
    requires
        a.mode is Palette,
    ensures
        ({
            let p = a.mode->Palette_0;
            let closed = AppModel { mode: ModeModel::Selection, ..a };
            let r = step(a, Action::SearchConfirm);
            &&& p.selected < offers(p.query).len() ==> r == step(closed, offers(p.query)[p.selected as int].action)
            &&& p.selected >= offers(p.query).len() ==> r.0 == closed && !r.1.quit && r.1.effects.len() == 0
            &&& step(a, Action::SearchCancel).0 == closed
        }),
{
    reveal(AppModel::search_cancelled);
}

/// Moving in the palette goes to the next or the previous command, and not past
/// the ends.
pub proof fn palette_moves_stay_in_it(a: AppModel)
    requires
        a.mode is Palette,
        a.mode->Palette_0.selected < offers(a.mode->Palette_0.query).len() <= usize::MAX,
    ensures
        ({
            let p = a.mode->Palette_0;
            let n = offers(p.query).len();
            let down = step(a, Action::SearchMove(Direction::Down)).0;
            let up = step(a, Action::SearchMove(Direction::Up)).0;
            &&& down == (AppModel { mode: down.mode, ..a }) && up == (AppModel { mode: up.mode, ..a })
            &&& down.mode is Palette && up.mode is Palette
            &&& down.mode->Palette_0.query == p.query && up.mode->Palette_0.query == p.query
            &&& down.mode->Palette_0.selected == if p.selected + 1 < n { p.selected + 1 } else { n - 1 }
            &&& up.mode->Palette_0.selected == if p.selected > 0 { p.selected - 1 } else { 0 }
        }),
{
    reveal(AppModel::search_moved);
}

/// The drawn lineage is the lineage, with the node under the cursor as the
/// selected one.
pub proof fn drawings_select_the_cursor(a: AppModel, u: Text)
    requires
        a.cursor_id() == Some(u),
        a.dag.nodes.contains_key(a.selected_id()->0),
    ensures
        a.display_subgraph().selected == u,
        a.display_subgraph().nodes == a.subgraph().nodes,
        a.display_subgraph().edges == a.subgraph().edges,
        a.selected_id() is Some,
        a.subgraph().selected == a.selected_id()->0,
{
}

/// The project of a graph is the smallest name of a project among the ids of
/// its nodes, and there is none where no id has one.
pub proof fn projects_have_the_smallest_name(d: DagModel, u: Text)
    requires
        d.nodes.contains_key(u),
        project_segment(u) is Some,
        forall|v: Text| #[trigger] d.nodes.contains_key(v) && project_segment(v) is Some ==> text_le(project_segment(u)->0, project_segment(v)->0),
    ensures
        project_of(d) == project_segment(u),
        stats_of(d).project == project_segment(u)->0,
{
    project_unique(d, project_segment(u));
}

/// A graph without the name of a project has none.
pub proof fn nameless_projects_have_no_name(d: DagModel)
    requires
        forall|v: Text| #[trigger] d.nodes.contains_key(v) ==> project_segment(v) is None,
    ensures
        project_of(d) is None,
        stats_of(d).project.len() == 0,
{
    project_unique(d, None);
}

/// The built-in themes, in the order in which they come, each plain.
pub proof fn themes_are_plain_presets()
    ensures
        preset_themes().len() == 5,
        preset_themes().map_values(|t: (Text, ThemeModel)| t.0) == seq!["default"@, "ayu-dark"@, "ayu-mirage"@, "ayu-light"@, "gruvbox-dark"@],
        preset_themes().map_values(|t: (Text, ThemeModel)| t.1.base) == seq![
            Preset::Plain,
            Preset::AyuDark,
            Preset::AyuMirage,
            Preset::AyuLight,
            Preset::GruvboxDark,
        ],
        forall|i: int| 0 <= i < 5 ==> (#[trigger] preset_themes()[i]).1.overrides.len() == 0,
{
    assert(preset_themes().map_values(|t: (Text, ThemeModel)| t.0) =~= seq![
        "default"@,
        "ayu-dark"@,
        "ayu-mirage"@,
        "ayu-light"@,
        "gruvbox-dark"@,
    ]);
    assert(preset_themes().map_values(|t: (Text, ThemeModel)| t.1.base) =~= seq![
        Preset::Plain,
        Preset::AyuDark,
        Preset::AyuMirage,
        Preset::AyuLight,
        Preset::GruvboxDark,
    ]);
}

/// The longest chain is shown by the names of its nodes, in order.
pub proof fn chains_are_shown_by_name(d: DagModel, i: int)
    requires
        0 <= i < chain_ids(d).len(),
        d.nodes.contains_key(chain_ids(d)[i]),
    ensures
        chain_names(d).len() == chain_ids(d).len(),
        chain_names(d)[i] == d.nodes[chain_ids(d)[i]].name,
{
}

} // verus!
