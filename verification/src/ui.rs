//! The state of the two panes that needs no graph: the list selection, the
//! focus and the view preferences, with the reducer over it.

use vstd::prelude::*;

use crate::action::Action;
use crate::layout::{Density, GlyphMode, LensTint, LineageLens};
use crate::text::Text;

verus! {

/// Which pane the keys go to.
#[derive(Debug, Clone, Copy, PartialEq, Eq, Structural)]
pub enum Focus {
    List,
    RightPane,
}

/// The state of the panes.
#[derive(Debug, Clone, Copy, PartialEq, Eq)]
pub struct UiState {
    selected: usize,
    model_count: usize,
    focus: Focus,
    list_visible: bool,
    lens: LineageLens,
    density: Density,
    minimap: bool,
}

/// Model of [`UiState`].
pub struct UiModel {
    pub selected: usize,
    pub model_count: usize,
    pub focus: Focus,
    pub list_visible: bool,
    pub lens: LineageLens,
    pub density: Density,
    pub minimap: bool,
}

impl DeepView for UiState {
    type V = UiModel;

    closed spec fn deep_view(&self) -> UiModel {
        UiModel {
            selected: self.selected,
            model_count: self.model_count,
            focus: self.focus,
            list_visible: self.list_visible,
            lens: self.lens,
            density: self.density,
            minimap: self.minimap,
        }
    }
}

/// A position held inside a list of `count`; 0 for an empty list.
pub open spec fn clamped(i: usize, count: usize) -> usize {
    if count == 0 {
        0
    } else if i < count {
        i
    } else {
        (count - 1) as usize
    }
}

impl UiModel {
    /// The selection lies in the list, and a hidden list has no focus.
    pub open spec fn valid(self) -> bool {
        self.selected == clamped(self.selected, self.model_count) && (!self.list_visible ==> self.focus == Focus::RightPane)
    }
}

/// The panes at the start.
pub open spec fn fresh_ui(model_count: usize) -> UiModel {
    UiModel {
        selected: 0,
        model_count,
        focus: Focus::List,
        list_visible: true,
        lens: LineageLens::Off,
        density: Density::Comfortable,
        minimap: false,
    }
}

/// The panes with another row selected.
pub open spec fn with_selected(u: UiModel, i: usize) -> UiModel {
    UiModel { selected: clamped(i, u.model_count), ..u }
}

/// The panes over a list of another length.
pub open spec fn with_count(u: UiModel, n: usize) -> UiModel {
    UiModel { model_count: n, selected: clamped(u.selected, n), ..u }
}

/// The lens after a lens, in cycle order.
pub open spec fn next_lens(l: LineageLens) -> LineageLens {
    match l {
        LineageLens::Off => LineageLens::Coverage,
        LineageLens::Coverage => LineageLens::DegreeHeat,
        LineageLens::DegreeHeat => LineageLens::Layer,
        LineageLens::Layer => LineageLens::LayerViolation,
        LineageLens::LayerViolation => LineageLens::Diff,
        LineageLens::Diff => LineageLens::Off,
    }
}

/// The other density.
pub open spec fn other_density(d: Density) -> Density {
    match d {
        Density::Comfortable => Density::Compact,
        Density::Compact => Density::Comfortable,
    }
}

/// What an action does to the panes. Movement keys move the selection only
/// while the list has the focus.
pub open spec fn reduced(u: UiModel, action: Action) -> UiModel {
    match action {
        Action::MoveDown => if u.focus == Focus::List && u.selected < usize::MAX {
            with_selected(u, (u.selected + 1) as usize)
        } else {
            u
        },
        Action::MoveUp => if u.focus == Focus::List && u.selected > 0 {
            with_selected(u, (u.selected - 1) as usize)
        } else {
            u
        },
        Action::JumpTop => with_selected(u, 0),
        Action::JumpBottom => with_selected(u, usize::MAX),
        Action::PageDown => with_selected(u, crate::layout::capped(u.selected + 10)),
        Action::PageUp => with_selected(u, if u.selected < 10 { 0 } else { (u.selected - 10) as usize }),
        Action::ToggleFocus => if u.list_visible {
            UiModel { focus: if u.focus == Focus::List { Focus::RightPane } else { Focus::List }, ..u }
        } else {
            u
        },
        Action::ToggleListPane => if u.list_visible {
            UiModel { list_visible: false, focus: Focus::RightPane, ..u }
        } else {
            UiModel { list_visible: true, focus: Focus::List, ..u }
        },
        _ => u,
    }
}

impl UiState {
    /// The panes at the start, over a list of `model_count` models.
    pub fn new(model_count: usize) -> (r: UiState)
        ensures
            r.deep_view() == fresh_ui(model_count),
            r.deep_view().valid(),
    {
        UiState {
            selected: 0,
            model_count,
            focus: Focus::List,
            list_visible: true,
            lens: LineageLens::Off,
            density: Density::Comfortable,
            minimap: false,
        }
    }

    /// The selected row.
    pub fn selected(&self) -> (r: usize)
        ensures
            r == self.deep_view().selected,
    {
        self.selected
    }

    /// Selects a row; the last one where there are not that many.
    pub fn set_selected(&mut self, i: usize)
        ensures
            final(self).deep_view() == with_selected(old(self).deep_view(), i),
    {
        self.selected = if self.model_count == 0 {
            0
        } else if i < self.model_count {
            i
        } else {
            self.model_count - 1
        };
    }

    /// The length of the list.
    pub fn model_count(&self) -> (r: usize)
        ensures
            r == self.deep_view().model_count,
    {
        self.model_count
    }

    /// Sets the length of the list; the selection stays inside.
    pub fn set_model_count(&mut self, n: usize)
        ensures
            final(self).deep_view() == with_count(old(self).deep_view(), n),
    {
        self.model_count = n;
        self.selected = if n == 0 {
            0
        } else if self.selected < n {
            self.selected
        } else {
            n - 1
        };
    }

    /// The pane that the keys go to.
    pub fn focus(&self) -> (r: Focus)
        ensures
            r == self.deep_view().focus,
    {
        self.focus
    }

    /// Moves the focus; a hidden list cannot get it.
    pub fn set_focus(&mut self, focus: Focus)
        ensures
            final(self).deep_view() == (UiModel {
                focus: if old(self).deep_view().list_visible { focus } else { Focus::RightPane },
                ..old(self).deep_view()
            }),
    {
        self.focus = if self.list_visible {
            focus
        } else {
            Focus::RightPane
        };
    }

    /// Whether the list pane is shown.
    pub fn list_visible(&self) -> (r: bool)
        ensures
            r == self.deep_view().list_visible,
    {
        self.list_visible
    }

    /// The active lens.
    pub fn lens(&self) -> (r: LineageLens)
        ensures
            r == self.deep_view().lens,
    {
        self.lens
    }

    /// Steps to the next lens.
    pub fn cycle_lens(&mut self)
        ensures
            final(self).deep_view() == (UiModel { lens: next_lens(old(self).deep_view().lens), ..old(self).deep_view() }),
    {
        self.lens = match self.lens {
            LineageLens::Off => LineageLens::Coverage,
            LineageLens::Coverage => LineageLens::DegreeHeat,
            LineageLens::DegreeHeat => LineageLens::Layer,
            LineageLens::Layer => LineageLens::LayerViolation,
            LineageLens::LayerViolation => LineageLens::Diff,
            LineageLens::Diff => LineageLens::Off,
        };
    }

    /// The density of the diagram.
    pub fn density(&self) -> (r: Density)
        ensures
            r == self.deep_view().density,
    {
        self.density
    }

    /// Switches between tall and one-row boxes.
    pub fn toggle_density(&mut self)
        ensures
            final(self).deep_view() == (UiModel {
                density: other_density(old(self).deep_view().density),
                ..old(self).deep_view()
            }),
    {
        self.density = match self.density {
            Density::Comfortable => Density::Compact,
            Density::Compact => Density::Comfortable,
        };
    }

    /// Whether the minimap is shown.
    pub fn minimap_visible(&self) -> (r: bool)
        ensures
            r == self.deep_view().minimap,
    {
        self.minimap
    }

    /// Shows or hides the minimap.
    pub fn toggle_minimap(&mut self)
        ensures
            final(self).deep_view() == (UiModel { minimap: !old(self).deep_view().minimap, ..old(self).deep_view() }),
    {
        self.minimap = !self.minimap;
    }
}

/// Applies an action that needs only the panes; any other leaves them alone.
pub fn reduce_selection(ui: &mut UiState, action: Action)
    ensures
        final(ui).deep_view() == reduced(old(ui).deep_view(), action),
{
    match action {
        Action::MoveDown => {
            if ui.focus == Focus::List && ui.selected < usize::MAX {
                ui.set_selected(ui.selected + 1);
            }
        },
        Action::MoveUp => {
            if ui.focus == Focus::List && ui.selected > 0 {
                ui.set_selected(ui.selected - 1);
            }
        },
        Action::JumpTop => {
            ui.set_selected(0);
        },
        Action::JumpBottom => {
            ui.set_selected(usize::MAX);
        },
        Action::PageDown => {
            ui.set_selected(ui.selected.saturating_add(10));
        },
        Action::PageUp => {
            ui.set_selected(ui.selected.saturating_sub(10));
        },
        Action::ToggleFocus => {
            if ui.list_visible {
                ui.focus = match ui.focus {
                    Focus::List => Focus::RightPane,
                    Focus::RightPane => Focus::List,
                };
            }
        },
        Action::ToggleListPane => {
            if ui.list_visible {
                ui.list_visible = false;
                ui.focus = Focus::RightPane;
            } else {
                ui.list_visible = true;
                ui.focus = Focus::List;
            }
        },
        _ => {},
    }
}

/// No action takes the selection out of the list or gives a hidden list the
/// focus.
pub proof fn reduced_stays_valid(u: UiModel, action: Action)
    requires
        u.valid(),
    ensures
        reduced(u, action).valid(),
{
}

/// The badges in front of the impact counts.
#[derive(Debug, Clone, Copy, PartialEq, Eq)]
pub struct Chrome {
    pub badge_down: &'static str,
    pub badge_up: &'static str,
}

/// The badge for descendants.
pub open spec fn down_badge(mode: GlyphMode) -> Text {
    match mode {
        GlyphMode::Unicode => "↓"@,
        GlyphMode::Ascii => "v"@,
    }
}

/// The badge for ancestors.
pub open spec fn up_badge(mode: GlyphMode) -> Text {
    match mode {
        GlyphMode::Unicode => "↑"@,
        GlyphMode::Ascii => "^"@,
    }
}

/// The chrome of a glyph mode.
pub fn chrome(mode: GlyphMode) -> (r: Chrome)
    ensures
        r.badge_down@ == down_badge(mode),
        r.badge_up@ == up_badge(mode),
{
    match mode {
        GlyphMode::Unicode => Chrome { badge_down: "↓", badge_up: "↑" },
        GlyphMode::Ascii => Chrome { badge_down: "v", badge_up: "^" },
    }
}

/// The layer annotation of one column of the lineage pane.
#[derive(Debug, PartialEq, Eq)]
pub struct LayerBand {
    pub x: usize,
    pub width: usize,
    pub label: String,
    pub tint: LensTint,
}

/// Model of [`LayerBand`].
pub struct LayerBandModel {
    pub x: usize,
    pub width: usize,
    pub label: Text,
    pub tint: LensTint,
}

impl DeepView for LayerBand {
    type V = LayerBandModel;

    open spec fn deep_view(&self) -> LayerBandModel {
        LayerBandModel { x: self.x, width: self.width, label: self.label@, tint: self.tint }
    }
}

// ---- themes ----

/// The palettes that are built in.
#[derive(Debug, Clone, Copy, PartialEq, Eq, Structural)]
pub enum Preset {
    Plain,
    AyuDark,
    AyuMirage,
    AyuLight,
    GruvboxDark,
}

/// A colour: an index into the terminal's palette, or red, green and blue.
#[derive(Debug, Clone, Copy, PartialEq, Eq, Structural)]
pub enum ThemeColor {
    Indexed(u8),
    Rgb(u8, u8, u8),
}

/// A theme: a built-in palette and the roles that it colours otherwise.
#[derive(Debug, PartialEq, Eq)]
pub struct Theme {
    pub base: Preset,
    pub overrides: Vec<(String, ThemeColor)>,
}

/// Model of [`Theme`].
pub struct ThemeModel {
    pub base: Preset,
    pub overrides: Seq<(Text, ThemeColor)>,
}

impl DeepView for ThemeColor {
    type V = ThemeColor;

    open spec fn deep_view(&self) -> ThemeColor {
        *self
    }
}

impl DeepView for Theme {
    type V = ThemeModel;

    open spec fn deep_view(&self) -> ThemeModel {
        ThemeModel { base: self.base, overrides: self.overrides.deep_view() }
    }
}

/// A built-in palette without overrides.
pub open spec fn plain_theme(base: Preset) -> ThemeModel {
    ThemeModel { base, overrides: Seq::empty() }
}

/// The built-in themes in cycle order.
pub open spec fn preset_themes() -> Seq<(Text, ThemeModel)> {
    seq![
        ("default"@, plain_theme(Preset::Plain)),
        ("ayu-dark"@, plain_theme(Preset::AyuDark)),
        ("ayu-mirage"@, plain_theme(Preset::AyuMirage)),
        ("ayu-light"@, plain_theme(Preset::AyuLight)),
        ("gruvbox-dark"@, plain_theme(Preset::GruvboxDark)),
    ]
}

fn preset(name: &str, base: Preset) -> (r: (String, Theme))
    ensures
        r.deep_view() == (name@, plain_theme(base)),
{
    let r = (name.to_owned(), Theme { base, overrides: Vec::new() });
    assert(r.1.overrides.deep_view() =~= Seq::empty());
    r
}

/// The built-in themes, each without overrides.
pub fn presets() -> (r: Vec<(String, Theme)>)
    ensures
        r.deep_view() == preset_themes(),
{
    let mut v: Vec<(String, Theme)> = Vec::new();
    v.push(preset("default", Preset::Plain));
    v.push(preset("ayu-dark", Preset::AyuDark));
    v.push(preset("ayu-mirage", Preset::AyuMirage));
    v.push(preset("ayu-light", Preset::AyuLight));
    v.push(preset("gruvbox-dark", Preset::GruvboxDark));
    assert(v.deep_view() =~= preset_themes());
    v
}

} // verus!
