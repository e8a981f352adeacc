//! The domain of a terminal lineage browser for dbt projects: the dependency
//! graph of a manifest, the list of models, the lineage drawing, the keymap, the
//! reducer that applies the user's actions, comparisons of two graphs, and the
//! exports. Nothing here performs I/O: a loader hands in a
//! [`RawManifest`](manifest::RawManifest), and what the outside world must do is
//! returned as [`Effect`](effect::Effect)s.

pub mod action;
pub mod app;
pub mod dag;
pub mod diff;
pub mod docs;
pub mod effect;
pub mod graph;
pub mod laws;
pub mod layout;
pub mod manifest;
pub mod model_list;
pub mod naming;
pub mod paths;
pub mod reducer;
pub mod sorted;
pub mod text;
pub mod ui;

pub use crate::app::analysis::layer_violation_edges;
pub use crate::app::lineage::fit_breadcrumb;
pub use crate::app::{load_dag, App, AppStats, DataSource, LineageView, ListFilter, LoadError, Outcome};
pub use crate::dag::{coverage_gap, is_exposure, Dag, NodeDetail, NodeInfo, Subgraph};
pub use crate::diff::{compute_diff, DagDiff, DiffStatus};
pub use crate::docs::generate_docs;
pub use crate::layout::{layout, layout_mode, CellAttr, Density, GlyphMode, Layout, LensTint, LineageLens, MaterializationClass};
pub use crate::manifest::{RawManifest, RawNode, RawSource};
pub use crate::model_list::SortMode;
pub use crate::reducer::apply_action;
pub use crate::ui::{reduce_selection, Focus, UiState};
