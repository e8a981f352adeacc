//! Side effects that the reducer asks for and the event loop performs.

use vstd::prelude::*;

use crate::text::Text;

verus! {

/// Something that only the event loop can do.
#[derive(Debug, PartialEq, Eq)]
pub enum Effect {
    /// Open this file in the editor.
    OpenEditor(String),
    /// Copy this text to the clipboard.
    Yank(String),
    /// Read the data again and rebuild.
    ReloadManifest,
    /// Write `contents` to `path`, relative to the working directory.
    WriteFile { path: String, contents: String },
    /// Run `dbt parse` and adopt the manifest that it writes.
    DbtParse,
}

/// Model of [`Effect`].
pub enum EffectModel {
    OpenEditor(Text),
    Yank(Text),
    ReloadManifest,
    WriteFile { path: Text, contents: Text },
    DbtParse,
}

impl DeepView for Effect {
    type V = EffectModel;

    open spec fn deep_view(&self) -> EffectModel {
        match self {
            Effect::OpenEditor(p) => EffectModel::OpenEditor(p@),
            Effect::Yank(t) => EffectModel::Yank(t@),
            Effect::ReloadManifest => EffectModel::ReloadManifest,
            Effect::WriteFile { path, contents } => EffectModel::WriteFile { path: path@, contents: contents@ },
            Effect::DbtParse => EffectModel::DbtParse,
        }
    }
}

} // verus!
