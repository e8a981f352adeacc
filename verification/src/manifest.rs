//! The manifest of a dbt project as plain data: what a loader hands to
//! [`Dag::build`](crate::dag::Dag::build).

use vstd::prelude::*;

use crate::sorted::StrMap;
use crate::text::Text;

verus! {

/// The `config` block of a node.
#[derive(Debug, PartialEq, Eq)]
pub struct RawConfig {
    pub materialized: Option<String>,
}

/// The `test_metadata` block of a generic test.
#[derive(Debug, PartialEq, Eq)]
pub struct RawTestMetadata {
    pub name: Option<String>,
}

/// The `depends_on` block of a node or an exposure.
#[derive(Debug, PartialEq, Eq)]
pub struct RawDependsOn {
    pub nodes: Vec<String>,
}

/// The `owner` block of an exposure.
#[derive(Debug, PartialEq, Eq)]
pub struct RawExposureOwner {
    pub name: Option<String>,
    pub email: Option<String>,
}

/// One entry of a `columns` object, in definition order. The optional fields
/// are `None` where the entry has no such field or where it is not a string.
#[derive(Debug, PartialEq, Eq)]
pub struct RawColumn {
    pub key: String,
    pub name: Option<String>,
    pub data_type: Option<String>,
    pub description: Option<String>,
}

/// An entry of the manifest's `nodes`: a model, seed, snapshot, test or
/// operation.
#[derive(Debug, PartialEq, Eq)]
pub struct RawNode {
    pub name: String,
    pub resource_type: String,
    pub path: Option<String>,
    pub raw_code: Option<String>,
    pub config: RawConfig,
    pub database: Option<String>,
    pub schema: Option<String>,
    pub tags: Vec<String>,
    pub description: Option<String>,
    pub columns: Vec<RawColumn>,
    pub original_file_path: Option<String>,
    pub attached_node: Option<String>,
    pub column_name: Option<String>,
    pub test_metadata: Option<RawTestMetadata>,
    pub depends_on: RawDependsOn,
}

/// An entry of the manifest's `sources`.
#[derive(Debug, PartialEq, Eq)]
pub struct RawSource {
    pub name: String,
    pub resource_type: String,
    pub path: Option<String>,
    pub database: Option<String>,
    pub schema: Option<String>,
    pub description: Option<String>,
    pub columns: Vec<RawColumn>,
    pub original_file_path: Option<String>,
}

/// An entry of the manifest's `exposures`: a declared downstream consumer.
#[derive(Debug, PartialEq, Eq)]
pub struct RawExposure {
    pub name: String,
    pub path: Option<String>,
    pub exposure_type: Option<String>,
    pub owner: RawExposureOwner,
    pub url: Option<String>,
    pub description: Option<String>,
    pub original_file_path: Option<String>,
    pub depends_on: RawDependsOn,
}

/// A parsed manifest, each table keyed by `unique_id`.
#[derive(Debug, PartialEq, Eq)]
pub struct RawManifest {
    pub nodes: StrMap<RawNode>,
    pub sources: StrMap<RawSource>,
    pub exposures: StrMap<RawExposure>,
    pub parent_map: StrMap<Vec<String>>,
    pub child_map: StrMap<Vec<String>>,
}

/// Model of [`RawColumn`].
pub struct RawColumnModel {
    pub key: Text,
    pub name: Option<Text>,
    pub data_type: Option<Text>,
    pub description: Option<Text>,
}

/// Model of [`RawNode`]; `test_name` is the name in its `test_metadata`.
pub struct RawNodeModel {
    pub name: Text,
    pub resource_type: Text,
    pub path: Option<Text>,
    pub raw_code: Option<Text>,
    pub materialized: Option<Text>,
    pub database: Option<Text>,
    pub schema: Option<Text>,
    pub tags: Seq<Text>,
    pub description: Option<Text>,
    pub columns: Seq<RawColumnModel>,
    pub original_file_path: Option<Text>,
    pub attached_node: Option<Text>,
    pub column_name: Option<Text>,
    pub test_name: Option<Text>,
    pub depends_on: Seq<Text>,
}

/// Model of [`RawSource`].
pub struct RawSourceModel {
    pub name: Text,
    pub resource_type: Text,
    pub path: Option<Text>,
    pub database: Option<Text>,
    pub schema: Option<Text>,
    pub description: Option<Text>,
    pub columns: Seq<RawColumnModel>,
    pub original_file_path: Option<Text>,
}

/// Model of [`RawExposure`].
pub struct RawExposureModel {
    pub name: Text,
    pub path: Option<Text>,
    pub exposure_type: Option<Text>,
    pub owner_name: Option<Text>,
    pub owner_email: Option<Text>,
    pub url: Option<Text>,
    pub description: Option<Text>,
    pub original_file_path: Option<Text>,
    pub depends_on: Seq<Text>,
}

/// Model of [`RawManifest`].
pub struct RawManifestModel {
    pub nodes: Map<Text, RawNodeModel>,
    pub sources: Map<Text, RawSourceModel>,
    pub exposures: Map<Text, RawExposureModel>,
    pub parent_map: Map<Text, Seq<Text>>,
    pub child_map: Map<Text, Seq<Text>>,
}

impl DeepView for RawColumn {
    type V = RawColumnModel;

    open spec fn deep_view(&self) -> RawColumnModel {
        RawColumnModel {
            key: self.key@,
            name: self.name.deep_view(),
            data_type: self.data_type.deep_view(),
            description: self.description.deep_view(),
        }
    }
}

impl DeepView for RawNode {
    type V = RawNodeModel;

    open spec fn deep_view(&self) -> RawNodeModel {
        RawNodeModel {
            name: self.name@,
            resource_type: self.resource_type@,
            path: self.path.deep_view(),
            raw_code: self.raw_code.deep_view(),
            materialized: self.config.materialized.deep_view(),
            database: self.database.deep_view(),
            schema: self.schema.deep_view(),
            tags: self.tags.deep_view(),
            description: self.description.deep_view(),
            columns: self.columns.deep_view(),
            original_file_path: self.original_file_path.deep_view(),
            attached_node: self.attached_node.deep_view(),
            column_name: self.column_name.deep_view(),
            test_name: match self.test_metadata {
                Some(m) => m.name.deep_view(),
                None => None,
            },
            depends_on: self.depends_on.nodes.deep_view(),
        }
    }
}

impl DeepView for RawSource {
    type V = RawSourceModel;

    open spec fn deep_view(&self) -> RawSourceModel {
        RawSourceModel {
            name: self.name@,
            resource_type: self.resource_type@,
            path: self.path.deep_view(),
            database: self.database.deep_view(),
            schema: self.schema.deep_view(),
            description: self.description.deep_view(),
            columns: self.columns.deep_view(),
            original_file_path: self.original_file_path.deep_view(),
        }
    }
}

impl DeepView for RawExposure {
    type V = RawExposureModel;

    open spec fn deep_view(&self) -> RawExposureModel {
        RawExposureModel {
            name: self.name@,
            path: self.path.deep_view(),
            exposure_type: self.exposure_type.deep_view(),
            owner_name: self.owner.name.deep_view(),
            owner_email: self.owner.email.deep_view(),
            url: self.url.deep_view(),
            description: self.description.deep_view(),
            original_file_path: self.original_file_path.deep_view(),
            depends_on: self.depends_on.nodes.deep_view(),
        }
    }
}

impl DeepView for RawManifest {
    type V = RawManifestModel;

    open spec fn deep_view(&self) -> RawManifestModel {
        RawManifestModel {
            nodes: self.nodes.deep_view(),
            sources: self.sources.deep_view(),
            exposures: self.exposures.deep_view(),
            parent_map: self.parent_map.deep_view(),
            child_map: self.child_map.deep_view(),
        }
    }
}

impl RawManifest {
    /// Every table keeps its keys in order.
    pub open spec fn wf(&self) -> bool {
        self.nodes.wf() && self.sources.wf() && self.exposures.wf() && self.parent_map.wf() && self.child_map.wf()
    }
}

impl Default for RawManifest {
    /// The manifest of an empty project.
    fn default() -> (r: RawManifest)
        ensures
            r.wf(),
            r.nodes@ == Map::<Text, RawNode>::empty(),
            r.sources@ == Map::<Text, RawSource>::empty(),
            r.exposures@ == Map::<Text, RawExposure>::empty(),
            r.parent_map@ == Map::<Text, Vec<String>>::empty(),
            r.child_map@ == Map::<Text, Vec<String>>::empty(),
    {
        RawManifest {
            nodes: StrMap::new(),
            sources: StrMap::new(),
            exposures: StrMap::new(),
            parent_map: StrMap::new(),
            child_map: StrMap::new(),
        }
    }
}

impl Default for RawNode {
    /// A node with empty texts and lists and nothing optional recorded.
    fn default() -> (r: RawNode)
        ensures
            r.deep_view() == (RawNodeModel {
                name: Seq::empty(),
                resource_type: Seq::empty(),
                path: None,
                raw_code: None,
                materialized: None,
                database: None,
                schema: None,
                tags: Seq::empty(),
                description: None,
                columns: Seq::empty(),
                original_file_path: None,
                attached_node: None,
                column_name: None,
                test_name: None,
                depends_on: Seq::empty(),
            }),
    {
        let r = RawNode {
            name: String::new(),
            resource_type: String::new(),
            path: None,
            raw_code: None,
            config: RawConfig { materialized: None },
            database: None,
            schema: None,
            tags: Vec::new(),
            description: None,
            columns: Vec::new(),
            original_file_path: None,
            attached_node: None,
            column_name: None,
            test_metadata: None,
            depends_on: RawDependsOn { nodes: Vec::new() },
        };
        assert(r.tags.deep_view() =~= Seq::empty());
        assert(r.columns.deep_view() =~= Seq::empty());
        assert(r.depends_on.nodes.deep_view() =~= Seq::empty());
        r
    }
}

impl Default for RawSource {
    /// A source with empty texts and nothing optional recorded.
    fn default() -> (r: RawSource)
        ensures
            r.deep_view() == (RawSourceModel {
                name: Seq::empty(),
                resource_type: Seq::empty(),
                path: None,
                database: None,
                schema: None,
                description: None,
                columns: Seq::empty(),
                original_file_path: None,
            }),
    {
        let r = RawSource {
            name: String::new(),
            resource_type: String::new(),
            path: None,
            database: None,
            schema: None,
            description: None,
            columns: Vec::new(),
            original_file_path: None,
        };
        assert(r.columns.deep_view() =~= Seq::empty());
        r
    }
}

impl Default for RawExposure {
    /// An exposure with an empty name and nothing optional recorded.
    fn default() -> (r: RawExposure)
        ensures
            r.deep_view() == (RawExposureModel {
                name: Seq::empty(),
                path: None,
                exposure_type: None,
                owner_name: None,
                owner_email: None,
                url: None,
                description: None,
                original_file_path: None,
                depends_on: Seq::empty(),
            }),
    {
        let r = RawExposure {
            name: String::new(),
            path: None,
            exposure_type: None,
            owner: RawExposureOwner { name: None, email: None },
            url: None,
            description: None,
            original_file_path: None,
            depends_on: RawDependsOn { nodes: Vec::new() },
        };
        assert(r.depends_on.nodes.deep_view() =~= Seq::empty());
        r
    }
}

} // verus!
