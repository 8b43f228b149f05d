//! The catalog: modules, their versions (newest first) and descriptive metadata.

use vstd::prelude::*;

verus! {

/// One published release of a module.
pub struct ModuleVersion {
    /// Version identifier, compared by exact text.
    pub version: String,
    /// Further details of the release, kept and passed on as they came.
    pub metadata: Vec<u8>,
}

/// Descriptive fields of a module's source repository.
pub struct RepositoryMetadata {
    pub description: String,
    pub homepage: String,
}

/// A named module and its published versions, newest first.
pub struct Module {
    pub name: String,
    pub versions: Vec<ModuleVersion>,
    pub repository_metadata: Option<RepositoryMetadata>,
}

/// The whole registry snapshot.
pub struct Catalog {
    /// Canonical location of the registry.
    pub source_url: String,
    /// Modules in load order.
    pub modules: Vec<Module>,
}

/// Name, latest version and description of one module.
pub struct ModuleSummary {
    pub name: String,
    pub latest_version: String,
    pub description: String,
}

pub struct VersionModel {
    pub version: Seq<char>,
    pub metadata: Seq<u8>,
}

pub struct MetadataModel {
    pub description: Seq<char>,
    pub homepage: Seq<char>,
}

pub struct ModuleModel {
    pub name: Seq<char>,
    pub versions: Seq<VersionModel>,
    pub repository_metadata: Option<MetadataModel>,
}

pub struct CatalogModel {
    pub source_url: Seq<char>,
    pub modules: Seq<ModuleModel>,
}

pub struct SummaryModel {
    pub name: Seq<char>,
    pub latest_version: Seq<char>,
    pub description: Seq<char>,
}

impl View for ModuleVersion {
    type V = VersionModel;

    open spec fn view(&self) -> VersionModel {
        VersionModel { version: self.version@, metadata: self.metadata@ }
    }
}

impl View for RepositoryMetadata {
    type V = MetadataModel;

    open spec fn view(&self) -> MetadataModel {
        MetadataModel { description: self.description@, homepage: self.homepage@ }
    }
}

pub open spec fn metadata_view(m: Option<RepositoryMetadata>) -> Option<MetadataModel> {
    match m {
        Some(md) => Some(md@),
        None => None,
    }
}

pub open spec fn versions_view(vs: Seq<ModuleVersion>) -> Seq<VersionModel> {
    vs.map_values(|v: ModuleVersion| v@)
}

impl View for Module {
    type V = ModuleModel;

    open spec fn view(&self) -> ModuleModel {
        ModuleModel {
            name: self.name@,
            versions: versions_view(self.versions@),
            repository_metadata: metadata_view(self.repository_metadata),
        }
    }
}

pub open spec fn modules_view(ms: Seq<Module>) -> Seq<ModuleModel> {
    ms.map_values(|m: Module| m@)
}

impl View for Catalog {
    type V = CatalogModel;

    open spec fn view(&self) -> CatalogModel {
        CatalogModel { source_url: self.source_url@, modules: modules_view(self.modules@) }
    }
}

impl View for ModuleSummary {
    type V = SummaryModel;

    open spec fn view(&self) -> SummaryModel {
        SummaryModel {
            name: self.name@,
            latest_version: self.latest_version@,
            description: self.description@,
        }
    }
}

pub open spec fn summaries_view(ss: Seq<ModuleSummary>) -> Seq<SummaryModel> {
    ss.map_values(|s: ModuleSummary| s@)
}

/// The description of a module, empty where it has no metadata.
pub open spec fn description_of(m: ModuleModel) -> Seq<char> {
    match m.repository_metadata {
        Some(md) => md.description,
        None => Seq::empty(),
    }
}

/// The newest version of a module: the first of its list.
pub open spec fn newest(m: ModuleModel) -> Option<VersionModel> {
    if m.versions.len() > 0 {
        Some(m.versions[0])
    } else {
        None
    }
}

/// The listing projection of a module.
pub open spec fn summary_of(m: ModuleModel) -> SummaryModel {
    SummaryModel {
        name: m.name,
        latest_version: match newest(m) {
            Some(v) => v.version,
            None => Seq::empty(),
        },
        description: description_of(m),
    }
}

impl Module {
    /// The description, or empty text where the module has no metadata.
    pub fn description(&self) -> (r: String)
        ensures
            r@ == description_of(self@),
    {
        match &self.repository_metadata {
            Some(md) => md.description.clone(),
            None => String::new(),
        }
    }

    /// The listing projection of this module.
    pub fn summary(&self) -> (r: ModuleSummary)
        ensures
            r@ == summary_of(self@),
    {
        let latest_version = if self.versions.len() > 0 {
            self.versions[0].version.clone()
        } else {
            String::new()
        };
        ModuleSummary { name: self.name.clone(), latest_version, description: self.description() }
    }
}

} // verus!
