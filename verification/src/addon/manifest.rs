//! The manifest model: a pack's self-description (identity, version,
//! declared capability modules) and the classification of its kind.
use super::version::AddonVersion;
use vstd::prelude::*;

verus! {

/// A capability module a pack may declare.
#[derive(Debug, Clone, Copy, PartialEq, Eq, Structural)]
pub enum ModuleType {
    Resources,
    Data,
    WorldTemplate,
    Script,
}

/// One declared module; only its type matters here.
pub struct Module {
    pub modles_type: ModuleType,
}

/// The identity block of a manifest.
pub struct Header {
    pub description: Option<String>,
    pub name: String,
    pub uuid: String,
    pub version: AddonVersion,
}

/// A declared dependency: a reference by uuid or module name, at a version.
pub struct Dependencie {
    pub uuid: Option<String>,
    pub module_name: Option<String>,
    pub version: AddonVersion,
}

/// Optional descriptive metadata.
pub struct Metadata {
    pub authors: Option<Vec<String>>,
    pub license: Option<String>,
    pub url: Option<String>,
}

/// A pack's parsed self-description.
pub struct Manifest {
    pub header: Header,
    pub modules: Vec<Module>,
    pub dependencies: Option<Vec<Dependencie>>,
    pub matedata: Option<Metadata>,
}

impl Manifest {
    /// True when the manifest declares a module of the given type.
    pub open spec fn spec_has_module(self, t: ModuleType) -> bool {
        exists|i: int| 0 <= i < self.modules@.len() && (#[trigger] self.modules@[i]).modles_type
            == t
    }

    /// Behavior packs declare game data or scripts.
    pub open spec fn spec_is_behavior(self) -> bool {
        self.spec_has_module(ModuleType::Data) || self.spec_has_module(ModuleType::Script)
    }

    /// Resource packs declare client resources.
    pub open spec fn spec_is_resource(self) -> bool {
        self.spec_has_module(ModuleType::Resources)
    }

    /// Assembles a manifest from its parts.
    pub fn new(
        header: Header,
        modules: Vec<Module>,
        dependencies: Option<Vec<Dependencie>>,
        matedata: Option<Metadata>,
    ) -> (r: Manifest)
        ensures
            r.header == header,
            r.modules == modules,
            r.dependencies == dependencies,
            r.matedata == matedata,
    {
        Manifest { header, modules, dependencies, matedata }
    }

    /// The declared module types, in declaration order.
    pub fn get_type(&self) -> (r: Vec<ModuleType>)
        ensures
            r@.len() == self.modules@.len(),
            forall|i: int| 0 <= i < r@.len() ==> r@[i] == (#[trigger] self.modules@[i]).modles_type,
    {
        let mut r: Vec<ModuleType> = Vec::new();
        let n = self.modules.len();
        for i in 0..n
            invariant
                n == self.modules@.len(),
                r@.len() == i,
                forall|j: int| 0 <= j < i ==> r@[j] == (#[trigger] self.modules@[j]).modles_type,
        {
            r.push(self.modules[i].modles_type);
        }
        r
    }

    fn has_module(&self, t: ModuleType) -> (r: bool)
        ensures
            r == self.spec_has_module(t),
    {
        let n = self.modules.len();
        for i in 0..n
            invariant
                n == self.modules@.len(),
                forall|j: int| 0 <= j < i ==> (#[trigger] self.modules@[j]).modles_type != t,
        {
            if self.modules[i].modles_type == t {
                return true;
            }
        }
        false
    }

    /// Whether the pack classifies as a behavior pack.
    pub fn is_behavior_pack(&self) -> (r: bool)
        ensures
            r == self.spec_is_behavior(),
    {
        self.has_module(ModuleType::Data) || self.has_module(ModuleType::Script)
    }

    /// Whether the pack classifies as a resource pack.
    pub fn is_resource_pack(&self) -> (r: bool)
        ensures
            r == self.spec_is_resource(),
    {
        self.has_module(ModuleType::Resources)
    }
}

/// The two installable pack kinds.
#[derive(Debug, Clone, Copy, PartialEq, Eq, Structural)]
pub enum PackateType {
    Behavior,
    Resource,
}

/// The pack declares no installable module: it is a world template (or
/// declares nothing this tool can install).
#[derive(Debug)]
pub struct IsWorldTemplate {}

impl PackateType {
    /// Classifies a manifest: behavior wins over resource when both module
    /// families are declared; neither family means the pack is unsupported.
    pub fn classify(value: &Manifest) -> (r: Result<PackateType, IsWorldTemplate>)
        ensures
            value.spec_is_behavior() ==> (r matches Ok(t) && t == PackateType::Behavior),
            !value.spec_is_behavior() && value.spec_is_resource() ==> (r matches Ok(t) && t
                == PackateType::Resource),
            !value.spec_is_behavior() && !value.spec_is_resource() ==> r is Err,
    {
        if value.is_behavior_pack() {
            Ok(PackateType::Behavior)
        } else if value.is_resource_pack() {
            Ok(PackateType::Resource)
        } else {
            Err(IsWorldTemplate {})
        }
    }

    /// The fixed file name of this kind's active-pack-list file.
    pub fn get_list_file_string(&self) -> (r: &str)
        ensures
            *self == PackateType::Behavior ==> r@ == "world_behavior_packs.json"@,
            *self == PackateType::Resource ==> r@ == "world_resource_packs.json"@,
    {
        match self {
            PackateType::Behavior => "world_behavior_packs.json",
            PackateType::Resource => "world_resource_packs.json",
        }
    }

    /// The fixed subdirectory that holds this kind's pack directories.
    pub fn get_path_name(&self) -> (r: &str)
        ensures
            *self == PackateType::Behavior ==> r@ == "behavior_packs"@,
            *self == PackateType::Resource ==> r@ == "resource_packs"@,
    {
        match self {
            PackateType::Behavior => "behavior_packs",
            PackateType::Resource => "resource_packs",
        }
    }
}

} // verus!
