use vstd::prelude::*;
use crate::strmap::StrMap;

verus! {

/// One module produced by a translation unit, as the registry records it:
/// the path of its compiled interface artifact and whether the producing
/// provide was implementation-only.
#[derive(Debug)]
pub struct Module {
    pub bmi: String,
    pub is_private: bool,
}

pub ghost struct ModuleView {
    pub bmi: Seq<char>,
    pub is_private: bool,
}

impl View for Module {
    type V = ModuleView;

    open spec fn view(&self) -> ModuleView {
        ModuleView { bmi: self.bmi@, is_private: self.is_private }
    }
}

/// How another unit finds a module: a resolution strategy tag and the
/// artifact path to hand to the consumer.
#[derive(Debug)]
pub struct Reference {
    pub lookup_method: String,
    pub path: String,
}

pub ghost struct ReferenceView {
    pub lookup_method: Seq<char>,
    pub path: Seq<char>,
}

impl View for Reference {
    type V = ReferenceView;

    open spec fn view(&self) -> ReferenceView {
        ReferenceView { lookup_method: self.lookup_method@, path: self.path@ }
    }
}

/// The whole-program module registry: per logical module name, the module
/// record, the reference record, and (inert, kept for the schema) the list
/// of consumers.
#[derive(Debug)]
pub struct Cpp20ModulesInfo {
    pub modules: StrMap<Module>,
    pub references: StrMap<Reference>,
    pub usages: StrMap<Vec<String>>,
}

pub ghost struct Cpp20ModulesInfoView {
    pub modules: Map<Seq<char>, ModuleView>,
    pub references: Map<Seq<char>, ReferenceView>,
    pub usages: Map<Seq<char>, Seq<String>>,
}

impl View for Cpp20ModulesInfo {
    type V = Cpp20ModulesInfoView;

    open spec fn view(&self) -> Cpp20ModulesInfoView {
        Cpp20ModulesInfoView {
            modules: self.modules@,
            references: self.references@,
            usages: self.usages@,
        }
    }
}

/// One dependency of a rule: the logical name of a module it consumes.
#[derive(Debug)]
pub struct Require {
    pub logical_name: String,
}

pub ghost struct RequireView {
    pub logical_name: Seq<char>,
}

impl View for Require {
    type V = RequireView;

    open spec fn view(&self) -> RequireView {
        RequireView { logical_name: self.logical_name@ }
    }
}

/// One module a rule produces: its logical name, whether it is a publicly
/// visible interface, and the origin source file (carried through unused).
#[derive(Debug)]
pub struct Provide {
    pub is_interface: bool,
    pub logical_name: String,
    pub source_path: String,
}

pub ghost struct ProvideView {
    pub is_interface: bool,
    pub logical_name: Seq<char>,
    pub source_path: Seq<char>,
}

impl View for Provide {
    type V = ProvideView;

    open spec fn view(&self) -> ProvideView {
        ProvideView {
            is_interface: self.is_interface,
            logical_name: self.logical_name@,
            source_path: self.source_path@,
        }
    }
}

/// One rule of a dependency descriptor: the artifact the unit's compilation
/// produces, the modules it provides, and the modules it requires.
#[derive(Debug)]
pub struct Rule {
    pub primary_output: String,
    pub provides: Vec<Provide>,
    pub requires: Vec<Require>,
}

pub ghost struct RuleView {
    pub primary_output: Seq<char>,
    pub provides: Seq<ProvideView>,
    pub requires: Seq<RequireView>,
}

impl View for Rule {
    type V = RuleView;

    open spec fn view(&self) -> RuleView {
        RuleView {
            primary_output: self.primary_output@,
            provides: self.provides@.map_values(|p: Provide| p@),
            requires: self.requires@.map_values(|r: Require| r@),
        }
    }
}

/// A per-translation-unit dependency descriptor. `revision` and `version`
/// are schema markers passed through unchanged.
#[derive(Debug)]
pub struct Ddi {
    pub revision: i32,
    pub rules: Vec<Rule>,
    pub version: i32,
}

pub ghost struct DdiView {
    pub revision: i32,
    pub rules: Seq<RuleView>,
    pub version: i32,
}

impl View for Ddi {
    type V = DdiView;

    open spec fn view(&self) -> DdiView {
        DdiView {
            revision: self.revision,
            rules: self.rules@.map_values(|r: Rule| r@),
            version: self.version,
        }
    }
}

} // verus!
