use vstd::prelude::*;

use crate::strops::{
    find_char, first_index_of, last_index_of, rfind_char, str_contains_sub, str_eq,
    spec_contains_sub,
};

verus! {

/// Location sentinel for units that are only referenced as dependency
/// targets and have no physical source file.
pub open spec fn spec_unknown_location() -> Seq<char> {
    "n/a"@
}

pub fn unknown_location() -> (r: String)
    ensures
        r@ == spec_unknown_location(),
{
    "n/a".to_owned()
}

/// Team sentinel for units and modules with no resolved owning team.
pub open spec fn spec_unknown_team() -> Seq<char> {
    "UNKNOWN"@
}

pub fn unknown_team() -> (r: String)
    ensures
        r@ == spec_unknown_team(),
{
    "UNKNOWN".to_owned()
}

/// The bootstrap unit that defines the team identifiers themselves; it is
/// exempt from the missing-team check.
pub open spec fn spec_team_enum_unit() -> Seq<char> {
    "io.harness.annotations.dev.HarnessTeam"@
}

pub fn team_enum_unit() -> (r: String)
    ensures
        r@ == spec_team_enum_unit(),
{
    "io.harness.annotations.dev.HarnessTeam".to_owned()
}

/// Path fragment that marks a unit as generated code.
pub open spec fn spec_generated_marker() -> Seq<char> {
    "/generated/"@
}

pub fn generated_marker() -> (r: String)
    ensures
        r@ == spec_generated_marker(),
{
    "/generated/".to_owned()
}

/// Mathematical model of a compilation unit.
#[verifier::ext_equal]
pub struct ClassV {
    pub name: Seq<char>,
    pub location: Seq<char>,
    pub package: Option<Seq<char>>,
    pub dependencies: Seq<Seq<char>>,
    pub target_module: Option<Seq<char>>,
    pub break_dependencies_on: Seq<Seq<char>>,
    pub deprecated: bool,
    pub team: Option<Seq<char>>,
}

/// A compilation unit: a single source item with a fully-qualified name,
/// identified by that name alone.
#[derive(Debug)]
pub struct JavaClass {
    pub name: String,
    pub location: String,
    pub package: Option<String>,
    pub dependencies: Vec<String>,
    pub target_module: Option<String>,
    pub break_dependencies_on: Vec<String>,
    pub deprecated: bool,
    pub team: Option<String>,
}

impl View for JavaClass {
    type V = ClassV;

    open spec fn view(&self) -> ClassV {
        ClassV {
            name: self.name@,
            location: self.location@,
            package: self.package.deep_view(),
            dependencies: self.dependencies.deep_view(),
            target_module: self.target_module.deep_view(),
            break_dependencies_on: self.break_dependencies_on.deep_view(),
            deprecated: self.deprecated,
            team: self.team.deep_view(),
        }
    }
}

/// Mathematical model of a module.
#[verifier::ext_equal]
pub struct ModuleV {
    pub name: Seq<char>,
    pub index: int,
    pub directory: Seq<char>,
    pub dependencies: Seq<Seq<char>>,
    pub srcs: Seq<ClassV>,
    pub deprecated: bool,
    pub external: bool,
    pub break_dependencies_on: Seq<Seq<char>>,
    pub team: Option<Seq<char>>,
}

/// A named, layer-ordered grouping of units with declared allowed
/// dependencies.
#[derive(Debug)]
pub struct JavaModule {
    pub name: String,
    pub index: i64,
    pub directory: String,
    pub dependencies: Vec<String>,
    pub srcs: Vec<JavaClass>,
    pub deprecated: bool,
    pub external: bool,
    pub break_dependencies_on: Vec<String>,
    pub team: Option<String>,
}

impl View for JavaModule {
    type V = ModuleV;

    open spec fn view(&self) -> ModuleV {
        ModuleV {
            name: self.name@,
            index: self.index as int,
            directory: self.directory@,
            dependencies: self.dependencies.deep_view(),
            srcs: self.srcs.deep_view(),
            deprecated: self.deprecated,
            external: self.external,
            break_dependencies_on: self.break_dependencies_on.deep_view(),
            team: self.team.deep_view(),
        }
    }
}

/// Copy of a string vector, preserving the element views.
pub fn clone_string_vec(v: &Vec<String>) -> (r: Vec<String>)
    ensures
        r@ == v@,
{
    let mut r: Vec<String> = Vec::new();
    let mut i: usize = 0;
    while i < v.len()
        invariant
            0 <= i <= v@.len(),
            r@ == v@.take(i as int),
        decreases v@.len() - i,
    {
        r.push(v[i].clone());
        i += 1;
        assert(v@.take(i as int) =~= v@.take(i - 1).push(v@[i - 1]));
    }
    assert(v@.take(v@.len() as int) =~= v@);
    r
}

/// Copy of an optional string, preserving the view.
pub fn clone_opt_string(v: &Option<String>) -> (r: Option<String>)
    ensures
        r == *v,
{
    match v {
        Some(s) => Some(s.clone()),
        None => None,
    }
}

impl Clone for JavaClass {
    fn clone(&self) -> (r: Self)
        ensures
            r@ == self@,
    {
        JavaClass {
            name: self.name.clone(),
            location: self.location.clone(),
            package: clone_opt_string(&self.package),
            dependencies: clone_string_vec(&self.dependencies),
            target_module: clone_opt_string(&self.target_module),
            break_dependencies_on: clone_string_vec(&self.break_dependencies_on),
            deprecated: self.deprecated,
            team: clone_opt_string(&self.team),
        }
    }
}

/// Copy of a unit vector, preserving the element views.
pub fn clone_class_vec(v: &Vec<JavaClass>) -> (r: Vec<JavaClass>)
    ensures
        r.deep_view() == v.deep_view(),
{
    let mut r: Vec<JavaClass> = Vec::new();
    let mut i: usize = 0;
    while i < v.len()
        invariant
            0 <= i <= v@.len(),
            v.deep_view().len() == v@.len(),
            r.deep_view() =~= v.deep_view().take(i as int),
        decreases v@.len() - i,
    {
        assert(v.deep_view()[i as int] == v@[i as int]@);
        let ghost pre = r.deep_view();
        let ghost prev = r@;
        r.push(v[i].clone());
        proof {
            assert(pre.len() == r@.len() - 1);
            assert(prev.len() == i as int);
            assert(r@ == prev.push(r@[i as int]));
            assert forall|j: int| 0 <= j < i implies #[trigger] r.deep_view()[j] == pre[j] by {
                assert(r@[j] == prev[j]);
            }
            assert(r.deep_view()[i as int] == r@[i as int]@);
        }
        i += 1;
        assert(r.deep_view() =~= v.deep_view().take(i as int));
    }
    assert(v.deep_view().take(v@.len() as int) =~= v.deep_view());
    r
}

impl Clone for JavaModule {
    fn clone(&self) -> (r: Self)
        ensures
            r@ == self@,
    {
        let r = JavaModule {
            name: self.name.clone(),
            index: self.index,
            directory: self.directory.clone(),
            dependencies: clone_string_vec(&self.dependencies),
            srcs: clone_class_vec(&self.srcs),
            deprecated: self.deprecated,
            external: self.external,
            break_dependencies_on: clone_string_vec(&self.break_dependencies_on),
            team: clone_opt_string(&self.team),
        };
        assert(r@ =~= self@);
        r
    }
}

impl DeepView for JavaClass {
    type V = ClassV;

    open spec fn deep_view(&self) -> ClassV {
        self.view()
    }
}

impl DeepView for JavaModule {
    type V = ModuleV;

    open spec fn deep_view(&self) -> ModuleV {
        self.view()
    }
}

/// The unit's location below its module directory: everything after the
/// first path separator.
pub open spec fn spec_relative_location(location: Seq<char>) -> Seq<char> {
    location.subrange(first_index_of(location, '/') + 1, location.len() as int)
}

pub trait JavaClassTraits {
    fn relative_location(&self) -> (r: String)
        requires
            first_index_of(self.rl_location()@, '/') >= 0,
        ensures
            r@ == spec_relative_location(self.rl_location()@),
    ;

    /// The location the relative location is taken from.
    spec fn rl_location(&self) -> String;
}

impl JavaClassTraits for JavaClass {
    open spec fn rl_location(&self) -> String {
        self.location
    }

    fn relative_location(&self) -> (r: String) {
        proof {
            crate::strops::lemma_first_index_of(self.location@, '/');
        }
        let i = match find_char(self.location.as_str(), '/') {
            Some(i) => i,
            None => 0,  // unreachable under the precondition
        };
        let n = self.location.as_str().unicode_len();
        let mut r = String::new();
        let mut j: usize = i + 1;
        while j < n
            invariant
                first_index_of(self.location@, '/') == i,
                i + 1 <= j <= n,
                n == self.location@.len(),
                r@ == self.location@.subrange(i + 1, j as int),
            decreases n - j,
        {
            let c = self.location.as_str().get_char(j);
            crate::strops::push_char(&mut r, c);
            j += 1;
            assert(self.location@.subrange(i + 1, j as int) =~= self.location@.subrange(
                i + 1,
                j - 1,
            ).push(self.location@[j - 1]));
        }
        r
    }
}

/// The directory part of a location: everything before the last path
/// separator, or empty when there is none.
pub open spec fn spec_directory_location(location: Seq<char>) -> Seq<char> {
    if last_index_of(location, '/') >= 0 {
        location.subrange(0, last_index_of(location, '/'))
    } else {
        Seq::empty()
    }
}

impl JavaClass {
    /// Directory holding the unit's source file.
    pub fn directory_location(&self) -> (r: String)
        ensures
            r@ == spec_directory_location(self.location@),
    {
        proof {
            crate::strops::lemma_last_index_of(self.location@, '/');
        }
        match rfind_char(self.location.as_str(), '/') {
            None => String::new(),
            Some(i) => {
                let r = self.location.as_str().substring_char(0, i);
                r.to_owned()
            },
        }
    }

    /// Whether the unit is generated code, judged by its source path.
    pub open spec fn spec_is_generated(&self) -> bool {
        spec_contains_sub(self@.location, spec_generated_marker())
    }

    pub fn is_generated(&self) -> (r: bool)
        ensures
            r == self.spec_is_generated(),
    {
        let marker = generated_marker();
        str_contains_sub(&self.location, &marker)
    }

    /// The owning team of a unit: its own annotation first, then the team
    /// of its annotated target module, then the team of its owning module.
    pub open spec fn spec_resolved_team(
        c: ClassV,
        m: ModuleV,
        override_team: Option<Seq<char>>,
    ) -> Seq<char> {
        if c.team is Some {
            c.team->0
        } else if override_team is Some {
            override_team->0
        } else if m.team is Some {
            m.team->0
        } else {
            spec_unknown_team()
        }
    }

    pub fn team(&self, module: &JavaModule, override_team: &Option<String>) -> (r: String)
        ensures
            r@ == Self::spec_resolved_team(self@, module@, override_team.deep_view()),
    {
        match &self.team {
            Some(t) => t.clone(),
            None => match override_team {
                Some(t) => t.clone(),
                None => match &module.team {
                    Some(t) => t.clone(),
                    None => unknown_team(),
                },
            },
        }
    }

    /// The unit's own team annotation, or the unknown-team sentinel.
    pub open spec fn spec_simple_team(c: ClassV) -> Seq<char> {
        if c.team is Some {
            c.team->0
        } else {
            spec_unknown_team()
        }
    }

    pub fn simple_team(&self) -> (r: String)
        ensures
            r@ == Self::spec_simple_team(self@),
    {
        match &self.team {
            Some(t) => t.clone(),
            None => unknown_team(),
        }
    }
}

impl JavaModule {
    /// The module's team, or the unknown-team sentinel.
    pub open spec fn spec_module_team(m: ModuleV) -> Seq<char> {
        if m.team is Some {
            m.team->0
        } else {
            spec_unknown_team()
        }
    }

    pub fn team(&self) -> (r: String)
        ensures
            r@ == Self::spec_module_team(self@),
    {
        match &self.team {
            Some(t) => t.clone(),
            None => unknown_team(),
        }
    }

    /// Whether the module represents third-party code outside this
    /// codebase, exempt from some checks.
    pub fn external(&self) -> (r: bool)
        ensures
            r == self@.external,
    {
        self.external
    }
}

} // verus!
