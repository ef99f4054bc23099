use vstd::prelude::*;
use vstd::string::StringExecFns;

use crate::kind::Kind;
use crate::model::{
    spec_directory_location, spec_generated_marker, spec_team_enum_unit, spec_unknown_location,
    spec_unknown_team, ClassV, JavaClass, JavaModule, ModuleV,
};
use crate::ownership::{
    lemma_lookup_module_props, lemma_resolution_covers, lookup_module, lookup_owned, module_named,
    some_module_lists, spec_lookup_module, spec_lookup_owned, spec_resolve_ownership, OwnedClass,
    OwnedV,
};
use crate::report::{Explanation, Report, ReportV};
use crate::strops::{
    push_dv, push_unique, seq_contains_str, spec_contains_sub, spec_push_unique, spec_replace_char,
    replace_char, str_contains_sub, str_eq, str_ends_with, vec_contains_str,
};

verus! {

/// The team of the module a unit is annotated to move to, when both the
/// annotation and the module exist.
pub open spec fn spec_target_module_team(c: ClassV, mods: Seq<ModuleV>) -> Option<Seq<char>> {
    match c.target_module {
        None => None,
        Some(t) => match spec_lookup_module(mods, t) {
            None => None,
            Some(m) => m.team,
        },
    }
}

pub fn target_module_team(class: &JavaClass, modules: &Vec<JavaModule>) -> (r: Option<String>)
    ensures
        r.deep_view() == spec_target_module_team(class@, modules.deep_view()),
{
    match &class.target_module {
        None => None,
        Some(t) => match lookup_module(modules, t) {
            None => None,
            Some(i) => match &modules[i].team {
                None => None,
                Some(team) => Some(team.clone()),
            },
        },
    }
}

/// One-element module set.
pub fn modules_one(a: &String) -> (r: Vec<String>)
    ensures
        r.deep_view() == seq![a@],
{
    let mut r: Vec<String> = Vec::new();
    push_dv(&mut r, a.clone());
    assert(r.deep_view() =~= seq![a@]);
    r
}

/// Two-element module set, deduplicated.
pub fn modules_two(a: &String, b: &String) -> (r: Vec<String>)
    ensures
        r.deep_view() == spec_push_unique(seq![a@], b@),
{
    let mut r = modules_one(a);
    push_unique(&mut r, b.clone());
    r
}

/// Three-element module set, deduplicated.
pub fn modules_three(a: &String, b: &String, c: &String) -> (r: Vec<String>)
    ensures
        r.deep_view() == spec_push_unique(spec_push_unique(seq![a@], b@), c@),
{
    let mut r = modules_two(a, b);
    push_unique(&mut r, c.clone());
    r
}

/// Report for a dead break-dependency annotation.
pub open spec fn report_extra_break(
    c: ClassV,
    m: ModuleV,
    tmt: Option<Seq<char>>,
    dep: Seq<char>,
) -> ReportV {
    ReportV {
        kind: Kind::Critical,
        explanation: Explanation::Empty,
        message: c.name + " has no dependency on "@ + dep,
        action: Seq::empty(),
        for_class: c.name,
        for_team: JavaClass::spec_resolved_team(c, m, tmt),
        indirect_classes: Seq::empty(),
        for_modules: if c.target_module is Some {
            spec_push_unique(seq![m.name], c.target_module->0)
        } else {
            seq![m.name]
        },
    }
}

pub open spec fn spec_extra_break_pref(
    c: ClassV,
    m: ModuleV,
    tmt: Option<Seq<char>>,
    j: int,
) -> Seq<ReportV>
    decreases j,
{
    if j <= 0 {
        Seq::empty()
    } else {
        spec_extra_break_pref(c, m, tmt, j - 1) + (if !seq_contains_str(
            c.dependencies,
            c.break_dependencies_on[j - 1],
        ) {
            seq![report_extra_break(c, m, tmt, c.break_dependencies_on[j - 1])]
        } else {
            Seq::empty()
        })
    }
}

/// A unit that is annotated to break a dependency it does not have is a
/// critical finding: one report per dead annotation.
pub open spec fn spec_check_for_extra_break(c: ClassV, m: ModuleV, tmt: Option<Seq<char>>) -> Seq<
    ReportV,
> {
    spec_extra_break_pref(c, m, tmt, c.break_dependencies_on.len() as int)
}

pub fn check_for_extra_break(
    class: &JavaClass,
    module: &JavaModule,
    target_module_team: &Option<String>,
) -> (r: Vec<Report>)
    ensures
        r.deep_view() == spec_check_for_extra_break(
            class@,
            module@,
            target_module_team.deep_view(),
        ),
{
    let ghost c = class@;
    let ghost m = module@;
    let ghost tmt = target_module_team.deep_view();
    let mut r: Vec<Report> = Vec::new();
    let mut j: usize = 0;
    while j < class.break_dependencies_on.len()
        invariant
            0 <= j <= class.break_dependencies_on@.len(),
            c == class@,
            m == module@,
            tmt == target_module_team.deep_view(),
            c.break_dependencies_on.len() == class.break_dependencies_on@.len(),
            r.deep_view() =~= spec_extra_break_pref(c, m, tmt, j as int),
        decreases class.break_dependencies_on@.len() - j,
    {
        let bd = &class.break_dependencies_on[j];
        assert(bd@ == c.break_dependencies_on[j as int]);
        if !vec_contains_str(&class.dependencies, bd) {
            let mdls = match &class.target_module {
                Some(t) => modules_two(&module.name, t),
                None => modules_one(&module.name),
            };
            let msg = class.name.clone().concat(" has no dependency on ").concat(bd.as_str());
            let rep = Report {
                kind: Kind::Critical,
                explanation: Explanation::Empty,
                message: msg,
                action: String::new(),
                for_class: class.name.clone(),
                for_team: class.team(module, target_module_team),
                indirect_classes: Vec::new(),
                for_modules: mdls,
            };
            assert(rep@ =~= report_extra_break(c, m, tmt, c.break_dependencies_on[j as int]));
            push_dv(&mut r, rep);
        }
        j += 1;
        assert(r.deep_view() =~= spec_extra_break_pref(c, m, tmt, j as int));
    }
    r
}

/// Report for a unit claimed by two modules.
pub open spec fn report_duplicate_ownership(c: ClassV, m: ModuleV, owner: ModuleV, mods: Seq<ModuleV>) -> ReportV {
    ReportV {
        kind: Kind::Critical,
        explanation: Explanation::Empty,
        message: c.name + " appears in "@ + m.name + " and "@ + owner.name,
        action: Seq::empty(),
        for_class: c.name,
        for_team: JavaClass::spec_resolved_team(c, m, spec_target_module_team(c, mods)),
        indirect_classes: Seq::empty(),
        for_modules: spec_push_unique(seq![m.name], owner.name),
    }
}

pub open spec fn spec_dup_pref(
    m: ModuleV,
    mods: Seq<ModuleV>,
    entries: Seq<OwnedV>,
    j: int,
) -> Seq<ReportV>
    decreases j,
{
    if j <= 0 {
        Seq::empty()
    } else {
        spec_dup_pref(m, mods, entries, j - 1) + ({
            let c = m.srcs[j - 1];
            if c.location != spec_unknown_location() && spec_lookup_owned(entries, c.name) is Some
                && spec_lookup_owned(entries, c.name)->0.module_index < mods.len() && mods[
                spec_lookup_owned(entries, c.name)->0.module_index
            ].name != m.name {
                seq![
                    report_duplicate_ownership(
                        c,
                        m,
                        mods[spec_lookup_owned(entries, c.name)->0.module_index],
                        mods,
                    ),
                ]
            } else {
                Seq::empty()
            }
        })
    }
}

/// Every unit with a physical location whose resolved owner is another
/// module than the one claiming it yields a critical finding.
pub open spec fn spec_check_for_classes_in_more_than_one_module(
    m: ModuleV,
    mods: Seq<ModuleV>,
    entries: Seq<OwnedV>,
) -> Seq<ReportV> {
    spec_dup_pref(m, mods, entries, m.srcs.len() as int)
}

pub fn check_for_classes_in_more_than_one_module(
    module: &JavaModule,
    entries: &Vec<OwnedClass>,
    modules: &Vec<JavaModule>,
) -> (r: Vec<Report>)
    requires
        entries.deep_view() == spec_resolve_ownership(modules.deep_view()),
        exists|mi: int|
            0 <= mi < modules.deep_view().len() && modules.deep_view()[mi] == module@,
    ensures
        r.deep_view() == spec_check_for_classes_in_more_than_one_module(
            module@,
            modules.deep_view(),
            entries.deep_view(),
        ),
{
    let ghost m = module@;
    let ghost mods = modules.deep_view();
    let ghost ent = entries.deep_view();
    let mut r: Vec<Report> = Vec::new();
    let nloc = crate::model::unknown_location();
    let mut j: usize = 0;
    while j < module.srcs.len()
        invariant
            0 <= j <= module.srcs@.len(),
            m == module@,
            mods == modules.deep_view(),
            ent == entries.deep_view(),
            ent == spec_resolve_ownership(mods),
            exists|mi: int| 0 <= mi < mods.len() && mods[mi] == m,
            nloc@ == spec_unknown_location(),
            m.srcs.len() == module.srcs@.len(),
            mods.len() == modules@.len(),
            r.deep_view() =~= spec_dup_pref(m, mods, ent, j as int),
        decreases module.srcs@.len() - j,
    {
        let src = &module.srcs[j];
        assert(src@ == m.srcs[j as int]);
        if !str_eq(&src.location, &nloc) {
            proof {
                let mi = choose|mi: int| 0 <= mi < mods.len() && mods[mi] == m;
                assert(m.srcs[j as int].name == m.srcs[j as int].name);
                assert(crate::ownership::module_lists(mods[mi], src@.name));
                assert(some_module_lists(mods, src@.name));
                lemma_resolution_covers(mods, src@.name);
            }
            let e = match lookup_owned(entries, &src.name) {
                Some(e) => e,
                None => {
                    proof {
                        assert(false);
                    }
                    unreached()
                },
            };
            let owner_idx = entries[e].module_index;
            assert(ent[e as int].module_index < mods.len());
            let owner = &modules[owner_idx];
            assert(owner@ == mods[ent[e as int].module_index]);
            if !str_eq(&owner.name, &module.name) {
                let msg = src.name.clone().concat(" appears in ").concat(
                    module.name.as_str(),
                ).concat(" and ").concat(owner.name.as_str());
                let tmt = target_module_team(src, modules);
                let rep = Report {
                    kind: Kind::Critical,
                    explanation: Explanation::Empty,
                    message: msg,
                    action: String::new(),
                    for_class: src.name.clone(),
                    for_team: src.team(module, &tmt),
                    indirect_classes: Vec::new(),
                    for_modules: modules_two(&module.name, &owner.name),
                };
                assert(rep@ =~= report_duplicate_ownership(
                    m.srcs[j as int],
                    m,
                    mods[ent[e as int].module_index],
                    mods,
                ));
                push_dv(&mut r, rep);
            }
        }
        j += 1;
        assert(r.deep_view() =~= spec_dup_pref(m, mods, ent, j as int));
    }
    r
}

/// Whether every name of `deps` names a module of the graph.
pub open spec fn module_deps_resolvable(mods: Seq<ModuleV>, deps: Seq<Seq<char>>) -> bool {
    forall|k: int| 0 <= k < deps.len() ==> module_named(mods, #[trigger] deps[k])
}

/// Report for a module that depends on a module not strictly below it.
pub open spec fn report_layering(m: ModuleV, dep: ModuleV) -> ReportV {
    ReportV {
        kind: Kind::Critical,
        explanation: Explanation::Empty,
        message: "Module "@ + m.name + " depends on module "@ + dep.name + " that is not lower"@,
        action: Seq::empty(),
        for_class: Seq::empty(),
        for_team: JavaModule::spec_module_team(m),
        indirect_classes: Seq::empty(),
        for_modules: spec_push_unique(seq![m.name], dep.name),
    }
}

pub open spec fn spec_reversed_pref(m: ModuleV, mods: Seq<ModuleV>, j: int) -> Seq<ReportV>
    decreases j,
{
    if j <= 0 {
        Seq::empty()
    } else {
        spec_reversed_pref(m, mods, j - 1) + ({
            let dep = spec_lookup_module(mods, m.dependencies[j - 1]);
            if dep is Some && dep->0.index >= m.index {
                seq![report_layering(m, dep->0)]
            } else {
                Seq::empty()
            }
        })
    }
}

/// The layering invariant: a module may declare a dependency only on
/// modules with a strictly lower layer index; each declared dependency
/// that is not strictly lower yields exactly one critical finding.
pub open spec fn spec_check_for_reversed_dependency(m: ModuleV, mods: Seq<ModuleV>) -> Seq<
    ReportV,
> {
    spec_reversed_pref(m, mods, m.dependencies.len() as int)
}

pub fn check_for_reversed_dependency(module: &JavaModule, modules: &Vec<JavaModule>) -> (r: Vec<
    Report,
>)
    requires
        module_deps_resolvable(modules.deep_view(), module@.dependencies),
    ensures
        r.deep_view() == spec_check_for_reversed_dependency(module@, modules.deep_view()),
{
    let ghost m = module@;
    let ghost mods = modules.deep_view();
    let mut r: Vec<Report> = Vec::new();
    let mut j: usize = 0;
    while j < module.dependencies.len()
        invariant
            0 <= j <= module.dependencies@.len(),
            m == module@,
            mods == modules.deep_view(),
            module_deps_resolvable(mods, m.dependencies),
            m.dependencies.len() == module.dependencies@.len(),
            mods.len() == modules@.len(),
            r.deep_view() =~= spec_reversed_pref(m, mods, j as int),
        decreases module.dependencies@.len() - j,
    {
        let name = &module.dependencies[j];
        assert(name@ == m.dependencies[j as int]);
        proof {
            assert(module_named(mods, m.dependencies[j as int]));
            lemma_lookup_module_props(mods, name@);
        }
        let dep_idx = match lookup_module(modules, name) {
            Some(i) => i,
            None => {
                proof {
                    assert(false);
                }
                unreached()
            },
        };
        let dependent = &modules[dep_idx];
        if dependent.index >= module.index {
            let msg = "Module ".to_owned().concat(module.name.as_str()).concat(
                " depends on module ",
            ).concat(dependent.name.as_str()).concat(" that is not lower");
            let rep = Report {
                kind: Kind::Critical,
                explanation: Explanation::Empty,
                message: msg,
                action: String::new(),
                for_class: String::new(),
                for_team: module.team(),
                indirect_classes: Vec::new(),
                for_modules: modules_two(&module.name, &dependent.name),
            };
            assert(rep@ =~= report_layering(m, spec_lookup_module(mods, m.dependencies[j as int])->0));
            push_dv(&mut r, rep);
        }
        j += 1;
        assert(r.deep_view() =~= spec_reversed_pref(m, mods, j as int));
    }
    r
}

/// A unit already sitting in its annotated target module is a stale
/// annotation: one warning.
pub open spec fn spec_check_already_in_target(c: ClassV, m: ModuleV, tmt: Option<Seq<char>>) -> Seq<
    ReportV,
> {
    if c.target_module is Some && c.target_module->0 == m.name {
        seq![
            ReportV {
                kind: Kind::Warning,
                explanation: Explanation::ClassAlreadyInTheTargetModule,
                message: c.name + " target module is the same as the module of the class"@,
                action: Seq::empty(),
                for_class: c.name,
                for_team: JavaClass::spec_resolved_team(c, m, tmt),
                indirect_classes: Seq::empty(),
                for_modules: seq![m.name],
            },
        ]
    } else {
        Seq::empty()
    }
}

pub fn check_already_in_target(
    class: &JavaClass,
    module: &JavaModule,
    target_module_team: &Option<String>,
) -> (r: Vec<Report>)
    ensures
        r.deep_view() == spec_check_already_in_target(
            class@,
            module@,
            target_module_team.deep_view(),
        ),
{
    let mut r: Vec<Report> = Vec::new();
    match &class.target_module {
        None => r,
        Some(t) => {
            if str_eq(&module.name, t) {
                let msg = class.name.clone().concat(
                    " target module is the same as the module of the class",
                );
                let rep = Report {
                    kind: Kind::Warning,
                    explanation: Explanation::ClassAlreadyInTheTargetModule,
                    message: msg,
                    action: String::new(),
                    for_class: class.name.clone(),
                    for_team: class.team(module, target_module_team),
                    indirect_classes: Vec::new(),
                    for_modules: modules_one(&module.name),
                };
                assert(rep@ =~= spec_check_already_in_target(
                    class@,
                    module@,
                    target_module_team.deep_view(),
                )[0]);
                push_dv(&mut r, rep);
                assert(r.deep_view() =~= spec_check_already_in_target(
                    class@,
                    module@,
                    target_module_team.deep_view(),
                ));
            }
            r
        },
    }
}

/// A live unit left in a deprecated module without a target annotation is
/// a warning.
pub open spec fn spec_check_for_deprecated_module(
    c: ClassV,
    m: ModuleV,
    tmt: Option<Seq<char>>,
) -> Seq<ReportV> {
    if !c.deprecated && c.target_module is None && m.deprecated {
        seq![
            ReportV {
                kind: Kind::Warning,
                explanation: Explanation::DeprecatedModule,
                message: c.name + " is in deprecated module "@ + m.name
                    + " and has no target module"@,
                action: Seq::empty(),
                for_class: c.name,
                for_team: JavaClass::spec_resolved_team(c, m, tmt),
                indirect_classes: Seq::empty(),
                for_modules: seq![m.name],
            },
        ]
    } else {
        Seq::empty()
    }
}

pub fn check_for_deprecated_module(
    class: &JavaClass,
    module: &JavaModule,
    target_module_team: &Option<String>,
) -> (r: Vec<Report>)
    ensures
        r.deep_view() == spec_check_for_deprecated_module(
            class@,
            module@,
            target_module_team.deep_view(),
        ),
{
    let mut r: Vec<Report> = Vec::new();
    if class.deprecated {
        return r;
    }
    if class.target_module.is_none() && module.deprecated {
        let msg = class.name.clone().concat(" is in deprecated module ").concat(
            module.name.as_str(),
        ).concat(" and has no target module");
        let rep = Report {
            kind: Kind::Warning,
            explanation: Explanation::DeprecatedModule,
            message: msg,
            action: String::new(),
            for_class: class.name.clone(),
            for_team: class.team(module, target_module_team),
            indirect_classes: Vec::new(),
            for_modules: modules_one(&module.name),
        };
        assert(rep@ =~= spec_check_for_deprecated_module(
            class@,
            module@,
            target_module_team.deep_view(),
        )[0]);
        push_dv(&mut r, rep);
        assert(r.deep_view() =~= spec_check_for_deprecated_module(
            class@,
            module@,
            target_module_team.deep_view(),
        ));
    }
    r
}

/// A declared namespace whose path form is not a suffix of the unit's
/// directory is a critical finding.
pub open spec fn spec_check_for_package(c: ClassV, m: ModuleV, tmt: Option<Seq<char>>) -> Seq<
    ReportV,
> {
    if c.package is Some && !spec_replace_char(c.package->0, '.', '/').is_suffix_of(
        spec_directory_location(c.location),
    ) {
        seq![
            ReportV {
                kind: Kind::Critical,
                explanation: Explanation::Empty,
                message: c.package->0 + " package does not match the location "@ + c.location,
                action: Seq::empty(),
                for_class: c.name,
                for_team: JavaClass::spec_resolved_team(c, m, tmt),
                indirect_classes: Seq::empty(),
                for_modules: seq![m.name],
            },
        ]
    } else {
        Seq::empty()
    }
}

pub fn check_for_package(
    class: &JavaClass,
    module: &JavaModule,
    target_module_team: &Option<String>,
) -> (r: Vec<Report>)
    ensures
        r.deep_view() == spec_check_for_package(class@, module@, target_module_team.deep_view()),
{
    let mut r: Vec<Report> = Vec::new();
    match &class.package {
        None => r,
        Some(p) => {
            let path_form = replace_char(p, '.', '/');
            let dir = class.directory_location();
            if !str_ends_with(&dir, &path_form) {
                let msg = p.clone().concat(" package does not match the location ").concat(
                    class.location.as_str(),
                );
                let rep = Report {
                    kind: Kind::Critical,
                    explanation: Explanation::Empty,
                    message: msg,
                    action: String::new(),
                    for_class: class.name.clone(),
                    for_team: class.team(module, target_module_team),
                    indirect_classes: Vec::new(),
                    for_modules: modules_one(&module.name),
                };
                assert(rep@ =~= spec_check_for_package(
                    class@,
                    module@,
                    target_module_team.deep_view(),
                )[0]);
                push_dv(&mut r, rep);
                assert(r.deep_view() =~= spec_check_for_package(
                    class@,
                    module@,
                    target_module_team.deep_view(),
                ));
            }
            r
        },
    }
}

/// A live, hand-written unit with a physical location that resolves to no
/// team is a to-do finding; the bootstrap team-definition unit is exempt.
pub open spec fn spec_check_for_team(c: ClassV, m: ModuleV, tmt: Option<Seq<char>>) -> Seq<
    ReportV,
> {
    if !c.deprecated && !spec_contains_sub(c.location, spec_generated_marker()) && c.location
        != spec_unknown_location() && c.name != spec_team_enum_unit()
        && JavaClass::spec_resolved_team(c, m, tmt) == spec_unknown_team() {
        seq![
            ReportV {
                kind: Kind::ToDo,
                explanation: Explanation::TeamIsMissing,
                message: c.name + " is missing team"@,
                action: Seq::empty(),
                for_class: c.name,
                for_team: spec_unknown_team(),
                indirect_classes: Seq::empty(),
                for_modules: seq![m.name],
            },
        ]
    } else {
        Seq::empty()
    }
}

pub fn check_for_team(
    class: &JavaClass,
    module: &JavaModule,
    target_module_team: &Option<String>,
) -> (r: Vec<Report>)
    ensures
        r.deep_view() == spec_check_for_team(class@, module@, target_module_team.deep_view()),
{
    let mut r: Vec<Report> = Vec::new();
    if class.deprecated {
        return r;
    }
    if class.is_generated() {
        return r;
    }
    let nloc = crate::model::unknown_location();
    if str_eq(&nloc, &class.location) {
        return r;
    }
    let bootstrap = crate::model::team_enum_unit();
    if str_eq(&class.name, &bootstrap) {
        return r;
    }
    let team = class.team(module, target_module_team);
    let unknown = crate::model::unknown_team();
    if str_eq(&team, &unknown) {
        let msg = class.name.clone().concat(" is missing team");
        let rep = Report {
            kind: Kind::ToDo,
            explanation: Explanation::TeamIsMissing,
            message: msg,
            action: String::new(),
            for_class: class.name.clone(),
            for_team: unknown,
            indirect_classes: Vec::new(),
            for_modules: modules_one(&module.name),
        };
        assert(rep@ =~= spec_check_for_team(
            class@,
            module@,
            target_module_team.deep_view(),
        )[0]);
        push_dv(&mut r, rep);
        assert(r.deep_view() =~= spec_check_for_team(
            class@,
            module@,
            target_module_team.deep_view(),
        ));
    }
    r
}

/// Report asking for a unit's annotated target module to be created.
pub open spec fn spec_target_module_needed(c: ClassV) -> ReportV {
    ReportV {
        kind: Kind::DevAction,
        explanation: Explanation::Empty,
        message: "Target module "@ + c.target_module->0 + " needs to be created."@,
        action: Seq::empty(),
        for_class: c.name,
        for_team: JavaClass::spec_simple_team(c),
        indirect_classes: Seq::empty(),
        for_modules: Seq::empty(),
    }
}

/// A unit annotated with a target module absent from the graph asks for
/// that module to be created; this is an expected transient state during
/// a migration, not a fatal inconsistency.
pub fn target_module_needed(class: &JavaClass) -> (r: Report)
    requires
        class@.target_module is Some,
    ensures
        r@ == spec_target_module_needed(class@),
{
    let t = match &class.target_module {
        Some(t) => t,
        None => {
            proof {
                assert(false);
            }
            unreached()
        },
    };
    let msg = "Target module ".to_owned().concat(t.as_str()).concat(" needs to be created.");
    let rep = Report {
        kind: Kind::DevAction,
        explanation: Explanation::Empty,
        message: msg,
        action: String::new(),
        for_class: class.name.clone(),
        for_team: class.simple_team(),
        indirect_classes: Vec::new(),
        for_modules: Vec::new(),
    };
    assert(rep@ =~= spec_target_module_needed(class@));
    rep
}

/// Whether every name of `deps` is claimed by some module of the graph.
pub open spec fn unit_deps_resolvable(mods: Seq<ModuleV>, deps: Seq<Seq<char>>) -> bool {
    forall|k: int| 0 <= k < deps.len() ==> some_module_lists(mods, #[trigger] deps[k])
}

/// Report for a dependency that crosses a module-level break annotation.
pub open spec fn report_break_dependency_on(
    c: ClassV,
    m: ModuleV,
    dc: ClassV,
    dtm: ModuleV,
) -> ReportV {
    ReportV {
        kind: Kind::Error,
        explanation: Explanation::BreakDependencyOnModule,
        message: c.name + " depends on "@ + dc.name + " that is in module "@ + dtm.name + " but "@
            + m.name + " should break dependency on it"@,
        action: Seq::empty(),
        for_class: c.name,
        for_team: JavaClass::spec_resolved_team(c, m, None),
        indirect_classes: seq![dc.name],
        for_modules: spec_push_unique(seq![m.name], dtm.name),
    }
}

/// Reports for one dependency of the unit under the module-level break
/// check: the dependency's effective module (its own target if annotated
/// and present, else its real owner) must not be one the unit's module is
/// breaking away from.
pub open spec fn spec_cnb_one(
    c: ClassV,
    m: ModuleV,
    mods: Seq<ModuleV>,
    entries: Seq<OwnedV>,
    dep: Seq<char>,
) -> Seq<ReportV> {
    let l = spec_lookup_owned(entries, dep);
    if l is None {
        Seq::empty()
    } else {
        let dc = l->0.class;
        if dc.deprecated {
            Seq::empty()
        } else {
            let drm = mods[l->0.module_index];
            match dc.target_module {
                Some(tt) => match spec_lookup_module(mods, tt) {
                    None => seq![spec_target_module_needed(dc)],
                    Some(dtm) => if seq_contains_str(m.break_dependencies_on, dtm.name) {
                        seq![report_break_dependency_on(c, m, dc, dtm)]
                    } else {
                        Seq::empty()
                    },
                },
                None => if seq_contains_str(m.break_dependencies_on, drm.name) {
                    seq![report_break_dependency_on(c, m, dc, drm)]
                } else {
                    Seq::empty()
                },
            }
        }
    }
}

pub open spec fn spec_cnb_pref(
    c: ClassV,
    m: ModuleV,
    mods: Seq<ModuleV>,
    entries: Seq<OwnedV>,
    j: int,
) -> Seq<ReportV>
    decreases j,
{
    if j <= 0 {
        Seq::empty()
    } else {
        spec_cnb_pref(c, m, mods, entries, j - 1) + spec_cnb_one(
            c,
            m,
            mods,
            entries,
            c.dependencies[j - 1],
        )
    }
}

/// A unit without a move annotation whose live dependencies resolve into a
/// module its own module is annotated to break away from yields one error
/// per such dependency.
pub open spec fn spec_check_for_module_that_need_to_break_dependency_on(
    c: ClassV,
    m: ModuleV,
    mods: Seq<ModuleV>,
    entries: Seq<OwnedV>,
) -> Seq<ReportV> {
    if c.target_module is Some {
        Seq::empty()
    } else {
        spec_cnb_pref(c, m, mods, entries, c.dependencies.len() as int)
    }
}

pub fn check_for_module_that_need_to_break_dependency_on(
    class: &JavaClass,
    module: &JavaModule,
    modules: &Vec<JavaModule>,
    entries: &Vec<OwnedClass>,
) -> (r: Vec<Report>)
    requires
        entries.deep_view() == spec_resolve_ownership(modules.deep_view()),
        unit_deps_resolvable(modules.deep_view(), class@.dependencies),
    ensures
        r.deep_view() == spec_check_for_module_that_need_to_break_dependency_on(
            class@,
            module@,
            modules.deep_view(),
            entries.deep_view(),
        ),
{
    let ghost c = class@;
    let ghost m = module@;
    let ghost mods = modules.deep_view();
    let ghost ent = entries.deep_view();
    let mut r: Vec<Report> = Vec::new();
    if class.target_module.is_some() {
        return r;
    }
    let mut j: usize = 0;
    while j < class.dependencies.len()
        invariant
            0 <= j <= class.dependencies@.len(),
            c == class@,
            m == module@,
            mods == modules.deep_view(),
            ent == entries.deep_view(),
            ent == spec_resolve_ownership(mods),
            unit_deps_resolvable(mods, c.dependencies),
            c.dependencies.len() == class.dependencies@.len(),
            mods.len() == modules@.len(),
            ent.len() == entries@.len(),
            r.deep_view() =~= spec_cnb_pref(c, m, mods, ent, j as int),
        decreases class.dependencies@.len() - j,
    {
        let dep = &class.dependencies[j];
        assert(dep@ == c.dependencies[j as int]);
        proof {
            assert(some_module_lists(mods, c.dependencies[j as int]));
            lemma_resolution_covers(mods, dep@);
        }
        let e_idx = match lookup_owned(entries, dep) {
            Some(i) => i,
            None => {
                proof {
                    assert(false);
                }
                unreached()
            },
        };
        let dc = &entries[e_idx].class;
        assert(dc@ == spec_lookup_owned(ent, dep@)->0.class);
        if !dc.deprecated {
            let drm_idx = entries[e_idx].module_index;
            assert(drm_idx as int == spec_lookup_owned(ent, dep@)->0.module_index);
            assert(drm_idx < mods.len());
            let dtm_idx: Option<usize> = match &dc.target_module {
                Some(tt) => match lookup_module(modules, tt) {
                    None => None,
                    Some(i) => Some(i),
                },
                None => Some(drm_idx),
            };
            match dtm_idx {
                None => {
                    let rep = target_module_needed(dc);
                    push_dv(&mut r, rep);
                },
                Some(di) => {
                    let dtm = &modules[di];
                    assert(dtm@ == mods[di as int]);
                    if vec_contains_str(&module.break_dependencies_on, &dtm.name) {
                        let msg = class.name.clone().concat(" depends on ").concat(
                            dc.name.as_str(),
                        ).concat(" that is in module ").concat(dtm.name.as_str()).concat(
                            " but ",
                        ).concat(module.name.as_str()).concat(" should break dependency on it");
                        let none_team: Option<String> = None;
                        let mut ind: Vec<String> = Vec::new();
                        push_dv(&mut ind, dc.name.clone());
                        let rep = Report {
                            kind: Kind::Error,
                            explanation: Explanation::BreakDependencyOnModule,
                            message: msg,
                            action: String::new(),
                            for_class: class.name.clone(),
                            for_team: class.team(module, &none_team),
                            indirect_classes: ind,
                            for_modules: modules_two(&module.name, &dtm.name),
                        };
                        assert(rep@ =~= report_break_dependency_on(c, m, dc@, dtm@));
                        push_dv(&mut r, rep);
                    }
                },
            }
        }
        j += 1;
        assert(r.deep_view() =~= spec_cnb_pref(c, m, mods, ent, j as int));
    }
    r
}

/// Report for the removal of a deprecated unit: directly actionable when
/// nothing depends on it any more, blocked otherwise.
pub open spec fn report_deprecated_removal(
    c: ClassV,
    has_dependees: bool,
    m: ModuleV,
    mods: Seq<ModuleV>,
) -> ReportV {
    ReportV {
        kind: if has_dependees {
            Kind::Blocked
        } else {
            Kind::AutoAction
        },
        explanation: Explanation::Empty,
        message: c.name + " is deprecated, remove it"@,
        action: Seq::empty(),
        for_class: c.name,
        for_team: JavaClass::spec_resolved_team(c, m, spec_target_module_team(c, mods)),
        indirect_classes: Seq::empty(),
        for_modules: seq![m.name],
    }
}

/// Report asking a dependee to break its dependency on a deprecated unit.
pub open spec fn report_break_deprecated(dc: ClassV, dm: ModuleV, c: ClassV, mods: Seq<ModuleV>) -> ReportV {
    ReportV {
        kind: Kind::DevAction,
        explanation: Explanation::Empty,
        message: dc.name + " break dependency on deprecated class "@ + c.name,
        action: Seq::empty(),
        for_class: dc.name,
        for_team: JavaClass::spec_resolved_team(dc, dm, spec_target_module_team(dc, mods)),
        indirect_classes: Seq::empty(),
        for_modules: seq![dm.name],
    }
}

pub open spec fn spec_deprecation_pref(
    c: ClassV,
    ds: Seq<Seq<char>>,
    mods: Seq<ModuleV>,
    entries: Seq<OwnedV>,
    j: int,
) -> Seq<ReportV>
    decreases j,
{
    if j <= 0 {
        Seq::empty()
    } else {
        spec_deprecation_pref(c, ds, mods, entries, j - 1) + ({
            let l = spec_lookup_owned(entries, ds[j - 1]);
            if l is None {
                Seq::empty()
            } else {
                seq![report_break_deprecated(l->0.class, mods[l->0.module_index], c, mods)]
            }
        })
    }
}

/// A deprecated unit asks to be removed: directly actionable without
/// dependees, blocked with them, plus one action per dependee asking it to
/// break the dependency.
pub open spec fn spec_check_for_deprecation(
    c: ClassV,
    dependees: Option<Seq<Seq<char>>>,
    m: ModuleV,
    mods: Seq<ModuleV>,
    entries: Seq<OwnedV>,
) -> Seq<ReportV> {
    if !c.deprecated {
        Seq::empty()
    } else {
        seq![report_deprecated_removal(c, dependees is Some, m, mods)] + (match dependees {
            None => Seq::empty(),
            Some(ds) => spec_deprecation_pref(c, ds, mods, entries, ds.len() as int),
        })
    }
}

pub fn check_for_deprecation(
    class: &JavaClass,
    dependees: Option<&Vec<String>>,
    module: &JavaModule,
    modules: &Vec<JavaModule>,
    entries: &Vec<OwnedClass>,
) -> (r: Vec<Report>)
    requires
        entries.deep_view() == spec_resolve_ownership(modules.deep_view()),
        dependees is Some ==> unit_deps_resolvable(
            modules.deep_view(),
            dependees->0.deep_view(),
        ),
    ensures
        r.deep_view() == spec_check_for_deprecation(
            class@,
            match dependees {
                Some(ds) => Some(ds.deep_view()),
                None => None,
            },
            module@,
            modules.deep_view(),
            entries.deep_view(),
        ),
{
    let ghost c = class@;
    let ghost m = module@;
    let ghost mods = modules.deep_view();
    let ghost ent = entries.deep_view();
    let mut r: Vec<Report> = Vec::new();
    if !class.deprecated {
        return r;
    }
    let tmt = target_module_team(class, modules);
    let rep = Report {
        kind: match dependees {
            None => Kind::AutoAction,
            Some(_) => Kind::Blocked,
        },
        explanation: Explanation::Empty,
        message: class.name.clone().concat(" is deprecated, remove it"),
        action: String::new(),
        for_class: class.name.clone(),
        for_team: class.team(module, &tmt),
        indirect_classes: Vec::new(),
        for_modules: modules_one(&module.name),
    };
    assert(rep@ =~= report_deprecated_removal(c, dependees is Some, m, mods));
    push_dv(&mut r, rep);
    match dependees {
        None => {
            assert(r.deep_view() =~= spec_check_for_deprecation(c, None, m, mods, ent));
            r
        },
        Some(ds) => {
            let ghost dsv = ds.deep_view();
            let mut j: usize = 0;
            while j < ds.len()
                invariant
                    0 <= j <= ds@.len(),
                    c == class@,
                    m == module@,
                    mods == modules.deep_view(),
                    ent == entries.deep_view(),
                    ent == spec_resolve_ownership(mods),
                    dsv == ds.deep_view(),
                    unit_deps_resolvable(mods, dsv),
                    dsv.len() == ds@.len(),
                    mods.len() == modules@.len(),
                    ent.len() == entries@.len(),
                    r.deep_view() =~= seq![report_deprecated_removal(c, true, m, mods)]
                        + spec_deprecation_pref(c, dsv, mods, ent, j as int),
                decreases ds@.len() - j,
            {
                let dep = &ds[j];
                assert(dep@ == dsv[j as int]);
                proof {
                    assert(some_module_lists(mods, dsv[j as int]));
                    lemma_resolution_covers(mods, dep@);
                }
                let e_idx = match lookup_owned(entries, dep) {
                    Some(i) => i,
                    None => {
                        proof {
                            assert(false);
                        }
                        unreached()
                    },
                };
                let dc = &entries[e_idx].class;
                let dm_idx = entries[e_idx].module_index;
                assert(dm_idx as int == spec_lookup_owned(ent, dep@)->0.module_index);
                assert(dm_idx < mods.len());
                let dm = &modules[dm_idx];
                assert(dm@ == mods[dm_idx as int]);
                let dtmt = target_module_team(dc, modules);
                let rep = Report {
                    kind: Kind::DevAction,
                    explanation: Explanation::Empty,
                    message: dc.name.clone().concat(
                        " break dependency on deprecated class ",
                    ).concat(class.name.as_str()),
                    action: String::new(),
                    for_class: dc.name.clone(),
                    for_team: dc.team(dm, &dtmt),
                    indirect_classes: Vec::new(),
                    for_modules: modules_one(&dm.name),
                };
                assert(rep@ =~= report_break_deprecated(dc@, dm@, c, mods));
                push_dv(&mut r, rep);
                j += 1;
                assert(r.deep_view() =~= seq![report_deprecated_removal(c, true, m, mods)]
                    + spec_deprecation_pref(c, dsv, mods, ent, j as int));
            }
            assert(r.deep_view() =~= spec_check_for_deprecation(
                c,
                Some(dsv),
                m,
                mods,
                ent,
            ));
            r
        },
    }
}

} // verus!
