use vstd::prelude::*;
use vstd::string::StringExecFns;

use crate::checks::{
    modules_one, modules_three, modules_two, spec_target_module_team, spec_target_module_needed,
    target_module_needed, target_module_team, unit_deps_resolvable,
};
use crate::kind::Kind;
use crate::model::{spec_relative_location, ClassV, JavaClass, JavaClassTraits, JavaModule, ModuleV};
use crate::ownership::{
    lemma_resolution_covers, lemma_resolution_entries, lookup_module, lookup_owned,
    some_module_lists, spec_lookup_module, spec_lookup_owned, spec_resolve_ownership, OwnedClass,
    OwnedV,
};
use crate::report::{Explanation, Report, ReportV};
use crate::strops::{
    first_index_of, join_comma, push_dv, push_unique, seq_contains_str, spec_join_comma,
    spec_push_unique, str_eq, vec_contains_str,
};

verus! {

/// Intermediate state of a move scan over a unit's neighbors: the reports
/// pushed so far, whether an incompatibility was found, the neighbors that
/// are not ready yet, and the formatted first-move entries.
#[verifier::ext_equal]
pub struct MoveScan {
    pub reports: Seq<ReportV>,
    pub issue: bool,
    pub all_classes: Seq<Seq<char>>,
    pub not_ready: Seq<Seq<char>>,
}

pub open spec fn scan_start() -> MoveScan {
    MoveScan {
        reports: Seq::empty(),
        issue: false,
        all_classes: Seq::empty(),
        not_ready: Seq::empty(),
    }
}

/// The expected, in-progress case: the dependency is annotated to be
/// broken, so the incompatibility is development work, not an error.
pub open spec fn report_move_dev(c: ClassV, m: ModuleV, t: ModuleV, dc: ClassV, dtm: ModuleV) -> ReportV {
    ReportV {
        kind: Kind::DevAction,
        explanation: Explanation::Empty,
        message: c.name + " depends on "@ + dc.name + " and this dependency has to be broken"@,
        action: Seq::empty(),
        for_class: c.name,
        for_team: JavaClass::spec_resolved_team(c, m, t.team),
        indirect_classes: Seq::empty(),
        for_modules: spec_push_unique(spec_push_unique(seq![m.name], dtm.name), t.name),
    }
}

/// The incompatibility error of a promotion: the target module does not
/// declare a dependency on the dependency's effective module.
pub open spec fn report_promo_err(c: ClassV, m: ModuleV, t: ModuleV, dc: ClassV, dtm: ModuleV) -> ReportV {
    ReportV {
        kind: Kind::Error,
        explanation: Explanation::Empty,
        message: c.name + " depends on "@ + dc.name + " that is in module "@ + dtm.name + " but "@
            + t.name + " does not depend on it"@,
        action: Seq::empty(),
        for_class: c.name,
        for_team: JavaClass::spec_resolved_team(c, m, t.team),
        indirect_classes: seq![dc.name],
        for_modules: spec_push_unique(spec_push_unique(seq![m.name], dtm.name), t.name),
    }
}

/// One step of the promotion scan, for dependency name `d`.
pub open spec fn spec_promo_one(
    prev: MoveScan,
    c: ClassV,
    m: ModuleV,
    t: ModuleV,
    mods: Seq<ModuleV>,
    entries: Seq<OwnedV>,
    d: Seq<char>,
) -> MoveScan {
    let l = spec_lookup_owned(entries, d);
    if l is None {
        prev
    } else {
        let dc = l->0.class;
        if dc.deprecated {
            prev
        } else {
            let drm = mods[l->0.module_index];
            let eff = match dc.target_module {
                Some(tt) => match spec_lookup_module(mods, tt) {
                    None => None,
                    Some(dtm) => Some(dtm),
                },
                None => Some(drm),
            };
            match eff {
                None => MoveScan {
                    reports: prev.reports.push(spec_target_module_needed(dc)),
                    issue: true,
                    all_classes: prev.all_classes,
                    not_ready: prev.not_ready,
                },
                Some(dtm) => {
                    let incompatible = t.name != dtm.name && !seq_contains_str(
                        t.dependencies,
                        dtm.name,
                    );
                    let reports = if incompatible {
                        if seq_contains_str(c.break_dependencies_on, d) {
                            prev.reports.push(report_move_dev(c, m, t, dc, dtm))
                        } else if !drm.external {
                            prev.reports.push(report_promo_err(c, m, t, dc, dtm))
                        } else {
                            prev.reports
                        }
                    } else {
                        prev.reports
                    };
                    let issue = prev.issue || incompatible;
                    if drm.index < t.index {
                        MoveScan {
                            reports,
                            issue,
                            all_classes: spec_push_unique(prev.all_classes, d),
                            not_ready: prev.not_ready.push(d + " to "@ + t.name),
                        }
                    } else {
                        MoveScan { reports, issue, all_classes: prev.all_classes, not_ready: prev.not_ready }
                    }
                },
            }
        }
    }
}

pub open spec fn spec_promo_scan(
    c: ClassV,
    m: ModuleV,
    t: ModuleV,
    mods: Seq<ModuleV>,
    entries: Seq<OwnedV>,
    j: int,
) -> MoveScan
    decreases j,
{
    if j <= 0 {
        scan_start()
    } else {
        spec_promo_one(
            spec_promo_scan(c, m, t, mods, entries, j - 1),
            c,
            m,
            t,
            mods,
            entries,
            c.dependencies[j - 1],
        )
    }
}

/// The command handed to the executor for an automatic move.
pub open spec fn spec_move_action(om: ModuleV, c: ClassV, t: ModuleV) -> Seq<char> {
    "execute move-class --from-module=\""@ + om.directory + "\" --from-location=\""@
        + spec_relative_location(c.location) + "\" --to-module=\""@ + t.directory + "\""@
}

/// Reports for a unit whose neighbors are all compatible and ready: an
/// automatic move when the unit has a resolved owner, a development
/// action otherwise.
pub open spec fn spec_ready_reports(
    c: ClassV,
    m: ModuleV,
    t: ModuleV,
    mods: Seq<ModuleV>,
    entries: Seq<OwnedV>,
) -> Seq<ReportV> {
    match spec_lookup_owned(entries, c.name) {
        None => seq![
            ReportV {
                kind: Kind::DevAction,
                explanation: Explanation::Empty,
                message: c.name + " is ready to go to "@ + t.name,
                action: Seq::empty(),
                for_class: c.name,
                for_team: JavaClass::spec_simple_team(c),
                indirect_classes: Seq::empty(),
                for_modules: spec_push_unique(seq![m.name], t.name),
            },
        ],
        Some(e) => seq![
            ReportV {
                kind: Kind::AutoAction,
                explanation: Explanation::Empty,
                message: c.name + " is ready to go to "@ + t.name,
                action: spec_move_action(mods[e.module_index], c, t),
                for_class: c.name,
                for_team: JavaClass::spec_resolved_team(c, mods[e.module_index], t.team),
                indirect_classes: Seq::empty(),
                for_modules: spec_push_unique(seq![m.name], t.name),
            },
        ],
    }
}

/// Blocked report: all neighbors are compatible, but some are not ready;
/// they must move first.
pub open spec fn spec_blocked_report(
    c: ClassV,
    m: ModuleV,
    t: ModuleV,
    scan: MoveScan,
    promotion: bool,
) -> ReportV {
    ReportV {
        kind: Kind::Blocked,
        explanation: Explanation::Empty,
        message: c.name + (if promotion {
            " does not have untargeted dependencies to go to "@
        } else {
            " does not have dependees to go to "@
        }) + t.name + ". First move "@ + spec_join_comma(scan.not_ready),
        action: Seq::empty(),
        for_class: c.name,
        for_team: JavaClass::spec_resolved_team(c, m, t.team),
        indirect_classes: spec_push_unique(scan.all_classes, c.name),
        for_modules: spec_push_unique(seq![m.name], t.name),
    }
}

/// Promotion readiness: a unit annotated to move to a module whose layer
/// is not lower than its own. Each dependency's effective module must be
/// the target or one of the target's declared dependencies; dependencies
/// whose real module has not reached the target layer block the move.
pub open spec fn spec_check_for_promotion(
    c: ClassV,
    m: ModuleV,
    mods: Seq<ModuleV>,
    entries: Seq<OwnedV>,
) -> Seq<ReportV> {
    match c.target_module {
        None => Seq::empty(),
        Some(tn) => match spec_lookup_module(mods, tn) {
            None => seq![spec_target_module_needed(c)],
            Some(t) => if t.name == m.name {
                Seq::empty()
            } else if m.index > t.index {
                Seq::empty()
            } else {
                let scan = spec_promo_scan(c, m, t, mods, entries, c.dependencies.len() as int);
                scan.reports + (if !scan.issue && scan.not_ready.len() == 0 {
                    spec_ready_reports(c, m, t, mods, entries)
                } else if !scan.issue {
                    seq![spec_blocked_report(c, m, t, scan, true)]
                } else {
                    Seq::empty()
                })
            },
        },
    }
}

/// Shared tail of the promotion and demotion checks: emit the ready or
/// blocked report once the neighbor scan found no incompatibility.
fn push_outcome_reports(
    r: &mut Vec<Report>,
    class: &JavaClass,
    module: &JavaModule,
    target_idx: usize,
    modules: &Vec<JavaModule>,
    entries: &Vec<OwnedClass>,
    issue: bool,
    all_classes: Vec<String>,
    not_ready: &Vec<String>,
    promotion: bool,
    Ghost(scan): Ghost<MoveScan>,
)
    requires
        entries.deep_view() == spec_resolve_ownership(modules.deep_view()),
        target_idx < modules@.len(),
        class@.target_module is Some ==> first_index_of(class@.location, '/') >= 0,
        class@.target_module is Some,
        issue == scan.issue,
        all_classes.deep_view() == scan.all_classes,
        not_ready.deep_view() == scan.not_ready,
    ensures
        final(r).deep_view() == old(r).deep_view() + (if !scan.issue && scan.not_ready.len()
            == 0 {
            spec_ready_reports(
                class@,
                module@,
                modules.deep_view()[target_idx as int],
                modules.deep_view(),
                entries.deep_view(),
            )
        } else if !scan.issue {
            seq![
                spec_blocked_report(
                    class@,
                    module@,
                    modules.deep_view()[target_idx as int],
                    scan,
                    promotion,
                ),
            ]
        } else {
            Seq::empty()
        }),
{
    let ghost mods = modules.deep_view();
    let ghost ent = entries.deep_view();
    let ghost t = mods[target_idx as int];
    let ghost pre = r.deep_view();
    let target = &modules[target_idx];
    let mut all_classes = all_classes;
    if !issue && not_ready.len() == 0 {
        let msg = class.name.clone().concat(" is ready to go to ").concat(target.name.as_str());
        match lookup_owned(entries, &class.name) {
            None => {
                let rep = Report {
                    kind: Kind::DevAction,
                    explanation: Explanation::Empty,
                    message: msg,
                    action: String::new(),
                    for_class: class.name.clone(),
                    for_team: class.simple_team(),
                    indirect_classes: Vec::new(),
                    for_modules: modules_two(&module.name, &target.name),
                };
                assert(rep@ =~= spec_ready_reports(class@, module@, t, mods, ent)[0]);
                push_dv(r, rep);
                assert(r.deep_view() =~= pre + spec_ready_reports(class@, module@, t, mods, ent));
            },
            Some(ei) => {
                proof {
                    lemma_resolution_entries(mods);
                }
                let om_idx = entries[ei].module_index;
                assert(ent[ei as int].module_index < mods.len());
                let om = &modules[om_idx];
                assert(om@ == mods[ent[ei as int].module_index]);
                let rel = class.relative_location();
                let action = "execute move-class --from-module=\"".to_owned().concat(
                    om.directory.as_str(),
                ).concat("\" --from-location=\"").concat(rel.as_str()).concat(
                    "\" --to-module=\"",
                ).concat(target.directory.as_str()).concat("\"");
                let rep = Report {
                    kind: Kind::AutoAction,
                    explanation: Explanation::Empty,
                    message: msg,
                    action,
                    for_class: class.name.clone(),
                    for_team: class.team(om, &target.team),
                    indirect_classes: Vec::new(),
                    for_modules: modules_two(&module.name, &target.name),
                };
                assert(rep@ =~= spec_ready_reports(class@, module@, t, mods, ent)[0]);
                push_dv(r, rep);
                assert(r.deep_view() =~= pre + spec_ready_reports(class@, module@, t, mods, ent));
            },
        }
    } else if !issue {
        push_unique(&mut all_classes, class.name.clone());
        let first_move = join_comma(not_ready);
        let msg = if promotion {
            class.name.clone().concat(" does not have untargeted dependencies to go to ").concat(
                target.name.as_str(),
            ).concat(". First move ").concat(first_move.as_str())
        } else {
            class.name.clone().concat(" does not have dependees to go to ").concat(
                target.name.as_str(),
            ).concat(". First move ").concat(first_move.as_str())
        };
        let rep = Report {
            kind: Kind::Blocked,
            explanation: Explanation::Empty,
            message: msg,
            action: String::new(),
            for_class: class.name.clone(),
            for_team: class.team(module, &target.team),
            indirect_classes: all_classes,
            for_modules: modules_two(&module.name, &target.name),
        };
        assert(rep@ =~= spec_blocked_report(class@, module@, t, scan, promotion));
        push_dv(r, rep);
        assert(r.deep_view() =~= pre + seq![spec_blocked_report(class@, module@, t, scan, promotion)]);
    } else {
        assert(r.deep_view() =~= pre + Seq::<ReportV>::empty());
    }
}

pub fn check_for_promotion(
    class: &JavaClass,
    module: &JavaModule,
    modules: &Vec<JavaModule>,
    entries: &Vec<OwnedClass>,
) -> (r: Vec<Report>)
    requires
        entries.deep_view() == spec_resolve_ownership(modules.deep_view()),
        unit_deps_resolvable(modules.deep_view(), class@.dependencies),
        class@.target_module is Some ==> first_index_of(class@.location, '/') >= 0,
    ensures
        r.deep_view() == spec_check_for_promotion(
            class@,
            module@,
            modules.deep_view(),
            entries.deep_view(),
        ),
{
    let ghost c = class@;
    let ghost m = module@;
    let ghost mods = modules.deep_view();
    let ghost ent = entries.deep_view();
    let mut r: Vec<Report> = Vec::new();
    let tn = match &class.target_module {
        None => {
            return r;
        },
        Some(t) => t,
    };
    let t_idx = match lookup_module(modules, tn) {
        None => {
            let rep = target_module_needed(class);
            push_dv(&mut r, rep);
            assert(r.deep_view() =~= spec_check_for_promotion(c, m, mods, ent));
            return r;
        },
        Some(i) => i,
    };
    let target = &modules[t_idx];
    assert(target@ == spec_lookup_module(mods, c.target_module->0)->0);
    if str_eq(&target.name, &module.name) {
        return r;
    }
    if module.index > target.index {
        return r;
    }
    let ghost t = target@;
    let mut issue = false;
    let mut all_classes: Vec<String> = Vec::new();
    let mut not_ready: Vec<String> = Vec::new();
    let mut j: usize = 0;
    while j < class.dependencies.len()
        invariant
            0 <= j <= class.dependencies@.len(),
            c == class@,
            m == module@,
            mods == modules.deep_view(),
            ent == entries.deep_view(),
            ent == spec_resolve_ownership(mods),
            unit_deps_resolvable(mods, c.dependencies),
            c.dependencies.len() == class.dependencies@.len(),
            mods.len() == modules@.len(),
            ent.len() == entries@.len(),
            t_idx < modules@.len(),
            t == mods[t_idx as int],
            target@ == t,
            ({
                let scan = spec_promo_scan(c, m, t, mods, ent, j as int);
                &&& r.deep_view() =~= scan.reports
                &&& issue == scan.issue
                &&& all_classes.deep_view() =~= scan.all_classes
                &&& not_ready.deep_view() =~= scan.not_ready
            }),
        decreases class.dependencies@.len() - j,
    {
        let ghost scan_pre = spec_promo_scan(c, m, t, mods, ent, j as int);
        let dep = &class.dependencies[j];
        assert(dep@ == c.dependencies[j as int]);
        proof {
            assert(some_module_lists(mods, c.dependencies[j as int]));
            lemma_resolution_covers(mods, dep@);
        }
        let e_idx = match lookup_owned(entries, dep) {
            Some(i) => i,
            None => {
                proof {
                    assert(false);
                }
                unreached()
            },
        };
        let dc = &entries[e_idx].class;
        assert(dc@ == spec_lookup_owned(ent, dep@)->0.class);
        if !dc.deprecated {
            let drm_idx = entries[e_idx].module_index;
            assert(drm_idx as int == spec_lookup_owned(ent, dep@)->0.module_index);
            assert(drm_idx < mods.len());
            let drm = &modules[drm_idx];
            assert(drm@ == mods[drm_idx as int]);
            let eff: Option<usize> = match &dc.target_module {
                Some(tt) => match lookup_module(modules, tt) {
                    None => None,
                    Some(i) => Some(i),
                },
                None => Some(drm_idx),
            };
            match eff {
                None => {
                    issue = true;
                    let rep = target_module_needed(dc);
                    push_dv(&mut r, rep);
                },
                Some(di) => {
                    let dtm = &modules[di];
                    assert(dtm@ == mods[di as int]);
                    let incompatible = !str_eq(&target.name, &dtm.name) && !vec_contains_str(
                        &target.dependencies,
                        &dtm.name,
                    );
                    if incompatible {
                        issue = true;
                        if vec_contains_str(&class.break_dependencies_on, dep) {
                            let msg = class.name.clone().concat(" depends on ").concat(
                                dc.name.as_str(),
                            ).concat(" and this dependency has to be broken");
                            let rep = Report {
                                kind: Kind::DevAction,
                                explanation: Explanation::Empty,
                                message: msg,
                                action: String::new(),
                                for_class: class.name.clone(),
                                for_team: class.team(module, &target.team),
                                indirect_classes: Vec::new(),
                                for_modules: modules_three(&module.name, &dtm.name, &target.name),
                            };
                            assert(rep@ =~= report_move_dev(c, m, t, dc@, dtm@));
                            push_dv(&mut r, rep);
                        } else if !drm.external {
                            let msg = class.name.clone().concat(" depends on ").concat(
                                dc.name.as_str(),
                            ).concat(" that is in module ").concat(dtm.name.as_str()).concat(
                                " but ",
                            ).concat(target.name.as_str()).concat(" does not depend on it");
                            let mut ind: Vec<String> = Vec::new();
                            push_dv(&mut ind, dc.name.clone());
                            let rep = Report {
                                kind: Kind::Error,
                                explanation: Explanation::Empty,
                                message: msg,
                                action: String::new(),
                                for_class: class.name.clone(),
                                for_team: class.team(module, &target.team),
                                indirect_classes: ind,
                                for_modules: modules_three(&module.name, &dtm.name, &target.name),
                            };
                            assert(rep@ =~= report_promo_err(c, m, t, dc@, dtm@));
                            push_dv(&mut r, rep);
                        }
                    }
                    if drm.index < target.index {
                        push_unique(&mut all_classes, dep.clone());
                        let entry = dep.clone().concat(" to ").concat(target.name.as_str());
                        push_dv(&mut not_ready, entry);
                    }
                },
            }
        }
        j += 1;
        proof {
            let scan = spec_promo_scan(c, m, t, mods, ent, j as int);
            assert(scan == spec_promo_one(scan_pre, c, m, t, mods, ent, c.dependencies[j - 1]));
            assert(r.deep_view() =~= scan.reports);
            assert(all_classes.deep_view() =~= scan.all_classes);
            assert(not_ready.deep_view() =~= scan.not_ready);
        }
    }
    let ghost scan = spec_promo_scan(c, m, t, mods, ent, c.dependencies.len() as int);
    push_outcome_reports(
        &mut r,
        class,
        module,
        t_idx,
        modules,
        entries,
        issue,
        all_classes,
        &not_ready,
        true,
        Ghost(scan),
    );
    assert(r.deep_view() =~= spec_check_for_promotion(c, m, mods, ent));
    r
}

/// Warning for a demotion neighbor that is itself deprecated.
pub open spec fn report_demo_deprecated(dc: ClassV, c: ClassV, m: ModuleV, mods: Seq<ModuleV>) -> ReportV {
    ReportV {
        kind: Kind::Warning,
        explanation: Explanation::UsedInDeprecatedClass,
        message: dc.name + " is deprecated and depends on "@ + c.name
            + ", this dependency has to be broken"@,
        action: Seq::empty(),
        for_class: c.name,
        for_team: JavaClass::spec_resolved_team(c, m, spec_target_module_team(c, mods)),
        indirect_classes: seq![dc.name],
        for_modules: seq![m.name],
    }
}

/// The expected, in-progress case of a demotion: the dependee is annotated
/// to break its dependency on the unit.
pub open spec fn report_demo_dev(
    dc: ClassV,
    c: ClassV,
    m: ModuleV,
    t: ModuleV,
    dtm: ModuleV,
    mods: Seq<ModuleV>,
) -> ReportV {
    ReportV {
        kind: Kind::DevAction,
        explanation: Explanation::Empty,
        message: dc.name + " depends on "@ + c.name + " and this dependency has to be broken"@,
        action: Seq::empty(),
        for_class: dc.name,
        for_team: JavaClass::spec_resolved_team(dc, m, spec_target_module_team(dc, mods)),
        indirect_classes: seq![dc.name],
        for_modules: spec_push_unique(spec_push_unique(seq![m.name], dtm.name), t.name),
    }
}

/// The incompatibility error of a demotion: the dependee's effective
/// module does not declare a dependency on the target.
pub open spec fn report_demo_err(
    dc: ClassV,
    c: ClassV,
    m: ModuleV,
    t: ModuleV,
    dtm: ModuleV,
) -> ReportV {
    ReportV {
        kind: Kind::Error,
        explanation: Explanation::Empty,
        message: dc.name + " depends on "@ + c.name + " that is in module "@ + t.name + " but "@
            + dtm.name + " does not depend on it"@,
        action: Seq::empty(),
        for_class: c.name,
        for_team: JavaClass::spec_resolved_team(c, m, t.team),
        indirect_classes: seq![dc.name],
        for_modules: spec_push_unique(spec_push_unique(seq![m.name], dtm.name), t.name),
    }
}

/// One step of the demotion scan, for dependee name `d`.
pub open spec fn spec_demo_one(
    prev: MoveScan,
    c: ClassV,
    m: ModuleV,
    t: ModuleV,
    mods: Seq<ModuleV>,
    entries: Seq<OwnedV>,
    d: Seq<char>,
) -> MoveScan {
    let l = spec_lookup_owned(entries, d);
    if l is None {
        prev
    } else {
        let dc = l->0.class;
        if dc.deprecated {
            MoveScan {
                reports: prev.reports.push(report_demo_deprecated(dc, c, m, mods)),
                issue: true,
                all_classes: prev.all_classes,
                not_ready: prev.not_ready,
            }
        } else {
            let drm = mods[l->0.module_index];
            let eff = match dc.target_module {
                Some(tt) => match spec_lookup_module(mods, tt) {
                    None => None,
                    Some(dtm) => Some(dtm),
                },
                None => Some(drm),
            };
            match eff {
                None => MoveScan {
                    reports: prev.reports.push(spec_target_module_needed(dc)),
                    issue: true,
                    all_classes: prev.all_classes,
                    not_ready: prev.not_ready,
                },
                Some(dtm) => {
                    let incompatible = dtm.name != t.name && !seq_contains_str(
                        dtm.dependencies,
                        t.name,
                    );
                    let reports = if incompatible {
                        if seq_contains_str(dc.break_dependencies_on, c.name) {
                            prev.reports.push(report_demo_dev(dc, c, m, t, dtm, mods))
                        } else if !drm.external {
                            prev.reports.push(report_demo_err(dc, c, m, t, dtm))
                        } else {
                            prev.reports
                        }
                    } else {
                        prev.reports
                    };
                    let issue = prev.issue || incompatible;
                    if drm.index > t.index {
                        MoveScan {
                            reports,
                            issue,
                            all_classes: spec_push_unique(prev.all_classes, d),
                            not_ready: prev.not_ready.push(d + " to "@ + dtm.name),
                        }
                    } else {
                        MoveScan { reports, issue, all_classes: prev.all_classes, not_ready: prev.not_ready }
                    }
                },
            }
        }
    }
}

pub open spec fn spec_demo_scan(
    c: ClassV,
    ds: Seq<Seq<char>>,
    m: ModuleV,
    t: ModuleV,
    mods: Seq<ModuleV>,
    entries: Seq<OwnedV>,
    j: int,
) -> MoveScan
    decreases j,
{
    if j <= 0 {
        scan_start()
    } else {
        spec_demo_one(
            spec_demo_scan(c, ds, m, t, mods, entries, j - 1),
            c,
            m,
            t,
            mods,
            entries,
            ds[j - 1],
        )
    }
}

/// Demotion readiness: the mirror of promotion, driven by the unit's
/// dependees instead of its dependencies. Each dependee's effective module
/// must be the target or declare a dependency on it; dependees whose real
/// module is still above the target layer block the move.
pub open spec fn spec_check_for_demotion(
    c: ClassV,
    dependees: Option<Seq<Seq<char>>>,
    m: ModuleV,
    mods: Seq<ModuleV>,
    entries: Seq<OwnedV>,
) -> Seq<ReportV> {
    if c.deprecated {
        Seq::empty()
    } else {
        match c.target_module {
            None => Seq::empty(),
            Some(tn) => match spec_lookup_module(mods, tn) {
                None => seq![spec_target_module_needed(c)],
                Some(t) => if t.name == m.name {
                    Seq::empty()
                } else if m.index < t.index {
                    Seq::empty()
                } else {
                    let scan = match dependees {
                        None => scan_start(),
                        Some(ds) => spec_demo_scan(c, ds, m, t, mods, entries, ds.len() as int),
                    };
                    scan.reports + (if !scan.issue && scan.not_ready.len() == 0 {
                        spec_ready_reports(c, m, t, mods, entries)
                    } else if !scan.issue {
                        seq![spec_blocked_report(c, m, t, scan, false)]
                    } else {
                        Seq::empty()
                    })
                },
            },
        }
    }
}

pub fn check_for_demotion(
    class: &JavaClass,
    dependees: Option<&Vec<String>>,
    module: &JavaModule,
    modules: &Vec<JavaModule>,
    entries: &Vec<OwnedClass>,
) -> (r: Vec<Report>)
    requires
        entries.deep_view() == spec_resolve_ownership(modules.deep_view()),
        dependees is Some ==> unit_deps_resolvable(modules.deep_view(), dependees->0.deep_view()),
        class@.target_module is Some ==> first_index_of(class@.location, '/') >= 0,
    ensures
        r.deep_view() == spec_check_for_demotion(
            class@,
            match dependees {
                Some(ds) => Some(ds.deep_view()),
                None => None,
            },
            module@,
            modules.deep_view(),
            entries.deep_view(),
        ),
{
    let ghost c = class@;
    let ghost m = module@;
    let ghost mods = modules.deep_view();
    let ghost ent = entries.deep_view();
    let ghost dsv: Option<Seq<Seq<char>>> = match dependees {
        Some(ds) => Some(ds.deep_view()),
        None => None,
    };
    let mut r: Vec<Report> = Vec::new();
    if class.deprecated {
        return r;
    }
    let tn = match &class.target_module {
        None => {
            return r;
        },
        Some(t) => t,
    };
    let t_idx = match lookup_module(modules, tn) {
        None => {
            let rep = target_module_needed(class);
            push_dv(&mut r, rep);
            assert(r.deep_view() =~= spec_check_for_demotion(c, dsv, m, mods, ent));
            return r;
        },
        Some(i) => i,
    };
    let target = &modules[t_idx];
    assert(target@ == spec_lookup_module(mods, c.target_module->0)->0);
    if str_eq(&target.name, &module.name) {
        return r;
    }
    if module.index < target.index {
        return r;
    }
    let ghost t = target@;
    let mut issue = false;
    let mut all_classes: Vec<String> = Vec::new();
    let mut not_ready: Vec<String> = Vec::new();
    match dependees {
        None => {
            assert(all_classes.deep_view() =~= scan_start().all_classes);
            assert(not_ready.deep_view() =~= scan_start().not_ready);
            assert(r.deep_view() =~= scan_start().reports);
        },
        Some(ds) => {
            let ghost dsq = ds.deep_view();
            let mut j: usize = 0;
            while j < ds.len()
                invariant
                    0 <= j <= ds@.len(),
                    c == class@,
                    m == module@,
                    mods == modules.deep_view(),
                    ent == entries.deep_view(),
                    ent == spec_resolve_ownership(mods),
                    dsq == ds.deep_view(),
                    unit_deps_resolvable(mods, dsq),
                    dsq.len() == ds@.len(),
                    mods.len() == modules@.len(),
                    ent.len() == entries@.len(),
                    t_idx < modules@.len(),
                    t == mods[t_idx as int],
                    target@ == t,
                    c.name == class@.name,
                    ({
                        let scan = spec_demo_scan(c, dsq, m, t, mods, ent, j as int);
                        &&& r.deep_view() =~= scan.reports
                        &&& issue == scan.issue
                        &&& all_classes.deep_view() =~= scan.all_classes
                        &&& not_ready.deep_view() =~= scan.not_ready
                    }),
                decreases ds@.len() - j,
            {
                let ghost scan_pre = spec_demo_scan(c, dsq, m, t, mods, ent, j as int);
                let dep = &ds[j];
                assert(dep@ == dsq[j as int]);
                proof {
                    assert(some_module_lists(mods, dsq[j as int]));
                    lemma_resolution_covers(mods, dep@);
                }
                let e_idx = match lookup_owned(entries, dep) {
                    Some(i) => i,
                    None => {
                        proof {
                            assert(false);
                        }
                        unreached()
                    },
                };
                let dc = &entries[e_idx].class;
                assert(dc@ == spec_lookup_owned(ent, dep@)->0.class);
                if dc.deprecated {
                    issue = true;
                    let tmt = target_module_team(class, modules);
                    let msg = dc.name.clone().concat(" is deprecated and depends on ").concat(
                        class.name.as_str(),
                    ).concat(", this dependency has to be broken");
                    let mut ind: Vec<String> = Vec::new();
                    push_dv(&mut ind, dc.name.clone());
                    let rep = Report {
                        kind: Kind::Warning,
                        explanation: Explanation::UsedInDeprecatedClass,
                        message: msg,
                        action: String::new(),
                        for_class: class.name.clone(),
                        for_team: class.team(module, &tmt),
                        indirect_classes: ind,
                        for_modules: modules_one(&module.name),
                    };
                    assert(rep@ =~= report_demo_deprecated(dc@, c, m, mods));
                    push_dv(&mut r, rep);
                } else {
                    let drm_idx = entries[e_idx].module_index;
                    assert(drm_idx as int == spec_lookup_owned(ent, dep@)->0.module_index);
                    assert(drm_idx < mods.len());
                    let drm = &modules[drm_idx];
                    assert(drm@ == mods[drm_idx as int]);
                    let eff: Option<usize> = match &dc.target_module {
                        Some(tt) => match lookup_module(modules, tt) {
                            None => None,
                            Some(i) => Some(i),
                        },
                        None => Some(drm_idx),
                    };
                    match eff {
                        None => {
                            issue = true;
                            let rep = target_module_needed(dc);
                            push_dv(&mut r, rep);
                        },
                        Some(di) => {
                            let dtm = &modules[di];
                            assert(dtm@ == mods[di as int]);
                            let incompatible = !str_eq(&dtm.name, &target.name)
                                && !vec_contains_str(&dtm.dependencies, &target.name);
                            if incompatible {
                                issue = true;
                                if vec_contains_str(&dc.break_dependencies_on, &class.name) {
                                    let dtmt = target_module_team(dc, modules);
                                    let msg = dc.name.clone().concat(" depends on ").concat(
                                        class.name.as_str(),
                                    ).concat(" and this dependency has to be broken");
                                    let mut ind: Vec<String> = Vec::new();
                                    push_dv(&mut ind, dc.name.clone());
                                    let rep = Report {
                                        kind: Kind::DevAction,
                                        explanation: Explanation::Empty,
                                        message: msg,
                                        action: String::new(),
                                        for_class: dc.name.clone(),
                                        for_team: dc.team(module, &dtmt),
                                        indirect_classes: ind,
                                        for_modules: modules_three(
                                            &module.name,
                                            &dtm.name,
                                            &target.name,
                                        ),
                                    };
                                    assert(rep@ =~= report_demo_dev(dc@, c, m, t, dtm@, mods));
                                    push_dv(&mut r, rep);
                                } else if !drm.external {
                                    let msg = dc.name.clone().concat(" depends on ").concat(
                                        class.name.as_str(),
                                    ).concat(" that is in module ").concat(
                                        target.name.as_str(),
                                    ).concat(" but ").concat(dtm.name.as_str()).concat(
                                        " does not depend on it",
                                    );
                                    let mut ind: Vec<String> = Vec::new();
                                    push_dv(&mut ind, dc.name.clone());
                                    let rep = Report {
                                        kind: Kind::Error,
                                        explanation: Explanation::Empty,
                                        message: msg,
                                        action: String::new(),
                                        for_class: class.name.clone(),
                                        for_team: class.team(module, &target.team),
                                        indirect_classes: ind,
                                        for_modules: modules_three(
                                            &module.name,
                                            &dtm.name,
                                            &target.name,
                                        ),
                                    };
                                    assert(rep@ =~= report_demo_err(dc@, c, m, t, dtm@));
                                    push_dv(&mut r, rep);
                                }
                            }
                            if drm.index > target.index {
                                push_unique(&mut all_classes, dep.clone());
                                let entry = dep.clone().concat(" to ").concat(dtm.name.as_str());
                                push_dv(&mut not_ready, entry);
                            }
                        },
                    }
                }
                j += 1;
                proof {
                    let scan = spec_demo_scan(c, dsq, m, t, mods, ent, j as int);
                    assert(scan == spec_demo_one(scan_pre, c, m, t, mods, ent, dsq[j - 1]));
                    assert(r.deep_view() =~= scan.reports);
                    assert(all_classes.deep_view() =~= scan.all_classes);
                    assert(not_ready.deep_view() =~= scan.not_ready);
                }
            }
        },
    }
    let ghost scan = match dsv {
        None => scan_start(),
        Some(ds) => spec_demo_scan(c, ds, m, t, mods, ent, ds.len() as int),
    };
    push_outcome_reports(
        &mut r,
        class,
        module,
        t_idx,
        modules,
        entries,
        issue,
        all_classes,
        &not_ready,
        false,
        Ghost(scan),
    );
    assert(r.deep_view() =~= spec_check_for_demotion(c, dsv, m, mods, ent));
    r
}

/// Both move checks for one unit: the promotion scan over its dependencies
/// and the demotion scan over its dependees, in that order.
pub open spec fn spec_check_for_moves(
    c: ClassV,
    dependees: Option<Seq<Seq<char>>>,
    m: ModuleV,
    mods: Seq<ModuleV>,
    entries: Seq<OwnedV>,
) -> Seq<ReportV> {
    spec_check_for_promotion(c, m, mods, entries) + spec_check_for_demotion(
        c,
        dependees,
        m,
        mods,
        entries,
    )
}

pub fn check_for_moves(
    class: &JavaClass,
    dependees: Option<&Vec<String>>,
    module: &JavaModule,
    modules: &Vec<JavaModule>,
    entries: &Vec<OwnedClass>,
) -> (r: Vec<Report>)
    requires
        entries.deep_view() == spec_resolve_ownership(modules.deep_view()),
        unit_deps_resolvable(modules.deep_view(), class@.dependencies),
        dependees is Some ==> unit_deps_resolvable(modules.deep_view(), dependees->0.deep_view()),
        class@.target_module is Some ==> first_index_of(class@.location, '/') >= 0,
    ensures
        r.deep_view() == spec_check_for_moves(
            class@,
            match dependees {
                Some(ds) => Some(ds.deep_view()),
                None => None,
            },
            module@,
            modules.deep_view(),
            entries.deep_view(),
        ),
{
    let mut r = check_for_promotion(class, module, modules, entries);
    let ghost a = r.deep_view();
    let mut demo = check_for_demotion(class, dependees, module, modules, entries);
    let ghost b = demo.deep_view();
    let ghost ra = r@;
    let ghost rb = demo@;
    r.append(&mut demo);
    proof {
        assert(r@ == ra + rb);
        assert forall|i: int| 0 <= i < ra.len() implies #[trigger] r.deep_view()[i] == a[i] by {
            assert(r@[i] == ra[i]);
        }
        assert forall|i: int| ra.len() <= i < r@.len() implies #[trigger] r.deep_view()[i] == b[i
            - ra.len()] by {
            assert(r@[i] == rb[i - ra.len()]);
        }
        assert(r.deep_view() =~= a + b);
    }
    r
}

} // verus!
