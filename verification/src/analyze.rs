use vstd::prelude::*;

use multimap::MultiMap;

use crate::blockers::{
    blockers_sorted, report_blockers, spec_blocker_fixed, spec_blockers_of, spec_build_blockers,
    Blocker,
};
use crate::checks::{
    check_already_in_target, check_for_classes_in_more_than_one_module, check_for_extra_break,
    check_for_deprecated_module, check_for_deprecation,
    check_for_module_that_need_to_break_dependency_on, check_for_package, check_for_reversed_dependency,
    check_for_team, spec_check_already_in_target, spec_check_for_classes_in_more_than_one_module,
    spec_check_for_deprecated_module, spec_check_for_deprecation, spec_check_for_extra_break,
    spec_check_for_module_that_need_to_break_dependency_on, spec_check_for_package,
    spec_check_for_reversed_dependency, spec_check_for_team, spec_target_module_team,
    target_module_team, unit_deps_resolvable,
};
use crate::deps::{build_dependee_map, lemma_dependee_values_listed, mm_get_vec, multimap_rep, spec_dependee_map};
use crate::filters::{
    filter_by_auto_actionable, filter_by_kind, filter_by_team, filter_report, AnalyzeOptions,
    OptionsV, spec_filter_by_auto_actionable, spec_filter_by_kind, spec_filter_by_team,
    spec_filter_report,
};
use crate::indirect::{indirect_closure, spec_indirect_closure};
use crate::kind::{spec_kind_ord, Kind};
use crate::model::{JavaClass, JavaModule, ModuleV};
use crate::moves::{check_for_demotion, check_for_promotion, spec_check_for_demotion, spec_check_for_promotion};
use crate::order::{reports_sorted, sort_reports};
use crate::ownership::{
    lemma_lookup_module_props, lemma_resolution_covers, lemma_resolution_entries,
    lemma_src_in_props, lookup_module, lookup_owned, lookup_owned_by_location, module_lists,
    module_named, resolve_ownership, some_module_lists, spec_lookup_owned,
    spec_lookup_owned_by_location, spec_resolve_ownership, OwnedClass, OwnedV,
};
use crate::report::{Explanation, ExplanationSet, Report, ReportV};
use crate::scoring::{
    count_kind, issue_points, spec_count_kind, spec_issue_points, spec_team_summary_ok,
    spec_teams_of, team_summary, teams_of, TeamSummary,
};
use crate::strops::{first_index_of, push_dv};

verus! {

/// Internal consistency of the loaded graph: every declared module
/// dependency names a module, every unit dependency names a claimed unit,
/// and every unit annotated to move has a real path.
pub open spec fn spec_graph_wf(mods: Seq<ModuleV>) -> bool {
    &&& forall|i: int, k: int|
        0 <= i < mods.len() && 0 <= k < mods[i].dependencies.len() ==> module_named(
            mods,
            #[trigger] mods[i].dependencies[k],
        )
    &&& forall|i: int, j: int, k: int|
        0 <= i < mods.len() && 0 <= j < mods[i].srcs.len() && 0 <= k
            < mods[i].srcs[j].dependencies.len() ==> some_module_lists(
            mods,
            #[trigger] mods[i].srcs[j].dependencies[k],
        )
    &&& forall|i: int, j: int|
        0 <= i < mods.len() && 0 <= j < mods[i].srcs.len() ==> ((
        #[trigger] mods[i].srcs[j]).target_module is Some ==> first_index_of(
            mods[i].srcs[j].location,
            '/',
        ) >= 0)
}

/// Check the graph's internal consistency before analysis.
pub fn graph_ok(modules: &Vec<JavaModule>, entries: &Vec<OwnedClass>) -> (r: bool)
    requires
        entries.deep_view() == spec_resolve_ownership(modules.deep_view()),
    ensures
        r == spec_graph_wf(modules.deep_view()),
{
    let ghost mods = modules.deep_view();
    let ghost ent = entries.deep_view();
    let mut i: usize = 0;
    while i < modules.len()
        invariant
            0 <= i <= modules@.len(),
            mods == modules.deep_view(),
            ent == entries.deep_view(),
            ent == spec_resolve_ownership(mods),
            mods.len() == modules@.len(),
            forall|i2: int, k: int|
                0 <= i2 < i && 0 <= k < mods[i2].dependencies.len() ==> module_named(
                    mods,
                    #[trigger] mods[i2].dependencies[k],
                ),
            forall|i2: int, j: int, k: int|
                0 <= i2 < i && 0 <= j < mods[i2].srcs.len() && 0 <= k
                    < mods[i2].srcs[j].dependencies.len() ==> some_module_lists(
                    mods,
                    #[trigger] mods[i2].srcs[j].dependencies[k],
                ),
            forall|i2: int, j: int|
                0 <= i2 < i && 0 <= j < mods[i2].srcs.len() ==> ((
                #[trigger] mods[i2].srcs[j]).target_module is Some ==> first_index_of(
                    mods[i2].srcs[j].location,
                    '/',
                ) >= 0),
        decreases modules@.len() - i,
    {
        assert(mods[i as int] == modules@[i as int]@);
        let m = &modules[i];
        let mut k: usize = 0;
        while k < m.dependencies.len()
            invariant
                0 <= k <= m.dependencies@.len(),
                m@ == mods[i as int],
                0 <= i < mods.len(),
                mods == modules.deep_view(),
                m@.dependencies.len() == m.dependencies@.len(),
                forall|k2: int|
                    0 <= k2 < k ==> module_named(mods, #[trigger] m@.dependencies[k2]),
            decreases m.dependencies@.len() - k,
        {
            assert(m@.dependencies[k as int] == m.dependencies@[k as int]@);
            match lookup_module(modules, &m.dependencies[k]) {
                Some(_) => {
                    proof {
                        crate::ownership::lemma_lookup_module_props(mods, m@.dependencies[k as int]);
                    }
                },
                None => {
                    proof {
                        crate::ownership::lemma_lookup_module_props(mods, m@.dependencies[k as int]);
                        assert(!module_named(mods, mods[i as int].dependencies[k as int]));
                    }
                    return false;
                },
            }
            k += 1;
        }
        let mut j: usize = 0;
        while j < m.srcs.len()
            invariant
                0 <= j <= m.srcs@.len(),
                m@ == mods[i as int],
                0 <= i < mods.len(),
                mods == modules.deep_view(),
                ent == entries.deep_view(),
                ent == spec_resolve_ownership(mods),
                m@.srcs.len() == m.srcs@.len(),
                forall|j2: int, k: int|
                    0 <= j2 < j && 0 <= k < m@.srcs[j2].dependencies.len()
                        ==> some_module_lists(mods, #[trigger] m@.srcs[j2].dependencies[k]),
                forall|j2: int|
                    0 <= j2 < j ==> ((#[trigger] m@.srcs[j2]).target_module is Some
                        ==> first_index_of(m@.srcs[j2].location, '/') >= 0),
            decreases m.srcs@.len() - j,
        {
            assert(m@.srcs[j as int] == m.srcs@[j as int]@);
            let src = &m.srcs[j];
            if src.target_module.is_some() {
                match crate::strops::find_char(src.location.as_str(), '/') {
                    Some(_) => {},
                    None => {
                        proof {
                            assert(mods[i as int].srcs[j as int].target_module is Some);
                            assert(first_index_of(mods[i as int].srcs[j as int].location, '/')
                                == -1);
                            assert(!spec_graph_wf(mods));
                        }
                        return false;
                    },
                }
            }
            let mut k: usize = 0;
            while k < src.dependencies.len()
                invariant
                    0 <= k <= src.dependencies@.len(),
                    src@ == m@.srcs[j as int],
                    m@ == mods[i as int],
                    0 <= i < mods.len(),
                    0 <= j < m@.srcs.len(),
                    mods == modules.deep_view(),
                    ent == entries.deep_view(),
                    ent == spec_resolve_ownership(mods),
                    src@.dependencies.len() == src.dependencies@.len(),
                    forall|k2: int|
                        0 <= k2 < k ==> some_module_lists(
                            mods,
                            #[trigger] src@.dependencies[k2],
                        ),
                decreases src.dependencies@.len() - k,
            {
                assert(src@.dependencies[k as int] == src.dependencies@[k as int]@);
                match lookup_owned(entries, &src.dependencies[k]) {
                    Some(ei) => {
                        proof {
                            lemma_resolution_entries(mods);
                            let e = ent[ei as int];
                            assert(module_lists(mods[e.module_index], e.class.name));
                            assert(some_module_lists(mods, src@.dependencies[k as int]));
                        }
                    },
                    None => {
                        proof {
                            if some_module_lists(mods, src@.dependencies[k as int]) {
                                lemma_resolution_covers(mods, src@.dependencies[k as int]);
                            }
                        }
                        return false;
                    },
                }
                k += 1;
            }
            j += 1;
        }
        i += 1;
    }
    true
}

/// A fatal inconsistency found before analysis: the loaded graph is
/// internally inconsistent, or an operator filter names something the
/// graph does not hold.
#[derive(Debug)]
pub enum AnalyzeError {
    InconsistentGraph,
    UnknownModule(String),
    UnknownClass(String),
    UnknownLocation(String),
}

/// Append one check's reports to the running list.
fn append_reports(r: &mut Vec<Report>, add: Vec<Report>)
    ensures
        final(r).deep_view() == old(r).deep_view() + add.deep_view(),
{
    let ghost a = r.deep_view();
    let ghost b = add.deep_view();
    let ghost ra = r@;
    let ghost rb = add@;
    let mut add = add;
    r.append(&mut add);
    proof {
        assert(r@ == ra + rb);
        assert forall|i: int| 0 <= i < ra.len() implies #[trigger] r.deep_view()[i] == a[i] by {
            assert(r@[i] == ra[i]);
        }
        assert forall|i: int| ra.len() <= i < r@.len() implies #[trigger] r.deep_view()[i] == b[i
            - ra.len()] by {
            assert(r@[i] == rb[i - ra.len()]);
        }
        assert(r.deep_view() =~= a + b);
    }
}

/// The reports of the per-module checks over the first `i` modules.
pub open spec fn spec_module_reports(mods: Seq<ModuleV>, entries: Seq<OwnedV>, i: int) -> Seq<
    ReportV,
>
    decreases i,
{
    if i <= 0 {
        Seq::empty()
    } else {
        spec_module_reports(mods, entries, i - 1) + spec_check_for_classes_in_more_than_one_module(
            mods[i - 1],
            mods,
            entries,
        ) + spec_check_for_reversed_dependency(mods[i - 1], mods)
    }
}

/// The dependees recorded for a unit name, when any.
pub open spec fn spec_dependees_of(
    dm: Map<Seq<char>, Seq<Seq<char>>>,
    name: Seq<char>,
) -> Option<Seq<Seq<char>>> {
    if dm.dom().contains(name) {
        Some(dm[name])
    } else {
        None
    }
}

/// The reports of the per-unit checks for one owned unit, in battery
/// order.
pub open spec fn spec_entry_reports_one(
    e: OwnedV,
    mods: Seq<ModuleV>,
    entries: Seq<OwnedV>,
    dm: Map<Seq<char>, Seq<Seq<char>>>,
) -> Seq<ReportV> {
    let c = e.class;
    let m = mods[e.module_index];
    let tmt = spec_target_module_team(c, mods);
    let ds = spec_dependees_of(dm, c.name);
    spec_check_for_package(c, m, tmt) + spec_check_for_team(c, m, tmt)
        + spec_check_already_in_target(c, m, tmt) + spec_check_for_extra_break(c, m, tmt)
        + spec_check_for_module_that_need_to_break_dependency_on(c, m, mods, entries)
        + spec_check_for_promotion(c, m, mods, entries) + spec_check_for_demotion(
        c,
        ds,
        m,
        mods,
        entries,
    ) + spec_check_for_deprecated_module(c, m, tmt) + spec_check_for_deprecation(
        c,
        ds,
        m,
        mods,
        entries,
    )
}

/// The reports of the per-unit checks over the first `k` owned units.
pub open spec fn spec_entries_reports(
    mods: Seq<ModuleV>,
    entries: Seq<OwnedV>,
    dm: Map<Seq<char>, Seq<Seq<char>>>,
    k: int,
) -> Seq<ReportV>
    decreases k,
{
    if k <= 0 {
        Seq::empty()
    } else {
        spec_entries_reports(mods, entries, dm, k - 1) + spec_entry_reports_one(
            entries[k - 1],
            mods,
            entries,
            dm,
        )
    }
}

/// Every report of the whole battery, in generation order: the per-module
/// checks over all modules, then the per-unit checks over all owned units.
pub open spec fn spec_all_reports(mods: Seq<ModuleV>) -> Seq<ReportV> {
    let entries = spec_resolve_ownership(mods);
    let dm = spec_dependee_map(mods);
    spec_module_reports(mods, entries, mods.len() as int) + spec_entries_reports(
        mods,
        entries,
        dm,
        entries.len() as int,
    )
}

/// The filtered view of the sorted reports: those that match the filters
/// or are indirectly involved, then the kind, auto-actionable and team
/// filters.
pub open spec fn spec_filtered_pref(
    s: Seq<ReportV>,
    opts: OptionsV,
    entries: Seq<OwnedV>,
    ind: Seq<Seq<char>>,
    j: int,
) -> Seq<ReportV>
    decreases j,
{
    if j <= 0 {
        Seq::empty()
    } else {
        spec_filtered_pref(s, opts, entries, ind, j - 1) + (if (spec_filter_report(
            opts,
            s[j - 1],
            entries,
        ) || crate::strops::seq_contains_str(ind, s[j - 1].for_class)) && spec_filter_by_kind(
            opts,
            s[j - 1],
        ) && spec_filter_by_auto_actionable(opts, s[j - 1]) && spec_filter_by_team(
            opts,
            s[j - 1],
        ) {
            seq![s[j - 1]]
        } else {
            Seq::empty()
        })
    }
}

/// The explanation tags seen over the first `j` filtered reports.
pub open spec fn spec_explanations(s: Seq<ReportV>, j: int) -> ExplanationSet
    decreases j,
{
    if j <= 0 {
        ExplanationSet::spec_empty()
    } else {
        spec_explanations(s, j - 1).spec_insert(s[j - 1].explanation)
    }
}

/// The outcome of one analysis run over a loaded graph.
pub struct Analysis {
    pub reports: Vec<Report>,
    pub indirect_classes: Vec<String>,
    pub filtered: Vec<Report>,
    pub kind_counts: Vec<usize>,
    pub issue_points: u128,
    pub class_count: usize,
    pub team_summaries: Vec<TeamSummary>,
    pub explanations: ExplanationSet,
    pub blockers: Vec<Blocker>,
}

/// What a completed analysis must hold, relative to the graph and the
/// options.
pub open spec fn spec_analysis_ok(a: Analysis, opts: OptionsV, mods: Seq<ModuleV>) -> bool {
    let entries = spec_resolve_ownership(mods);
    let sorted = a.reports.deep_view();
    let ind = a.indirect_classes.deep_view();
    let f = a.filtered.deep_view();
    let teams = spec_teams_of(f, f.len() as int);
    &&& reports_sorted(sorted)
    &&& sorted.to_multiset() == spec_all_reports(mods).to_multiset()
    &&& ind == spec_indirect_closure(
        sorted,
        opts,
        entries,
        Seq::empty(),
        (match opts.indirect {
            Some(n) => n,
            None => 0,
        }) as int,
    )
    &&& f == spec_filtered_pref(sorted, opts, entries, ind, sorted.len() as int)
    &&& a.kind_counts@.len() == 7
    &&& forall|o: int|
        0 <= o < 7 ==> forall|k: Kind|
            spec_kind_ord(k) == o ==> #[trigger] a.kind_counts@[o] == spec_count_kind(
                f,
                k,
                f.len() as int,
            )
    &&& a.issue_points == spec_issue_points(f, f.len() as int)
    &&& a.class_count == entries.len()
    &&& a.explanations == spec_explanations(f, f.len() as int)
    &&& a.team_summaries.deep_view().len() == teams.len()
    &&& forall|t: int|
        0 <= t < teams.len() ==> spec_team_summary_ok(
            #[trigger] a.team_summaries.deep_view()[t],
            teams[t],
            f,
            entries,
            mods,
        )
    &&& (match opts.top_blockers {
        Some(n) => n > 0,
        None => false,
    }) ==> (blockers_sorted(a.blockers.deep_view()) && a.blockers.deep_view().to_multiset()
        == spec_blockers_of(spec_blocker_fixed(spec_build_blockers(f))).to_multiset())
    &&& !(match opts.top_blockers {
        Some(n) => n > 0,
        None => false,
    }) ==> a.blockers.deep_view().len() == 0
}

/// When the analysis refuses to run: an inconsistent graph, or a filter
/// naming an unknown module, unit or location; the offending name is the
/// first one found, scanning the filters in order.
pub open spec fn spec_analyze_err(
    e: AnalyzeError,
    opts: OptionsV,
    mods: Seq<ModuleV>,
) -> bool {
    let entries = spec_resolve_ownership(mods);
    match e {
        AnalyzeError::InconsistentGraph => !spec_graph_wf(mods),
        AnalyzeError::UnknownModule(m) => {
            &&& spec_graph_wf(mods)
            &&& opts.module_filter == Some(m@)
            &&& !module_named(mods, m@)
        },
        AnalyzeError::UnknownClass(c) => {
            &&& spec_graph_wf(mods)
            &&& (opts.module_filter is Some ==> module_named(mods, opts.module_filter->0))
            &&& exists|k: int|
                0 <= k < opts.class_filter.len() && c@ == opts.class_filter[k]
                    && spec_lookup_owned(entries, #[trigger] opts.class_filter[k]) is None
                    && forall|j: int|
                    0 <= j < k ==> spec_lookup_owned(entries, #[trigger] opts.class_filter[j]) is Some
        },
        AnalyzeError::UnknownLocation(l) => {
            &&& spec_graph_wf(mods)
            &&& (opts.module_filter is Some ==> module_named(mods, opts.module_filter->0))
            &&& forall|k: int|
                0 <= k < opts.class_filter.len() ==> spec_lookup_owned(
                    entries,
                    #[trigger] opts.class_filter[k],
                ) is Some
            &&& exists|k: int|
                0 <= k < opts.location_class_filter.len() && l@ == opts.location_class_filter[k]
                    && spec_lookup_owned_by_location(
                    entries,
                    #[trigger] opts.location_class_filter[k],
                ) is None && forall|j: int|
                    0 <= j < k ==> spec_lookup_owned_by_location(
                        entries,
                        #[trigger] opts.location_class_filter[j],
                    ) is Some
        },
    }
}

/// The whole per-unit battery for one owned unit.
fn entry_checks(
    e_idx: usize,
    modules: &Vec<JavaModule>,
    entries: &Vec<OwnedClass>,
    dm: &MultiMap<String, String>,
) -> (r: Vec<Report>)
    requires
        entries.deep_view() == spec_resolve_ownership(modules.deep_view()),
        spec_graph_wf(modules.deep_view()),
        e_idx < entries@.len(),
        multimap_rep(*dm) == spec_dependee_map(modules.deep_view()),
    ensures
        r.deep_view() == spec_entry_reports_one(
            entries.deep_view()[e_idx as int],
            modules.deep_view(),
            entries.deep_view(),
            multimap_rep(*dm),
        ),
{
    let ghost mods = modules.deep_view();
    let ghost ent = entries.deep_view();
    let ghost dmv = multimap_rep(*dm);
    assert(ent[e_idx as int] == entries@[e_idx as int]@);
    let ghost e = ent[e_idx as int];
    proof {
        lemma_resolution_entries(mods);
        assert(0 <= e.module_index < mods.len());
    }
    let class = &entries[e_idx].class;
    let module = &modules[entries[e_idx].module_index];
    assert(class@ == e.class);
    assert(module@ == mods[e.module_index]);
    proof {
        // The unit is one of its owning module's sources, so the graph's
        // consistency covers its dependencies and location.
        assert(module_lists(mods[e.module_index], e.class.name));
        lemma_src_in_props(mods[e.module_index].srcs, e.class.name);
        assert(Some(e.class) == crate::ownership::spec_src_in(
            mods[e.module_index].srcs,
            e.class.name,
        ));
        let j = choose|j: int|
            0 <= j < mods[e.module_index].srcs.len() && mods[e.module_index].srcs[j] == e.class;
        assert forall|kk: int|
            0 <= kk < e.class.dependencies.len() implies some_module_lists(
            mods,
            #[trigger] e.class.dependencies[kk],
        ) by {
            assert(some_module_lists(mods, mods[e.module_index].srcs[j].dependencies[kk]));
        }
        assert(unit_deps_resolvable(mods, class@.dependencies));
        assert(mods[e.module_index].srcs[j].target_module is Some ==> first_index_of(
            mods[e.module_index].srcs[j].location,
            '/',
        ) >= 0);
        assert(class@.target_module is Some ==> first_index_of(class@.location, '/') >= 0);
    }
    let tmt = target_module_team(class, modules);
    let ds = mm_get_vec(dm, &class.name);
    proof {
        lemma_dependee_values_listed(mods);
        match ds {
            Some(v) => {
                assert(dmv.dom().contains(e.class.name));
                assert(v.deep_view() == dmv[e.class.name]);
                assert forall|x: int|
                    0 <= x < v.deep_view().len() implies some_module_lists(
                    mods,
                    #[trigger] v.deep_view()[x],
                ) by {
                    assert(some_module_lists(mods, dmv[e.class.name][x]));
                }
                assert(unit_deps_resolvable(mods, v.deep_view()));
            },
            None => {
                assert(!dmv.dom().contains(e.class.name));
            },
        }
    }
    let r1 = check_for_package(class, module, &tmt);
    let r2 = check_for_team(class, module, &tmt);
    let r3 = check_already_in_target(class, module, &tmt);
    let r4 = check_for_extra_break(class, module, &tmt);
    let r5 = check_for_module_that_need_to_break_dependency_on(class, module, modules, entries);
    let r6 = check_for_promotion(class, module, modules, entries);
    let r7 = check_for_demotion(class, ds, module, modules, entries);
    let r8 = check_for_deprecated_module(class, module, &tmt);
    let r9 = check_for_deprecation(class, ds, module, modules, entries);
    let mut r: Vec<Report> = Vec::new();
    assert(r.deep_view() =~= Seq::<ReportV>::empty());
    append_reports(&mut r, r1);
    append_reports(&mut r, r2);
    append_reports(&mut r, r3);
    append_reports(&mut r, r4);
    append_reports(&mut r, r5);
    append_reports(&mut r, r6);
    append_reports(&mut r, r7);
    append_reports(&mut r, r8);
    append_reports(&mut r, r9);
    assert(r.deep_view() =~= spec_entry_reports_one(e, mods, ent, dmv));
    r
}

/// Whether every operator filter names something the graph holds.
pub open spec fn spec_filters_ok(opts: OptionsV, mods: Seq<ModuleV>) -> bool {
    let entries = spec_resolve_ownership(mods);
    &&& (opts.module_filter is Some ==> module_named(mods, opts.module_filter->0))
    &&& forall|k: int|
        0 <= k < opts.class_filter.len() ==> spec_lookup_owned(
            entries,
            #[trigger] opts.class_filter[k],
        ) is Some
    &&& forall|k: int|
        0 <= k < opts.location_class_filter.len() ==> spec_lookup_owned_by_location(
            entries,
            #[trigger] opts.location_class_filter[k],
        ) is Some
}

/// Run the whole battery over a loaded graph: resolve ownership, check
/// every module and owned unit, sort the reports, close over indirect
/// involvement, filter, score, and rank blockers. Fails fast on an
/// internally inconsistent graph or a filter naming an unknown target.
pub fn analyze(opts: &AnalyzeOptions, modules: &Vec<JavaModule>) -> (r: Result<
    Analysis,
    AnalyzeError,
>)
    ensures
        match r {
            Ok(a) => spec_graph_wf(modules.deep_view()) && spec_filters_ok(
                opts@,
                modules.deep_view(),
            ) && spec_analysis_ok(a, opts@, modules.deep_view()),
            Err(e) => spec_analyze_err(e, opts@, modules.deep_view()),
        },
{
    let ghost mods = modules.deep_view();
    let entries = resolve_ownership(modules);
    let ghost ent = entries.deep_view();
    if !graph_ok(modules, &entries) {
        return Err(AnalyzeError::InconsistentGraph);
    }
    match &opts.module_filter {
        None => {},
        Some(mf) => {
            match lookup_module(modules, mf) {
                Some(_) => {
                    proof {
                        lemma_lookup_module_props(mods, mf@);
                    }
                },
                None => {
                    proof {
                        lemma_lookup_module_props(mods, mf@);
                    }
                    return Err(AnalyzeError::UnknownModule(mf.clone()));
                },
            }
        },
    }
    let mut k: usize = 0;
    while k < opts.class_filter.len()
        invariant
            0 <= k <= opts.class_filter@.len(),
            mods == modules.deep_view(),
            ent == entries.deep_view(),
            ent == spec_resolve_ownership(mods),
            spec_graph_wf(mods),
            opts@.module_filter is Some ==> module_named(mods, opts@.module_filter->0),
            opts@.class_filter.len() == opts.class_filter@.len(),
            forall|j: int|
                0 <= j < k ==> spec_lookup_owned(ent, #[trigger] opts@.class_filter[j]) is Some,
        decreases opts.class_filter@.len() - k,
    {
        assert(opts@.class_filter[k as int] == opts.class_filter@[k as int]@);
        match lookup_owned(&entries, &opts.class_filter[k]) {
            Some(_) => {},
            None => {
                proof {
                    assert(spec_lookup_owned(ent, opts@.class_filter[k as int]) is None);
                }
                return Err(AnalyzeError::UnknownClass(opts.class_filter[k].clone()));
            },
        }
        k += 1;
    }
    let mut k: usize = 0;
    while k < opts.location_class_filter.len()
        invariant
            0 <= k <= opts.location_class_filter@.len(),
            mods == modules.deep_view(),
            ent == entries.deep_view(),
            ent == spec_resolve_ownership(mods),
            spec_graph_wf(mods),
            opts@.module_filter is Some ==> module_named(mods, opts@.module_filter->0),
            opts@.class_filter.len() == opts.class_filter@.len(),
            opts@.location_class_filter.len() == opts.location_class_filter@.len(),
            forall|j: int|
                0 <= j < opts@.class_filter.len() ==> spec_lookup_owned(
                    ent,
                    #[trigger] opts@.class_filter[j],
                ) is Some,
            forall|j: int|
                0 <= j < k ==> spec_lookup_owned_by_location(
                    ent,
                    #[trigger] opts@.location_class_filter[j],
                ) is Some,
        decreases opts.location_class_filter@.len() - k,
    {
        assert(opts@.location_class_filter[k as int] == opts.location_class_filter@[k as int]@);
        match lookup_owned_by_location(&entries, &opts.location_class_filter[k]) {
            Some(_) => {},
            None => {
                proof {
                    assert(spec_lookup_owned_by_location(
                        ent,
                        opts@.location_class_filter[k as int],
                    ) is None);
                }
                return Err(AnalyzeError::UnknownLocation(opts.location_class_filter[k].clone()));
            },
        }
        k += 1;
    }
    let dm = build_dependee_map(modules);
    let ghost dmv = multimap_rep(dm);
    let mut reports: Vec<Report> = Vec::new();
    assert(reports.deep_view() =~= Seq::<ReportV>::empty());
    assert(reports.deep_view() =~= spec_module_reports(mods, ent, 0));
    let mut i: usize = 0;
    while i < modules.len()
        invariant
            0 <= i <= modules@.len(),
            mods == modules.deep_view(),
            ent == entries.deep_view(),
            ent == spec_resolve_ownership(mods),
            spec_graph_wf(mods),
            mods.len() == modules@.len(),
            reports.deep_view() == spec_module_reports(mods, ent, i as int),
        decreases modules@.len() - i,
    {
        assert(mods[i as int] == modules@[i as int]@);
        let m = &modules[i];
        proof {
            assert(exists|mi: int| 0 <= mi < mods.len() && mods[mi] == m@) by {
                assert(mods[i as int] == m@);
            }
            assert forall|kk: int|
                0 <= kk < m@.dependencies.len() implies module_named(
                mods,
                #[trigger] m@.dependencies[kk],
            ) by {
                assert(module_named(mods, mods[i as int].dependencies[kk]));
            }
        }
        let a = check_for_classes_in_more_than_one_module(m, &entries, modules);
        append_reports(&mut reports, a);
        let b = check_for_reversed_dependency(m, modules);
        append_reports(&mut reports, b);
        i += 1;
        assert(reports.deep_view() =~= spec_module_reports(mods, ent, i as int));
    }
    let ghost modpart = spec_module_reports(mods, ent, mods.len() as int);
    let mut k: usize = 0;
    while k < entries.len()
        invariant
            0 <= k <= entries@.len(),
            mods == modules.deep_view(),
            ent == entries.deep_view(),
            ent == spec_resolve_ownership(mods),
            spec_graph_wf(mods),
            ent.len() == entries@.len(),
            dmv == multimap_rep(dm),
            dmv == spec_dependee_map(mods),
            modpart == spec_module_reports(mods, ent, mods.len() as int),
            reports.deep_view() == modpart + spec_entries_reports(mods, ent, dmv, k as int),
        decreases entries@.len() - k,
    {
        assert(ent[k as int] == entries@[k as int]@);
        let add = entry_checks(k, modules, &entries, &dm);
        append_reports(&mut reports, add);
        k += 1;
        assert(reports.deep_view() =~= modpart + spec_entries_reports(mods, ent, dmv, k as int));
    }
    let sorted = sort_reports(reports);
    let ghost sv = sorted.deep_view();
    let ind = indirect_closure(&sorted, opts, &entries);
    let ghost iv = ind.deep_view();
    let mut filtered: Vec<Report> = Vec::new();
    assert(filtered.deep_view() =~= Seq::<ReportV>::empty());
    let mut j: usize = 0;
    while j < sorted.len()
        invariant
            0 <= j <= sorted@.len(),
            mods == modules.deep_view(),
            ent == entries.deep_view(),
            sv == sorted.deep_view(),
            iv == ind.deep_view(),
            sv.len() == sorted@.len(),
            filtered.deep_view() == spec_filtered_pref(sv, opts@, ent, iv, j as int),
        decreases sorted@.len() - j,
    {
        assert(sv[j as int] == sorted@[j as int]@);
        let rep = &sorted[j];
        let keep = (filter_report(opts, rep, &entries) || crate::strops::vec_contains_str(
            &ind,
            &rep.for_class,
        )) && filter_by_kind(opts, rep) && filter_by_auto_actionable(opts, rep) && filter_by_team(
            opts,
            rep,
        );
        if keep {
            push_dv(&mut filtered, rep.clone());
        }
        j += 1;
        assert(filtered.deep_view() =~= spec_filtered_pref(sv, opts@, ent, iv, j as int));
    }
    let ghost fv = filtered.deep_view();
    let mut explanations = ExplanationSet::empty();
    let mut j: usize = 0;
    while j < filtered.len()
        invariant
            0 <= j <= filtered@.len(),
            fv == filtered.deep_view(),
            fv.len() == filtered@.len(),
            explanations == spec_explanations(fv, j as int),
        decreases filtered@.len() - j,
    {
        assert(fv[j as int] == filtered@[j as int]@);
        explanations.insert(filtered[j].explanation);
        j += 1;
    }
    let kinds = crate::kind::all_kinds();
    let mut kind_counts: Vec<usize> = Vec::new();
    let mut o: usize = 0;
    while o < 7
        invariant
            0 <= o <= 7,
            fv == filtered.deep_view(),
            kinds@.len() == 7,
            forall|x: int| 0 <= x < 7 ==> spec_kind_ord(kinds@[x]) == x,
            kind_counts@.len() == o,
            forall|x: int|
                0 <= x < o ==> #[trigger] kind_counts@[x] == spec_count_kind(
                    fv,
                    kinds@[x],
                    fv.len() as int,
                ),
        decreases 7 - o,
    {
        let c = count_kind(&filtered, kinds[o]);
        kind_counts.push(c);
        o += 1;
    }
    proof {
        assert forall|o2: int| 0 <= o2 < 7 implies forall|kk: Kind|
            spec_kind_ord(kk) == o2 ==> #[trigger] kind_counts@[o2] == spec_count_kind(
                fv,
                kk,
                fv.len() as int,
            ) by {
            assert forall|kk: Kind|
                spec_kind_ord(kk) == o2 implies #[trigger] kind_counts@[o2] == spec_count_kind(
                fv,
                kk,
                fv.len() as int,
            ) by {
                assert(spec_kind_ord(kinds@[o2]) == o2);
                assert(kinds@[o2] == kk);
            }
        }
    }
    let ip = issue_points(&filtered);
    let teams = teams_of(&filtered);
    let ghost teamsv = teams.deep_view();
    proof {
        lemma_resolution_entries(mods);
    }
    let mut team_summaries: Vec<TeamSummary> = Vec::new();
    let mut t: usize = 0;
    while t < teams.len()
        invariant
            0 <= t <= teams@.len(),
            mods == modules.deep_view(),
            ent == entries.deep_view(),
            fv == filtered.deep_view(),
            teamsv == teams.deep_view(),
            teamsv.len() == teams@.len(),
            forall|x: int|
                0 <= x < ent.len() ==> 0 <= (#[trigger] ent[x]).module_index < mods.len(),
            team_summaries.deep_view().len() == t,
            forall|x: int|
                0 <= x < t ==> spec_team_summary_ok(
                    #[trigger] team_summaries.deep_view()[x],
                    teamsv[x],
                    fv,
                    ent,
                    mods,
                ),
        decreases teams@.len() - t,
    {
        assert(teamsv[t as int] == teams@[t as int]@);
        let ts = team_summary(&filtered, &entries, modules, &teams[t]);
        push_dv(&mut team_summaries, ts);
        t += 1;
    }
    let top: u32 = match opts.top_blockers {
        Some(n) => n,
        None => 0,
    };
    let blockers = if top > 0 {
        report_blockers(&filtered)
    } else {
        let b: Vec<Blocker> = Vec::new();
        assert(b.deep_view() =~= Seq::<crate::blockers::BlockerV>::empty());
        b
    };
    let class_count = entries.len();
    Ok(
        Analysis {
            reports: sorted,
            indirect_classes: ind,
            filtered,
            kind_counts,
            issue_points: ip,
            class_count,
            team_summaries,
            explanations,
            blockers,
        },
    )
}

} // verus!
