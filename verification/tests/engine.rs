use aeriform::analyze::analyze;
use aeriform::blockers::report_blockers;
use aeriform::commands::{ApplyTarget, MoveClass};
use aeriform::deps::{build_dependee_map, class_dependencies, external_class, mm_get_vec};
use aeriform::filters::AnalyzeOptions;
use aeriform::kind::{all_kinds, kind_ord, kind_weight, Kind};
use aeriform::model::{JavaClass, JavaClassTraits, JavaModule};
use aeriform::ownership::resolve_ownership;
use aeriform::report::{Explanation, ExplanationSet, Report};

fn mk_unit(name: &str, location: &str) -> JavaClass {
    JavaClass {
        name: name.to_string(),
        location: location.to_string(),
        package: None,
        dependencies: Vec::new(),
        target_module: None,
        break_dependencies_on: Vec::new(),
        deprecated: false,
        team: Some("CORE".to_string()),
    }
}

fn mk_module(name: &str, index: i64, directory: &str) -> JavaModule {
    JavaModule {
        name: name.to_string(),
        index,
        directory: directory.to_string(),
        dependencies: Vec::new(),
        srcs: Vec::new(),
        deprecated: false,
        external: false,
        break_dependencies_on: Vec::new(),
        team: Some("CORE".to_string()),
    }
}

fn mk_options() -> AnalyzeOptions {
    AnalyzeOptions {
        exit_code: false,
        class_filter: Vec::new(),
        location_class_filter: Vec::new(),
        module_filter: None,
        root_filter: None,
        team_filter: None,
        only_team_filter: false,
        kind_filter: Vec::new(),
        auto_actionable_filter: false,
        auto_actionable_command: false,
        indirect: None,
        top_blockers: None,
    }
}

fn svec(rs: &[&str]) -> Vec<String> {
    rs.iter().map(|s| s.to_string()).collect()
}

fn mk_report(kind: Kind, message: &str, for_class: &str, indirect: &[&str]) -> Report {
    Report {
        kind,
        explanation: Explanation::Empty,
        message: message.to_string(),
        action: String::new(),
        for_class: for_class.to_string(),
        for_team: "CORE".to_string(),
        indirect_classes: svec(indirect),
        for_modules: svec(&["M"]),
    }
}

#[test]
fn ownership_picks_highest_layer() {
    let mut low = mk_module("LOW", 1, "low");
    low.srcs.push(mk_unit("x.U", "low/x/U.java"));
    let mut high = mk_module("HIGH", 5, "high");
    high.srcs.push(mk_unit("x.U", "high/x/U.java"));
    let modules = vec![low, high];
    let entries = resolve_ownership(&modules);
    assert_eq!(entries.len(), 1);
    assert_eq!(entries[0].class.name, "x.U");
    assert_eq!(modules[entries[0].module_index].name, "HIGH");
    assert_eq!(entries[0].class.location, "high/x/U.java");
}

#[test]
fn duplicate_ownership_reported_for_both_claims() {
    let mut low = mk_module("LOW", 1, "low");
    low.srcs.push(mk_unit("x.U", "low/x/U.java"));
    let mut high = mk_module("HIGH", 5, "high");
    high.srcs.push(mk_unit("x.U", "high/x/U.java"));
    let analysis = analyze(&mk_options(), &vec![low, high]).unwrap();
    let dups: Vec<_> = analysis
        .reports
        .iter()
        .filter(|r| r.message.contains("appears in"))
        .collect();
    assert_eq!(dups.len(), 1);
    assert_eq!(dups[0].kind, Kind::Critical);
    assert_eq!(dups[0].message, "x.U appears in LOW and HIGH");
}

#[test]
fn dead_break_annotation_is_critical() {
    let mut a = mk_module("A", 0, "modA");
    let mut x = mk_unit("a.X", "modA/a/X.java");
    x.break_dependencies_on = svec(&["q.Q"]);
    a.srcs.push(x);
    let analysis = analyze(&mk_options(), &vec![a]).unwrap();
    assert_eq!(analysis.reports.len(), 1);
    assert_eq!(analysis.reports[0].kind, Kind::Critical);
    assert_eq!(analysis.reports[0].message, "a.X has no dependency on q.Q");
}

#[test]
fn package_location_mismatch_is_critical() {
    let mut a = mk_module("A", 0, "modA");
    let mut x = mk_unit("a.X", "modA/io/a/X.java");
    x.package = Some("io.b".to_string());
    a.srcs.push(x);
    let mut ok = mk_unit("a.Y", "modA/io/b/Y.java");
    ok.package = Some("io.b".to_string());
    a.srcs.push(ok);
    let analysis = analyze(&mk_options(), &vec![a]).unwrap();
    assert_eq!(analysis.reports.len(), 1);
    assert_eq!(analysis.reports[0].kind, Kind::Critical);
    assert_eq!(
        analysis.reports[0].message,
        "io.b package does not match the location modA/io/a/X.java"
    );
}

#[test]
fn missing_team_is_a_todo() {
    let mut a = mk_module("A", 0, "modA");
    a.team = None;
    let mut x = mk_unit("a.X", "modA/a/X.java");
    x.team = None;
    a.srcs.push(x);
    let analysis = analyze(&mk_options(), &vec![a]).unwrap();
    assert_eq!(analysis.reports.len(), 1);
    assert_eq!(analysis.reports[0].kind, Kind::ToDo);
    assert_eq!(analysis.reports[0].message, "a.X is missing team");
    assert_eq!(analysis.reports[0].for_team, "UNKNOWN");
    assert!(analysis.explanations.team_is_missing);
}

#[test]
fn generated_and_bootstrap_units_skip_team_check() {
    let mut a = mk_module("A", 0, "modA");
    a.team = None;
    let mut gen = mk_unit("a.G", "modA/generated/a/G.java");
    gen.team = None;
    gen.location = "modA/generated/a/G.java".to_string();
    a.srcs.push(gen);
    let mut boot = mk_unit("io.harness.annotations.dev.HarnessTeam", "modA/h/T.java");
    boot.team = None;
    a.srcs.push(boot);
    let analysis = analyze(&mk_options(), &vec![a]).unwrap();
    assert_eq!(analysis.reports.len(), 0);
}

#[test]
fn live_unit_in_deprecated_module_warns() {
    let mut a = mk_module("A", 0, "modA");
    a.deprecated = true;
    a.srcs.push(mk_unit("a.X", "modA/a/X.java"));
    let analysis = analyze(&mk_options(), &vec![a]).unwrap();
    assert_eq!(analysis.reports.len(), 1);
    assert_eq!(analysis.reports[0].kind, Kind::Warning);
    assert_eq!(
        analysis.reports[0].message,
        "a.X is in deprecated module A and has no target module"
    );
    assert!(analysis.explanations.deprecated_module);
}

#[test]
fn dependency_into_module_being_broken_away_from_errors() {
    let mut a = mk_module("A", 1, "modA");
    a.break_dependencies_on = svec(&["B"]);
    let mut x = mk_unit("a.X", "modA/a/X.java");
    x.dependencies = svec(&["b.Y"]);
    a.srcs.push(x);
    let mut b = mk_module("B", 0, "modB");
    b.srcs.push(mk_unit("b.Y", "modB/b/Y.java"));
    let analysis = analyze(&mk_options(), &vec![a, b]).unwrap();
    assert_eq!(analysis.reports.len(), 1);
    let r = &analysis.reports[0];
    assert_eq!(r.kind, Kind::Error);
    assert_eq!(
        r.message,
        "a.X depends on b.Y that is in module B but A should break dependency on it"
    );
    assert!(analysis.explanations.break_dependency_on_module);
}

#[test]
fn reports_come_out_sorted_by_kind_then_message() {
    let mut a = mk_module("A", 0, "modA");
    a.deprecated = true;
    let mut x = mk_unit("a.X", "modA/a/X.java");
    x.break_dependencies_on = svec(&["q.Q", "p.P"]);
    a.srcs.push(x);
    let analysis = analyze(&mk_options(), &vec![a]).unwrap();
    // Two criticals (dead break annotations, sorted by message), then the
    // deprecated-module warning.
    assert_eq!(analysis.reports.len(), 3);
    assert_eq!(analysis.reports[0].kind, Kind::Critical);
    assert_eq!(analysis.reports[0].message, "a.X has no dependency on p.P");
    assert_eq!(analysis.reports[1].kind, Kind::Critical);
    assert_eq!(analysis.reports[1].message, "a.X has no dependency on q.Q");
    assert_eq!(analysis.reports[2].kind, Kind::Warning);
}

#[test]
fn module_filter_narrows_reports() {
    let mut a = mk_module("A", 0, "modA");
    a.deprecated = true;
    a.srcs.push(mk_unit("a.X", "modA/a/X.java"));
    let mut b = mk_module("B", 1, "modB");
    b.deprecated = true;
    b.srcs.push(mk_unit("b.Y", "modB/b/Y.java"));
    let mut opts = mk_options();
    opts.module_filter = Some("A".to_string());
    let analysis = analyze(&opts, &vec![a, b]).unwrap();
    assert_eq!(analysis.reports.len(), 2);
    assert_eq!(analysis.filtered.len(), 1);
    assert_eq!(analysis.filtered[0].for_class, "a.X");
}

#[test]
fn root_filter_matches_prefix_up_to_separator() {
    let mut a = mk_module("//990-app:module", 0, "modA");
    a.deprecated = true;
    a.srcs.push(mk_unit("a.X", "modA/a/X.java"));
    let mut opts = mk_options();
    opts.root_filter = Some("//990-app".to_string());
    let analysis = analyze(&opts, &vec![a]).unwrap();
    assert_eq!(analysis.filtered.len(), 1);
    let mut opts2 = mk_options();
    opts2.root_filter = Some("//990".to_string());
    let modules2 = {
        let mut a2 = mk_module("//990-app:module", 0, "modA");
        a2.deprecated = true;
        a2.srcs.push(mk_unit("a.X", "modA/a/X.java"));
        vec![a2]
    };
    let analysis2 = analyze(&opts2, &modules2).unwrap();
    assert_eq!(analysis2.filtered.len(), 0);
}

#[test]
fn commons_test_modules_are_always_excluded() {
    let mut a = mk_module("//990-commons-test:module", 0, "modA");
    a.deprecated = true;
    a.srcs.push(mk_unit("a.X", "modA/a/X.java"));
    let analysis = analyze(&mk_options(), &vec![a]).unwrap();
    assert_eq!(analysis.reports.len(), 1);
    assert_eq!(analysis.filtered.len(), 0);
}

#[test]
fn kind_and_team_filters_narrow_reports() {
    let mut a = mk_module("A", 0, "modA");
    a.deprecated = true;
    let mut x = mk_unit("a.X", "modA/a/X.java");
    x.break_dependencies_on = svec(&["q.Q"]);
    a.srcs.push(x);
    let mut opts = mk_options();
    opts.kind_filter = vec![Kind::Warning];
    let analysis = analyze(&opts, &vec![a]).unwrap();
    assert_eq!(analysis.reports.len(), 2);
    assert_eq!(analysis.filtered.len(), 1);
    assert_eq!(analysis.filtered[0].kind, Kind::Warning);
    let mut a2 = mk_module("A", 0, "modA");
    a2.deprecated = true;
    a2.srcs.push(mk_unit("a.X", "modA/a/X.java"));
    let mut opts2 = mk_options();
    opts2.team_filter = Some("OTHER".to_string());
    opts2.only_team_filter = true;
    let analysis2 = analyze(&opts2, &vec![a2]).unwrap();
    assert_eq!(analysis2.filtered.len(), 0);
}

#[test]
fn auto_actionable_filter_keeps_actionable_reports() {
    let mut a = mk_module("A", 0, "modA");
    let mut x = mk_unit("a.X", "modA/a/X.java");
    x.target_module = Some("B".to_string());
    a.srcs.push(x);
    a.deprecated = true;
    let mut b = mk_module("B", 1, "modB");
    b.dependencies = svec(&["A"]);
    let mut opts = mk_options();
    opts.auto_actionable_filter = true;
    let analysis = analyze(&opts, &vec![a, b]).unwrap();
    assert_eq!(analysis.filtered.len(), 1);
    assert_eq!(analysis.filtered[0].kind, Kind::AutoAction);
}

#[test]
fn indirect_closure_pulls_in_entangled_reports() {
    // Filtering on module A keeps the blocked report on a.X, whose
    // indirect classes name c.Z; one closure round then also surfaces the
    // report filed against c.Z in module C.
    let mut a = mk_module("A", 0, "modA");
    let mut x = mk_unit("a.X", "modA/a/X.java");
    x.target_module = Some("B".to_string());
    x.dependencies = svec(&["c.Z"]);
    a.srcs.push(x);
    let mut b = mk_module("B", 2, "modB");
    b.dependencies = svec(&["A", "C"]);
    let mut c = mk_module("C", 1, "modC");
    c.deprecated = true;
    c.srcs.push(mk_unit("c.Z", "modC/c/Z.java"));
    let mut opts = mk_options();
    opts.module_filter = Some("A".to_string());
    let plain = analyze(&opts, &vec![a, b, c]).unwrap();
    assert_eq!(plain.filtered.len(), 1);
    let mut a2 = mk_module("A", 0, "modA");
    let mut x2 = mk_unit("a.X", "modA/a/X.java");
    x2.target_module = Some("B".to_string());
    x2.dependencies = svec(&["c.Z"]);
    a2.srcs.push(x2);
    let mut b2 = mk_module("B", 2, "modB");
    b2.dependencies = svec(&["A", "C"]);
    let mut c2 = mk_module("C", 1, "modC");
    c2.deprecated = true;
    c2.srcs.push(mk_unit("c.Z", "modC/c/Z.java"));
    let mut opts2 = mk_options();
    opts2.module_filter = Some("A".to_string());
    opts2.indirect = Some(1);
    let wider = analyze(&opts2, &vec![a2, b2, c2]).unwrap();
    assert!(wider.indirect_classes.contains(&"c.Z".to_string()));
    assert_eq!(wider.filtered.len(), 2);
}

#[test]
fn issue_points_weigh_kinds() {
    let mut a = mk_module("A", 0, "modA");
    a.deprecated = true;
    let mut x = mk_unit("a.X", "modA/a/X.java");
    x.break_dependencies_on = svec(&["q.Q"]);
    a.srcs.push(x);
    let analysis = analyze(&mk_options(), &vec![a]).unwrap();
    // One Critical (weight 5) and one Warning (weight 2).
    assert_eq!(analysis.issue_points, 7);
    assert_eq!(analysis.class_count, 1);
    assert_eq!(analysis.kind_counts.len(), 7);
    assert_eq!(analysis.kind_counts[0], 1);
    assert_eq!(analysis.kind_counts[2], 1);
    assert_eq!(analysis.team_summaries.len(), 1);
    assert_eq!(analysis.team_summaries[0].team, "CORE");
    assert_eq!(analysis.team_summaries[0].issue_points, 7);
    assert_eq!(analysis.team_summaries[0].class_count, 1);
}

#[test]
fn blockers_rank_by_transitive_blocked_operations() {
    let reports = vec![
        mk_report(Kind::Blocked, "a is blocked", "a", &["b"]),
        mk_report(Kind::Blocked, "b is blocked", "b", &["c"]),
    ];
    let blockers = report_blockers(&reports);
    assert_eq!(blockers.len(), 2);
    assert_eq!(blockers[0].class, "c");
    assert_eq!(blockers[0].operations, 2);
    assert_eq!(blockers[1].class, "b");
    assert_eq!(blockers[1].operations, 1);
}

#[test]
fn blocker_fixed_point_is_stable_under_one_more_round() {
    let reports = vec![
        mk_report(Kind::Blocked, "a is blocked", "a", &["b"]),
        mk_report(Kind::Blocked, "b is blocked", "b", &["c"]),
        mk_report(Kind::Blocked, "c is blocked", "c", &["a"]),
    ];
    let once = report_blockers(&reports);
    let again = report_blockers(&reports);
    assert_eq!(once.len(), again.len());
    for (x, y) in once.iter().zip(again.iter()) {
        assert_eq!(x.class, y.class);
        assert_eq!(x.operations, y.operations);
    }
    // A cycle blocks every operation in it.
    for b in &once {
        assert_eq!(b.operations, 3);
    }
}

#[test]
fn top_blockers_only_computed_when_asked() {
    let mut a = mk_module("A", 0, "modA");
    a.srcs.push(mk_unit("a.X", "modA/a/X.java"));
    let analysis = analyze(&mk_options(), &vec![a]).unwrap();
    assert_eq!(analysis.blockers.len(), 0);
}

#[test]
fn dependee_map_reverses_dependencies() {
    let mut a = mk_module("A", 0, "modA");
    let mut x = mk_unit("a.X", "modA/a/X.java");
    x.dependencies = svec(&["b.Y"]);
    a.srcs.push(x);
    let mut b = mk_module("B", 1, "modB");
    b.dependencies = svec(&["A"]);
    b.srcs.push(mk_unit("b.Y", "modB/b/Y.java"));
    let modules = vec![a, b];
    let dm = build_dependee_map(&modules);
    let ds = mm_get_vec(&dm, &"b.Y".to_string()).unwrap();
    assert_eq!(ds, &svec(&["a.X"]));
    assert!(mm_get_vec(&dm, &"a.X".to_string()).is_none());
}

#[test]
fn loader_helpers_read_the_dependency_multimap() {
    let mut dm: multimap::MultiMap<String, String> = multimap::MultiMap::new();
    dm.insert("x.U".to_string(), "y.V".to_string());
    dm.insert("x.U".to_string(), "z.W".to_string());
    let deps = class_dependencies(&"x.U".to_string(), &dm);
    assert_eq!(deps, svec(&["y.V", "z.W"]));
    assert_eq!(class_dependencies(&"missing.M".to_string(), &dm), Vec::<String>::new());
    let ext = external_class(&"x.U".to_string(), &dm);
    assert_eq!(ext.name, "x.U");
    assert_eq!(ext.location, "n/a");
    assert_eq!(ext.dependencies, svec(&["y.V", "z.W"]));
    assert!(ext.target_module.is_none());
    assert!(!ext.deprecated);
}

#[test]
fn kind_order_and_weights_match_the_taxonomy() {
    let kinds = all_kinds();
    assert_eq!(kinds.len(), 7);
    assert_eq!(kind_ord(Kind::Critical), 0);
    assert_eq!(kind_ord(Kind::ToDo), 6);
    assert_eq!(kind_weight(Kind::Critical), 5);
    assert_eq!(kind_weight(Kind::Error), 3);
    assert_eq!(kind_weight(Kind::Warning), 2);
    assert_eq!(kind_weight(Kind::AutoAction), 1);
    assert_eq!(kind_weight(Kind::DevAction), 2);
    assert_eq!(kind_weight(Kind::Blocked), 1);
    assert_eq!(kind_weight(Kind::ToDo), 1);
}

#[test]
fn relative_location_drops_the_module_directory() {
    let x = mk_unit("a.X", "modA/a/X.java");
    assert_eq!(x.relative_location(), "a/X.java");
}

#[test]
fn explanation_set_accumulates_tags() {
    let mut set = ExplanationSet::empty();
    assert!(!set.contains(Explanation::TeamIsMissing));
    set.insert(Explanation::TeamIsMissing);
    set.insert(Explanation::Empty);
    assert!(set.contains(Explanation::TeamIsMissing));
    assert!(!set.contains(Explanation::DeprecatedModule));
}

#[test]
fn executor_option_bundles_carry_their_fields() {
    let at = ApplyTarget::new("980-commons/src".to_string(), "980-commons".to_string());
    assert_eq!(at.path, "980-commons/src");
    assert_eq!(at.target, "980-commons");
    let mv = MoveClass::new(
        "980-commons".to_string(),
        "src/io/A.java".to_string(),
        "970-api".to_string(),
    );
    assert_eq!(mv.from_module, "980-commons");
    assert_eq!(mv.from_location, "src/io/A.java");
    assert_eq!(mv.to_module, "970-api");
}

#[test]
fn team_filter_keeps_unknown_team_reports_unless_strict() {
    let mut a = mk_module("A", 0, "modA");
    a.team = None;
    a.deprecated = true;
    let mut x = mk_unit("a.X", "modA/a/X.java");
    x.team = None;
    a.srcs.push(x);
    // The deprecated-module warning resolves to no team at all.
    let mut opts = mk_options();
    opts.team_filter = Some("OTHER".to_string());
    let analysis = analyze(&opts, &vec![a]).unwrap();
    assert!(analysis.filtered.iter().all(|r| r.for_team == "UNKNOWN"));
    assert!(!analysis.filtered.is_empty());
}

#[test]
fn location_filter_selects_the_unit_behind_the_path() {
    let mut a = mk_module("A", 0, "modA");
    a.deprecated = true;
    a.srcs.push(mk_unit("a.X", "modA/a/X.java"));
    a.srcs.push(mk_unit("a.Y", "modA/a/Y.java"));
    let mut opts = mk_options();
    opts.location_class_filter = svec(&["modA/a/Y.java"]);
    let analysis = analyze(&opts, &vec![a]).unwrap();
    assert_eq!(analysis.filtered.len(), 1);
    assert_eq!(analysis.filtered[0].for_class, "a.Y");
}
