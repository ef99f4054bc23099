use aeriform::analyze::{analyze, AnalyzeError};
use aeriform::filters::AnalyzeOptions;
use aeriform::kind::Kind;
use aeriform::model::{JavaClass, JavaModule};

fn unit(name: &str, location: &str) -> JavaClass {
    JavaClass {
        name: name.to_string(),
        location: location.to_string(),
        package: None,
        dependencies: Vec::new(),
        target_module: None,
        break_dependencies_on: Vec::new(),
        deprecated: false,
        team: Some("CORE".to_string()),
    }
}

fn module(name: &str, index: i64, directory: &str) -> JavaModule {
    JavaModule {
        name: name.to_string(),
        index,
        directory: directory.to_string(),
        dependencies: Vec::new(),
        srcs: Vec::new(),
        deprecated: false,
        external: false,
        break_dependencies_on: Vec::new(),
        team: Some("CORE".to_string()),
    }
}

fn options() -> AnalyzeOptions {
    AnalyzeOptions {
        exit_code: false,
        class_filter: Vec::new(),
        location_class_filter: Vec::new(),
        module_filter: None,
        root_filter: None,
        team_filter: None,
        only_team_filter: false,
        kind_filter: Vec::new(),
        auto_actionable_filter: false,
        auto_actionable_command: false,
        indirect: None,
        top_blockers: None,
    }
}

fn strings(rs: &[&str]) -> Vec<String> {
    rs.iter().map(|s| s.to_string()).collect()
}

#[test]
fn layering_correct_direction_no_report() {
    let mut a = module("A", 0, "modA");
    a.srcs.push(unit("a.X", "modA/a/X.java"));
    let mut b = module("B", 1, "modB");
    b.dependencies = strings(&["A"]);
    let mut y = unit("b.Y", "modB/b/Y.java");
    y.dependencies = strings(&["a.X"]);
    b.srcs.push(y);
    let analysis = analyze(&options(), &vec![a, b]).unwrap();
    for r in &analysis.reports {
        assert!(r.kind != Kind::Critical, "unexpected critical: {}", r.message);
    }
}

#[test]
fn layering_reversed_direction_one_report() {
    let mut a = module("A", 0, "modA");
    a.srcs.push(unit("a.X", "modA/a/X.java"));
    a.dependencies = strings(&["B"]);
    let mut b = module("B", 1, "modB");
    b.srcs.push(unit("b.Y", "modB/b/Y.java"));
    let analysis = analyze(&options(), &vec![a, b]).unwrap();
    let criticals: Vec<_> = analysis
        .reports
        .iter()
        .filter(|r| r.kind == Kind::Critical)
        .collect();
    assert_eq!(criticals.len(), 1);
    assert_eq!(
        criticals[0].message,
        "Module A depends on module B that is not lower"
    );
    assert!(criticals[0].for_modules.contains(&"A".to_string()));
    assert!(criticals[0].for_modules.contains(&"B".to_string()));
}

#[test]
fn ready_unit_yields_one_auto_action() {
    let mut a = module("A", 0, "modA");
    let mut x = unit("a.X", "modA/a/X.java");
    x.target_module = Some("B".to_string());
    a.srcs.push(x);
    let mut b = module("B", 1, "modB");
    b.dependencies = strings(&["A"]);
    let analysis = analyze(&options(), &vec![a, b]).unwrap();
    assert_eq!(analysis.reports.len(), 1);
    let r = &analysis.reports[0];
    assert_eq!(r.kind, Kind::AutoAction);
    assert_eq!(r.message, "a.X is ready to go to B");
    assert_eq!(
        r.action,
        "execute move-class --from-module=\"modA\" --from-location=\"a/X.java\" --to-module=\"modB\""
    );
}

#[test]
fn promotion_rerun_after_move_warns_and_stops() {
    // The unit now sits in its target module: the annotation is stale.
    let a = module("A", 0, "modA");
    let mut b = module("B", 1, "modB");
    let mut x = unit("a.X", "modB/a/X.java");
    x.target_module = Some("B".to_string());
    b.srcs.push(x);
    let analysis = analyze(&options(), &vec![a, b]).unwrap();
    assert_eq!(analysis.reports.len(), 1);
    let r = &analysis.reports[0];
    assert_eq!(r.kind, Kind::Warning);
    assert_eq!(
        r.message,
        "a.X target module is the same as the module of the class"
    );
}

#[test]
fn incompatible_dependency_yields_error() {
    let mut a = module("A", 0, "modA");
    let mut x = unit("a.X", "modA/a/X.java");
    x.target_module = Some("B".to_string());
    x.dependencies = strings(&["c.Z"]);
    a.srcs.push(x);
    let mut b = module("B", 2, "modB");
    b.dependencies = strings(&["A"]);
    let mut c = module("C", 1, "modC");
    c.srcs.push(unit("c.Z", "modC/c/Z.java"));
    let analysis = analyze(&options(), &vec![a, b, c]).unwrap();
    assert_eq!(analysis.reports.len(), 1);
    let r = &analysis.reports[0];
    assert_eq!(r.kind, Kind::Error);
    assert_eq!(
        r.message,
        "a.X depends on c.Z that is in module C but B does not depend on it"
    );
    assert!(r.for_modules.contains(&"A".to_string()));
    assert!(r.for_modules.contains(&"B".to_string()));
    assert!(r.for_modules.contains(&"C".to_string()));
    assert_eq!(r.indirect_classes, strings(&["c.Z"]));
}

#[test]
fn break_annotation_turns_error_into_dev_action() {
    let mut a = module("A", 0, "modA");
    let mut x = unit("a.X", "modA/a/X.java");
    x.target_module = Some("B".to_string());
    x.dependencies = strings(&["c.Z"]);
    x.break_dependencies_on = strings(&["c.Z"]);
    a.srcs.push(x);
    let mut b = module("B", 2, "modB");
    b.dependencies = strings(&["A"]);
    let mut c = module("C", 1, "modC");
    c.srcs.push(unit("c.Z", "modC/c/Z.java"));
    let analysis = analyze(&options(), &vec![a, b, c]).unwrap();
    assert_eq!(analysis.reports.len(), 1);
    let r = &analysis.reports[0];
    assert_eq!(r.kind, Kind::DevAction);
    assert_eq!(
        r.message,
        "a.X depends on c.Z and this dependency has to be broken"
    );
}

#[test]
fn external_dependency_module_is_exempt_from_error() {
    let mut a = module("A", 0, "modA");
    let mut x = unit("a.X", "modA/a/X.java");
    x.target_module = Some("B".to_string());
    x.dependencies = strings(&["c.Z"]);
    a.srcs.push(x);
    let mut b = module("B", 2, "modB");
    b.dependencies = strings(&["A"]);
    let mut c = module("C", 1, "modC");
    c.external = true;
    c.srcs.push(unit("c.Z", "modC/c/Z.java"));
    let analysis = analyze(&options(), &vec![a, b, c]).unwrap();
    assert_eq!(analysis.reports.len(), 0);
}

#[test]
fn deprecated_unit_with_dependee_blocked_and_dev_action() {
    let mut a = module("A", 0, "modA");
    let mut x = unit("a.X", "modA/a/X.java");
    x.deprecated = true;
    a.srcs.push(x);
    let mut b = module("B", 1, "modB");
    b.dependencies = strings(&["A"]);
    let mut y = unit("b.Y", "modB/b/Y.java");
    y.dependencies = strings(&["a.X"]);
    b.srcs.push(y);
    let analysis = analyze(&options(), &vec![a, b]).unwrap();
    assert_eq!(analysis.reports.len(), 2);
    let blocked: Vec<_> = analysis
        .reports
        .iter()
        .filter(|r| r.kind == Kind::Blocked)
        .collect();
    assert_eq!(blocked.len(), 1);
    assert_eq!(blocked[0].message, "a.X is deprecated, remove it");
    assert_eq!(blocked[0].for_class, "a.X");
    let dev: Vec<_> = analysis
        .reports
        .iter()
        .filter(|r| r.kind == Kind::DevAction)
        .collect();
    assert_eq!(dev.len(), 1);
    assert_eq!(dev[0].message, "b.Y break dependency on deprecated class a.X");
    assert_eq!(dev[0].for_class, "b.Y");
}

#[test]
fn deprecated_unit_without_dependee_is_auto_actionable() {
    let mut a = module("A", 0, "modA");
    let mut x = unit("a.X", "modA/a/X.java");
    x.deprecated = true;
    a.srcs.push(x);
    let analysis = analyze(&options(), &vec![a]).unwrap();
    assert_eq!(analysis.reports.len(), 1);
    assert_eq!(analysis.reports[0].kind, Kind::AutoAction);
    assert_eq!(analysis.reports[0].message, "a.X is deprecated, remove it");
}

#[test]
fn blocked_promotion_lists_first_moves() {
    // a.X wants to go up to B, and depends on c.Z whose module C has not
    // reached B's layer, though B declares the dependency on C.
    let mut a = module("A", 0, "modA");
    let mut x = unit("a.X", "modA/a/X.java");
    x.target_module = Some("B".to_string());
    x.dependencies = strings(&["c.Z"]);
    a.srcs.push(x);
    let mut b = module("B", 2, "modB");
    b.dependencies = strings(&["A", "C"]);
    let mut c = module("C", 1, "modC");
    c.srcs.push(unit("c.Z", "modC/c/Z.java"));
    let analysis = analyze(&options(), &vec![a, b, c]).unwrap();
    assert_eq!(analysis.reports.len(), 1);
    let r = &analysis.reports[0];
    assert_eq!(r.kind, Kind::Blocked);
    assert_eq!(
        r.message,
        "a.X does not have untargeted dependencies to go to B. First move c.Z to B"
    );
    assert!(r.indirect_classes.contains(&"c.Z".to_string()));
    assert!(r.indirect_classes.contains(&"a.X".to_string()));
}

#[test]
fn unknown_module_filter_is_fatal() {
    let mut a = module("A", 0, "modA");
    a.srcs.push(unit("a.X", "modA/a/X.java"));
    let mut opts = options();
    opts.module_filter = Some("Z".to_string());
    match analyze(&opts, &vec![a]) {
        Err(AnalyzeError::UnknownModule(m)) => assert_eq!(m, "Z"),
        _ => panic!("expected an unknown-module failure"),
    }
}

#[test]
fn unknown_class_filter_is_fatal() {
    let mut a = module("A", 0, "modA");
    a.srcs.push(unit("a.X", "modA/a/X.java"));
    let mut opts = options();
    opts.class_filter = strings(&["a.X", "nope.N"]);
    match analyze(&opts, &vec![a]) {
        Err(AnalyzeError::UnknownClass(c)) => assert_eq!(c, "nope.N"),
        _ => panic!("expected an unknown-class failure"),
    }
}

#[test]
fn unknown_location_filter_is_fatal() {
    let mut a = module("A", 0, "modA");
    a.srcs.push(unit("a.X", "modA/a/X.java"));
    let mut opts = options();
    opts.location_class_filter = strings(&["nowhere/File.java"]);
    match analyze(&opts, &vec![a]) {
        Err(AnalyzeError::UnknownLocation(l)) => assert_eq!(l, "nowhere/File.java"),
        _ => panic!("expected an unknown-location failure"),
    }
}

#[test]
fn unresolved_module_dependency_is_fatal() {
    let mut a = module("A", 0, "modA");
    a.dependencies = strings(&["GONE"]);
    a.srcs.push(unit("a.X", "modA/a/X.java"));
    match analyze(&options(), &vec![a]) {
        Err(AnalyzeError::InconsistentGraph) => {}
        _ => panic!("expected an inconsistent-graph failure"),
    }
}

#[test]
fn unresolved_unit_dependency_is_fatal() {
    let mut a = module("A", 0, "modA");
    let mut x = unit("a.X", "modA/a/X.java");
    x.dependencies = strings(&["ghost.G"]);
    a.srcs.push(x);
    match analyze(&options(), &vec![a]) {
        Err(AnalyzeError::InconsistentGraph) => {}
        _ => panic!("expected an inconsistent-graph failure"),
    }
}

#[test]
fn target_module_to_create_is_a_dev_action() {
    let mut a = module("A", 0, "modA");
    let mut x = unit("a.X", "modA/a/X.java");
    x.target_module = Some("NEW".to_string());
    a.srcs.push(x);
    let analysis = analyze(&options(), &vec![a]).unwrap();
    // The promotion and the demotion check each ask for the module once.
    assert_eq!(analysis.reports.len(), 2);
    for r in &analysis.reports {
        assert_eq!(r.kind, Kind::DevAction);
        assert_eq!(r.message, "Target module NEW needs to be created.");
    }
}

#[test]
fn blocked_demotion_lists_dependees() {
    // w.W wants to go down to T; its dependee d.C sits in D, which depends
    // on T but has not come down to T's layer yet.
    let mut t = module("T", 1, "modT");
    t.srcs.push(unit("t.T0", "modT/t/T0.java"));
    let mut m = module("M", 2, "modM");
    m.dependencies = strings(&["T"]);
    let mut w = unit("w.W", "modM/w/W.java");
    w.target_module = Some("T".to_string());
    m.srcs.push(w);
    let mut d = module("D", 3, "modD");
    d.dependencies = strings(&["M", "T"]);
    let mut dc = unit("d.C", "modD/d/C.java");
    dc.dependencies = strings(&["w.W"]);
    d.srcs.push(dc);
    let analysis = analyze(&options(), &vec![t, m, d]).unwrap();
    let blocked: Vec<_> = analysis
        .reports
        .iter()
        .filter(|r| r.kind == Kind::Blocked)
        .collect();
    assert_eq!(blocked.len(), 1);
    assert_eq!(
        blocked[0].message,
        "w.W does not have dependees to go to T. First move d.C to D"
    );
}
