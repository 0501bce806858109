use cargo_rudra::args::{
    any_arg_flag, arg_flag_values, get_arg_flag_value, get_manifest_path, has_arg_flag, str_ends_with,
    str_starts_with,
};
use cargo_rudra::channel::{decode_args, encode_args, ChannelError};
use cargo_rudra::gate::{
    also_analyzed, classify_unit, analyzer_invocation, check_outcome, child_exit_code, compiler_invocation,
    contains_target_flag, dispatch, fatal_exit_code, get_first_arg_with_rs_suffix,
    is_crate_type_lib, is_direct_target, is_target_crate, select_persona, Persona, RunError,
    WaitOutcome,
};
use cargo_rudra::plan::{plan_package, plan_target, split_user_args, PlanSettings};
use cargo_rudra::report::{
    init_report_logger, rudra_report, Report, ReportBuffer, ReportLevel, ReportSink,
};
use cargo_rudra::schedule::topological_order;
use cargo_rudra::target::{target_order, Package, Target, TargetKind};
use cargo_rudra::workspace::{
    cargo_workspace, dependency_graph, index_of, schedule_workspace, DependencyKind,
    ResolvedDep, ResolvedNode, WorkspaceError,
};

fn strs(v: &[&str]) -> Vec<String> {
    v.iter().map(|s| s.to_string()).collect()
}

fn dep(pkg: &str, kinds: &[DependencyKind]) -> ResolvedDep {
    ResolvedDep { pkg: pkg.to_string(), dep_kinds: kinds.to_vec() }
}

fn node(id: &str, deps: Vec<ResolvedDep>) -> ResolvedNode {
    ResolvedNode { id: id.to_string(), deps }
}

fn target(name: &str, kinds: &[&str]) -> Target {
    Target { name: name.to_string(), kind: strs(kinds) }
}

fn settings(argv: &[&str], report: Option<&str>) -> PlanSettings {
    PlanSettings {
        argv: strs(argv),
        host: "x86_64-unknown-linux-gnu".to_string(),
        report_path: report.map(|s| s.to_string()),
        debug_build: false,
        use_xargo: false,
        self_exe: "/bin/cargo-rudra".to_string(),
    }
}

fn env_value(inv: &cargo_rudra::plan::Invocation, key: &str) -> Option<String> {
    inv.env.iter().find(|e| e.key == key).map(|e| e.value.clone())
}

#[test]
fn workspace_chain_schedules_in_dependency_order() {
    let nodes = vec![
        node("C", vec![dep("B", &[DependencyKind::Normal])]),
        node("B", vec![dep("A", &[DependencyKind::Normal])]),
        node("A", vec![]),
    ];
    let members = strs(&["A", "B", "C"]);
    let order = cargo_workspace(&nodes, &members).unwrap();
    let names: Vec<&str> = order.iter().map(|&i| nodes[i].id.as_str()).collect();
    assert_eq!(names, vec!["A", "B", "C"]);
}

#[test]
fn workspace_leaves_out_non_members_but_keeps_their_order() {
    let nodes = vec![
        node("app", vec![dep("ext", &[DependencyKind::Normal])]),
        node("ext", vec![dep("core", &[DependencyKind::Normal])]),
        node("core", vec![]),
    ];
    let members = strs(&["app", "core"]);
    let order = cargo_workspace(&nodes, &members).unwrap();
    let names: Vec<&str> = order.iter().map(|&i| nodes[i].id.as_str()).collect();
    assert_eq!(names, vec!["core", "app"]);
}

#[test]
fn dev_and_build_dependencies_do_not_order() {
    let nodes = vec![
        node("a", vec![dep("b", &[DependencyKind::Development, DependencyKind::Build])]),
        node("b", vec![dep("a", &[DependencyKind::Normal])]),
    ];
    let g = dependency_graph(&nodes).unwrap();
    assert_eq!(g, vec![Vec::<usize>::new(), vec![0]]);
    let order = cargo_workspace(&nodes, &strs(&["a", "b"])).unwrap();
    assert_eq!(order, vec![0, 1]);
}

#[test]
fn cyclic_workspace_fails_with_unresolved_packages() {
    let nodes = vec![
        node("a", vec![dep("b", &[DependencyKind::Normal])]),
        node("b", vec![dep("a", &[DependencyKind::Normal])]),
        node("c", vec![]),
    ];
    match cargo_workspace(&nodes, &strs(&["a", "b", "c"])) {
        Err(WorkspaceError::Cyclic(left)) => assert_eq!(left, vec![0, 1]),
        other => panic!("expected a cycle, got {:?}", other),
    }
}

#[test]
fn self_dependency_is_a_cycle() {
    let deps = vec![vec![0usize]];
    let e = topological_order(&deps).unwrap_err();
    assert_eq!(e.unresolved, vec![0]);
}

#[test]
fn unknown_dependency_is_reported() {
    let nodes = vec![node("a", vec![dep("ghost", &[DependencyKind::Normal])])];
    match cargo_workspace(&nodes, &strs(&["a"])) {
        Err(WorkspaceError::UnknownPackage(p)) => assert_eq!(p, "ghost"),
        other => panic!("expected an unknown package, got {:?}", other),
    }
}

#[test]
fn topological_order_is_valid_on_a_diamond() {
    let deps = vec![vec![1usize, 2], vec![3], vec![3], vec![]];
    let ord = topological_order(&deps).unwrap();
    assert_eq!(ord.len(), 4);
    let pos = |v: usize| ord.iter().position(|&x| x == v).unwrap();
    for (p, ds) in deps.iter().enumerate() {
        for &d in ds {
            assert!(pos(d) < pos(p));
        }
    }
}

#[test]
fn schedule_workspace_of_empty_graph_is_empty() {
    assert_eq!(schedule_workspace(&vec![], &vec![]).unwrap(), Vec::<usize>::new());
}

#[test]
fn index_of_finds_identities() {
    let nodes = vec![node("x", vec![]), node("y", vec![])];
    assert_eq!(index_of(&nodes, &"y".to_string()), Some(1));
    assert_eq!(index_of(&nodes, &"z".to_string()), None);
}

#[test]
fn flag_values_are_read_both_ways() {
    let argv = strs(&["cargo-rudra", "rudra", "--target", "wasm32", "--", "--target=x"]);
    assert_eq!(get_arg_flag_value(&argv, "--target", true), Some("wasm32".to_string()));
    let argv = strs(&["p", "--manifest-path=/a/Cargo.toml"]);
    assert_eq!(get_arg_flag_value(&argv, "--manifest-path", true), Some("/a/Cargo.toml".to_string()));
    let argv = strs(&["p", "--", "--target=x"]);
    assert_eq!(get_arg_flag_value(&argv, "--target", true), None);
    assert_eq!(get_arg_flag_value(&argv, "--target", false), Some("x".to_string()));
    let argv = strs(&["p", "--target"]);
    assert_eq!(get_arg_flag_value(&argv, "--target", false), None);
    let argv = strs(&["p", "--targets", "y", "--target=z"]);
    assert_eq!(get_arg_flag_value(&argv, "--target", false), Some("z".to_string()));
}

#[test]
fn has_arg_flag_stops_at_separator() {
    let argv = strs(&["p", "rudra", "-v", "--", "-x"]);
    assert!(has_arg_flag(&argv, "-v"));
    assert!(!has_arg_flag(&argv, "-x"));
}

#[test]
fn crate_type_detection() {
    let argv = strs(&["cargo-rudra", "rustc", "--crate-type", "bin", "--crate-type=rlib"]);
    assert!(is_crate_type_lib(&argv));
    let argv = strs(&["cargo-rudra", "rustc", "--crate-type", "bin"]);
    assert!(!is_crate_type_lib(&argv));
    let argv = strs(&["cargo-rudra", "rustc", "--crate-typex", "--crate-type=lib"]);
    assert!(!is_crate_type_lib(&argv));
    assert_eq!(arg_flag_values(&strs(&["p", "--c", "a", "--c=b"]), "--c"), strs(&["a", "b"]));
    assert!(any_arg_flag(&strs(&["p", "--c=b"]), "--c", |s: &str| s == "b"));
}

#[test]
fn string_helpers() {
    assert!(str_starts_with("--target=x", "--target"));
    assert!(!str_starts_with("--t", "--target"));
    assert!(str_ends_with("src/main.rs", ".rs"));
    assert!(!str_ends_with("rs", ".rs"));
}

#[test]
fn entry_file_and_target_flag() {
    let argv = strs(&["cargo-rudra", "rustc", "--edition=2018", "src/lib.rs", "--target", "x86_64"]);
    assert_eq!(get_first_arg_with_rs_suffix(&argv), Some("src/lib.rs".to_string()));
    assert!(contains_target_flag(&argv));
    assert!(is_target_crate(&argv));
    let argv = strs(&["cargo-rudra", "rustc", "/home/u/.cargo/registry/x/build.rs"]);
    assert!(!contains_target_flag(&argv));
    assert!(!is_target_crate(&argv));
    assert!(!is_target_crate(&strs(&["cargo-rudra", "rustc", "-"])));
}

#[test]
fn classification_needs_selector_and_relative_path() {
    assert!(is_direct_target(true, true));
    assert!(!is_direct_target(false, true));
    assert!(!is_direct_target(true, false));
    let d = dispatch(false, false, true);
    assert!(!d.run_analyzer && d.run_compiler);
}

#[test]
fn direct_library_runs_analyzer_and_compiler() {
    let d = dispatch(true, false, true);
    assert!(d.run_analyzer && d.run_compiler);
    let d = dispatch(true, false, false);
    assert!(d.run_analyzer && !d.run_compiler);
}

#[test]
fn allow_listed_package_is_analyzed_and_compiled() {
    assert!(also_analyzed("baz", "foo,BAZ"));
    assert!(also_analyzed("Baz", "baz"));
    assert!(!also_analyzed("baz", "foo,bazz"));
    assert!(!also_analyzed("baz", ""));
    let d = dispatch(false, also_analyzed("baz", "baz"), false);
    assert!(d.run_analyzer && d.run_compiler);
}

#[test]
fn timeout_stops_the_run_with_non_zero_status() {
    assert_eq!(check_outcome(WaitOutcome::TimedOut), Err(RunError::TimedOut));
    assert_eq!(check_outcome(WaitOutcome::Exited(Some(3))), Err(RunError::NonZeroExit));
    assert_eq!(check_outcome(WaitOutcome::Exited(None)), Err(RunError::NonZeroExit));
    assert_eq!(check_outcome(WaitOutcome::Exited(Some(0))), Ok(()));
    assert_eq!(fatal_exit_code(RunError::TimedOut), 1);
    assert_eq!(child_exit_code(None), 42);
    assert_eq!(child_exit_code(Some(7)), 7);
}

#[test]
fn help_short_circuits_persona() {
    assert_eq!(select_persona(&strs(&["cargo-rudra", "rudra", "--help"])), Persona::Help);
    assert_eq!(select_persona(&strs(&["cargo-rudra", "-h"])), Persona::Help);
    assert_eq!(select_persona(&strs(&["/x/cargo-rudra", "rudra"])), Persona::Orchestrator);
    assert_eq!(select_persona(&strs(&["cargo-rudra", "/usr/bin/rustc", "a.rs"])), Persona::Compiler);
    assert_eq!(select_persona(&strs(&["cargo-rudra"])), Persona::Misuse);
}

#[test]
fn channel_round_trip() {
    for args in [strs(&[]), strs(&["-Zx", "a b", "tab\there", "esc\u{1b}[0m", "quote\"\\", "\n"])] {
        let t = encode_args(&args);
        assert_eq!(decode_args(&t).unwrap(), args);
    }
    assert_eq!(encode_args(&strs(&["a"])), "[\"a\"]");
    assert_eq!(decode_args("[\"a\"").unwrap_err(), ChannelError::Decode);
}

#[test]
fn target_kinds_and_order() {
    assert!(TargetKind::is_lib_str("rlib"));
    assert!(!TargetKind::is_lib_str("proc-macro"));
    assert_eq!(TargetKind::from(&target("x", &["bin"])), TargetKind::Bin);
    assert_eq!(TargetKind::from(&target("x", &["cdylib", "staticlib"])), TargetKind::Library);
    assert_eq!(TargetKind::from(&target("x", &["test"])), TargetKind::Unknown);
    assert_eq!(TargetKind::Bin.as_string(), "bin");
    let ts = vec![target("b1", &["bin"]), target("t", &["example"]), target("l", &["lib"]), target("b2", &["bin"])];
    assert_eq!(target_order(&ts), vec![2, 0, 3, 1]);
}

#[test]
fn library_is_planned_before_binaries() {
    let pkg = Package {
        name: "foo".to_string(),
        version: "0.1.0".to_string(),
        targets: vec![target("bar", &["bin"]), target("ex", &["example"]), target("foo", &["lib"])],
    };
    let s = settings(&["cargo-rudra", "rudra"], None);
    let ps = plan_package(&s, &pkg);
    let kinds: Vec<TargetKind> = ps.iter().map(|p| p.kind).collect();
    assert_eq!(kinds, vec![TargetKind::Library, TargetKind::Bin]);
    assert_eq!(ps[0].target, 2);
    assert_eq!(ps[0].invocation.args, strs(&["check", "-p", "foo@0.1.0", "--lib", "-q", "--target", "x86_64-unknown-linux-gnu"]));
}

#[test]
fn report_path_is_suffixed_per_target() {
    let pkg = Package { name: "foo".to_string(), version: "1.0.0".to_string(), targets: vec![] };
    let s = settings(&["cargo-rudra", "rudra", "-v", "--target", "wasm32", "--", "-Zflag"], Some("/tmp/r"));
    let inv = plan_target(&s, &pkg, &target("bar", &["bin"])).unwrap();
    assert_eq!(inv.program, "cargo");
    assert_eq!(env_value(&inv, "RUDRA_REPORT_PATH"), Some("/tmp/r-bin-bar".to_string()));
    assert_eq!(env_value(&inv, "RUDRA_ARGS"), Some("[\"-Zflag\"]".to_string()));
    assert_eq!(env_value(&inv, "RUSTC_WRAPPER"), Some("/bin/cargo-rudra".to_string()));
    assert_eq!(env_value(&inv, "RUDRA_VERBOSE"), Some(String::new()));
    assert_eq!(inv.args, strs(&["check", "-p", "foo@1.0.0", "--bin", "bar", "-v", "--target", "wasm32"]));
    assert!(plan_target(&s, &pkg, &target("t", &["test"])).is_none());
}

#[test]
fn user_args_split_at_separator() {
    let (flags, tail) = split_user_args(&strs(&["p", "rudra", "--release", "--", "a", "--", "b"]));
    assert_eq!(flags, strs(&["--release"]));
    assert_eq!(tail, strs(&["a", "--", "b"]));
    let (flags, tail) = split_user_args(&strs(&["p"]));
    assert!(flags.is_empty() && tail.is_empty());
}

#[test]
fn analyzer_and_compiler_invocations() {
    let argv = strs(&["cargo-rudra", "rustc", "src/lib.rs", "--crate-type", "lib"]);
    let inv = analyzer_invocation(&"/bin/rudra".to_string(), &argv, &strs(&["-Zx"]), &Some("/tmp/r".to_string()), &None);
    assert_eq!(inv.args, strs(&["src/lib.rs", "--crate-type", "lib", "-Zx"]));
    assert_eq!(env_value(&inv, "RUDRA_REPORT_PATH"), Some("/tmp/r-unknown".to_string()));
    let inv = compiler_invocation(&argv, &None);
    assert_eq!(inv.program, "rustc");
    assert_eq!(inv.args, strs(&["src/lib.rs", "--crate-type", "lib"]));
    let inv = compiler_invocation(&argv, &Some("/bin/sccache".to_string()));
    assert_eq!(inv.args[0], "rustc");
}

#[test]
fn report_sink_is_set_once() {
    let mut sink: ReportSink<ReportBuffer> = ReportSink::new();
    assert!(!sink.is_initialized());
    let r = Report::new(ReportLevel::Warning, "UnsafeDataflow".to_string(), "d".to_string(), "l".to_string(), "s".to_string());
    let handle = init_report_logger(&mut sink, ReportBuffer::new());
    assert!(sink.is_initialized());
    rudra_report(&mut sink, r.clone());
    rudra_report(&mut sink, r.clone());
    handle.flush(&mut sink);
    assert_eq!(sink.logger.as_ref().unwrap().reports.len(), 2);
    assert_eq!(r.to_text(), "Warning (UnsafeDataflow): d\n-> l\ns");
    assert_eq!(ReportLevel::Error.rank(), 2);
}

#[test]
fn target_selector_after_separator_is_not_a_build_flag() {
    let pkg = Package { name: "foo".to_string(), version: "1.0.0".to_string(), targets: vec![] };
    let s = settings(&["cargo-rudra", "rudra", "--", "--target=x"], None);
    let inv = plan_target(&s, &pkg, &target("foo", &["lib"])).unwrap();
    assert_eq!(inv.args, strs(&["check", "-p", "foo@1.0.0", "--lib", "-q", "--target", "x86_64-unknown-linux-gnu"]));
    assert_eq!(env_value(&inv, "RUDRA_ARGS"), Some("[\"--target=x\"]".to_string()));
    assert_eq!(env_value(&inv, "RUDRA_REPORT_PATH"), None);
}

#[test]
fn alternate_driver_keeps_package_selection() {
    let pkg = Package { name: "core".to_string(), version: "0.0.0".to_string(), targets: vec![] };
    let mut s = settings(&["cargo-rudra", "rudra"], None);
    s.use_xargo = true;
    let inv = plan_target(&s, &pkg, &target("core", &["lib"])).unwrap();
    assert_eq!(inv.program, "xargo-check");
    assert_eq!(inv.args[..3].to_vec(), strs(&["-p", "core@0.0.0", "--lib"]));
    assert_eq!(env_value(&inv, "RUDRA_ARGS"), Some("[]".to_string()));
}

#[test]
fn classify_unit_combines_signals() {
    let direct_lib = strs(&["cargo-rudra", "rustc", "src/lib.rs", "--crate-type", "lib", "--target", "x86_64"]);
    let d = classify_unit(&direct_lib, &Some("foo".to_string()), &None);
    assert!(d.run_analyzer && d.run_compiler);
    let direct_bin = strs(&["cargo-rudra", "rustc", "src/main.rs", "--crate-type", "bin", "--target", "x86_64"]);
    let d = classify_unit(&direct_bin, &None, &None);
    assert!(d.run_analyzer && !d.run_compiler);
    let host = strs(&["cargo-rudra", "rustc", "/reg/baz/build.rs", "--crate-type", "bin"]);
    let d = classify_unit(&host, &Some("baz".to_string()), &None);
    assert!(!d.run_analyzer && d.run_compiler);
    let d = classify_unit(&host, &Some("baz".to_string()), &Some("foo,Baz".to_string()));
    assert!(d.run_analyzer && d.run_compiler);
}

#[test]
fn manifest_path_is_read_before_separator() {
    let argv = strs(&["cargo-rudra", "rudra", "--manifest-path", "a/Cargo.toml", "--", "--manifest-path=b"]);
    assert_eq!(get_manifest_path(&argv), Some("a/Cargo.toml".to_string()));
    assert_eq!(get_manifest_path(&strs(&["cargo-rudra", "rudra"])), None);
}
