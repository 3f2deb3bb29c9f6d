use ir::paths::Platform;
use ir::python::PythonSpec;
use ir::runtime::{
    apply_exclude_newer_overrides, choose_r, cli_r_selection, dependency_to_ref,
    env_optional_trimmed_string, env_r_selection, exclude_newer_override_from,
    first_attempt, frontmatter_r_selection, ir_cache_dir, missing_python_path_error,
    nonempty_cli_value, normalize_exclude_newer_override, normalized_dependencies,
    parse_simple_version_ref, python_virtual_env, r_user_cache_dir,
    repeated_tooling_restart_error, resolver_outputs, resolver_plan, resolver_step,
    selected_exclude_newer, set_python_exclude_newer, spawn_error, RChoice, RSelection,
    ResolverPlan, ResolverStep, VersionOperator,
};
use ir::spec::RuntimeSpec;

const TODAY: (i32, u8, u8) = (2026, 6, 1);

fn selection_text(s: Option<RSelection>) -> Option<(bool, String)> {
    s.map(|s| match s {
        RSelection::Version(v) => (true, v),
        RSelection::Rscript(p) => (false, p),
    })
}

#[test]
fn simple_version_refs_parse() {
    let (p, o, v) = parse_simple_version_ref("dplyr >= 1.0.2").unwrap();
    assert_eq!((p.as_str(), o == VersionOperator::AtLeast, v.as_str()), ("dplyr", true, "1.0.2"));
    let (p, o, v) = parse_simple_version_ref("data.table==1.14-8").unwrap();
    assert_eq!((p.as_str(), o == VersionOperator::Exactly, v.as_str()), ("data.table", true, "1.14-8"));
    for d in ["x>=1", "1pkg>=1", "pkg.>=1", "pkg>1", "pkg>=", "pkg>=v1", "pkg>=1 ", "pkg@>=1"] {
        assert!(parse_simple_version_ref(d).is_none(), "{d}");
    }
}

#[test]
fn dependencies_take_the_resolver_spelling() {
    assert_eq!(dependency_to_ref("dplyr>=1.0"), "dplyr@>=1.0");
    assert_eq!(dependency_to_ref(" cli == 3.6.0 "), "cli@3.6.0");
    assert_eq!(dependency_to_ref("  tidyr "), "tidyr");
    assert_eq!(dependency_to_ref("github::r-lib/cli"), "github::r-lib/cli");
    assert_eq!(
        normalized_dependencies(&["a1>=2".to_string(), "b2".to_string()]),
        vec!["a1@>=2".to_string(), "b2".to_string()]
    );
}

#[test]
fn spelling_twice_changes_nothing() {
    for d in ["dplyr>=1.0", "cli == 3.6.0", " x ", "pkg@1.0", "a.b>=1-2"] {
        let once = dependency_to_ref(d);
        assert_eq!(dependency_to_ref(&once), once);
    }
}

#[test]
fn cli_selection_rules() {
    assert_eq!(
        cli_r_selection(Some("4.3"), Some("/x")).err().unwrap(),
        "cannot set both `--r-version` and `--rscript`"
    );
    assert_eq!(cli_r_selection(Some(""), None).err().unwrap(), "`--r-version` must not be empty");
    assert_eq!(cli_r_selection(None, Some("")).err().unwrap(), "`--rscript` must not be empty");
    assert_eq!(selection_text(cli_r_selection(Some("4.3"), None).unwrap()), Some((true, "4.3".into())));
    assert_eq!(selection_text(cli_r_selection(None, None).unwrap()), None);
    assert_eq!(nonempty_cli_value("--x", "v"), Ok("v".to_string()));
}

#[test]
fn env_selection_rules() {
    assert_eq!(env_optional_trimmed_string(Some("  4.2 ")), Some("4.2".to_string()));
    assert_eq!(env_optional_trimmed_string(Some("   ")), None);
    assert_eq!(
        env_r_selection(Some("4.2"), Some("/usr/bin/Rscript")).err().unwrap(),
        "cannot set both `IR_R_VERSION` and `IR_RSCRIPT`"
    );
    assert_eq!(
        selection_text(env_r_selection(Some("  "), Some("/r")).unwrap()),
        Some((false, "/r".into()))
    );
    assert_eq!(selection_text(env_r_selection(None, Some("")).unwrap()), None);
}

fn spec_with(r: Option<&str>, rscript: Option<&str>, date: Option<&str>) -> RuntimeSpec {
    let mut s = RuntimeSpec::default();
    s.r_requirement = r.map(str::to_string);
    s.rscript = rscript.map(str::to_string);
    s.exclude_newer = date.map(str::to_string);
    s
}

#[test]
fn r_choice_prefers_command_line_then_environment_then_frontmatter() {
    let spec = spec_with(Some("4.1"), None, Some("2024-01-01"));
    assert!(matches!(choose_r(&spec, Some("4.3"), None, Some("4.2"), None), Ok(RChoice::Selected(RSelection::Version(v))) if v == "4.3"));
    assert!(matches!(choose_r(&spec, None, None, Some("4.2"), None), Ok(RChoice::Selected(RSelection::Version(v))) if v == "4.2"));
    assert!(matches!(choose_r(&spec, None, None, None, None), Ok(RChoice::Selected(RSelection::Version(v))) if v == "4.1"));
    let dated = spec_with(None, None, Some("2024-01-01"));
    assert!(matches!(choose_r(&dated, None, None, None, None), Ok(RChoice::ForDate(d)) if d == "2024-01-01"));
    assert!(matches!(choose_r(&RuntimeSpec::default(), None, None, None, None), Ok(RChoice::Default)));
    let both = spec_with(Some("4.1"), Some("/r"), None);
    assert_eq!(
        frontmatter_r_selection(&both).err().unwrap(),
        "frontmatter cannot set both `r-version` and `rscript`"
    );
}

#[test]
fn snapshot_dates_after_today_mean_latest() {
    assert_eq!(normalize_exclude_newer_override(" 2024-01-15 ", TODAY), Some("2024-01-15".into()));
    assert_eq!(normalize_exclude_newer_override("2999-01-01", TODAY), None);
    assert_eq!(normalize_exclude_newer_override("2026-06-02", TODAY), None);
    assert_eq!(normalize_exclude_newer_override("2026-06-01", TODAY), Some("2026-06-01".into()));
    assert_eq!(normalize_exclude_newer_override("   ", TODAY), None);
    assert_eq!(normalize_exclude_newer_override("not-a-date", TODAY), Some("not-a-date".into()));
    assert_eq!(exclude_newer_override_from("x", Some((2030, 1, 1)), TODAY), None);
    assert_eq!(exclude_newer_override_from("x", Some((2020, 1, 1)), TODAY), Some("x".into()));
}

#[test]
fn snapshot_date_precedence() {
    assert_eq!(
        selected_exclude_newer(Some("2020-01-01"), Some("2021-01-01"), Some("2022-01-01"), TODAY),
        Some("2021-01-01".into())
    );
    assert_eq!(
        selected_exclude_newer(Some("2020-01-01"), None, Some("2022-01-01"), TODAY),
        Some("2022-01-01".into())
    );
    assert_eq!(selected_exclude_newer(Some("2020-01-01"), None, None, TODAY), Some("2020-01-01".into()));
    assert_eq!(selected_exclude_newer(None, None, None, TODAY), None);
}

#[test]
fn python_snapshot_follows_the_run() {
    let mut spec = RuntimeSpec::default();
    spec.exclude_newer = Some("2020-01-01".into());
    spec.python = Some(PythonSpec {
        packages: vec!["numpy".into()],
        python_version: None,
        exclude_newer: None,
        exclude_newer_explicit: false,
    });
    apply_exclude_newer_overrides(&mut spec, Some("2021-01-01"), None, None, TODAY);
    assert_eq!(spec.exclude_newer.as_deref(), Some("2021-01-01"));
    assert_eq!(spec.python.as_ref().unwrap().exclude_newer.as_deref(), Some("2021-01-01"));
    set_python_exclude_newer(&mut spec, Some("2019-05-05"), Some("2021-01-01"), TODAY);
    assert_eq!(spec.python.as_ref().unwrap().exclude_newer.as_deref(), Some("2019-05-05"));
    spec.python.as_mut().unwrap().exclude_newer_explicit = true;
    spec.python.as_mut().unwrap().exclude_newer = Some("2999-01-01".into());
    set_python_exclude_newer(&mut spec, None, Some("2021-01-01"), TODAY);
    assert_eq!(spec.python.as_ref().unwrap().exclude_newer, None);
}

#[test]
fn resolver_plans() {
    assert!(resolver_plan(true, false, false) == ResolverPlan::UseCache);
    assert!(resolver_plan(true, true, true) == ResolverPlan::UseCache);
    assert!(resolver_plan(true, true, false) == ResolverPlan::Resolve { r: false, python: true });
    assert!(resolver_plan(false, false, false) == ResolverPlan::Resolve { r: true, python: false });
}

#[test]
fn resolver_retries_at_most_twice() {
    let mut s = first_attempt();
    assert!(resolver_step(&mut s, true, false) == ResolverStep::Retry);
    assert!(resolver_step(&mut s, false, true) == ResolverStep::Retry);
    assert!(s.safe_mode);
    assert!(resolver_step(&mut s, false, true) == ResolverStep::Finished);
    assert!(resolver_step(&mut s, true, false) == ResolverStep::RepeatedRestart);
    let mut t = first_attempt();
    assert!(resolver_step(&mut t, false, false) == ResolverStep::Finished);
}

#[test]
fn resolver_messages() {
    assert_eq!(
        repeated_tooling_restart_error("dependency resolver", " pak cli \n"),
        "dependency resolver repeatedly requested a tooling restart for pak cli"
    );
    assert_eq!(
        repeated_tooling_restart_error("dependency resolver", ""),
        "dependency resolver repeatedly requested a tooling restart"
    );
    assert_eq!(
        missing_python_path_error("/x/python"),
        "Python environment resolver returned a missing path `/x/python`"
    );
    assert_eq!(
        spawn_error("Rscript", true, ""),
        "could not find `Rscript` on PATH. Install R, set IR_RSCRIPT, or pass --rscript."
    );
    assert_eq!(spawn_error("/r", false, "denied"), "failed to launch `/r`: denied");
}

#[test]
fn resolver_outputs_read_result_files() {
    let o = resolver_outputs(true, " /lib \n", "", None, None, false, "", Some("/py")).unwrap();
    assert_eq!(o.library.as_deref(), Some("/lib"));
    assert_eq!(o.primary_package, None);
    assert_eq!(o.python.as_deref(), Some("/py"));
    let cached = resolver_outputs(false, "", "", Some("/c"), Some("cli"), true, " /p ", None).unwrap();
    assert_eq!(cached.library.as_deref(), Some("/c"));
    assert_eq!(cached.primary_package.as_deref(), Some("cli"));
    assert_eq!(cached.python.as_deref(), Some("/p"));
    assert_eq!(
        resolver_outputs(true, "/l", "", None, None, true, "  ", None).err().unwrap(),
        "Python environment resolver did not return a Python path"
    );
}

#[test]
fn virtual_env_bin_dirs() {
    assert!(python_virtual_env("bin"));
    assert!(python_virtual_env("scripts"));
    assert!(python_virtual_env("Scripts"));
    assert!(!python_virtual_env("Bin"));
    assert!(!python_virtual_env("lib"));
}

#[test]
fn cache_directories_per_platform() {
    let p = ir_cache_dir(Platform::Linux, None, None, None, None, None, Some("/home/u")).unwrap();
    assert_eq!((p.base.as_str(), p.parts.clone()), ("/home/u", vec![".cache".to_string(), "R".into(), "ir".into()]));
    let p = ir_cache_dir(Platform::Linux, Some("/c"), None, None, None, None, None).unwrap();
    assert_eq!((p.base.as_str(), p.parts.len()), ("/c", 0));
    let p = r_user_cache_dir(Platform::MacOs, None, None, None, None, Some("/Users/u")).unwrap();
    assert_eq!(p.parts, vec!["Library".to_string(), "Caches".into(), "org.R-project.R".into()]);
    let p = r_user_cache_dir(Platform::Windows, None, None, None, Some("C:\\Users\\u"), None).unwrap();
    assert_eq!(p.parts, vec!["AppData".to_string(), "Local".into(), "R".into(), "cache".into()]);
    assert_eq!(
        r_user_cache_dir(Platform::Linux, None, None, None, None, None).err().unwrap(),
        "cannot determine home directory"
    );
    let x = r_user_cache_dir(Platform::Linux, None, Some("/xdg"), None, None, Some("/h")).unwrap();
    assert_eq!((x.base.as_str(), x.parts.len()), ("/xdg", 0));
}
