use ir::cli::RunSource;
use ir::paths::Platform;
use ir::python::{
    cache_key, cache_source, cached_python, marker_contents, uv_config_key_parts, uv_config_parts,
    EnvRequest, UvConfigRead,
};
use ir::runtime::{
    batch_launcher_target, resolver_env, resolver_process_crashed, rscript_run_args,
    tooling_restart_requested, unique_file_name, EnvChange, PythonRun, ResolverRun,
};

fn strings(v: &[&str]) -> Vec<String> {
    v.iter().map(|s| s.to_string()).collect()
}

fn request(source: &str, max_age: Option<u64>) -> EnvRequest {
    EnvRequest {
        packages: strings(&["numpy"]),
        python_version: None,
        exclude_newer: None,
        marker_name: Some("k".to_string()),
        source: source.to_string(),
        latest_max_age_seconds: max_age,
    }
}

#[test]
fn python_markers_read_back_what_was_written() {
    let source = cache_source(None, 1000);
    assert_eq!(source, "latest: 1000");
    let marker = marker_contents(&source, "/env/bin/python");
    assert_eq!(marker, "latest: 1000\n/env/bin/python\n");
    let r = request(&source, Some(60));
    assert_eq!(cached_python(&marker, &r, 1000), Some("/env/bin/python".to_string()));
    assert_eq!(cached_python(&marker, &r, 1060), Some("/env/bin/python".to_string()));
    assert_eq!(cached_python(&marker, &r, 1061), None);
    assert_eq!(cached_python(&marker, &r, 999), None);

    let dated = cache_source(Some("2024-01-01"), 5);
    let marker = marker_contents(&dated, "/env/bin/python");
    let r = request(&dated, None);
    assert_eq!(cached_python(&marker, &r, 10_000_000), Some("/env/bin/python".to_string()));
    let other = request("exclude-newer: 2024-02-01", None);
    assert_eq!(cached_python(&marker, &other, 5), None);
    assert_eq!(cached_python("latest: 1000\n  \n", &request("latest: 1000", Some(60)), 1000), None);
    assert_eq!(cached_python("latest: x\n/p\n", &request("latest: 1", Some(60)), 1000), None);
}

#[test]
fn python_keys_ignore_package_order() {
    let a = cache_key(&strings(&["pandas", "numpy>=2"]), Some("3.12"), None, &[]);
    let b = cache_key(&strings(&["numpy>=2", "pandas"]), Some("3.12"), None, &[]);
    assert_eq!(a, b);
    let c = cache_key(&strings(&["numpy>=2", "pandas"]), Some("3.11"), None, &[]);
    assert_ne!(a, c);
}

#[test]
fn uv_configuration_parts() {
    let files = vec![
        UvConfigRead::Absent,
        UvConfigRead::Read { scope: "user".to_string(), path: "/h/.config/uv/uv.toml".to_string(), contents: b"[tool]\n".to_vec() },
        UvConfigRead::Absent,
    ];
    let parts = uv_config_key_parts(&files).unwrap();
    assert_eq!(parts, uv_config_parts("user", "/h/.config/uv/uv.toml", b"[tool]\n"));
    assert_eq!(
        parts,
        strings(&[
            "uv-config-user-path: /h/.config/uv/uv.toml",
            "uv-config-user-sha256: c92dd17ad4ba1da0db465c76082757ea254329ebae00a82a87b332a35c728bed",
        ])
    );
    assert_eq!(uv_config_key_parts(&[]), Some(vec![]));
    let unreadable = vec![files.into_iter().nth(1).unwrap(), UvConfigRead::Unreadable];
    assert_eq!(uv_config_key_parts(&unreadable), None);
}

#[test]
fn resolver_crashes() {
    assert!(resolver_process_crashed(Platform::Linux, true, None));
    assert!(resolver_process_crashed(Platform::MacOs, true, Some(1)));
    assert!(!resolver_process_crashed(Platform::Linux, false, Some(1)));
    assert!(resolver_process_crashed(Platform::Linux, false, None));
    assert!(!resolver_process_crashed(Platform::Windows, true, Some(1)));
    assert!(resolver_process_crashed(Platform::Windows, false, Some(0xC0000005u32 as i32)));
    assert!(resolver_process_crashed(Platform::Windows, false, Some(0xC00000FDu32 as i32)));
    assert!(resolver_process_crashed(Platform::Windows, false, Some(0xC0000409u32 as i32)));
    assert!(!resolver_process_crashed(Platform::Windows, false, Some(0xC0000001u32 as i32)));
    assert!(!resolver_process_crashed(Platform::Windows, false, Some(0)));
    assert!(!resolver_process_crashed(Platform::Linux, false, Some(0xC0000005u32 as i32)));
    assert!(tooling_restart_requested(Some(86), true));
    assert!(!tooling_restart_requested(Some(86), false));
    assert!(!tooling_restart_requested(Some(1), true));
    assert!(!tooling_restart_requested(None, true));
}

#[test]
fn temporary_names() {
    assert_eq!(unique_file_name("ir-libpath", 42, 7, "txt"), "ir-libpath-42-7.txt");
}

#[test]
fn batch_launchers() {
    let bat = "@echo off\r\n:: generated\r\nREM note\r\n\r\n  @ \"C:\\R\\bin\\x64\\Rscript.exe\" %*\r\n";
    assert_eq!(batch_launcher_target(bat), Some("C:\\R\\bin\\x64\\Rscript.exe".to_string()));
    assert_eq!(batch_launcher_target("\"unterminated\n\"C:\\x\"\n"), None);
    assert_eq!(batch_launcher_target("set X=1\n\"C:\\x\" y\n"), Some("C:\\x".to_string()));
    assert_eq!(batch_launcher_target("rem only\n"), None);
    assert_eq!(batch_launcher_target("remark \"C:\\y\"\n"), None);
    assert_eq!(batch_launcher_target(""), None);
}

#[test]
fn rscript_arguments_for_runs() {
    let script = RunSource::Script("a.R".to_string());
    assert_eq!(
        rscript_run_args(&script, &strings(&["--vanilla"]), &strings(&["x", "y"])),
        strings(&["--vanilla", "a.R", "x", "y"])
    );
    let exprs = RunSource::Expressions(strings(&["1", "2"]));
    assert_eq!(rscript_run_args(&exprs, &[], &strings(&["z"])), strings(&["-e", "1", "-e", "2", "z"]));
    assert_eq!(rscript_run_args(&RunSource::Stdin, &[], &[]), strings(&["-"]));
}

fn changes(v: Vec<EnvChange>) -> Vec<(bool, String, String)> {
    v.into_iter()
        .map(|c| match c {
            EnvChange::SetVar(n, x) => (true, n, x),
            EnvChange::RemoveVar(n) => (false, n, String::new()),
        })
        .collect()
}

#[test]
fn resolver_environment() {
    let run = ResolverRun {
        cache_dir: "/c".to_string(),
        restart_file: "/t/r.txt".to_string(),
        safe_mode: true,
        resolve_r: true,
        result_file: Some("/t/lib.txt".to_string()),
        marker: Some("/c/m".to_string()),
        package_result_file: Some("/t/pkg.txt".to_string()),
        package_marker: None,
        exclude_newer: Some("2024-01-01".to_string()),
        quarto_render: true,
        python: Some(PythonRun {
            result_file: "/t/py.txt".to_string(),
            packages_file: "/t/pkgs.txt".to_string(),
            python_version: Some("3.12".to_string()),
            exclude_newer: None,
        }),
    };
    let c = changes(resolver_env(&run));
    let set = |n: &str, v: &str| (true, n.to_string(), v.to_string());
    let rm = |n: &str| (false, n.to_string(), String::new());
    let mut expected = vec![set("IR_CACHE_DIR", "/c"), set("R_PKG_SHOW_PROGRESS", "true")];
    for n in [
        "IR_RESOLVE_RESULT_FILE", "IR_RESOLVE_PACKAGE_RESULT_FILE", "IR_RESOLUTION_MARKER",
        "IR_PRIMARY_PACKAGE_MARKER", "IR_QUARTO_RENDER", "IR_EXCLUDE_NEWER", "IR_PYTHON_RESULT_FILE",
        "IR_PYTHON_PACKAGES_FILE", "IR_PYTHON_VERSION", "IR_PYTHON_EXCLUDE_NEWER",
        "IR_TOOLING_RESTART_FILE", "IR_TOOLING_SAFE_MODE",
    ] {
        expected.push(rm(n));
    }
    expected.extend([
        set("IR_TOOLING_RESTART_FILE", "/t/r.txt"),
        set("IR_TOOLING_SAFE_MODE", "1"),
        set("IR_RESOLVE_RESULT_FILE", "/t/lib.txt"),
        set("IR_RESOLUTION_MARKER", "/c/m"),
        set("IR_RESOLVE_PACKAGE_RESULT_FILE", "/t/pkg.txt"),
        set("IR_EXCLUDE_NEWER", "2024-01-01"),
        set("IR_QUARTO_RENDER", "1"),
        rm("PYTHONHOME"),
        set("IR_PYTHON_RESULT_FILE", "/t/py.txt"),
        set("IR_PYTHON_PACKAGES_FILE", "/t/pkgs.txt"),
        set("IR_PYTHON_VERSION", "3.12"),
    ]);
    assert_eq!(c, expected);

    let quiet = ResolverRun { safe_mode: false, resolve_r: false, python: None, ..run };
    let c = changes(resolver_env(&quiet));
    assert_eq!(c.len(), 15);
    assert_eq!(c[14], set("IR_TOOLING_RESTART_FILE", "/t/r.txt"));
}
