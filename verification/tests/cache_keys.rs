use ir::digest::{sha256_bytes, sha256_hex};
use ir::python::{
    cache_key, cache_source, cached_python, latest_max_age_seconds as python_max_age,
    marker_contents, python_distribution_name, python_package_name, python_package_spec_cacheable,
    python_packages, python_resolver_env_cacheable, python_resolver_env_var, request,
    uv_config_parts, PythonSpec,
};
use ir::resolve_cache::{
    cached_library, cached_primary_package, is_package_name, is_rscript_executable,
    is_rscript_name, is_script_launcher, is_standard_ref, is_standard_version,
    latest_max_age_seconds, paths, resolution_cache_key, resolution_cache_source,
    rscript_identity_text, sha256_fields, source_is_current, CachePaths, QuartoCacheFlags,
};

fn strings(v: &[&str]) -> Vec<String> {
    v.iter().map(|s| s.to_string()).collect()
}

const NO_PARTS: &[String] = &[];

fn no_quarto() -> QuartoCacheFlags {
    QuartoCacheFlags { render: false, reticulate: false }
}

#[test]
fn sha256_hex_of_known_texts() {
    assert_eq!(
        sha256_hex(""),
        "e3b0c44298fc1c149afbf4c8996fb92427ae41e4649b934ca495991b7852b855"
    );
    assert_eq!(
        sha256_hex("abc"),
        "ba7816bf8f01cfea414140de5dae2223b00361a396177a9cb410ff61f20015ad"
    );
    assert_eq!(
        sha256_bytes(b"[tool]\n"),
        "c92dd17ad4ba1da0db465c76082757ea254329ebae00a82a87b332a35c728bed"
    );
}

#[test]
fn length_prefixed_fields_count_utf8_bytes() {
    assert_eq!(
        sha256_fields(&strings(&["ü"])),
        "3f4af32a5d53bf0c14b9fecd2103dc66973e173ce630a12cbb00a6170a5ccaca"
    );
}

#[test]
fn resolution_key_matches_the_encoding() {
    let key = resolution_cache_key(
        &strings(&["cli", "abc"]),
        None,
        no_quarto(),
        "/usr/bin/Rscript;len=10",
        &[],
        None,
    );
    assert_eq!(key, "f1cd51b136667f68db3875a30a60c2f9c6fa3df2856290ef47466d69ab20e212");
    let key = resolution_cache_key(
        &strings(&["cli"]),
        Some("2026-06-01"),
        QuartoCacheFlags { render: true, reticulate: false },
        "R",
        &strings(&["--vanilla"]),
        Some("/tools"),
    );
    assert_eq!(key, "29742b40677eec696c1b6767d0db32cc243597679f9ddb233097ecc28bb6676c");
}

#[test]
fn resolution_key_ignores_dependency_order() {
    let a = resolution_cache_key(&strings(&["cli", "dplyr", "abc"]), None, no_quarto(), "R", &[], None);
    let b = resolution_cache_key(&strings(&["abc", "cli", "dplyr"]), None, no_quarto(), "R", &[], None);
    assert_eq!(a, b);
    let c = resolution_cache_key(&strings(&["abc", "cli"]), None, no_quarto(), "R", &[], None);
    assert_ne!(a, c);
}

#[test]
fn standard_versions() {
    for v in ["1.2", "3.6.6", ">=3.6.6", "1-2", "current", "last", ">=current"] {
        assert!(is_standard_version(v), "{v}");
    }
    for v in ["3", "", "1..2", ".1.2", "1.2.", "1.a", ">=", "branch", "1.2@x"] {
        assert!(!is_standard_version(v), "{v}");
    }
}

#[test]
fn package_names() {
    assert!(is_package_name("cli"));
    assert!(is_package_name("data.table"));
    assert!(is_package_name("R6"));
    assert!(!is_package_name("6R"));
    assert!(!is_package_name("pkg."));
    assert!(!is_package_name(""));
    assert!(!is_package_name("my-pkg"));
}

#[test]
fn standard_refs() {
    for d in ["cli", "cli@3.6.6", "cli@>=3.6.6", "  cli  ", "cli@current"] {
        assert!(is_standard_ref(d), "{d}");
    }
    for d in [
        "github::owner/repo@branch",
        "owner/repo/subdir@main",
        "pkg=owner/repo/subdir@main",
        "gitlab::group/project",
        "https://example.com/pkg.tar.gz",
        "\\work\\pkg",
        "cli@3",
    ] {
        assert!(!is_standard_ref(d), "{d}");
    }
}

fn marker(dependencies: &[&str], identity: &str, root: Option<&str>) -> Option<CachePaths> {
    paths(
        &strings(dependencies),
        &[],
        Some("2026-06-01"),
        no_quarto(),
        Some(identity),
        root,
        None,
        0,
    )
    .unwrap()
}

#[test]
fn runtime_selection_env_changes_resolution_marker() {
    let x64 = rscript_identity_text("/opt/R/bin/Rscript", 100, Some(5), Some("x64"), None);
    let i386 = rscript_identity_text("/opt/R/bin/Rscript", 100, Some(5), Some("i386"), None);
    let home = rscript_identity_text("/opt/R/bin/Rscript", 100, Some(5), Some("x64"), Some("/r"));
    let a = marker(&["cli"], &x64, None).unwrap().marker_name;
    let b = marker(&["cli"], &i386, None).unwrap().marker_name;
    let c = marker(&["cli"], &home, None).unwrap().marker_name;
    assert_ne!(a, b);
    assert_ne!(a, c);
}

#[test]
fn hex_keys_are_64_characters() {
    let k = resolution_cache_key(&strings(&["cli"]), Some("2024-01-01"), no_quarto(), "R", &[], None);
    assert_eq!(k.len(), 64);
    assert!(k.chars().all(|c| c.is_ascii_hexdigit() && !c.is_ascii_uppercase()));
    assert_eq!(cache_key(&strings(&["numpy"]), Some("3.12"), None, &[]).len(), 64);
    assert_eq!(sha256_fields(&strings(&["a\nb"])).len(), 64);
}

#[test]
fn library_root_changes_resolution_marker() {
    let cache = marker(&["cli"], "R", None).unwrap().marker_name;
    let store = marker(&["cli"], "R", Some("/tmp/tool-store")).unwrap().marker_name;
    assert_ne!(cache, store);
    let location = ir::resolve_cache::marker_location(&store);
    assert_eq!(location, vec!["resolutions".to_string(), store.clone()]);
}

#[test]
fn nonstandard_refs_skip_resolution_markers() {
    for dependency in [
        "github::owner/repo@branch",
        "owner/repo/subdir@main",
        "pkg=owner/repo/subdir@main",
        "gitlab::group/project",
        "https://example.com/pkg.tar.gz",
        "\\work\\pkg",
        "cli@3",
    ] {
        assert!(marker(&[dependency], "R", None).is_none(), "{dependency}");
    }
}

#[test]
fn standard_refs_use_resolution_markers() {
    for dependency in ["cli", "cli@3.6.6", "cli@>=3.6.6"] {
        assert!(marker(&[dependency], "R", None).is_some(), "{dependency}");
    }
}

#[test]
fn paths_need_an_rscript_identity() {
    let r = paths(&strings(&["cli"]), &[], None, no_quarto(), None, None, None, 10).unwrap();
    assert!(r.is_none());
}

#[test]
fn paths_record_source_and_primary_marker() {
    let p = paths(&strings(&["cli"]), &[], None, no_quarto(), Some("R"), None, Some("60"), 1234)
        .unwrap()
        .unwrap();
    assert_eq!(p.source, "latest: 1234");
    assert_eq!(p.latest_max_age_seconds, Some(60));
    assert_eq!(
        p.package_marker_name.unwrap(),
        format!(
            "{}-primary-99bb88401742848e032fd6f51709415fb6be169a72d2e5d7fc44289255160d3c",
            p.marker_name
        )
    );
    let dated = paths(&strings(&["cli"]), &[], Some("2026-06-01"), no_quarto(), Some("R"), None, Some("x"), 5)
        .unwrap()
        .unwrap();
    assert_eq!(dated.source, "exclude-newer: 2026-06-01");
    assert_eq!(dated.latest_max_age_seconds, None);
    let bad = paths(&strings(&["cli"]), &[], None, no_quarto(), Some("R"), None, Some("x"), 5);
    assert_eq!(
        bad.err().unwrap(),
        "IR_LATEST_RESOLUTION_MAX_AGE_SECONDS must be an integer: invalid digit found in string"
    );
}

#[test]
fn max_age_setting_parses_like_u64() {
    assert_eq!(latest_max_age_seconds(None), Ok(86400));
    assert_eq!(latest_max_age_seconds(Some("")), Ok(86400));
    assert_eq!(latest_max_age_seconds(Some("30")), Ok(30));
    assert_eq!(latest_max_age_seconds(Some("+30")), Ok(30));
    assert_eq!(
        latest_max_age_seconds(Some("99999999999999999999")),
        Err("IR_LATEST_RESOLUTION_MAX_AGE_SECONDS must be an integer: number too large to fit in target type"
            .to_string())
    );
    assert_eq!(
        latest_max_age_seconds(Some(" 30")),
        Err("IR_LATEST_RESOLUTION_MAX_AGE_SECONDS must be an integer: invalid digit found in string"
            .to_string())
    );
}

#[test]
fn sources_stay_current_for_their_age() {
    assert_eq!(resolution_cache_source(None, 42), "latest: 42");
    assert_eq!(resolution_cache_source(Some("2024-01-01"), 42), "exclude-newer: 2024-01-01");
    assert!(source_is_current("latest: 100", "", Some(50), 150));
    assert!(!source_is_current("latest: 100", "", Some(50), 151));
    assert!(!source_is_current("latest: 200", "", Some(50), 150));
    assert!(!source_is_current("latest: x", "", Some(50), 150));
    assert!(source_is_current("exclude-newer: 2024-01-01", "exclude-newer: 2024-01-01", None, 0));
    assert!(!source_is_current("exclude-newer: 2024-01-02", "exclude-newer: 2024-01-01", None, 0));
}

#[test]
fn markers_give_back_library_and_package() {
    let p = CachePaths {
        marker_name: "k".to_string(),
        package_marker_name: None,
        source: "exclude-newer: 2024-01-01".to_string(),
        latest_max_age_seconds: None,
    };
    assert_eq!(
        cached_library("exclude-newer: 2024-01-01\r\n /lib/x \n", &p, 0),
        Some("/lib/x".to_string())
    );
    assert_eq!(cached_library("exclude-newer: 2024-01-02\n/lib/x\n", &p, 0), None);
    assert_eq!(cached_library("exclude-newer: 2024-01-01\n   \n", &p, 0), None);
    assert_eq!(cached_library("exclude-newer: 2024-01-01", &p, 0), None);
    assert_eq!(cached_primary_package(" cli \nrest"), Some("cli".to_string()));
    assert_eq!(cached_primary_package(""), None);
}

#[test]
fn rscript_identity_and_names() {
    assert_eq!(
        rscript_identity_text("/usr/bin/Rscript", 12, Some(34), Some("x64"), Some("/usr/lib/R")),
        "/usr/bin/Rscript;len=12;mtime=34;R_ARCH=x64;R_HOME=/usr/lib/R"
    );
    assert_eq!(rscript_identity_text("R", 0, None, None, None), "R;len=0");
    assert!(is_rscript_name("Rscript"));
    assert!(is_rscript_name("RSCRIPT.EXE"));
    assert!(!is_rscript_name("R"));
    assert!(is_script_launcher(Some("BAT"), Some(b"MZ")));
    assert!(is_script_launcher(None, None));
    assert!(is_script_launcher(None, Some(b"#!")));
    assert!(!is_script_launcher(None, Some(b"\x7fE")));
    assert!(is_rscript_executable(Some("Rscript"), false));
    assert!(!is_rscript_executable(Some("Rscript"), true));
    assert!(!is_rscript_executable(None, false));
}

fn py(packages: &[&str], exclude_newer: Option<&str>) -> PythonSpec {
    PythonSpec {
        packages: strings(packages),
        python_version: None,
        exclude_newer: exclude_newer.map(str::to_string),
        exclude_newer_explicit: false,
    }
}

#[test]
fn python_names_and_cacheability() {
    assert_eq!(python_package_name(" numpy>=1.0 "), "numpy");
    assert_eq!(python_package_name("pandas[excel]"), "pandas");
    assert_eq!(python_package_name("requests ; python_version>'3'"), "requests");
    assert!(python_distribution_name("scikit-learn"));
    assert!(!python_distribution_name("-x"));
    assert!(!python_distribution_name("x-"));
    assert!(python_package_spec_cacheable("numpy==1.26"));
    for p in ["./local", "git+https://x/y", "-e .", "file:./x", "pkg @ https://x", "a/b", ""] {
        assert!(!python_package_spec_cacheable(p), "{p}");
    }
}

#[test]
fn python_packages_add_jupyter_for_renders() {
    assert_eq!(python_packages(&py(&["numpy"], None), true), strings(&["numpy", "jupyter"]));
    assert_eq!(python_packages(&py(&["jupyter>=1"], None), true), strings(&["jupyter>=1"]));
    assert_eq!(python_packages(&py(&["numpy"], None), false), strings(&["numpy"]));
}

#[test]
fn python_key_matches_the_encoding() {
    let k = cache_key(&strings(&["numpy", "jupyter"]), None, Some("2024-01-01"), &[]);
    assert_eq!(k, "b1448234743dca2c5431fba10a8f2f782f7a483f4643bc12f15e0bf64a4f039e");
    let k2 = cache_key(&strings(&["jupyter", "numpy"]), None, Some("2024-01-01"), &[]);
    assert_eq!(k, k2);
}

#[test]
fn python_resolver_environment() {
    assert!(python_resolver_env_var(Some("UV_INDEX_URL")));
    assert!(python_resolver_env_var(Some("RETICULATE_UV")));
    assert!(!python_resolver_env_var(Some("PATH")));
    assert!(!python_resolver_env_var(None));
    assert!(python_resolver_env_cacheable(&[(Some("UV_X".to_string()), true), (None, false)]));
    assert!(!python_resolver_env_cacheable(&[(Some("UV_X".to_string()), false)]));
}

#[test]
fn python_requests_and_markers() {
    assert!(request(None, false, None, 0, Some(NO_PARTS), true).unwrap().is_none());
    let spec = py(&["numpy"], None);
    let q = request(Some(&spec), true, Some(" 10 "), 77, Some(NO_PARTS), true).unwrap().unwrap();
    assert_eq!(q.packages, strings(&["numpy", "jupyter"]));
    assert_eq!(q.source, "latest: 77");
    assert_eq!(q.latest_max_age_seconds, Some(10));
    assert!(q.marker_name.is_some());
    let no_uv = request(Some(&spec), true, None, 77, None, true).unwrap().unwrap();
    assert!(no_uv.marker_name.is_none());
    assert_eq!(
        request(Some(&spec), false, Some("ten"), 0, Some(NO_PARTS), true).err().unwrap(),
        "IR_LATEST_RESOLUTION_MAX_AGE_SECONDS must be an integer"
    );
    let text = marker_contents(&q.source, "/env/bin/python");
    assert_eq!(text, "latest: 77\n/env/bin/python\n");
    assert_eq!(cached_python(&text, &q, 80), Some("/env/bin/python".to_string()));
    assert_eq!(cached_python(&text, &q, 100), None);
    assert_eq!(python_max_age(Some("  ")), Ok(86400));
    assert_eq!(cache_source(Some("2024-01-01"), 1), "exclude-newer: 2024-01-01");
}

#[test]
fn uv_config_fields_name_path_and_digest() {
    assert_eq!(
        uv_config_parts("user", "/home/u/.config/uv/uv.toml", b"[tool]\n"),
        strings(&[
            "uv-config-user-path: /home/u/.config/uv/uv.toml",
            "uv-config-user-sha256: c92dd17ad4ba1da0db465c76082757ea254329ebae00a82a87b332a35c728bed",
        ])
    );
}
