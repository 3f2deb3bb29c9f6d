use std::cmp::Ordering;

use ir::rig::catalog::{
    checked_recently, for_exclude_newer, read_cached_rig_available, AvailableRCache, ReleaseCatalog,
};
use ir::rig::command::{clean_rig_json_output, nonempty_available_json, rig_failed_error, rig_launch_error};
use ir::rig::model::{
    compare_version_parts, compare_versions, concrete_rig_name, is_iso_date, iso_date_prefix,
    latest_available_release_date, matches_available_candidate, normalize_available_release_dates,
    parse_iso_date_field, parse_version, parse_version_requirement, released_before_or_on,
    stable_installed_release_candidate, stable_release_candidate, AvailableCandidate, AvailableR,
    InstalledR, InstalledRRecord, VersionOp, VersionRequirement, missing_rscript_error,
};
use ir::rig::r_selection::{rig_install_hint, select_available_candidate, select_installed_r};
use ir::rig::release_metadata::{release_metadata_from_records, release_version, RVersionRelease};
use ir::rig::selection::{
    has_stable_installed_outside_catalog, installed_released_before_or_on, required_available_version,
    required_available_version_for_date, required_available_version_from_candidates,
    select_installed_for_date, select_installed_for_requirement,
};
use ir::rig::{latest_minor_version_on, resolve_rscript, resolve_rscript_for_exclude_newer};

fn strings(v: &[&str]) -> Vec<String> {
    v.iter().map(|s| s.to_string()).collect()
}

fn installed(name: &str, version: &str, aliases: &[&str]) -> InstalledR {
    InstalledR {
        name: name.to_string(),
        version: version.to_string(),
        aliases: strings(aliases),
        default: false,
        binary: format!("/opt/R/{name}/bin/R"),
    }
}

fn available(name: &str, version: &str, date: Option<&str>) -> AvailableR {
    AvailableR { name: name.to_string(), version: version.to_string(), date: date.map(str::to_string) }
}

fn candidate(name: &str, version: &str, date: Option<&str>) -> AvailableCandidate {
    AvailableCandidate { name: name.to_string(), version: version.to_string(), date: date.map(str::to_string) }
}

fn req(s: &str) -> VersionRequirement {
    parse_version_requirement(s).unwrap()
}

fn machine() -> Vec<InstalledR> {
    vec![
        installed("4.2.3", "4.2.3", &[]),
        installed("4.3.3", "4.3.3", &["release"]),
        installed("4.3.1", "4.3.1", &[]),
        installed("4.4.0", "4.4.0", &[]),
        installed("devel", "4.6.0", &["next"]),
    ]
}

#[test]
fn versions_parse_and_compare() {
    assert_eq!(parse_version("4.3.10"), Some(vec![4, 3, 10]));
    assert_eq!(parse_version("4"), Some(vec![4]));
    assert_eq!(parse_version("4..1"), None);
    assert_eq!(parse_version(""), None);
    assert_eq!(parse_version("4.a"), None);
    assert_eq!(parse_version("+4.1"), None);
    assert_eq!(parse_version("18446744073709551616.1"), None);
    assert_eq!(compare_versions("4.10.0", "4.9.1"), Ordering::Greater);
    assert_eq!(compare_versions("4.3", "4.3.0"), Ordering::Equal);
    assert_eq!(compare_versions("devel", "4.3"), Ordering::Greater);
    assert_eq!(compare_versions("4.3", "release"), Ordering::Less);
    assert_eq!(compare_version_parts(&[4, 3], &[4, 3, 1]), Ordering::Less);
    assert_eq!(compare_version_parts(&[], &[0, 0]), Ordering::Equal);
}

#[test]
fn dates() {
    assert!(is_iso_date("2024-01-01"));
    assert!(!is_iso_date("2024-1-01") && !is_iso_date("2024/01/01") && !is_iso_date("2024-01-011"));
    assert_eq!(iso_date_prefix("2024-01-01T10:00:00Z"), Some("2024-01-01".to_string()));
    assert_eq!(iso_date_prefix("2024-01"), None);
    assert_eq!(iso_date_prefix("junk-date-here"), None);
    assert_eq!(parse_iso_date_field("exclude-newer", " 2024-01-02 "), Ok("2024-01-02".to_string()));
    assert_eq!(
        parse_iso_date_field("exclude-newer", "yesterday"),
        Err("`exclude-newer` must be a date string in YYYY-MM-DD format".to_string())
    );
    assert!(concrete_rig_name("4.3") && !concrete_rig_name("release") && !concrete_rig_name(""));
}

#[test]
fn requirements_parse() {
    match req(" >= 4.3 ") {
        VersionRequirement::Comparison { op, version, raw } => {
            assert!(op == VersionOp::Gte);
            assert_eq!((version, raw.as_str()), (vec![4, 3], "4.3"));
        }
        _ => panic!(">="),
    }
    match req("<4") {
        VersionRequirement::Comparison { op, .. } => assert!(op == VersionOp::Lt),
        _ => panic!("<"),
    }
    match req("release") {
        VersionRequirement::Bare(s) => assert_eq!(s, "release"),
        _ => panic!("bare"),
    }
    assert_eq!(
        parse_version_requirement(">4.x").err(),
        Some("`r-version` has an unsupported version spec `>4.x`".to_string())
    );
    assert_eq!(parse_version_requirement("  ").err(), Some("`r-version` must not be empty".to_string()));
    assert_eq!(rig_install_hint(&req("4.3")), Some("4.3"));
    assert_eq!(rig_install_hint(&req("== 4.3.1")), Some("4.3.1"));
    assert_eq!(rig_install_hint(&req(">=4")), None);
}

#[test]
fn requirements_match_candidates() {
    let none: Vec<String> = vec![];
    assert!(req("4.3").matches_candidate("4.3.2", "4.3.2", &none));
    assert!(!req("4.3").matches_candidate("4.30.1", "4.30.1", &none));
    assert!(req("release").matches_candidate("4.5.1", "4.5.1", &strings(&["release"])));
    assert!(!req(">=4.3").matches_candidate("4.2.3", "4.2.3", &none));
    assert!(req(">=4.3").matches_candidate("x", "4.3.0", &none));
    assert!(req("<4").matches_candidate("3.6.3", "3.6.3", &none));
    assert!(!req("<4").matches_candidate("devel", "devel", &none));
    assert!(req("==4.3").matches_candidate("4.3.0", "4.3.0", &none));
    assert!(!req("==4.3").matches_candidate("4.3.2", "4.3.2", &none));
    assert!(req("==4.3.2").matches_installed(&installed("x", "4.3.2", &[])));
    assert!(req("devel").matches_requested_installed_candidate(&installed("devel", "4.6.0", &[])));
    assert!(req("next").matches_requested_installed_candidate(&installed("devel", "4.6.0", &["next"])));
    assert!(!req(">=4").matches_requested_installed_candidate(&installed("devel", "4.6.0", &[])));
    assert!(req("release").matches_requested_symbolic_candidate(&candidate("release", "4.5.1", None)));
    assert!(!req("4.5.1").matches_requested_symbolic_candidate(&candidate("4.5.1", "4.5.1", None)));
}

#[test]
fn installed_selection_takes_the_newest_match() {
    let m = machine();
    assert_eq!(select_installed_r(&req("4.3"), &m).unwrap().version, "4.3.3");
    assert_eq!(select_installed_r(&req("==4.3"), &m).unwrap().version, "4.3.3");
    assert_eq!(select_installed_r(&req(">=4.2"), &m).unwrap().name, "devel");
    assert_eq!(select_installed_r(&req("release"), &m).unwrap().name, "4.3.3");
    assert!(select_installed_r(&req("3.6"), &m).is_none());
    let twins = vec![installed("a", "4.3.3", &[]), installed("b", "4.3.3", &[])];
    assert_eq!(select_installed_r(&req("4.3"), &twins).unwrap().name, "b");
}

#[test]
fn resolve_rscript_reports_what_to_install() {
    let m = machine();
    assert_eq!(resolve_rscript("4.3", None, &m).unwrap().version, "4.3.3");
    assert_eq!(resolve_rscript("4.2", Some("2024-01-01"), &m).unwrap().version, "4.2.3");
    assert_eq!(
        resolve_rscript("4.9", None, &m).err(),
        Some("R 4.9 is required but is not installed. Run `rig install 4.9`.".to_string())
    );
    assert_eq!(
        resolve_rscript(">=5", None, &m).err(),
        Some("R >=5 is required but no matching R is installed. Install a matching R with `rig install`, or specify a different `r-version` or `--r-version`.".to_string())
    );
    assert_eq!(
        resolve_rscript("4.3", Some("soon"), &m).err(),
        Some("`exclude-newer` must be a date string in YYYY-MM-DD format".to_string())
    );
    assert_eq!(resolve_rscript("", None, &m).err(), Some("`r-version` must not be empty".to_string()));
}

#[test]
fn exclude_newer_implies_a_minor_series() {
    let catalog = ReleaseCatalog::embedded();
    assert_eq!(catalog.versions.len(), 31);
    assert_eq!(latest_minor_version_on(&catalog, "2024-03-01"), Ok("4.3".to_string()));
    assert_eq!(latest_minor_version_on(&catalog, "2026-06-01"), Ok("4.6".to_string()));
    assert_eq!(
        latest_minor_version_on(&catalog, "2019-01-01"),
        Err("could not resolve an R version available before or on 2019-01-01".to_string())
    );
    let m = machine();
    assert_eq!(resolve_rscript_for_exclude_newer(" 2024-03-01 ", &catalog, &m).unwrap().version, "4.3.3");
    assert_eq!(
        resolve_rscript_for_exclude_newer("2025-05-01", &catalog, &m).err(),
        Some("`exclude-newer` 2025-05-01 implies `r-version: 4.5` because R 4.5 was the latest R minor version available on that date, but no matching R is installed. Run `rig install 4.5`, set `IR_RSCRIPT`, pass `--rscript`, or specify `r-version` or `--r-version`.".to_string())
    );
    assert_eq!(
        resolve_rscript_for_exclude_newer("2025", &catalog, &m).err(),
        Some("`exclude-newer` must be a date string in YYYY-MM-DD format".to_string())
    );
}

#[test]
fn available_candidates() {
    let c = vec![
        candidate("4.3.0", "4.3.0", Some("2023-04-21")),
        candidate("4.3.1", "4.3.1", Some("2023-06-16T00:00:00Z")),
        candidate("4.3.2", "4.3.2", Some("2023-10-31")),
        candidate("4.3.9", "4.3.9", None),
    ];
    let picked = select_available_candidate("4.3", &req("4.3"), Some("2023-07-01"), &c).unwrap();
    assert_eq!(picked.version, "4.3.1");
    assert_eq!(select_available_candidate("4.3", &req("4.3"), None, &c).unwrap().version, "4.3.9");
    assert_eq!(
        select_available_candidate("4.3", &req("4.3"), Some("2020-01-01"), &c).err(),
        Some("could not resolve R version `4.3` with available R versions before or on 2020-01-01".to_string())
    );
    assert_eq!(
        select_available_candidate("9", &req("9"), None, &c).err(),
        Some("could not resolve R version `9` with available R versions".to_string())
    );
    let r = required_available_version_from_candidates("4.3", &req("==4.3"), Some("2023-12-31"), &c).unwrap();
    assert_eq!((r.name.as_str(), r.date.as_deref()), ("4.3.2", Some("2023-10-31")));
    assert!(released_before_or_on(&c[1], Some("2023-06-16")));
    assert!(!released_before_or_on(&c[3], Some("2030-01-01")));
    assert!(released_before_or_on(&c[3], None));
}

#[test]
fn stable_candidates() {
    assert!(stable_release_candidate(&candidate("4.3.1", "4.3.1", None)));
    assert!(!stable_release_candidate(&candidate("release", "4.3.1", None)));
    assert!(!stable_release_candidate(&candidate("4.3.1", "4.3.1-rc", None)));
    assert!(stable_installed_release_candidate(&installed("4.3.1", "4.3.1", &["release"])));
    assert!(!stable_installed_release_candidate(&installed("4.6.0", "4.6.0", &["devel"])));
    assert!(!stable_installed_release_candidate(&installed("devel", "4.6.0", &[])));
    let i = installed("4.3-arm64", "4.3.1", &["release"]);
    assert!(matches_available_candidate(&i, &candidate("release", "9", None)));
    assert!(matches_available_candidate(&i, &candidate("x", "4.3.1", None)));
    assert!(!matches_available_candidate(&i, &candidate("4.3.1", "4.3.2", None)));
}

#[test]
fn catalog_selection() {
    let catalog = ReleaseCatalog::embedded();
    let m = machine();
    assert_eq!(select_installed_for_requirement(&m, &req("devel")).unwrap().name, "devel");
    assert_eq!(select_installed_for_requirement(&m, &req(">=4")).unwrap().name, "4.4.0");
    assert_eq!(select_installed_for_date(&m, &catalog, "2024-03-01").unwrap().name, "4.3.3");
    assert!(select_installed_for_date(&m, &catalog, "2019-01-01").is_none());
    assert!(installed_released_before_or_on(&m[3], &catalog, "2024-04-24"));
    assert!(!installed_released_before_or_on(&m[3], &catalog, "2024-04-23"));
    assert!(!has_stable_installed_outside_catalog(&m, &catalog));
    assert!(has_stable_installed_outside_catalog(&[installed("4.9.9", "4.9.9", &[])], &catalog));
    let r = required_available_version_for_date(&catalog, "2020-05-01").unwrap();
    assert_eq!((r.version.as_str(), r.date.as_deref()), ("4.0.0", Some("2020-04-24")));
    let symbolic = ReleaseCatalog::from_versions(vec![
        available("4.5.1", "4.5.1", Some("2025-06-13")),
        available("release", "4.5.1", Some("2025-06-13")),
        available("devel", "4.6.0", None),
    ]);
    let r = required_available_version("release", &req("release"), &symbolic, None).unwrap();
    assert_eq!((r.name.as_str(), r.version.as_str()), ("release", "4.5.1"));
    let r = required_available_version("4.5", &req("4.5"), &catalog, Some("2025-07-01")).unwrap();
    assert_eq!(r.version, "4.5.1");
    assert_eq!(
        required_available_version("devel", &req("devel"), &symbolic, Some("2026-01-01")).err(),
        Some("could not resolve R version `devel` with available R versions before or on 2026-01-01".to_string())
    );
    let cands = catalog.candidates();
    assert_eq!(cands.len(), 31);
    assert_eq!((cands[0].name.as_str(), cands[0].date.as_deref()), ("3.6.0", Some("2019-04-26")));
}

#[test]
fn release_catalog_cache() {
    assert!(for_exclude_newer("2026-06-03").is_some());
    assert!(for_exclude_newer("2026-06-04").is_none());
    assert!(checked_recently(100, 100 + 86400));
    assert!(!checked_recently(100, 100 + 86401));
    assert!(!checked_recently(200, 100));
    let cache = AvailableRCache::new(vec![available("4.4.2", "4.4.2", Some("2024-10-31")), available("devel", "4.6.0", Some("2030-01-01"))], 7);
    assert_eq!((cache.known_through.as_str(), cache.checked_at), ("2024-10-31", 7));
    let empty = AvailableRCache::new(vec![], 0);
    assert_eq!(empty.known_through, "2026-06-03");

    let cache = |known: &str, checked: u64, date: &str| AvailableRCache {
        known_through: known.to_string(),
        checked_at: checked,
        versions: vec![available("4.4.2", "4.4.2", Some(date))],
    };
    assert!(read_cached_rig_available(cache("2025-01-01", 0, "2024-10-31T00:00:00Z"), "2024-12-01", 100_000).unwrap().is_none());
    let c = read_cached_rig_available(cache("2025-01-01", 50, "2024-10-31T00:00:00Z"), "2024-12-01", 100).unwrap().unwrap();
    assert_eq!(c.versions[0].date.as_deref(), Some("2024-10-31"));
    assert!(read_cached_rig_available(cache("2025-01-01", 0, "2024-10-31"), "2024-10-31", 100_000).unwrap().is_some());
    assert_eq!(
        read_cached_rig_available(cache("2025-01-01", 0, "junk"), "2024-01-01", 0).err(),
        Some("rig available returned invalid release date `junk` for R 4.4.2".to_string())
    );
    assert_eq!(
        read_cached_rig_available(cache("bad", 0, "2024-10-31"), "2024-01-01", 0).err(),
        Some("`rig available cache known_through` must be a date string in YYYY-MM-DD format".to_string())
    );
}

#[test]
fn release_dates_normalize() {
    let mut v = vec![available("4.3.1", "4.3.1", Some("2023-06-16T12:00:00Z")), available("x", "4.0", None)];
    assert_eq!(normalize_available_release_dates(&mut v), Ok(()));
    assert_eq!(v[0].date.as_deref(), Some("2023-06-16"));
    assert_eq!(v[1].date, None);
    let mut bad = vec![available("4.3.1", "4.3.1", Some("2023"))];
    assert_eq!(
        normalize_available_release_dates(&mut bad),
        Err("rig available returned invalid release date `2023` for R 4.3.1".to_string())
    );
    let v = vec![
        available("4.3.1", "4.3.1", Some("2023-06-16")),
        available("release", "4.5.0", Some("2025-04-11")),
        available("4.2.3", "4.2.3", Some("2023-03-15")),
    ];
    assert_eq!(latest_available_release_date(&v), Some("2023-06-16".to_string()));
    assert_eq!(latest_available_release_date(&v[1..2]), None);
}

#[test]
fn installed_records() {
    let record = InstalledRRecord {
        name: Some("4.3.1".to_string()),
        version: Some("4.3.1".to_string()),
        aliases: None,
        default: true,
        binary: Some("/opt/R/4.3.1/bin/R".to_string()),
    };
    let i = InstalledR::from_record(record).unwrap();
    assert!(i.aliases.is_empty() && i.default);
    let missing = InstalledRRecord { name: None, version: Some("4".to_string()), aliases: None, default: false, binary: Some("b".to_string()) };
    assert!(InstalledR::from_record(missing).is_none());
    let a = AvailableR::from_candidate(&candidate("4.3.1", "4.3.1", Some("d")));
    assert_eq!((a.name.as_str(), a.date.as_deref()), ("4.3.1", Some("d")));
    let c = AvailableCandidate::from(&available("x", "y", None));
    assert_eq!((c.name.as_str(), c.version.as_str(), c.date), ("x", "y", None));
}

#[test]
fn release_metadata_records() {
    assert_eq!(release_version("4.3.1"), Some("4.3.1".to_string()));
    assert_eq!(release_version("4.3"), None);
    assert_eq!(release_version("4.3.1.1"), None);
    assert_eq!(release_version("4.3.a"), None);
    assert_eq!(release_version("4..1"), None);
    let rec = |name: Option<&str>, version: &str, semver: Option<&str>, date: Option<&str>| RVersionRelease {
        name: name.map(str::to_string),
        version: version.to_string(),
        semver: semver.map(str::to_string),
        date: date.map(str::to_string),
    };
    let records = vec![
        rec(None, "4.3.1", None, Some("2023-06-16T00:00:00Z")),
        rec(Some("devel"), "4.6.0", None, Some("2026-01-01")),
        rec(None, "4.4", Some("4.4.0"), Some("2024-04-24")),
        rec(None, "4.5.0", None, None),
        rec(None, "x", None, Some("2020-01-01")),
    ];
    let out = release_metadata_from_records(&records, "src").unwrap();
    let got: Vec<(String, String, String)> = out.into_iter().map(|m| (m.name, m.version, m.date)).collect();
    assert_eq!(
        got,
        vec![
            ("4.3.1".to_string(), "4.3.1".to_string(), "2023-06-16".to_string()),
            ("4.4".to_string(), "4.4.0".to_string(), "2024-04-24".to_string())
        ]
    );
    assert_eq!(
        release_metadata_from_records(&[rec(None, "4.3.1", None, Some("bad"))], "src").err(),
        Some("R version availability metadata returned invalid release date `bad` for R 4.3.1".to_string())
    );
    assert_eq!(
        release_metadata_from_records(&records[1..2], "the cache").err(),
        Some("R version availability metadata in the cache did not contain any R releases".to_string())
    );
}

#[test]
fn rig_command_output() {
    assert_eq!(clean_rig_json_output("[INFO] x\n[1]\n[INFO] y\n"), "[1]");
    assert_eq!(clean_rig_json_output("a\r\nb\n"), "a\nb");
    assert_eq!(clean_rig_json_output(""), "");
    assert_eq!(
        rig_launch_error(true, true, "e"),
        "could not find `rig` on PATH. Install rig to use `r-version` or `exclude-newer`."
    );
    assert_eq!(rig_launch_error(true, false, "e"), "could not find `rig` on PATH. Install rig to use `r-version`.");
    assert_eq!(rig_launch_error(false, true, "boom"), "failed to launch `rig`: boom");
    assert_eq!(rig_failed_error(&strings(&["list", "--json"]), "oops\n"), "`rig list --json` failed: oops\n");
    assert_eq!(
        nonempty_available_json(" \n".to_string()),
        Err("`rig available --json --all` returned empty output".to_string())
    );
    assert_eq!(nonempty_available_json("[]".to_string()), Ok("[]".to_string()));
}

#[test]
fn missing_rscript_message() {
    assert_eq!(
        missing_rscript_error("4.3.1", "/opt/R/4.3.1/bin/R", "/opt/R/4.3.1/bin/Rscript"),
        "rig reported R 4.3.1 at `/opt/R/4.3.1/bin/R`, but `/opt/R/4.3.1/bin/Rscript` does not exist"
    );
}

#[test]
fn rscript_next_to_r_binary() {
    assert_eq!(ir::rig::model::rscript_file_name(ir::paths::Platform::Windows), "Rscript.exe");
    assert_eq!(ir::rig::model::rscript_file_name(ir::paths::Platform::Linux), "Rscript");
    assert_eq!(ir::rig::model::rscript_file_name(ir::paths::Platform::MacOs), "Rscript");
}
