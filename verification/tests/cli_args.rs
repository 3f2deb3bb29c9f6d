use ir::cli::{
    infer_self_named_executable, is_package_executable_name, is_r_package_name, parse_render_args,
    parse_run_args, parse_tool_install_args, parse_tool_run_args, push_with_deps,
    render_source_check, tool_install_bin_dir, RunSource, ToolRunInvocation,
    ToolRunInvocation::{Rx, ToolRun},
};
use ir::paths::Platform;

fn strings(v: &[&str]) -> Vec<String> {
    v.iter().map(|s| s.to_string()).collect()
}

fn source_text(s: &RunSource) -> (u8, Vec<String>) {
    match s {
        RunSource::Script(p) => (0, vec![p.clone()]),
        RunSource::Expressions(e) => (1, e.clone()),
        RunSource::Stdin => (2, vec![]),
    }
}

#[test]
fn with_values_split_on_commas() {
    let mut deps = strings(&["x"]);
    push_with_deps(&mut deps, " cli , ,dplyr>=1.0,");
    assert_eq!(deps, strings(&["x", "cli", "dplyr>=1.0"]));
    push_with_deps(&mut deps, "");
    assert_eq!(deps.len(), 3);
}

#[test]
fn run_args_split_at_the_script() {
    let r = parse_run_args(strings(&[
        "--vanilla", "--with", "cli,dplyr", "--with=tidyr", "--r-version", "4.4", "--isolated",
        "script.R", "--vanilla", "x",
    ]))
    .unwrap();
    assert_eq!(r.rscript_args, strings(&["--vanilla"]));
    assert_eq!(r.with_deps, strings(&["cli", "dplyr", "tidyr"]));
    assert_eq!(r.r_requirement.as_deref(), Some("4.4"));
    assert!(r.isolated);
    assert_eq!(source_text(&r.source), (0, strings(&["script.R"])));
    assert_eq!(r.script_args, strings(&["--vanilla", "x"]));

    let r = parse_run_args(strings(&["-", "a"])).unwrap();
    assert_eq!(source_text(&r.source), (2, vec![]));
    assert_eq!(r.script_args, strings(&["a"]));
}

#[test]
fn run_args_with_expressions() {
    let r = parse_run_args(strings(&["-e", "1 + 1", "--expr=print(2)", "--expr", "3", "a", "-e", "b"])).unwrap();
    assert_eq!(source_text(&r.source), (1, strings(&["1 + 1", "print(2)", "3"])));
    assert_eq!(r.script_args, strings(&["a", "-e", "b"]));
    let r = parse_run_args(strings(&["-e", "x", "--with", "cli"])).unwrap();
    assert_eq!(r.script_args, strings(&["--with", "cli"]));
    assert!(r.with_deps.is_empty());
    let r = parse_run_args(strings(&["--r-version=4.3", "-e", "x"])).unwrap();
    assert_eq!(r.r_requirement.as_deref(), Some("4.3"));
    assert!(r.script_args.is_empty());
}

#[test]
fn run_arg_errors() {
    let e = |a: &[&str]| parse_run_args(strings(a)).err().unwrap();
    assert_eq!(e(&["-e"]), "`-e` requires an expression (try `ir run -e '1 + 1'`)");
    assert_eq!(e(&["--from", "cli"]), "`--from` is only supported by `ir tool run`");
    assert_eq!(e(&["--from=cli"]), "`--from` is only supported by `ir tool run`");
    assert_eq!(e(&["--with"]), "`--with` requires a package (try `ir run --with dplyr script.R`)");
    assert_eq!(
        e(&["--r-version"]),
        "`--r-version` requires a version spec (try `ir run --r-version 4.5 script.R`)"
    );
    assert_eq!(e(&[]), "`ir run` requires a script path or -e expression (try `ir run script.R`)");
    assert_eq!(e(&["--vanilla"]), "`ir run` requires a script path or -e expression (try `ir run script.R`)");
}

#[test]
fn script_sources_are_checked() {
    assert_eq!(source_text(&RunSource::from_script_arg("-".to_string(), Some("x".to_string()), Platform::Linux).unwrap()), (2, vec![]));
    assert_eq!(
        RunSource::from_script_arg("a.R".to_string(), Some("No such file".to_string()), Platform::Linux).err(),
        Some("cannot read script `a.R`: No such file".to_string())
    );
    assert_eq!(
        RunSource::from_script_arg("doc.QMD".to_string(), None, Platform::Linux).err(),
        Some("`ir run` does not render Quarto sources; use `ir render <source>`".to_string())
    );
    assert_eq!(
        RunSource::from_script_arg("doc.Rmd".to_string(), None, Platform::Linux).err(),
        Some("`ir run` does not render Quarto sources; use `ir render <source>`".to_string())
    );
    let s = RunSource::from_script_arg("dir/a.R".to_string(), None, Platform::Linux).unwrap();
    assert_eq!(source_text(&s), (0, strings(&["dir/a.R"])));
    assert_eq!(render_source_check("r.qmd", None), Ok(()));
    assert_eq!(
        render_source_check("r.qmd", Some("gone".to_string())),
        Err("cannot read source `r.qmd`: gone".to_string())
    );
}

#[test]
fn render_args() {
    let r = parse_render_args(strings(&["--with", "cli", "--isolated", "--vanilla", "report.qmd", "--to", "html"])).unwrap();
    assert_eq!(r.with_deps, strings(&["cli"]));
    assert!(r.isolated && r.vanilla);
    assert_eq!(r.source, "report.qmd");
    assert_eq!(r.render_args, strings(&["--to", "html"]));
    assert!(r.r_requirement.is_none());
    let e = |a: &[&str]| parse_render_args(strings(a)).err().unwrap();
    assert_eq!(e(&["-e", "x"]), "`-e` is only supported by `ir run`");
    assert_eq!(e(&["--expr=x"]), "`-e` is only supported by `ir run`");
    assert_eq!(e(&["--from", "x"]), "`--from` is only supported by `ir tool run`");
    assert_eq!(e(&["-"]), "`ir render` requires a source path, not stdin");
    assert_eq!(e(&["--quiet", "r.qmd"]), "unexpected option `--quiet` before render source");
    assert_eq!(e(&[]), "`ir render` requires a source path (try `ir render report.qmd`)");
    assert_eq!(e(&["--with"]), "`--with` requires a package (try `ir render --with dplyr report.qmd`)");
    assert_eq!(
        e(&["--r-version"]),
        "`--r-version` requires a version spec (try `ir render --r-version 4.5 report.qmd`)"
    );
}

#[test]
fn package_and_executable_names() {
    assert!(is_r_package_name("data.table") && is_r_package_name("cli") && is_r_package_name("R6"));
    assert!(!is_r_package_name("") && !is_r_package_name("1x") && !is_r_package_name("x.") && !is_r_package_name("a_b"));
    assert!(is_package_executable_name("my-tool.R"));
    assert!(!is_package_executable_name("") && !is_package_executable_name("a/b"));
    assert!(!is_package_executable_name("a\\b") && !is_package_executable_name("c:x") && !is_package_executable_name("a b"));
    assert_eq!(infer_self_named_executable("cli@3.6.0"), Some("cli".to_string()));
    assert_eq!(infer_self_named_executable("btw>=1.0"), Some("btw".to_string()));
    assert_eq!(infer_self_named_executable("gert"), Some("gert".to_string()));
    assert_eq!(infer_self_named_executable("r-lib/cli"), None);
    assert_eq!(infer_self_named_executable("@x"), None);
}

#[test]
fn tool_run_args() {
    let r = parse_tool_run_args(
        strings(&["--vanilla", "-w", "cli", "--with=x,y", "--r-version=4.4", "--isolated", "btw@1.0", "--help"]),
        ToolRunInvocation::ToolRun,
    )
    .unwrap();
    assert_eq!(r.rscript_args, strings(&["--vanilla"]));
    assert_eq!(r.with_deps, strings(&["cli", "x", "y"]));
    assert_eq!(r.r_requirement.as_deref(), Some("4.4"));
    assert_eq!(r.target.package_ref, "btw@1.0");
    assert_eq!(r.target.package_name.as_deref(), Some("btw"));
    assert_eq!(r.target.executable, "btw");
    assert_eq!(r.tool_args, strings(&["--help"]));

    let r = parse_tool_run_args(strings(&["--from", "r-lib/cli", "cli-tool", "a"]), ToolRunInvocation::Rx).unwrap();
    assert_eq!(r.target.package_ref, "r-lib/cli");
    assert_eq!(r.target.package_name, None);
    assert_eq!(r.target.executable, "cli-tool");
    assert_eq!(r.tool_args, strings(&["a"]));
    let r = parse_tool_run_args(strings(&["--from=gert", "gert"]), ToolRunInvocation::Rx).unwrap();
    assert_eq!(r.target.package_name.as_deref(), Some("gert"));
}

#[test]
fn tool_run_arg_errors() {
    let e = |a: &[&str], i| parse_tool_run_args(strings(a), i).err().unwrap();
    assert_eq!(ToolRun.command(), "ir tool run");
    assert_eq!(Rx.command(), "rx");
    assert_eq!(e(&["--from"], Rx), "`--from` requires a package ref (try `rx --from cli cli`)");
    assert_eq!(e(&["--from="], Rx), "`--from` requires a package ref");
    assert_eq!(e(&["-w"], ToolRun), "`-w` requires a package (try `ir tool run -w dplyr btw`)");
    assert_eq!(e(&["--with"], Rx), "`--with` requires a package (try `rx --with dplyr btw`)");
    assert_eq!(e(&["--r-version"], Rx), "`--r-version` requires a version spec (try `rx --r-version 4.5 btw`)");
    assert_eq!(e(&["-e", "x"], ToolRun), "`-e` is not supported by `ir tool run`");
    assert_eq!(e(&["--from", "cli"], ToolRun), "`--from` requires a command to run");
    assert_eq!(e(&["--from", "cli", "bin/cli"], ToolRun), "`--from` requires a command name, not a path");
    assert_eq!(e(&[], Rx), "`rx` requires a package ref or `--from <pkg-ref> <command>`");
    assert_eq!(
        e(&["r-lib/cli"], ToolRun),
        "self-named package tools require an inferable package name; use `--from <pkg-ref> <command>`"
    );
}

#[test]
fn tool_install_args() {
    let r = parse_tool_install_args(
        strings(&["--with", "cli", "--r-version", "4.3", "--bin-dir=/b", "--force", "btw"]),
        Ok("/d".to_string()),
    )
    .unwrap();
    assert_eq!(r.package_ref, "btw");
    assert_eq!(r.with_deps, strings(&["cli"]));
    assert_eq!(r.r_requirement.as_deref(), Some("4.3"));
    assert_eq!(r.bin_dir, "/b");
    assert!(r.force);
    let r = parse_tool_install_args(strings(&["btw"]), Ok("/home/u/.local/bin".to_string())).unwrap();
    assert_eq!(r.bin_dir, "/home/u/.local/bin");
    assert!(!r.force);
    let e = |a: &[&str]| parse_tool_install_args(strings(a), Ok("/d".to_string())).err().unwrap();
    assert_eq!(e(&["--with"]), "`--with` requires a package (try `ir tool install --with cli btw`)");
    assert_eq!(e(&["--r-version"]), "`--r-version` requires a version spec (try `ir tool install --r-version 4.5 btw`)");
    assert_eq!(e(&["--bin-dir"]), "`--bin-dir` requires a directory (try `ir tool install --bin-dir ~/.local/bin btw`)");
    assert_eq!(e(&["--bin-dir="]), "`--bin-dir` requires a directory");
    assert_eq!(e(&["-e"]), "`-e` is not supported by `ir tool install`");
    assert_eq!(e(&["--quiet", "btw"]), "unexpected option `--quiet` for `ir tool install`");
    assert_eq!(e(&[]), "`ir tool install` requires a package ref (try `ir tool install btw`)");
    assert_eq!(e(&["btw", "extra"]), "unexpected argument `extra` after package ref `btw`");
    assert_eq!(
        parse_tool_install_args(strings(&["btw"]), Err("no home".to_string())).err(),
        Some("no home".to_string())
    );
    let r = parse_tool_install_args(strings(&["--bin-dir", "/opt/bin", "btw"]), Err("no home".to_string())).unwrap();
    assert_eq!(r.bin_dir, "/opt/bin");
    assert_eq!(r.package_ref, "btw");
    assert!(r.with_deps.is_empty() && r.r_requirement.is_none() && !r.force);
    let r = parse_tool_install_args(strings(&["--bin-dir=/opt/bin", "btw"]), Err("no home".to_string())).unwrap();
    assert_eq!(r.bin_dir, "/opt/bin");
}

#[test]
fn launcher_dir_starts() {
    let plan = |a: [Option<&str>; 7]| tool_install_bin_dir(Platform::Linux, a[0], a[1], a[2], a[3], a[4], a[5], a[6]).unwrap();
    let from_data_home = plan([None, None, None, Some("/h/.local/share"), None, None, None]);
    assert_eq!(ir::cli::launcher_dir_start(&from_data_home), Ok("/h/.local".to_string()));
    assert_eq!(
        ir::cli::launcher_dir_start_from(&from_data_home, None),
        Err("XDG_DATA_HOME must have a parent directory".to_string())
    );
    let parentless = plan([None, None, None, Some("/"), None, None, None]);
    assert_eq!(
        ir::cli::launcher_dir_start(&parentless),
        Err("XDG_DATA_HOME must have a parent directory".to_string())
    );
    let from_home = plan([None, None, None, None, Some("/h"), None, None]);
    assert_eq!(ir::cli::launcher_dir_start(&from_home), Ok("/h".to_string()));
}

#[test]
fn default_bin_dirs() {
    let plan = |p, a: [Option<&str>; 7]| tool_install_bin_dir(p, a[0], a[1], a[2], a[3], a[4], a[5], a[6]);
    let p = plan(Platform::Linux, [Some("/t"), Some("/r"), None, None, Some("/h"), None, None]).unwrap();
    assert_eq!((p.base.as_str(), p.parent, p.parts.len()), ("/t", false, 0));
    let p = plan(Platform::Linux, [None, Some("/r"), Some("/x"), None, None, None, None]).unwrap();
    assert_eq!(p.base, "/r");
    let p = plan(Platform::Linux, [None, None, Some("/x"), None, None, None, None]).unwrap();
    assert_eq!(p.base, "/x");
    let p = plan(Platform::Linux, [None, None, None, Some("/h/.local/share"), Some("/h"), None, None]).unwrap();
    assert_eq!((p.base.as_str(), p.parent, p.parts.clone()), ("/h/.local/share", true, strings(&["bin"])));
    let p = plan(Platform::MacOs, [None, None, None, None, Some("/h"), Some("C:\\L"), None]).unwrap();
    assert_eq!((p.base.as_str(), p.parts.clone()), ("/h", strings(&[".local", "bin"])));
    assert_eq!(
        plan(Platform::Linux, [None, None, None, None, None, Some("C:\\L"), None]).err(),
        Some("cannot determine launcher directory; set --bin-dir or IR_TOOL_BIN_DIR".to_string())
    );
    let p = plan(Platform::Windows, [None, None, None, None, Some("/h"), Some("C:\\L"), Some("C:\\U")]).unwrap();
    assert_eq!((p.base.as_str(), p.parts.clone()), ("C:\\L", strings(&["Programs", "R", "ir", "bin"])));
    let p = plan(Platform::Windows, [None, None, None, None, None, None, Some("C:\\U")]).unwrap();
    assert_eq!(p.parts, strings(&["AppData", "Local", "Programs", "R", "ir", "bin"]));
    assert!(plan(Platform::Windows, [None, None, None, None, Some("/h"), None, None]).is_err());
}

#[test]
fn options_before_a_script_are_forwarded_and_the_rest_passes_through() {
    let r = parse_run_args(strings(&["--vanilla", "--no-echo", "s.R", "--with", "x", "-e", "--isolated"])).unwrap();
    assert_eq!(r.rscript_args, strings(&["--vanilla", "--no-echo"]));
    assert_eq!(source_text(&r.source), (0, strings(&["s.R"])));
    assert_eq!(r.script_args, strings(&["--with", "x", "-e", "--isolated"]));
    assert!(r.with_deps.is_empty() && r.r_requirement.is_none() && !r.isolated);
}
