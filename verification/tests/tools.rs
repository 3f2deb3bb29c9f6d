use ir::cli::ToolInstallArgs;
use ir::paths::Platform;
use ir::runtime::EnvChange;
use ir::tool::{
    arch_dir_matches, cmd_path_prefix_assignment, cmd_quote_str, discover_package_executables,
    find_package_executable, installed_executable_target_path, installed_launcher_contents,
    installed_launcher_contents_cmd, is_package_executable_launcher_suffix,
    is_rapp_frontend_alias, is_rscript_arch_arg, join_texts, launcher_target_path,
    macos_path_lines, non_verbatim_windows_path, package_executable_command,
    package_executable_from_discovered_path, package_executable_launcher_kind,
    package_executable_launcher_name, package_executable_not_found_error,
    package_launcher_metadata, profile_has_lines, r_query_error, rapp_frontend_executable,
    rapp_hashpipe_content, recovery_command_word, reject_colliding_installed_target_paths,
    reject_duplicate_launcher_names, reject_existing_installed_target_paths, rscript_arch_args,
    selected_r_arch, selected_r_arch_env, sh_quote_str, shadow_lower_precedence_executables,
    shebang_mentions, sort_by_name, tool_install_path_setup_enabled,
    tool_install_recovery_command, tool_store_dir, PackageExecutable, PackageExecutableDirKind,
    PackageLauncher, executable_spawn_error, package_executable_dirs, package_runtime_path_dirs,
    BinEntry,
};

fn strings(v: &[&str]) -> Vec<String> {
    v.iter().map(|s| s.to_string()).collect()
}

fn exe(name: &str, path: &str, launcher: PackageLauncher, dir_kind: PackageExecutableDirKind) -> PackageExecutable {
    PackageExecutable {
        name: name.to_string(),
        path: path.to_string(),
        launcher,
        dir_kind,
        rscript_args: Vec::new(),
    }
}

fn names(v: &[PackageExecutable]) -> Vec<(String, String)> {
    v.iter().map(|e| (e.name.clone(), e.path.clone())).collect()
}

use PackageExecutableDirKind::{Bin, BinArch, Exec};
use PackageLauncher::{Direct, Rapp, RappFrontend, Rscript};

#[test]
fn shell_and_cmd_quoting() {
    assert_eq!(sh_quote_str("it's"), "'it'\\''s'");
    assert_eq!(sh_quote_str(""), "''");
    assert_eq!(cmd_quote_str("a \"b\""), "\"a \"\"b\"\"\"");
    assert_eq!(recovery_command_word("cli@3.6/x:y_z-1", Platform::Linux), "cli@3.6/x:y_z-1");
    assert_eq!(recovery_command_word("a b", Platform::Linux), "'a b'");
    assert_eq!(recovery_command_word("C:\\R\\x", Platform::Windows), "C:\\R\\x");
    assert_eq!(recovery_command_word("C:\\R\\x", Platform::MacOs), "'C:\\R\\x'");
    assert_eq!(recovery_command_word("a b", Platform::Windows), "\"a b\"");
    assert_eq!(recovery_command_word("", Platform::Linux), "");
}

fn install(with: &[&str], r: Option<&str>) -> ToolInstallArgs {
    ToolInstallArgs {
        package_ref: "cli".to_string(),
        with_deps: strings(with),
        r_requirement: r.map(str::to_string),
        bin_dir: "/home/u/.local/bin".to_string(),
        force: false,
    }
}

#[test]
fn recovery_commands() {
    let i = install(&["dplyr", "x y"], Some("4.3"));
    assert_eq!(
        tool_install_recovery_command(&i, false, "/usr/bin/Rscript", true, Platform::Linux),
        "ir tool install --force --with dplyr --with 'x y' --r-version 4.3 cli"
    );
    assert_eq!(
        tool_install_recovery_command(&i, true, "/usr/bin/Rscript", false, Platform::Linux),
        "ir tool install --force --with dplyr --with 'x y' --r-version 4.3 --rscript /usr/bin/Rscript cli"
    );
    let i = install(&[], None);
    assert_eq!(
        tool_install_recovery_command(&i, false, "/opt/R 4/Rscript", true, Platform::Linux),
        "ir tool install --force --rscript '/opt/R 4/Rscript' cli"
    );
    assert_eq!(
        tool_install_recovery_command(&i, false, "Rscript", false, Platform::Windows),
        "ir tool install --force cli"
    );
}

#[test]
fn recovery_command_reinstalls_same_tool() {
    let i = install(&["dplyr", "x y"], Some("4.3"));
    let shown = tool_install_recovery_command(&i, false, "/usr/bin/Rscript", true, Platform::Linux);
    assert!(shown.starts_with("ir tool install "));
    let handed = strings(&["--force", "--with", "dplyr", "--with", "x y", "--r-version", "4.3", "cli"]);
    let again = ir::cli::parse_tool_install_args(handed, Ok("/home/u/.local/bin".to_string())).unwrap();
    assert_eq!(again.package_ref, i.package_ref);
    assert_eq!(again.with_deps, i.with_deps);
    assert_eq!(again.r_requirement, i.r_requirement);
    assert_eq!(again.bin_dir, "/home/u/.local/bin");
    assert!(again.force);
}

#[test]
fn sh_launcher_text() {
    let mut e = exe("tool", "exec/tool", Rscript, Exec);
    e.rscript_args = strings(&["--vanilla"]);
    let text = installed_launcher_contents(
        "/opt/R/bin/Rscript",
        "/lib",
        &e,
        "/lib/pkg/exec/tool",
        &strings(&["/opt/R/bin", "/lib/pkg/exec"]),
        Some("/x64"),
        "ir tool install --force pkg",
    );
    assert_eq!(
        text,
        "#!/bin/sh\n\
         # Generated by `ir tool install`. Do not edit by hand.\n\
         IR_LIBRARY='/lib'\n\
         if [ ! -d \"$IR_LIBRARY\" ]; then\n  \
         printf '%s\\n' \"ir: missing ir installed tool library: $IR_LIBRARY\" >&2\n  \
         printf '%s\\n' 'ir: run `ir tool install --force pkg` to recreate this tool.' >&2\n  \
         exit 1\n\
         fi\n\
         export R_LIBS=\"$IR_LIBRARY\"\n\
         export R_LIBS_USER=NULL\n\
         export RAPP_LAUNCHER_NAME='tool'\n\
         export R_ARCH='/x64'\n\
         export PATH='/opt/R/bin':'/lib/pkg/exec'${PATH:+:$PATH}\n\
         exec '/opt/R/bin/Rscript' '--vanilla' '/lib/pkg/exec/tool' \"$@\"\n"
    );
}

#[test]
fn sh_launcher_commands_by_kind() {
    let last = |e: &PackageExecutable| {
        let t = installed_launcher_contents("/R/Rscript", "/lib", e, "/lib/p/x", &[], None, "ir");
        assert!(!t.contains("export PATH=") && !t.contains("R_ARCH"));
        t.lines().last().unwrap().to_string()
    };
    assert_eq!(last(&exe("x", "x", Direct, Bin)), "exec '/lib/p/x' \"$@\"");
    assert_eq!(last(&exe("x", "x", Rapp, Exec)), "exec '/R/Rscript' -e 'Rapp::run()' '/lib/p/x' \"$@\"");
    assert_eq!(last(&exe("Rapp", "x", RappFrontend, Exec)), "exec '/R/Rscript' -e 'Rapp::run()' \"$@\"");
}

#[test]
fn cmd_launcher_text() {
    let mut e = exe("tool", "exec\\tool.R", Rapp, Exec);
    e.rscript_args = strings(&["--vanilla"]);
    let text = installed_launcher_contents_cmd(
        "C:\\R\\bin\\Rscript.exe",
        "C:\\lib",
        &e,
        "C:\\lib\\pkg\\exec\\tool.R",
        &strings(&["C:\\R\\bin", "C:\\lib\\pkg\\exec"]),
        None,
        "ir tool install --force pkg",
    );
    assert_eq!(
        text,
        "@echo off\r\n\
         :: Generated by `ir tool install`. Do not edit by hand.\r\n\
         setlocal\r\n\
         set \"IR_LIBRARY=C:\\lib\"\r\n\
         if not exist \"%IR_LIBRARY%\" (\r\n\
         echo ir: missing ir installed tool library: %IR_LIBRARY% 1>&2\r\n\
         echo ir: run `ir tool install --force pkg` to recreate this tool. 1>&2\r\n\
         exit /b 1\r\n\
         )\r\n\
         set \"R_LIBS=%IR_LIBRARY%\"\r\n\
         set \"R_LIBS_USER=NULL\"\r\n\
         set \"RAPP_LAUNCHER_NAME=tool\"\r\n\
         set \"PATH=C:\\R\\bin;C:\\lib\\pkg\\exec;%PATH%\"\r\n\
         \"C:\\R\\bin\\Rscript.exe\" \"--vanilla\" -e Rapp::run() \"C:\\lib\\pkg\\exec\\tool.R\" %*\r\n"
    );
    let d = installed_launcher_contents_cmd("R", "C:\\lib", &exe("d", "d", Direct, Bin), "C:\\d.bat", &[], Some("/x64"), "ir");
    assert!(d.ends_with("set \"RAPP_LAUNCHER_NAME=d\"\r\nset \"R_ARCH=/x64\"\r\n\"C:\\d.bat\" %*\r\n"), "{d}");
    assert_eq!(cmd_path_prefix_assignment(&[]), None);
    assert_eq!(
        cmd_path_prefix_assignment(&strings(&["C:\\a", "C:\\b"])),
        Some("set \"PATH=C:\\a;C:\\b;%PATH%\"".to_string())
    );
}

#[test]
fn install_targets() {
    assert_eq!(launcher_target_path("tool", Platform::Linux), "tool");
    assert_eq!(launcher_target_path("tool", Platform::Windows), "tool.cmd");
    let bat = exe("tool", "bin\\tool.bat", Direct, Bin);
    assert_eq!(installed_executable_target_path(&bat, Some("BAT"), Platform::Windows), "tool");
    assert_eq!(installed_executable_target_path(&bat, Some("bat"), Platform::Linux), "tool");
    let r = exe("tool", "exec\\tool.R", Rscript, Exec);
    assert_eq!(installed_executable_target_path(&r, Some("cmd"), Platform::Windows), "tool.cmd");
    assert_eq!(
        reject_colliding_installed_target_paths(&strings(&["/b/a", "/b/c", "/b/a"])),
        Err("multiple package executables map to installed executable path `/b/a`".to_string())
    );
    assert_eq!(reject_colliding_installed_target_paths(&strings(&["/b/a", "/b/c"])), Ok(()));
    let targets = strings(&["/b/x", "/b/y"]);
    assert_eq!(
        reject_existing_installed_target_paths(&targets, &[false, true], false),
        Err("installed executable path `/b/y` already exists; pass --force to overwrite it".to_string())
    );
    assert_eq!(reject_existing_installed_target_paths(&targets, &[true, true], true), Ok(()));
    assert_eq!(reject_existing_installed_target_paths(&targets, &[false, false], false), Ok(()));
}

#[test]
fn r_architecture_outputs() {
    assert_eq!(selected_r_arch(" x64\n"), Some("x64".to_string()));
    assert_eq!(selected_r_arch("  "), None);
    assert_eq!(selected_r_arch_env("x64"), Some("/x64".to_string()));
    assert_eq!(selected_r_arch_env(" /i386 "), Some("/i386".to_string()));
    assert_eq!(selected_r_arch_env(""), None);
    assert_eq!(
        r_query_error("architecture", "Rscript", " boom \n"),
        "failed to query R architecture with `Rscript`: boom"
    );
    assert!(is_rscript_arch_arg("--arch=x64") && is_rscript_arch_arg("--arch"));
    assert!(!is_rscript_arch_arg("--archive") && !is_rscript_arch_arg("--vanilla"));
    assert_eq!(
        rscript_arch_args(&strings(&["--vanilla", "--arch=i386", "x", "--arch"])),
        strings(&["--arch=i386", "--arch"])
    );
}

#[test]
fn executable_commands() {
    let direct = exe("d", "bin/d", Direct, Bin);
    assert_eq!(
        package_executable_command(&direct, "/p/bin/d", "R", &strings(&["--arch=x64"]), &strings(&["a"])),
        Ok(("/p/bin/d".to_string(), strings(&["a"])))
    );
    assert_eq!(
        package_executable_command(&direct, "/p/bin/d", "R", &strings(&["--vanilla"]), &[]),
        Err("Rscript options are only supported for Rscript and Rapp package executables".to_string())
    );
    let mut with_args = exe("d", "bin/d", Direct, Bin);
    with_args.rscript_args = strings(&["--save"]);
    assert!(package_executable_command(&with_args, "/p/bin/d", "R", &[], &[]).is_err());
    let mut rs = exe("t", "exec/t", Rscript, Exec);
    rs.rscript_args = strings(&["--vanilla"]);
    assert_eq!(
        package_executable_command(&rs, "/p/exec/t", "Rscript", &strings(&["--arch=x64"]), &strings(&["-h"])),
        Ok(("Rscript".to_string(), strings(&["--vanilla", "--arch=x64", "/p/exec/t", "-h"])))
    );
    let rapp = exe("t", "exec/t", Rapp, Exec);
    assert_eq!(
        package_executable_command(&rapp, "/p/exec/t", "Rscript", &[], &strings(&["x"])),
        Ok(("Rscript".to_string(), strings(&["-e", "Rapp::run()", "/p/exec/t", "x"])))
    );
    let front = rapp_frontend_executable("/p/exec/Rapp".to_string());
    assert_eq!(front.name, "Rapp");
    assert!(front.launcher == RappFrontend && front.dir_kind == Exec && front.rscript_args.is_empty());
    assert_eq!(
        package_executable_command(&front, "/p/exec/Rapp", "Rscript", &[], &strings(&["app.R"])),
        Ok(("Rscript".to_string(), strings(&["-e", "Rapp::run()", "app.R"])))
    );
}

#[test]
fn tool_store_dirs() {
    let p = tool_store_dir(Platform::Linux, Some("/store"), Some("/xdg"), Some("/home/u"), None, None).unwrap();
    assert_eq!((p.base.as_str(), p.parent, p.parts.len()), ("/store", false, 0));
    let p = tool_store_dir(Platform::Linux, None, Some("/xdg"), Some("/home/u"), None, None).unwrap();
    assert_eq!((p.base.as_str(), p.parts.clone()), ("/xdg", strings(&["ir", "tools"])));
    let p = tool_store_dir(Platform::MacOs, None, None, Some("/home/u"), None, None).unwrap();
    assert_eq!((p.base.as_str(), p.parts.clone()), ("/home/u", strings(&[".local", "share", "ir", "tools"])));
    assert_eq!(
        tool_store_dir(Platform::Linux, None, None, None, Some("C:\\L"), None).err(),
        Some("cannot determine tool store directory; set IR_TOOL_STORE_DIR".to_string())
    );
    let p = tool_store_dir(Platform::Windows, None, Some("/xdg"), None, Some("C:\\L"), Some("C:\\U")).unwrap();
    assert_eq!((p.base.as_str(), p.parts.clone()), ("C:\\L", strings(&["Programs", "R", "ir", "tools"])));
    let p = tool_store_dir(Platform::Windows, None, None, None, None, Some("C:\\U")).unwrap();
    assert_eq!(
        (p.base.as_str(), p.parts.clone()),
        ("C:\\U", strings(&["AppData", "Local", "Programs", "R", "ir", "tools"]))
    );
    assert_eq!(
        tool_store_dir(Platform::Windows, None, None, Some("/home"), None, None).err(),
        Some("cannot determine Windows tool store directory; set IR_TOOL_STORE_DIR, LOCALAPPDATA, or USERPROFILE".to_string())
    );
}

#[test]
fn not_found_messages() {
    assert_eq!(
        package_executable_not_found_error("pkg", "/lib/pkg", "tool", &[]),
        "package `pkg` does not expose supported executable directories in `/lib/pkg`"
    );
    assert_eq!(
        package_executable_not_found_error("pkg", "/lib/pkg", "tool", &strings(&["/lib/pkg/exec", "/lib/pkg/bin"])),
        "could not find executable `tool` in `/lib/pkg/exec`, `/lib/pkg/bin`"
    );
}

#[test]
fn windows_paths_and_profiles() {
    assert_eq!(non_verbatim_windows_path("\\\\?\\UNC\\server\\share"), "\\\\server\\share");
    assert_eq!(non_verbatim_windows_path("\\\\?\\C:\\x"), "C:\\x");
    assert_eq!(non_verbatim_windows_path("\\\\?\\C:"), "\\\\?\\C:");
    assert_eq!(non_verbatim_windows_path("\\\\?\\Volume{1}\\x"), "\\\\?\\Volume{1}\\x");
    assert_eq!(non_verbatim_windows_path("C:\\x"), "C:\\x");
    let lines = "case \":$PATH:\" in\n  *:\"$HOME/.local/bin\":*) ;;\n  *) export PATH=\"$HOME/.local/bin:$PATH\" ;;\nesac\n";
    assert_eq!(macos_path_lines(), lines);
    assert!(profile_has_lines(&format!("# mine\n\n{lines}")));
    assert!(!profile_has_lines("export PATH=x\n"));
    assert!(tool_install_path_setup_enabled(false, false));
    assert!(!tool_install_path_setup_enabled(true, false));
    assert!(!tool_install_path_setup_enabled(false, true));
}

#[test]
fn hashpipe_and_shebangs() {
    assert_eq!(rapp_hashpipe_content("  #| name: x\n"), Some("name: x\n".to_string()));
    assert_eq!(rapp_hashpipe_content("#|x"), None);
    assert_eq!(rapp_hashpipe_content("# | x"), None);
    assert!(shebang_mentions(b"#!/usr/bin/env Rscript", b"Rscript"));
    assert!(shebang_mentions(b"#!/usr/bin/Rscript-4 --vanilla", b"Rscript"));
    assert!(!shebang_mentions(b"#!/usr/bin/RscriptX", b"Rscript"));
    assert!(!shebang_mentions(b"", b"Rscript"));
}

#[test]
fn launcher_kinds() {
    let kind = |p: &[u8], d: bool, pl: Platform| package_executable_launcher_kind(p, d, pl);
    assert!(kind(b"#!/usr/bin/env Rapp\nx", false, Platform::Linux) == Some(Rapp));
    assert!(kind(b"#!/usr/bin/env Rscript\n", false, Platform::Linux) == Some(Rscript));
    assert!(kind(b"#!/usr/bin/env Rscript Rapp", false, Platform::Linux) == Some(Rapp));
    assert!(kind(b"#!/bin/sh\n", true, Platform::Linux) == Some(Direct));
    assert!(kind(b"#!/bin/sh\n# Rapp", false, Platform::Linux).is_none());
    assert!(kind(b"echo", true, Platform::Linux).is_none());
    assert!(kind(b"echo", true, Platform::Windows) == Some(Direct));
    assert!(kind(b"", false, Platform::Windows).is_none());
}

#[test]
fn launcher_names() {
    let name = |meta: Option<&str>, kind, ext: Option<&str>, stem: Option<&str>, file: Option<&str>| {
        package_executable_launcher_name("p/x", meta.map(str::to_string), kind, ext, stem, file, Platform::Linux)
    };
    assert_eq!(name(Some("fmt"), Exec, Some("R"), Some("tool"), Some("tool.R")), Ok("fmt".to_string()));
    assert_eq!(name(None, Exec, Some("r"), Some("tool"), Some("tool.r")), Ok("tool".to_string()));
    assert_eq!(name(None, Bin, Some("R"), Some("tool"), Some("tool.R")), Ok("tool.R".to_string()));
    assert_eq!(name(None, Exec, Some("sh"), Some("tool"), Some("tool.sh")), Ok("tool.sh".to_string()));
    assert_eq!(
        name(Some("a b"), Exec, None, Some("x"), Some("x")),
        Err("package executable `p/x` maps to unsupported launcher name `a b`".to_string())
    );
    assert_eq!(
        name(None, Exec, None, None, None),
        Err("package executable `p/x` is not valid UTF-8".to_string())
    );
    assert!(is_package_executable_launcher_suffix("r", Platform::Linux));
    assert!(!is_package_executable_launcher_suffix("cmd", Platform::MacOs));
    assert!(is_package_executable_launcher_suffix("CMD", Platform::Windows));
    assert!(is_package_executable_launcher_suffix("bat", Platform::Windows));
    assert!(is_rapp_frontend_alias(Some("R"), Some("Rapp"), Some("Rapp.R"), Platform::Linux));
    assert!(is_rapp_frontend_alias(None, Some("Rapp"), Some("Rapp"), Platform::Linux));
    assert!(!is_rapp_frontend_alias(Some("sh"), Some("Rapp"), Some("Rapp.sh"), Platform::Linux));
    assert!(is_rapp_frontend_alias(Some("cmd"), Some("Rapp"), Some("Rapp.cmd"), Platform::Windows));
    assert!(arch_dir_matches(Some("x64"), Some("x64")));
    assert!(!arch_dir_matches(Some("x64"), None) && !arch_dir_matches(None, Some("x64")));
    assert!(!arch_dir_matches(Some("i386"), Some("x64")));
    assert_eq!(join_texts(&strings(&["a", "b"]), ", "), "a, b");
    assert_eq!(join_texts(&[], ", "), "");
}

fn meta(front: &str, kind: PackageLauncher) -> Result<(Option<String>, Vec<String>), String> {
    package_launcher_metadata(front, "p/x", "pkg", kind).map(|m| (m.name, m.rscript_args))
}

#[test]
fn launcher_metadata() {
    assert_eq!(meta("", Rapp), Ok((None, strings(&["--default-packages=base,pkg"]))));
    assert_eq!(meta("  \n", Rscript), Ok((None, vec![])));
    assert_eq!(
        meta("launcher:\n  vanilla: true\n  save: false\n  no_init_file: true\n  default_packages: [stats, ' utils ']\n", Rapp),
        Ok((None, strings(&["--vanilla", "--no-init-file", "--default-packages=stats,utils"])))
    );
    assert_eq!(meta("launcher:\n  default-packages: ~\n", Rscript), Ok((None, strings(&["--default-packages=NULL"]))));
    assert_eq!(meta("launcher:\n  default-packages: ' methods '\n", Rscript), Ok((None, strings(&["--default-packages=methods"]))));
    assert_eq!(meta("launcher:\n  name: ' fmt '\nname: other\n", Rscript), Ok((Some("fmt".to_string()), vec![])));
    assert_eq!(meta("launcher:\n  verbose: true\nname: top\n", Rapp), Ok((Some("top".to_string()), strings(&["--verbose", "--default-packages=base,pkg"]))));
    assert_eq!(meta("name: top\n", Rscript), Ok((Some("top".to_string()), vec![])));
    assert_eq!(meta("launcher: [\n", Direct), Ok((None, vec![])));
    assert_eq!(meta("~\n", Rapp), Ok((None, strings(&["--default-packages=base,pkg"]))));
    assert_eq!(meta("- a\n", Rapp), Err("launcher frontmatter in `p/x` must be a YAML mapping".to_string()));
    assert_eq!(meta("launcher: 1\n", Rapp), Err("launcher frontmatter `launcher` in `p/x` must be a YAML mapping".to_string()));
    assert_eq!(meta("launcher:\n  save: 'yes'\n", Rapp), Err("launcher frontmatter `save` in `p/x` must be a boolean".to_string()));
    assert_eq!(
        meta("launcher:\n  default-packages: ''\n", Rapp),
        Err("launcher frontmatter `default-packages` in `p/x` must not contain empty strings".to_string())
    );
    assert_eq!(
        meta("launcher:\n  default-packages: [1]\n", Rapp),
        Err("launcher frontmatter `default-packages` entries in `p/x` must be strings".to_string())
    );
    assert_eq!(
        meta("launcher:\n  default-packages: {a: b}\n", Rapp),
        Err("launcher frontmatter `default-packages` in `p/x` must be a string or sequence".to_string())
    );
    assert_eq!(meta("name: 3\n", Rapp), Err("launcher frontmatter `name` in `p/x` must be a string".to_string()));
    let e = meta("a: [\n", Rapp).unwrap_err();
    assert!(e.starts_with("could not parse launcher frontmatter as YAML: "), "{e}");
}

#[test]
fn shadowing_and_duplicates() {
    let mut v = vec![
        exe("a", "p/exec/a", Rscript, Exec),
        exe("a", "p/bin/a", Direct, Bin),
        exe("b", "p/bin/b", Direct, Bin),
        exe("b", "p/bin/x64/b", Direct, BinArch),
        exe("c", "p/bin/c", Direct, Bin),
        exe("a", "p/bin/x64/a", Direct, BinArch),
    ];
    shadow_lower_precedence_executables(&mut v);
    assert_eq!(
        names(&v),
        vec![
            ("a".to_string(), "p/exec/a".to_string()),
            ("b".to_string(), "p/bin/x64/b".to_string()),
            ("c".to_string(), "p/bin/c".to_string())
        ]
    );
    let dup = vec![exe("a", "1", Rscript, Exec), exe("b", "2", Rscript, Exec), exe("a", "3", Direct, Exec)];
    assert_eq!(
        reject_duplicate_launcher_names(&dup, "pkg"),
        Err("multiple package executables map to launcher `a` in package `pkg`".to_string())
    );
    assert_eq!(reject_duplicate_launcher_names(&dup[..2], "pkg"), Ok(()));
}

#[test]
fn discovery_and_lookup() {
    let found = vec![
        exe("zeta", "p/exec/zeta", Rscript, Exec),
        exe("alpha", "p/bin/alpha", Direct, Bin),
        exe("zeta", "p/bin/zeta", Direct, Bin),
        exe("mid", "p/exec/mid", Rapp, Exec),
    ];
    let all = discover_package_executables(found, "pkg").unwrap();
    assert_eq!(
        names(&all),
        vec![
            ("alpha".to_string(), "p/bin/alpha".to_string()),
            ("mid".to_string(), "p/exec/mid".to_string()),
            ("zeta".to_string(), "p/exec/zeta".to_string())
        ]
    );
    let dup = vec![exe("a", "1", Rscript, Exec), exe("a", "2", Rapp, Exec)];
    assert_eq!(
        discover_package_executables(dup, "pkg").err(),
        Some("multiple package executables map to launcher `a` in package `pkg`".to_string())
    );
    let sorted = sort_by_name(vec![exe("b", "1", Direct, Bin), exe("a", "2", Direct, Bin), exe("B", "3", Direct, Bin)]);
    assert_eq!(names(&sorted).into_iter().map(|p| p.0).collect::<Vec<_>>(), strings(&["B", "a", "b"]));

    let found = vec![exe("tool", "p/bin/tool", Direct, Bin), exe("tool", "p/exec/tool.R", Rscript, Exec), exe("x", "p/exec/x", Rapp, Exec)];
    let one = find_package_executable(found, "tool", "pkg", "none".to_string()).unwrap();
    assert_eq!(one.path, "p/exec/tool.R");
    let none = find_package_executable(vec![exe("x", "p/exec/x", Rapp, Exec)], "tool", "pkg", "none".to_string());
    assert_eq!(none.err(), Some("none".to_string()));
    let two = vec![exe("tool", "1", Rscript, Exec), exe("tool", "2", Rapp, Exec)];
    assert_eq!(
        find_package_executable(two, "tool", "pkg", "none".to_string()).err(),
        Some("multiple package executables map to launcher `tool` in package `pkg`".to_string())
    );
}

#[test]
fn discovered_paths() {
    let e = package_executable_from_discovered_path(
        "/lib/pkg/exec/tool.R", "pkg", Exec, b"#!/usr/bin/env Rscript\n", false, "", Some("R"), Some("tool"), Some("tool.R"), Platform::Linux,
    )
    .unwrap()
    .unwrap();
    assert_eq!((e.name.as_str(), e.path.as_str()), ("tool", "/lib/pkg/exec/tool.R"));
    assert!(e.launcher == Rscript && e.dir_kind == Exec && e.rscript_args.is_empty());
    let e = package_executable_from_discovered_path(
        "/lib/pkg/exec/app", "pkg", Exec, b"#!/usr/bin/env Rapp\n", false, "name: my-app\n", None, Some("app"), Some("app"), Platform::Linux,
    )
    .unwrap()
    .unwrap();
    assert_eq!(e.name, "my-app");
    assert_eq!(e.rscript_args, strings(&["--default-packages=base,pkg"]));
    assert!(package_executable_from_discovered_path(
        "/lib/pkg/bin/x", "pkg", Bin, b"", false, "", None, Some("x"), Some("x"), Platform::Linux,
    )
    .unwrap()
    .is_none());
    let d = package_executable_from_discovered_path(
        "/lib/pkg/bin/x", "pkg", Bin, b"", true, "launcher: [", None, Some("x"), Some("x"), Platform::Linux,
    )
    .unwrap()
    .unwrap();
    assert!(d.launcher == Direct && d.name == "x");
    assert!(package_executable_from_discovered_path(
        "/lib/pkg/exec/x", "pkg", Exec, b"echo hi\n", true, "", None, Some("x"), Some("x"), Platform::Linux,
    )
    .unwrap()
    .is_none());
    assert!(package_executable_from_discovered_path(
        "/lib/pkg/exec/x y", "pkg", Exec, b"#!/bin/sh\n", true, "", None, Some("x y"), Some("x y"), Platform::Linux,
    )
    .is_err());
}

fn entry(name: Option<&str>, is_dir: bool) -> BinEntry {
    BinEntry { name: name.map(str::to_string), is_dir }
}

#[test]
fn executable_and_path_directories() {
    let entries = vec![entry(Some("i386"), true), entry(Some("tool"), false), entry(Some("x64"), true), entry(None, true)];
    let dirs = package_executable_dirs(true, true, &entries, Some("x64"));
    let got: Vec<(Vec<String>, bool, bool)> = dirs
        .iter()
        .map(|d| (d.parts.clone(), d.kind == Exec, d.kind == BinArch))
        .collect();
    assert_eq!(
        got,
        vec![
            (strings(&["exec"]), true, false),
            (strings(&["bin"]), false, false),
            (strings(&["bin", "x64"]), false, true)
        ]
    );
    assert!(package_executable_dirs(false, false, &entries, Some("x64")).is_empty());
    assert_eq!(package_executable_dirs(false, true, &entries, None).len(), 1);
    assert_eq!(package_executable_dirs(false, true, &[entry(Some("x64"), false)], Some("x64")).len(), 1);
    assert_eq!(
        package_runtime_path_dirs(true, true, &entries, Some("i386")),
        vec![strings(&["exec"]), strings(&["bin", "i386"]), strings(&["bin"])]
    );
    assert_eq!(package_runtime_path_dirs(true, false, &entries, Some("i386")), vec![strings(&["exec"])]);
    assert_eq!(
        executable_spawn_error("/p/bin/tool", true, "x"),
        "could not find executable `/p/bin/tool`"
    );
    assert_eq!(
        executable_spawn_error("/p/bin/tool", false, "Permission denied (os error 13)"),
        "failed to launch executable `/p/bin/tool`: Permission denied (os error 13)"
    );
}

#[test]
fn install_reports() {
    assert_eq!(ir::tool::installed_summary(&strings(&["btw"])), "Installed 1 executable: btw");
    assert_eq!(
        ir::tool::installed_summary(&strings(&["a", "b", "c"])),
        "Installed 3 executables: a, b, c"
    );
    assert_eq!(ir::tool::installed_summary(&[]), "Installed 0 executables: ");
    assert_eq!(
        ir::tool::no_installable_executables_error("cli", "/lib/cli"),
        "package `cli` does not expose supported executables under `/lib/cli`"
    );
}

#[test]
fn package_executable_environment() {
    let env = ir::tool::package_executable_env("/lib", "btw", "/opt/R/bin:/usr/bin", &Some("/x64".to_string()));
    let pairs: Vec<(String, String)> = env
        .into_iter()
        .map(|c| match c {
            EnvChange::SetVar(n, v) => (n, v),
            EnvChange::RemoveVar(n) => (n, String::from("<removed>")),
        })
        .collect();
    assert_eq!(
        pairs,
        vec![
            ("R_LIBS".to_string(), "/lib".to_string()),
            ("R_LIBS_USER".to_string(), "NULL".to_string()),
            ("RAPP_LAUNCHER_NAME".to_string(), "btw".to_string()),
            ("PATH".to_string(), "/opt/R/bin:/usr/bin".to_string()),
            ("R_ARCH".to_string(), "/x64".to_string()),
        ]
    );
    assert_eq!(ir::tool::package_executable_env("/lib", "btw", "/usr/bin", &None).len(), 4);
}

#[test]
fn launcher_metadata_from_loaded_documents() {
    let doc = |t: &str| ir::yaml::load_first_yaml_document(t, "launcher frontmatter").unwrap();
    let from = |d, kind| {
        ir::tool::package_launcher_metadata_from_document(d, "p/x", "pkg", kind).map(|m| (m.name, m.rscript_args))
    };
    assert_eq!(from(None, Rscript), Ok((None, vec![])));
    assert_eq!(from(doc("~\n"), Rscript), Ok((None, vec![])));
    assert_eq!(from(doc("[1]\n"), Rscript), Err("launcher frontmatter in `p/x` must be a YAML mapping".to_string()));
    assert_eq!(
        from(doc("launcher: 3\n"), Rscript),
        Err("launcher frontmatter `launcher` in `p/x` must be a YAML mapping".to_string())
    );
    assert_eq!(from(doc("launcher:\n  vanilla: true\n"), Rscript), Ok((None, strings(&["--vanilla"]))));
}
