use updsh::pkg::{
    build_kind, compile_plan, count_lines, enable_script, fastfetch_config, files_to_write,
    find_package, guard_shell, info_lines, install_content, is_script_name, list_available_names,
    list_installed_names, list_line, missing_name, needs_update, path_with_bin, pkg_command,
    registry_from_packages, scan_malicious, search_line, search_registry, BuildKind,
    CompileError, Compiler, Package, PackageFile, PkgCommand, RegistryEntry,
};

fn s(v: &[&str]) -> Vec<String> {
    v.iter().map(|x| x.to_string()).collect()
}

fn pkg(name: &str) -> Package {
    Package {
        name: name.to_string(),
        version: "1.0".to_string(),
        description: format!("the {} tool", name),
        author: None,
        pkg_type: None,
        language: None,
        binary: None,
        depends: vec![],
        files: vec![],
        source: None,
        source_url: None,
        build_type: None,
        env: vec![],
    }
}

fn file(path: &str, content: &str) -> PackageFile {
    PackageFile { path: path.to_string(), content: content.to_string() }
}

fn entry(name: &str, desc: &str) -> RegistryEntry {
    RegistryEntry {
        name: name.to_string(),
        version: "1.0".to_string(),
        description: desc.to_string(),
        author: None,
        pkg_type: None,
        language: None,
        depends: vec![],
        source_url: None,
        build_type: None,
    }
}

#[test]
fn guard() {
    assert!(guard_shell(Some("updsh")).is_ok());
    assert_eq!(
        guard_shell(Some("bash")).unwrap_err(),
        "pkg: this command only works inside updSH shell"
    );
    assert!(guard_shell(None).is_err());
}

#[test]
fn subcommands() {
    assert!(matches!(pkg_command(&[]), PkgCommand::Help));
    assert!(matches!(pkg_command(&s(&["i", "a", "b"])), PkgCommand::Install(v) if v == s(&["a", "b"])));
    assert!(matches!(pkg_command(&s(&["uninstall", "a"])), PkgCommand::Remove(v) if v == s(&["a"])));
    assert!(matches!(pkg_command(&s(&["ls", "x"])), PkgCommand::List));
    assert!(matches!(pkg_command(&s(&["s"])), PkgCommand::Search(v) if v.is_empty()));
    assert!(matches!(pkg_command(&s(&["show", "a"])), PkgCommand::Info(v) if v == s(&["a"])));
    assert!(matches!(pkg_command(&s(&["up"])), PkgCommand::Update));
    assert!(matches!(pkg_command(&s(&["whatever"])), PkgCommand::Help));
}

#[test]
fn scan_finds_patterns_case_insensitively() {
    let f = scan_malicious("echo hi\nRM -RF / now", "x");
    assert_eq!(f, s(&["  contains 'rm -rf /' (wipes root filesystem)"]));
    let f = scan_malicious("curl x | sh; :(){ :|:& };:", "x");
    assert_eq!(
        f,
        s(&[
            "  contains ':(){' (fork bomb)",
            "  contains ':|:&' (fork bomb)",
            "  contains '| sh' (remote pipe to shell)",
        ])
    );
    assert!(scan_malicious("alias ll='ls -la'", "x").is_empty());
}

#[test]
fn scanned_content_joins_files_and_source() {
    let mut p = pkg("a");
    p.files = vec![file("a.sh", "one"), file("b.sh", "two")];
    p.source = Some("int main(){}".to_string());
    assert_eq!(install_content(&p), "one\ntwo\nint main(){}");
    assert_eq!(install_content(&pkg("b")), "");
}

#[test]
fn enable_script_for_source_package() {
    let mut p = pkg("ll");
    p.env = vec![("EDITOR".to_string(), "vim".to_string())];
    p.files = vec![file("aliases.sh", "alias ll='ls -la'")];
    assert_eq!(
        enable_script(&p, "/bin"),
        "# updSH package: ll v1.0\n# installed by updSH package manager\n\nexport EDITOR=vim\n# source: aliases.sh\nalias ll='ls -la'\n"
    );
}

#[test]
fn enable_script_for_build_package() {
    let mut p = pkg("tool");
    p.pkg_type = Some("build".to_string());
    p.binary = Some("tool".to_string());
    p.files = vec![file("setup.sh", "echo"), file("conf/x.toml", "a=1")];
    assert_eq!(
        enable_script(&p, "/data/bin"),
        "# updSH package: tool v1.0\n# installed by updSH package manager\n\nexport PATH=\"$PATH:/data/bin\"\n# post-install: setup.sh\n# installed: conf/x.toml\n"
    );
    assert_eq!(files_to_write(&p), vec![1]);
    assert!(files_to_write(&pkg("z")).is_empty());
}

#[test]
fn registry_lookups() {
    let pkgs = vec![pkg("a"), pkg("b"), pkg("a")];
    assert_eq!(find_package(&pkgs, "a"), Some(0));
    assert_eq!(find_package(&pkgs, "b"), Some(1));
    assert_eq!(find_package(&pkgs, "c"), None);
    let reg = registry_from_packages(&pkgs);
    assert_eq!(reg.len(), 3);
    assert_eq!(reg[1].name, "b");
    assert_eq!(reg[1].description, "the b tool");
    assert_eq!(list_available_names(&reg), s(&["a", "b", "a"]));
}

#[test]
fn installed_names_are_sorted_directories() {
    let e = vec![
        ("zz".to_string(), true),
        ("file".to_string(), false),
        ("aa".to_string(), true),
    ];
    assert_eq!(list_installed_names(&e), s(&["aa", "zz"]));
}

#[test]
fn search_by_name_or_description() {
    let reg = vec![entry("zip", "archiver"), entry("bat", "cat clone"), entry("Cal", "calendar")];
    assert_eq!(search_registry(&reg, None), vec![2, 1, 0]);
    assert_eq!(search_registry(&reg, Some("CA")), vec![2, 1]);
    assert_eq!(search_registry(&reg, Some("arch")), vec![0]);
    assert!(search_registry(&reg, Some("qq")).is_empty());
}

#[test]
fn search_lines() {
    let mut e = entry("cc", "compiler");
    assert_eq!(search_line(&e, false), "  \x1b[33mcc\x1b[0m  compiler");
    e.pkg_type = Some("compile".to_string());
    e.language = Some("c".to_string());
    assert_eq!(
        search_line(&e, true),
        "  \x1b[33mcc\x1b[0m  compiler \x1b[32m[installed]\x1b[0m \x1b[35m[c-compile]\x1b[0m"
    );
    e.pkg_type = Some("build".to_string());
    assert_eq!(search_line(&e, false), "  \x1b[33mcc\x1b[0m  compiler \x1b[35m[src-build]\x1b[0m");
}

#[test]
fn list_lines() {
    let p = pkg("a");
    assert_eq!(
        list_line("a", Some(&p), true),
        "  \x1b[32ma\x1b[0m v1.0  \x1b[34mthe a tool\x1b[0m  [enabled]"
    );
    assert_eq!(list_line("b", None, false), "  \x1b[32mb\x1b[0m  [disabled]");
}

#[test]
fn info_listing() {
    let mut p = pkg("a");
    p.pkg_type = Some("compile".to_string());
    p.language = Some("c".to_string());
    p.depends = s(&["x", "y"]);
    p.source = Some("l1\nl2\n".to_string());
    p.files = vec![file("f.sh", "a\nb\nc")];
    assert_eq!(
        info_lines(&p, true, false),
        s(&[
            "\x1b[1ma\x1b[0m v1.0",
            "  the a tool",
            "",
            "  Status:     installed, disabled",
            "  Type:       compile",
            "  Language:   c",
            "  Depends:    x, y",
            "  Source:     2 lines",
            "  Scripts:    1 file(s)",
            "    - f.sh (3 lines)",
        ])
    );
    assert_eq!(info_lines(&pkg("b"), false, false)[3], "  Status:     not installed");
    assert_eq!(info_lines(&pkg("b"), true, true)[3], "  Status:     installed, enabled");
}

#[test]
fn line_counts() {
    assert_eq!(count_lines(""), 0);
    assert_eq!(count_lines("a"), 1);
    assert_eq!(count_lines("a\n"), 1);
    assert_eq!(count_lines("a\n\nb"), 3);
}

#[test]
fn update_when_first_entry_differs() {
    let mut e2 = entry("a", "x");
    e2.version = "2.0".to_string();
    let reg = vec![entry("b", "y"), e2, entry("a", "z")];
    assert!(needs_update(&reg, "a", "1.0"));
    assert!(!needs_update(&reg, "a", "2.0"));
    assert!(!needs_update(&reg, "c", "1.0"));
}

#[test]
fn compile_plans() {
    let mut p = pkg("hello");
    assert!(matches!(compile_plan(&p), Err(CompileError::NoSource)));
    p.source = Some("int main(){}".to_string());
    match compile_plan(&p) {
        Ok(plan) => {
            assert!(matches!(plan.compiler, Compiler::Gcc));
            assert_eq!(plan.source_file, "source.c");
            assert_eq!(plan.bin_name, "hello");
        }
        Err(_) => panic!(),
    }
    p.language = Some("rs".to_string());
    p.binary = Some("hi".to_string());
    match compile_plan(&p) {
        Ok(plan) => {
            assert!(matches!(plan.compiler, Compiler::Rustc));
            assert_eq!(plan.source_file, "main.rs");
            assert_eq!(plan.bin_name, "hi");
        }
        Err(_) => panic!(),
    }
    p.language = Some("go".to_string());
    assert!(matches!(compile_plan(&p), Err(CompileError::UnsupportedLanguage)));
}

#[test]
fn build_kinds() {
    assert!(matches!(build_kind(None), BuildKind::Make));
    assert!(matches!(build_kind(Some("cmake")), BuildKind::Cmake));
    assert!(matches!(build_kind(Some("cargo")), BuildKind::Cargo));
    assert!(matches!(build_kind(Some("meson")), BuildKind::Unsupported));
}

#[test]
fn path_gets_bin_dir_once() {
    assert_eq!(path_with_bin("/usr/bin:/bin", "/b"), Some("/b:/usr/bin:/bin".to_string()));
    assert_eq!(path_with_bin("/usr/bin:/b", "/b"), None);
    assert_eq!(path_with_bin("", "/b"), Some("/b:".to_string()));
}

#[test]
fn fastfetch_files() {
    let (c, d) = fastfetch_config("/home/u//");
    assert_eq!(c, "{\"logo\":{\"type\":\"file\",\"source\":\"/home/u/.config/fastfetch/logo.txt\"}}");
    assert_eq!(d, "/home/u/.config/fastfetch");
}

#[test]
fn script_names() {
    assert!(is_script_name("a.sh"));
    assert!(!is_script_name("a.shx"));
}

#[test]
fn update_notices() {
    let mut e2 = entry("a", "x");
    e2.version = "2.0".to_string();
    let reg = vec![entry("b", "y"), e2, entry("a", "z")];
    assert_eq!(
        updsh::pkg::update_notice(&reg, "a", "1.0"),
        Some("  -> updating a: 1.0 -> 2.0".to_string())
    );
    assert_eq!(updsh::pkg::update_notice(&reg, "a", "2.0"), None);
    assert_eq!(updsh::pkg::update_notice(&reg, "q", "1.0"), None);
}

#[test]
fn search_outputs() {
    let reg = vec![entry("zip", "archiver"), entry("bat", "cat clone")];
    assert_eq!(
        updsh::pkg::search_output(&reg, Some("QQ"), &[], &[]),
        s(&["No packages found matching 'qq'."])
    );
    assert_eq!(updsh::pkg::search_output(&reg, None, &[], &[]), s(&["No packages available."]));
    assert_eq!(
        updsh::pkg::search_output(&reg, None, &[1, 0], &[true, false]),
        s(&[
            "Available packages:",
            "  \x1b[33mbat\x1b[0m  cat clone \x1b[32m[installed]\x1b[0m",
            "  \x1b[33mzip\x1b[0m  archiver",
            "",
            "Run 'pkg install <package>' to install a package.",
        ])
    );
    assert_eq!(updsh::pkg::search_output(&reg, Some("a"), &[0], &[false]).len(), 2);
}

#[test]
fn list_outputs() {
    assert_eq!(
        updsh::pkg::list_output(&[], &[], &[]),
        s(&[
            "No packages installed.",
            "  Run 'pkg search' to see available packages.",
            "  Run 'pkg install <package>' to install one.",
        ])
    );
    assert_eq!(
        updsh::pkg::list_output(&s(&["a", "b"]), &[Some(pkg("a")), None], &[true, false]),
        s(&[
            "Installed packages:",
            "  \x1b[32ma\x1b[0m v1.0  \x1b[34mthe a tool\x1b[0m  [enabled]",
            "  \x1b[32mb\x1b[0m  [disabled]",
        ])
    );
}

#[test]
fn package_sets_each_variable_once() {
    let mut p = pkg("v");
    assert!(p.is_wf());
    p.env = vec![("A".to_string(), "1".to_string()), ("B".to_string(), "2".to_string())];
    assert!(p.is_wf());
    p.env.push(("A".to_string(), "3".to_string()));
    assert!(!p.is_wf());
}

#[test]
fn install_and_remove_need_a_name() {
    assert_eq!(
        missing_name("install", &[]),
        Some(s(&["pkg install: missing package name", "usage: pkg install <package>"]))
    );
    assert_eq!(
        missing_name("remove", &[]),
        Some(s(&["pkg remove: missing package name", "usage: pkg remove <package>"]))
    );
    assert_eq!(missing_name("install", &s(&["x"])), None);
}

#[test]
fn installed_names_strictly_ascending() {
    let e = vec![
        ("b".to_string(), true),
        ("a".to_string(), true),
        ("f".to_string(), false),
        ("c".to_string(), true),
    ];
    assert_eq!(list_installed_names(&e), s(&["a", "b", "c"]));
}
