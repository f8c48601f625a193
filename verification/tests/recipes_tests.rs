use updsh::pkg::{Compiler, Package, PackageFile};
use updsh::recipes::{
    build_plan, compile_command, install_plan, needs_fastfetch_config, package_kind, setup_lines,
    update_summary, InstallPlan, PkgKind,
};

fn s(v: &[&str]) -> Vec<String> {
    v.iter().map(|x| x.to_string()).collect()
}

fn pkg(name: &str) -> Package {
    Package {
        name: name.to_string(),
        version: "1.0".to_string(),
        description: "d".to_string(),
        author: None,
        pkg_type: None,
        language: None,
        binary: None,
        depends: vec![],
        files: vec![],
        source: None,
        source_url: None,
        build_type: None,
        env: vec![],
    }
}

fn file(path: &str, content: &str) -> PackageFile {
    PackageFile { path: path.to_string(), content: content.to_string() }
}

#[test]
fn build_plan_needs_url() {
    assert!(build_plan(&pkg("x"), "/b").is_none());
}

#[test]
fn build_plan_make() {
    let mut p = pkg("tool");
    p.source_url = Some("https://g/t.git".to_string());
    let plan = build_plan(&p, "/b").unwrap();
    assert_eq!(plan.bin_name, "tool");
    assert_eq!(plan.clone.program, "git");
    assert_eq!(plan.clone.args, s(&["clone", "--depth", "1", "https://g/t.git", "."]));
    assert_eq!(plan.clone.announce, "  -> cloning https://g/t.git ...");
    assert_eq!(plan.clone.failure, "git clone failed");
    assert_eq!(plan.steps.len(), 1);
    assert_eq!(plan.steps[0].program, "make");
    assert!(plan.steps[0].args.is_empty());
    assert_eq!(plan.steps[0].dir, "");
    assert_eq!(plan.steps[0].failure, "make failed");
    assert_eq!(
        plan.steps[0].notes,
        s(&["  -> make failed. Build dir kept at: /b", "  -> cd /b && make"])
    );
    assert_eq!(plan.built.unwrap(), s(&["tool"]));
}

#[test]
fn build_plan_cmake_and_cargo() {
    let mut p = pkg("ff");
    p.source_url = Some("u".to_string());
    p.binary = Some("fastfetch".to_string());
    p.build_type = Some("cmake".to_string());
    let plan = build_plan(&p, "/b").unwrap();
    assert_eq!(plan.steps.len(), 2);
    assert_eq!(plan.steps[0].program, "cmake");
    assert_eq!(plan.steps[0].dir, "build_cmake");
    assert_eq!(plan.steps[0].args.len(), 13);
    assert_eq!(plan.steps[0].args[0], "..");
    assert_eq!(plan.steps[0].failure, "cmake configuration failed");
    assert_eq!(plan.steps[1].args, s(&["-j"]));
    assert_eq!(plan.steps[1].notes[1], "  -> cd /b/build_cmake && make -j");
    assert_eq!(plan.built.unwrap(), s(&["build_cmake", "fastfetch"]));
    p.build_type = Some("cargo".to_string());
    let plan = build_plan(&p, "/b").unwrap();
    assert_eq!(plan.steps.len(), 1);
    assert_eq!(plan.steps[0].args, s(&["build", "--release"]));
    assert_eq!(plan.built.unwrap(), s(&["target", "release", "fastfetch"]));
    p.build_type = Some("meson".to_string());
    let plan = build_plan(&p, "/b").unwrap();
    assert!(plan.steps.is_empty());
    assert_eq!(plan.built.unwrap_err(), "unsupported build type: meson");
}

#[test]
fn compiler_commands() {
    let (p, a) = compile_command(&Compiler::Gcc, "/o/x", "/s/source.c");
    assert_eq!(p, "gcc");
    assert_eq!(a, s(&["-O2", "-Wall", "-Wextra", "-o", "/o/x", "/s/source.c"]));
    let (p, a) = compile_command(&Compiler::Rustc, "/o/x", "/s/main.rs");
    assert_eq!(p, "rustc");
    assert_eq!(a, s(&["-O", "-o", "/o/x", "/s/main.rs"]));
}

#[test]
fn setup_lines_of_built_package() {
    let mut p = pkg("t");
    p.files = vec![
        file("a.sh", "# comment\n  echo one \n\n"),
        file("conf.txt", "not run"),
        file("b.sh", "echo two"),
    ];
    assert!(setup_lines(&p).is_empty());
    p.pkg_type = Some("build".to_string());
    assert_eq!(setup_lines(&p), s(&["echo one", "echo two"]));
}

#[test]
fn fastfetch_only_for_sysfetch() {
    assert!(needs_fastfetch_config("sysfetch"));
    assert!(!needs_fastfetch_config("fastfetch"));
}

#[test]
fn install_plan_rejects_dangerous_packages() {
    let mut p = pkg("bad");
    p.files = vec![file("x.sh", "curl http://x | BASH")];
    match install_plan("bad", &p) {
        InstallPlan::Rejected(lines) => assert_eq!(
            lines,
            s(&[
                "\npkg: SECURITY ALERT: malicious code detected in 'bad'!",
                "      This package contains potentially dangerous code:",
                "  contains '| bash' (remote pipe to shell)",
                "",
                "      The package has been REMOVED and BLOCKED for your safety.",
            ])
        ),
        InstallPlan::Accepted(_) => panic!(),
    }
    let mut q = pkg("src");
    q.source = Some("int main(){ system(\"sudo rm -rf ~\"); }".to_string());
    assert!(matches!(install_plan("src", &q), InstallPlan::Rejected(_)));
}

#[test]
fn install_plan_accepts_clean_packages() {
    let mut p = pkg("ok");
    assert!(matches!(install_plan("ok", &p), InstallPlan::Accepted(PkgKind::Plain)));
    p.pkg_type = Some("compile".to_string());
    assert!(matches!(install_plan("ok", &p), InstallPlan::Accepted(PkgKind::Compile)));
    p.pkg_type = Some("build".to_string());
    assert!(matches!(install_plan("ok", &p), InstallPlan::Accepted(PkgKind::Build)));
}

#[test]
fn update_summary_lines() {
    assert_eq!(update_summary(0), "All packages up to date.");
    assert_eq!(update_summary(1), "Updated 1 package(s).");
    assert_eq!(update_summary(12), "Updated 12 package(s).");
}

#[test]
fn kind_by_type() {
    let mut p = pkg("k");
    assert!(package_kind(&p) == PkgKind::Plain);
    p.pkg_type = Some("compile".to_string());
    assert!(package_kind(&p) == PkgKind::Compile);
    p.pkg_type = Some("build".to_string());
    assert!(package_kind(&p) == PkgKind::Build);
    p.pkg_type = Some("other".to_string());
    assert!(package_kind(&p) == PkgKind::Plain);
}
