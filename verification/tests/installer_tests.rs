use updsh::installer::{InstallAction, InstallEvent, Installer};
use updsh::pkg::{Package, PackageFile};

fn s(v: &[&str]) -> Vec<String> {
    v.iter().map(|x| x.to_string()).collect()
}

fn pkg(name: &str, kind: Option<&str>) -> Package {
    Package {
        name: name.to_string(),
        version: "1.0".to_string(),
        description: "d".to_string(),
        author: None,
        pkg_type: kind.map(|k| k.to_string()),
        language: None,
        binary: None,
        depends: s(&["dep"]),
        files: vec![PackageFile { path: "setup.sh".to_string(), content: "echo hi".to_string() }],
        source: None,
        source_url: None,
        build_type: None,
        env: vec![],
    }
}

fn begin(name: &str) -> Installer {
    let mut i = Installer::new(name);
    assert!(matches!(i.step(InstallEvent::Begin), InstallAction::CheckInstalled));
    i
}

#[test]
fn already_installed_stops() {
    let mut i = begin("ll");
    match i.step(InstallEvent::Installed(true)) {
        InstallAction::Fail(l) => assert_eq!(l, s(&["pkg: ll is already installed"])),
        _ => panic!(),
    }
    assert!(matches!(i.step(InstallEvent::Completed), InstallAction::Idle));
}

#[test]
fn not_found_stops() {
    let mut i = begin("zz");
    assert!(matches!(i.step(InstallEvent::Installed(false)), InstallAction::Fetch));
    match i.step(InstallEvent::Fetched(None)) {
        InstallAction::Fail(l) => assert_eq!(
            l,
            s(&["pkg: package 'zz' not found in registry", "       try 'pkg search zz'"])
        ),
        _ => panic!(),
    }
}

#[test]
fn plain_package_goes_through() {
    let mut i = begin("ll");
    i.step(InstallEvent::Installed(false));
    match i.step(InstallEvent::Fetched(Some(pkg("ll", None)))) {
        InstallAction::InstallDependencies(d) => assert_eq!(d, s(&["dep"])),
        _ => panic!(),
    }
    assert_eq!(i.package().unwrap().name, "ll");
    assert!(matches!(i.step(InstallEvent::Completed), InstallAction::SetEnv));
    assert!(matches!(i.step(InstallEvent::Completed), InstallAction::Save(None)));
    assert!(matches!(i.step(InstallEvent::Outcome(Ok(()))), InstallAction::Enable));
    match i.step(InstallEvent::Outcome(Ok(()))) {
        InstallAction::Installed(l) => assert_eq!(l, "  -> installed ll"),
        _ => panic!(),
    }
}

#[test]
fn built_package_runs_setup() {
    let mut i = begin("sysfetch");
    i.step(InstallEvent::Installed(false));
    i.step(InstallEvent::Fetched(Some(pkg("sysfetch", Some("build")))));
    assert!(matches!(i.step(InstallEvent::Completed), InstallAction::SetEnv));
    assert!(matches!(i.step(InstallEvent::Completed), InstallAction::Build));
    match i.step(InstallEvent::Outcome(Ok(()))) {
        InstallAction::Save(Some((verb, bin))) => {
            assert_eq!(verb, "built");
            assert_eq!(bin, "sysfetch");
        }
        _ => panic!(),
    }
    assert!(matches!(i.step(InstallEvent::Outcome(Ok(()))), InstallAction::Enable));
    match i.step(InstallEvent::Outcome(Ok(()))) {
        InstallAction::Setup(lines, fastfetch) => {
            assert_eq!(lines, s(&["echo hi"]));
            assert!(fastfetch);
        }
        _ => panic!(),
    }
    assert!(matches!(i.step(InstallEvent::Completed), InstallAction::Installed(_)));
}

#[test]
fn failures_end_with_a_message() {
    let mut i = begin("cc");
    i.step(InstallEvent::Installed(false));
    i.step(InstallEvent::Fetched(Some(pkg("cc", Some("compile")))));
    i.step(InstallEvent::Completed);
    assert!(matches!(i.step(InstallEvent::Completed), InstallAction::Compile));
    match i.step(InstallEvent::Outcome(Err("no source code".to_string()))) {
        InstallAction::Fail(l) => assert_eq!(l, s(&["pkg: compilation failed for cc: no source code"])),
        _ => panic!(),
    }

    let mut i = begin("p");
    i.step(InstallEvent::Installed(false));
    i.step(InstallEvent::Fetched(Some(pkg("p", None))));
    i.step(InstallEvent::Completed);
    i.step(InstallEvent::Completed);
    match i.step(InstallEvent::Outcome(Err("disk full".to_string()))) {
        InstallAction::Fail(l) => assert_eq!(l, s(&["pkg: failed to install p: disk full"])),
        _ => panic!(),
    }
}

#[test]
fn dangerous_package_is_rejected_before_anything_is_saved() {
    let mut bad = pkg("bad", None);
    bad.files[0].content = "rm -rf /".to_string();
    let mut i = begin("bad");
    i.step(InstallEvent::Installed(false));
    i.step(InstallEvent::Fetched(Some(bad)));
    match i.step(InstallEvent::Completed) {
        InstallAction::Reject(l) => assert_eq!(l[2], "  contains 'rm -rf /' (wipes root filesystem)"),
        _ => panic!(),
    }
    assert!(matches!(i.step(InstallEvent::Completed), InstallAction::Idle));
}

#[test]
fn answers_out_of_turn_are_ignored() {
    let mut i = Installer::new("x");
    assert!(matches!(i.step(InstallEvent::Completed), InstallAction::Idle));
    assert!(matches!(i.step(InstallEvent::Begin), InstallAction::CheckInstalled));
    assert!(matches!(i.step(InstallEvent::Fetched(None)), InstallAction::Idle));
}
