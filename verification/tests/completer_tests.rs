use updsh::completer::{
    command_candidates, name_candidates, path_candidates, path_request, Candidate,
    CompletionKind, UpdshCompleter,
};

fn s(v: &[&str]) -> Vec<String> {
    v.iter().map(|x| x.to_string()).collect()
}

fn pairs(c: &[Candidate]) -> Vec<(String, String)> {
    c.iter().map(|x| (x.display.clone(), x.replacement.clone())).collect()
}

fn p(d: &str, r: &str) -> (String, String) {
    (d.to_string(), r.to_string())
}

#[test]
fn hint_from_newest_matching_entry() {
    let c = UpdshCompleter::new(&s(&["git status", "git push", "ls"]));
    assert_eq!(c.hint("git", 3), Some(" push".to_string()));
    assert_eq!(c.hint("l", 1), Some("s".to_string()));
    assert_eq!(c.hint("ls", 2), None);
    assert_eq!(c.hint("", 0), None);
    assert_eq!(c.hint("git p", 5), None);
    assert_eq!(c.hint("gitx", 3), Some(" push".to_string()));
}

#[test]
fn hint_uses_trimmed_text_but_refuses_spaces() {
    let c = UpdshCompleter::new(&s(&["make"]));
    assert_eq!(c.hint("\tma", 3), Some("ke".to_string()));
    assert_eq!(c.hint(" ma", 3), None);
}

#[test]
fn complete_first_word_as_command() {
    let (start, k) = UpdshCompleter::complete("gi", 2);
    assert_eq!(start, 0);
    assert!(matches!(k, CompletionKind::Commands(w) if w == "gi"));
}

#[test]
fn complete_path_words() {
    let (start, k) = UpdshCompleter::complete("cat src/ma", 10);
    assert_eq!(start, 4);
    assert!(matches!(k, CompletionKind::Paths(w) if w == "src/ma"));
    let (start, k) = UpdshCompleter::complete("./run", 5);
    assert_eq!(start, 0);
    assert!(matches!(k, CompletionKind::Paths(w) if w == "./run"));
}

#[test]
fn complete_nothing_on_blank() {
    let (start, k) = UpdshCompleter::complete("ls   ", 2);
    assert_eq!(start, 0);
    assert!(matches!(k, CompletionKind::Commands(w) if w == "ls"));
    let (start, k) = UpdshCompleter::complete("   ", 3);
    assert_eq!(start, 3);
    assert!(matches!(k, CompletionKind::Nothing));
}

#[test]
fn complete_pkg_subcommands() {
    let (start, k) = UpdshCompleter::complete("pkg in", 6);
    assert_eq!(start, 4);
    match k {
        CompletionKind::PkgSubcommands(c) => {
            assert_eq!(pairs(&c), vec![p("install", "install "), p("info", "info ")])
        }
        _ => panic!(),
    }
}

#[test]
fn complete_pkg_names() {
    let (start, k) = UpdshCompleter::complete("pkg install fo", 14);
    assert_eq!(start, 12);
    assert!(matches!(k, CompletionKind::PkgNames(w) if w == "fo"));
    let (_, k) = UpdshCompleter::complete("pkg r ba", 8);
    assert!(matches!(k, CompletionKind::InstalledNames(w) if w == "ba"));
    let (_, k) = UpdshCompleter::complete("pkg list x", 10);
    assert!(matches!(k, CompletionKind::Nothing));
    let (start, k) = UpdshCompleter::complete("pkg", 3);
    assert_eq!(start, 3);
    assert!(matches!(k, CompletionKind::Nothing));
}

#[test]
fn complete_pkg_third_word_names() {
    assert!(matches!(UpdshCompleter::complete_pkg("install", 3), CompletionKind::PkgNames(w) if w.is_empty()));
    assert!(matches!(UpdshCompleter::complete_pkg("remove", 3), CompletionKind::InstalledNames(w) if w.is_empty()));
    assert!(matches!(UpdshCompleter::complete_pkg("list", 3), CompletionKind::Nothing));
    assert!(matches!(UpdshCompleter::complete_pkg("x", 4), CompletionKind::Nothing));
}

#[test]
fn command_candidates_path_then_builtins_once() {
    let c = command_candidates(&s(&["cdrom", "cat", "cd", "cdrom"]), "cd");
    assert_eq!(pairs(&c), vec![p("cdrom", "cdrom"), p("cd", "cd")]);
    let c = command_candidates(&[], "ex");
    assert_eq!(pairs(&c), vec![p("exit", "exit"), p("export", "export")]);
}

#[test]
fn name_candidates_with_space() {
    let c = name_candidates(&s(&["foo", "bar", "fob"]), "fo");
    assert_eq!(pairs(&c), vec![p("foo", "foo "), p("fob", "fob ")]);
}

#[test]
fn path_request_splits_dir_and_name() {
    let r = path_request("src/ma", None);
    assert_eq!((r.dir.as_str(), r.partial.as_str(), r.read_dir.as_str()), ("src/", "ma", "src/"));
    let r = path_request("ma", None);
    assert_eq!((r.dir.as_str(), r.partial.as_str(), r.read_dir.as_str()), ("./", "ma", "./"));
    let r = path_request("src/", None);
    assert_eq!((r.dir.as_str(), r.partial.as_str()), ("src/", ""));
    let r = path_request("~/do", Some("/home/u"));
    assert_eq!((r.dir.as_str(), r.partial.as_str(), r.read_dir.as_str()), ("~/", "do", "/home/u/"));
    let r = path_request("~/do", None);
    assert_eq!(r.read_dir, "~/");
    let r = path_request("/", None);
    assert_eq!((r.dir.as_str(), r.partial.as_str()), ("/", ""));
}

#[test]
fn path_candidates_filter_and_mark_dirs() {
    let e = vec![
        ("main.rs".to_string(), false),
        ("macros".to_string(), true),
        (".mail".to_string(), false),
        ("ma".to_string(), false),
        ("lib.rs".to_string(), false),
    ];
    let c = path_candidates("src/", "ma", &e);
    assert_eq!(pairs(&c), vec![p("src/main.rs", "main.rs "), p("src/macros", "macros/")]);
}
