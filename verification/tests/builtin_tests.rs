use updsh::alias::{get, init, Aliases};
use updsh::builtins::{execute_builtin, is_builtin, source_lines, BuiltinAction};
use updsh::job::{JobControl, JobStatus, PidWrapper};
use updsh::parser::ShellEnv;

fn s(v: &[&str]) -> Vec<String> {
    v.iter().map(|x| x.to_string()).collect()
}

struct Shell {
    jobs: JobControl,
    aliases: Aliases,
    env: ShellEnv,
    history: Vec<String>,
}

fn shell() -> Shell {
    let mut aliases = Aliases::new();
    init(&mut aliases);
    Shell {
        jobs: JobControl::new(),
        aliases,
        env: ShellEnv { vars: vec![("HOME".to_string(), "/home/u".to_string())], pid: 1 },
        history: s(&["ls", "pwd"]),
    }
}

fn run(sh: &mut Shell, cmd: &str, args: &[&str]) -> Option<BuiltinAction> {
    execute_builtin(cmd, &s(args), &[], &sh.history, &mut sh.jobs, &mut sh.aliases, &sh.env)
}

#[test]
fn builtin_names() {
    for n in ["cd", "exit", "pwd", "echo", "clear", "export", "history", "help", "jobs", "fg",
        "bg", "source", "type", "pkg", "alias", "unalias"] {
        assert!(is_builtin(n), "{}", n);
    }
    assert!(!is_builtin("ls"));
    assert!(!is_builtin("Cd"));
}

#[test]
fn not_a_builtin() {
    let mut sh = shell();
    assert!(run(&mut sh, "ls", &["-la"]).is_none());
}

#[test]
fn exit_status() {
    let mut sh = shell();
    assert!(matches!(run(&mut sh, "exit", &[]), Some(BuiltinAction::Exit(0))));
    assert!(matches!(run(&mut sh, "exit", &["3"]), Some(BuiltinAction::Exit(3))));
    assert!(matches!(run(&mut sh, "exit", &["-2"]), Some(BuiltinAction::Exit(-2))));
    assert!(matches!(run(&mut sh, "exit", &["x"]), Some(BuiltinAction::Exit(0))));
}

#[test]
fn cd_targets() {
    let mut sh = shell();
    match run(&mut sh, "cd", &[]) {
        Some(BuiltinAction::ChangeDir(d)) => assert_eq!(d, "/home/u"),
        _ => panic!(),
    }
    match run(&mut sh, "cd", &["~/src"]) {
        Some(BuiltinAction::ChangeDir(d)) => assert_eq!(d, "/home/u/src"),
        _ => panic!(),
    }
    match run(&mut sh, "cd", &["/etc"]) {
        Some(BuiltinAction::ChangeDir(d)) => assert_eq!(d, "/etc"),
        _ => panic!(),
    }
    sh.env.vars.clear();
    match run(&mut sh, "cd", &["~"]) {
        Some(BuiltinAction::ChangeDir(d)) => assert_eq!(d, "/"),
        _ => panic!(),
    }
    match run(&mut sh, "cd", &["~/x"]) {
        Some(BuiltinAction::ChangeDir(d)) => assert_eq!(d, "~/x"),
        _ => panic!(),
    }
}

#[test]
fn echo_joins_words() {
    let mut sh = shell();
    match run(&mut sh, "echo", &["a", "b  c"]) {
        Some(BuiltinAction::Print(l)) => assert_eq!(l, s(&["a b  c"])),
        _ => panic!(),
    }
    match run(&mut sh, "echo", &[]) {
        Some(BuiltinAction::Print(l)) => assert_eq!(l, s(&[""])),
        _ => panic!(),
    }
}

#[test]
fn simple_actions() {
    let mut sh = shell();
    assert!(matches!(run(&mut sh, "pwd", &[]), Some(BuiltinAction::PrintCwd)));
    assert!(matches!(run(&mut sh, "clear", &[]), Some(BuiltinAction::Clear)));
    assert!(matches!(run(&mut sh, "help", &[]), Some(BuiltinAction::OpenHelp)));
}

#[test]
fn export_pairs() {
    let mut sh = shell();
    match run(&mut sh, "export", &["A=1", "B", "C=x=y", "=v"]) {
        Some(BuiltinAction::Export(p)) => assert_eq!(
            p,
            vec![
                ("A".to_string(), "1".to_string()),
                ("C".to_string(), "x=y".to_string()),
                ("".to_string(), "v".to_string())
            ]
        ),
        _ => panic!(),
    }
}

#[test]
fn history_listing() {
    let mut sh = shell();
    match run(&mut sh, "history", &[]) {
        Some(BuiltinAction::Print(l)) => assert_eq!(l, s(&["    1  ls", "    2  pwd"])),
        _ => panic!(),
    }
}

#[test]
fn jobs_listing() {
    let mut sh = shell();
    match run(&mut sh, "jobs", &[]) {
        Some(BuiltinAction::Print(l)) => assert_eq!(l, s(&["No background jobs."])),
        _ => panic!(),
    }
    sh.jobs.add_job(PidWrapper(5), "sleep 9".to_string(), false);
    match run(&mut sh, "jobs", &[]) {
        Some(BuiltinAction::Print(l)) => assert_eq!(l, s(&["[1] Running  sleep 9"])),
        _ => panic!(),
    }
}

#[test]
fn fg_takes_job_out() {
    let mut sh = shell();
    sh.jobs.add_job(PidWrapper(5), "a".to_string(), false);
    sh.jobs.add_job(PidWrapper(6), "b".to_string(), false);
    assert!(matches!(run(&mut sh, "fg", &[]), Some(BuiltinAction::Foreground(6))));
    assert!(sh.jobs.get_job(2).is_none());
    assert!(matches!(run(&mut sh, "fg", &["1"]), Some(BuiltinAction::Foreground(5))));
    assert!(sh.jobs.is_empty());
    match run(&mut sh, "fg", &[]) {
        Some(BuiltinAction::Stderr(m, 0)) => assert_eq!(m, "fg: no current job"),
        _ => panic!(),
    }
    match run(&mut sh, "fg", &["7"]) {
        Some(BuiltinAction::Stderr(m, 0)) => assert_eq!(m, "fg: job not found: 7"),
        _ => panic!(),
    }
}

#[test]
fn bg_marks_running() {
    let mut sh = shell();
    let id = sh.jobs.add_job(PidWrapper(5), "a".to_string(), false);
    sh.jobs.update_job(id, JobStatus::Stopped);
    assert!(matches!(run(&mut sh, "bg", &[]), Some(BuiltinAction::Background(5))));
    assert!(sh.jobs.get_job(id).unwrap().status == JobStatus::Running);
    match run(&mut sh, "bg", &["4"]) {
        Some(BuiltinAction::Stderr(m, 0)) => assert_eq!(m, "bg: job not found: 4"),
        _ => panic!(),
    }
    sh.jobs.remove_job(id);
    match run(&mut sh, "bg", &[]) {
        Some(BuiltinAction::Stderr(m, 0)) => assert_eq!(m, "bg: no current job"),
        _ => panic!(),
    }
}

#[test]
fn fg_with_bad_number_uses_last_job() {
    let mut sh = shell();
    sh.jobs.add_job(PidWrapper(5), "a".to_string(), false);
    assert!(matches!(run(&mut sh, "fg", &["x"]), Some(BuiltinAction::Foreground(5))));
}

#[test]
fn source_needs_file() {
    let mut sh = shell();
    match run(&mut sh, "source", &[]) {
        Some(BuiltinAction::Stderr(m, 1)) => assert_eq!(m, "source: missing filename"),
        _ => panic!(),
    }
    match run(&mut sh, "source", &["f.sh"]) {
        Some(BuiltinAction::Source(f)) => assert_eq!(f, "f.sh"),
        _ => panic!(),
    }
}

#[test]
fn source_lines_skip_blank_and_comments() {
    let l = source_lines("  echo a  \n\n# c\n  #x\nls\r\n");
    assert_eq!(l, s(&["echo a", "ls"]));
}

#[test]
fn alias_builtin_defines_and_prints() {
    let mut sh = shell();
    match run(&mut sh, "alias", &["ll='ls -la'", "g=\"git\"", "q"]) {
        Some(BuiltinAction::Print(l)) => assert!(l.is_empty()),
        _ => panic!(),
    }
    assert_eq!(get(&sh.aliases, "ll"), Some("ls -la".to_string()));
    assert_eq!(get(&sh.aliases, "g"), Some("git".to_string()));
    match run(&mut sh, "alias", &["ll", "nope"]) {
        Some(BuiltinAction::Print(l)) => assert_eq!(l, s(&["alias ll='ls -la'"])),
        _ => panic!(),
    }
    match run(&mut sh, "alias", &[]) {
        Some(BuiltinAction::Print(l)) => {
            assert_eq!(l, s(&["alias g='git'", "alias ll='ls -la'"]))
        }
        _ => panic!(),
    }
}

#[test]
fn unalias_removes() {
    let mut sh = shell();
    updsh::alias::set(&mut sh.aliases, "ll", "ls");
    assert!(matches!(run(&mut sh, "unalias", &["ll", "zz"]), Some(BuiltinAction::Nothing)));
    assert_eq!(get(&sh.aliases, "ll"), None);
}

#[test]
fn pkg_and_type() {
    let mut sh = shell();
    match run(&mut sh, "pkg", &["list"]) {
        Some(BuiltinAction::Pkg(a)) => assert_eq!(a, s(&["list"])),
        _ => panic!(),
    }
    match run(&mut sh, "type", &["cd"]) {
        Some(BuiltinAction::Print(l)) => assert_eq!(l, s(&["cd is a shell builtin"])),
        _ => panic!(),
    }
    match run(&mut sh, "type", &["ls"]) {
        Some(BuiltinAction::TypeLookup(n)) => assert_eq!(n, "ls"),
        _ => panic!(),
    }
    assert!(matches!(run(&mut sh, "type", &[]), Some(BuiltinAction::Nothing)));
}

#[test]
fn non_builtin_changes_no_table() {
    let mut sh = shell();
    sh.jobs.add_job(PidWrapper(5), "a".to_string(), false);
    updsh::alias::set(&mut sh.aliases, "x", "y");
    assert!(run(&mut sh, "vim", &["f"]).is_none());
    assert_eq!(sh.jobs.list_jobs().len(), 1);
    assert_eq!(get(&sh.aliases, "x"), Some("y".to_string()));
}

#[test]
fn bg_and_fg_leave_other_jobs_alone() {
    let mut sh = shell();
    let a = sh.jobs.add_job(PidWrapper(5), "a".to_string(), false);
    let b = sh.jobs.add_job(PidWrapper(6), "b".to_string(), false);
    let c = sh.jobs.add_job(PidWrapper(7), "c".to_string(), false);
    sh.jobs.update_job(a, JobStatus::Stopped);
    sh.jobs.update_job(c, JobStatus::Stopped);
    assert!(matches!(run(&mut sh, "bg", &["1"]), Some(BuiltinAction::Background(5))));
    assert!(sh.jobs.get_job(a).unwrap().status == JobStatus::Running);
    assert!(sh.jobs.get_job(c).unwrap().status == JobStatus::Stopped);
    assert_eq!(sh.jobs.list_jobs().len(), 3);
    assert!(matches!(run(&mut sh, "fg", &["2"]), Some(BuiltinAction::Foreground(6))));
    assert!(sh.jobs.get_job(b).is_none());
    assert_eq!(sh.jobs.get_job(a).unwrap().pid.0, 5);
    assert_eq!(sh.jobs.get_job(c).unwrap().command, "c");
    assert_eq!(sh.jobs.list_jobs().len(), 2);
}
