use updsh::executor::{
    command_job_text, exec_args, execute_external, execute_pipeline, exit_code,
    lookup_candidates, open_mode, OpenMode, PipelineStep, SinglePlan,
};
use updsh::parser::{Command, Redirect};

fn s(v: &[&str]) -> Vec<String> {
    v.iter().map(|x| x.to_string()).collect()
}

fn cmd(args: &[&str], background: bool) -> Command {
    Command { args: s(args), redirects: vec![], background }
}

fn redir(fd: u32, target: &str, append: bool, input: bool) -> Redirect {
    Redirect { fd, target: target.to_string(), append, input, dup: None }
}

#[test]
fn lookup_with_slash_is_the_name() {
    assert_eq!(lookup_candidates("./run", Some("/bin")), s(&["./run"]));
    assert_eq!(lookup_candidates("/usr/bin/env", None), s(&["/usr/bin/env"]));
}

#[test]
fn lookup_joins_each_path_entry() {
    assert_eq!(
        lookup_candidates("ls", Some("/usr/bin:/bin/::x")),
        s(&["/usr/bin/ls", "/bin/ls", "ls", "x/ls"])
    );
    assert!(lookup_candidates("ls", None).is_empty());
    assert_eq!(lookup_candidates("ls", Some("")), s(&["ls"]));
}

#[test]
fn exec_args_drop_nul() {
    assert_eq!(exec_args(&s(&["a", "b\0c", "d"])), s(&["a", "d"]));
}

#[test]
fn job_texts() {
    assert_eq!(command_job_text(&cmd(&["sleep", "10"], true)), "sleep 10");
    match execute_pipeline(&[cmd(&["ls"], false), cmd(&["wc", "-l"], true)]) {
        PipelineStep::Piped { foreground, job_text } => {
            assert!(!foreground);
            assert_eq!(job_text, "ls | wc -l");
        }
        _ => panic!(),
    }
}

#[test]
fn pipeline_shapes() {
    assert!(matches!(execute_pipeline(&[]), PipelineStep::Nothing));
    assert!(matches!(execute_pipeline(&[cmd(&["ls"], false)]), PipelineStep::Single));
    assert!(matches!(
        execute_pipeline(&[cmd(&["a"], true), cmd(&["b"], false)]),
        PipelineStep::Piped { foreground: true, .. }
    ));
}

#[test]
fn single_command_plans() {
    assert!(matches!(execute_external(&cmd(&[], false), true), SinglePlan::Nothing));
    assert!(matches!(execute_external(&cmd(&["cd"], false), true), SinglePlan::Done));
    let mut c = cmd(&["echo", "hi"], false);
    c.redirects.push(redir(1, "out", false, false));
    match execute_external(&c, true) {
        SinglePlan::Builtin { foreground, job_text } => {
            assert!(foreground);
            assert_eq!(job_text, "echo hi");
        }
        _ => panic!(),
    }
    match execute_external(&cmd(&["sleep", "1"], true), false) {
        SinglePlan::External { foreground, job_text } => {
            assert!(!foreground);
            assert_eq!(job_text, "sleep 1");
        }
        _ => panic!(),
    }
}

#[test]
fn open_modes() {
    assert!(open_mode(&redir(0, "f", false, true)) == OpenMode::Read);
    assert!(open_mode(&redir(1, "f", true, false)) == OpenMode::Append);
    assert!(open_mode(&redir(2, "f", false, false)) == OpenMode::Truncate);
}

#[test]
fn exit_codes_from_wait_status() {
    assert_eq!(exit_code(0), 0);
    assert_eq!(exit_code(3 << 8), 3);
    assert_eq!(exit_code(255 << 8), 255);
    assert_eq!(exit_code(9), 1);
    assert_eq!(exit_code(0x7f), 1);
}
