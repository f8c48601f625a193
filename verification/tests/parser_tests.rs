use updsh::parser::{parse_line, Command, Pipeline, ShellEnv};

fn env() -> ShellEnv {
    ShellEnv {
        vars: vec![
            ("HOME".to_string(), "/home/u".to_string()),
            ("USER".to_string(), "me".to_string()),
            ("A_1".to_string(), "x".to_string()),
        ],
        pid: 42,
    }
}

fn args(c: &Command) -> Vec<&str> {
    c.args.iter().map(|s| s.as_str()).collect()
}

fn only(p: &[Pipeline]) -> &Command {
    assert_eq!(p.len(), 1);
    assert_eq!(p[0].commands.len(), 1);
    &p[0].commands[0]
}

#[test]
fn simple_words() {
    let p = parse_line("ls -la  /tmp", &env());
    let c = only(&p);
    assert_eq!(args(c), vec!["ls", "-la", "/tmp"]);
    assert!(c.redirects.is_empty());
    assert!(!c.background);
}

#[test]
fn pipe_makes_two_commands() {
    let p = parse_line("ls -la | grep foo", &env());
    assert_eq!(p.len(), 1);
    assert_eq!(p[0].commands.len(), 2);
    assert_eq!(args(&p[0].commands[0]), vec!["ls", "-la"]);
    assert_eq!(args(&p[0].commands[1]), vec!["grep", "foo"]);
}

#[test]
fn semicolon_makes_two_pipelines() {
    let p = parse_line("a; b c", &env());
    assert_eq!(p.len(), 2);
    assert_eq!(args(&p[0].commands[0]), vec!["a"]);
    assert_eq!(args(&p[1].commands[0]), vec!["b", "c"]);
}

#[test]
fn ampersand_marks_background() {
    let p = parse_line("sleep 5 & echo hi", &env());
    assert_eq!(p.len(), 2);
    assert!(p[0].commands[0].background);
    assert_eq!(args(&p[0].commands[0]), vec!["sleep", "5"]);
    assert!(!p[1].commands[0].background);
}

#[test]
fn redirections() {
    let p = parse_line("cat < in >> log 2> err > out", &env());
    let c = only(&p);
    assert_eq!(args(c), vec!["cat"]);
    assert_eq!(c.redirects.len(), 4);
    let r = &c.redirects;
    assert_eq!((r[0].fd, r[0].target.as_str(), r[0].append, r[0].input), (0, "in", false, true));
    assert_eq!((r[1].fd, r[1].target.as_str(), r[1].append, r[1].input), (1, "log", true, false));
    assert_eq!((r[2].fd, r[2].target.as_str(), r[2].append, r[2].input), (2, "err", false, false));
    assert_eq!((r[3].fd, r[3].target.as_str(), r[3].append, r[3].input), (1, "out", false, false));
}

#[test]
fn append_stderr_redirect() {
    let p = parse_line("make 2>> build.log", &env());
    let c = only(&p);
    assert_eq!(c.redirects.len(), 1);
    assert_eq!(c.redirects[0].fd, 2);
    assert!(c.redirects[0].append);
    assert_eq!(c.redirects[0].target, "build.log");
}

#[test]
fn quotes_group_words() {
    let p = parse_line("echo 'a b' \"c d\" e'f g'h", &env());
    assert_eq!(args(only(&p)), vec!["echo", "a b", "c d", "ef gh"]);
}

#[test]
fn specials_inside_double_quotes() {
    let p = parse_line("echo \"a;b|c&d\"", &env());
    assert_eq!(args(only(&p)), vec!["echo", "a;b|c&d"]);
}

#[test]
fn variables_expand() {
    let p = parse_line("echo $HOME ${USER} $$ $A_1 $NOPE", &env());
    assert_eq!(args(only(&p)), vec!["echo", "/home/u", "me", "42", "x", ""]);
}

#[test]
fn lone_dollar_stays() {
    let p = parse_line("echo $ $-", &env());
    assert_eq!(args(only(&p)), vec!["echo", "$", "$-"]);
}

#[test]
fn variable_in_single_quotes_still_expands_at_flush() {
    // Expansion happens when a word is completed, quotes or not.
    let p = parse_line("echo '$USER'", &env());
    assert_eq!(args(only(&p)), vec!["echo", "me"]);
}

#[test]
fn tilde_at_word_start() {
    let p = parse_line("ls ~/docs a~", &env());
    assert_eq!(args(only(&p)), vec!["ls", "/home/u/docs", "a~"]);
}

#[test]
fn tilde_without_home() {
    let e = ShellEnv { vars: vec![], pid: 1 };
    let p = parse_line("ls ~", &e);
    assert_eq!(args(only(&p)), vec!["ls", "~"]);
}

#[test]
fn escapes() {
    let p = parse_line("echo a\\ b \\$HOME \\n", &env());
    assert_eq!(args(only(&p)), vec!["echo", "a b", "/home/u", "\n"]);
}

#[test]
fn unknown_escape_keeps_backslash_then_expansion_drops_it() {
    let p = parse_line("echo \\q", &env());
    assert_eq!(args(only(&p)), vec!["echo", "q"]);
}

#[test]
fn trailing_backslash() {
    let p = parse_line("echo a\\", &env());
    assert_eq!(args(only(&p)), vec!["echo", "a\\"]);
}

#[test]
fn blank_line_gives_nothing() {
    assert!(parse_line("   \t ", &env()).is_empty());
    assert!(parse_line("", &env()).is_empty());
}

#[test]
fn comment_line_gives_nothing() {
    assert!(parse_line("# just a comment", &env()).is_empty());
    let p = parse_line("echo a # not a comment", &env());
    assert_eq!(args(only(&p)), vec!["echo", "a", "#", "not", "a", "comment"]);
}

#[test]
fn empty_parts_are_dropped() {
    let p = parse_line(";; | ls ;", &env());
    assert_eq!(p.len(), 1);
    assert_eq!(p[0].commands.len(), 1);
    assert_eq!(args(&p[0].commands[0]), vec!["ls"]);
    for pl in &p {
        assert!(!pl.commands.is_empty());
        for c in &pl.commands {
            assert!(!c.args.is_empty() || !c.redirects.is_empty());
        }
    }
}

#[test]
fn plain_words_pipes_and_sequences() {
    let p = parse_line("ls -l | wc -l; echo a b", &env());
    assert_eq!(p.len(), 2);
    assert_eq!(p[0].commands.len(), 2);
    assert_eq!(args(&p[0].commands[0]), vec!["ls", "-l"]);
    assert_eq!(args(&p[0].commands[1]), vec!["wc", "-l"]);
    assert_eq!(p[1].commands.len(), 1);
    assert_eq!(args(&p[1].commands[0]), vec!["echo", "a", "b"]);
    for pl in &p {
        for c in &pl.commands {
            assert!(c.redirects.is_empty());
            assert!(!c.background);
        }
    }
}

#[test]
fn stderr_onto_stdout() {
    let p = parse_line("ls 2>&1", &env());
    let c = only(&p);
    assert_eq!(args(c), vec!["ls"]);
    assert!(!c.background);
    assert_eq!(c.redirects.len(), 1);
    let r = &c.redirects[0];
    assert_eq!((r.fd, r.dup, r.target.as_str(), r.append, r.input), (2, Some(1), "", false, false));
}

#[test]
fn stderr_onto_stdout_among_other_words() {
    let p = parse_line("make > log 2>&1 all", &env());
    let c = only(&p);
    assert_eq!(args(c), vec!["make", "all"]);
    assert_eq!(c.redirects.len(), 2);
    assert_eq!((c.redirects[0].fd, c.redirects[0].target.as_str(), c.redirects[0].dup), (1, "log", None));
    assert_eq!((c.redirects[1].fd, c.redirects[1].dup), (2, Some(1)));
}

#[test]
fn other_descriptor_copies_are_background_and_a_new_command() {
    let cases: [(&str, Vec<&str>, Option<u32>, &str); 4] = [
        ("echo hi 1>&2", vec!["echo", "hi", "1>"], None, "2"),
        ("echo hi >&2", vec!["echo", "hi"], Some(1), "2"),
        ("echo hi 2>&12", vec!["echo", "hi"], Some(2), "12"),
        ("echo hi 2>&x", vec!["echo", "hi"], Some(2), "x"),
    ];
    for (line, words, fd, rest) in cases {
        let p = parse_line(line, &env());
        assert_eq!(p.len(), 2, "{}", line);
        let c = &p[0].commands[0];
        assert!(c.background);
        assert_eq!(args(c), words);
        match fd {
            Some(f) => {
                assert_eq!(c.redirects.len(), 1);
                assert_eq!((c.redirects[0].fd, c.redirects[0].target.as_str(), c.redirects[0].dup), (f, "", None));
            }
            None => assert!(c.redirects.is_empty()),
        }
        assert_eq!(args(&p[1].commands[0]), vec![rest]);
    }
}

#[test]
fn stderr_onto_stdout_then_background_and_quoted() {
    let p = parse_line("ls 2>&1&", &env());
    let c = only(&p);
    assert!(c.background);
    assert_eq!((c.redirects[0].fd, c.redirects[0].dup), (2, Some(1)));
    let p = parse_line("ls 2>&", &env());
    let c = only(&p);
    assert!(c.background);
    assert_eq!((c.redirects[0].fd, c.redirects[0].dup), (2, None));
    let p = parse_line("echo '2>&1'", &env());
    let c = only(&p);
    assert_eq!(args(c), vec!["echo", "2>&1"]);
    assert!(c.redirects.is_empty());
}

#[test]
fn ampersand_after_other_words_still_backgrounds() {
    let p = parse_line("sleep 1 a>& b", &env());
    assert_eq!(p.len(), 2);
    assert!(p[0].commands[0].background);
    assert_eq!(args(&p[0].commands[0]), vec!["sleep", "1", "a>"]);
}

#[test]
fn ampersand_ends_the_pipeline_it_stands_in() {
    let p = parse_line("echo hi | cat & grep x | wc", &env());
    assert_eq!(p.len(), 2);
    assert_eq!(p[0].commands.len(), 2);
    assert!(!p[0].commands[0].background);
    assert!(p[0].commands[1].background);
    assert_eq!(args(&p[1].commands[0]), vec!["grep", "x"]);
    assert!(!p[1].commands[0].background);
    assert!(!p[1].commands[1].background);
}

#[test]
fn single_quotes_keep_separators_in_one_word() {
    let p = parse_line("echo 'a | b; c & #d'", &env());
    let c = only(&p);
    assert_eq!(args(c), vec!["echo", "a | b; c & #d"]);
    assert!(!c.background);
}
