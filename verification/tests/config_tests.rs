use updsh::config::{color_code, config_from, ShellConfig};
use updsh::parser::ShellEnv;

fn no_env() -> ShellEnv {
    ShellEnv { vars: vec![], pid: 1 }
}

fn env(v: &[(&str, &str)]) -> ShellEnv {
    ShellEnv { vars: v.iter().map(|(a, b)| (a.to_string(), b.to_string())).collect(), pid: 1 }
}

fn assert_default(c: &ShellConfig) {
    assert_eq!(c.prompt_style, "multiline");
    assert_eq!(c.color_user, "32");
    assert_eq!(c.color_host, "34");
    assert_eq!(c.color_path, "33");
    assert_eq!(c.color_git, "31");
    assert_eq!(c.color_exit, "31");
    assert!(c.show_git);
    assert!(c.show_exit_code);
}

#[test]
fn default_values() {
    assert_default(&ShellConfig::default());
}

#[test]
fn unreadable_file_gives_default() {
    assert_default(&config_from(None, &no_env()));
    // The environment is not consulted when the file cannot be read.
    assert_default(&config_from(None, &env(&[("UPD_PROMPT_STYLE", "plain")])));
}

#[test]
fn empty_file_gives_default() {
    assert_default(&config_from(Some(""), &no_env()));
}

#[test]
fn colour_names() {
    assert_eq!(color_code("red"), "31");
    assert_eq!(color_code("bblue"), "1;34");
    assert_eq!(color_code("1;37"), "1;37");
    assert_eq!(color_code("white"), "37");
    assert_eq!(color_code("38;5;208"), "38;5;208");
    assert_eq!(color_code("Red"), "Red");
    assert_eq!(color_code(&color_code("magenta")), color_code("magenta"));
}

#[test]
fn file_settings() {
    let file = "# comment\n\
                UPD_PROMPT_STYLE = \"PowerLine\"\n\
                UPD_COLOR_USER='cyan'\n\
                UPD_COLOR_HOST=bred\n\
                UPD_COLOR_PATH=white\n\
                UPD_COLOR_GIT=35\n\
                UPD_COLOR_EXIT=bwhite\n\
                UPD_SHOW_GIT=no\n\
                UPD_SHOW_EXIT_CODE=true\n\
                garbage line\n";
    let c = config_from(Some(file), &no_env());
    assert_eq!(c.prompt_style, "powerline");
    assert_eq!(c.color_user, "36");
    assert_eq!(c.color_host, "1;31");
    assert_eq!(c.color_path, "37");
    assert_eq!(c.color_git, "35");
    assert_eq!(c.color_exit, "1;37");
    assert!(!c.show_git);
    assert!(c.show_exit_code);
}

#[test]
fn later_file_line_wins() {
    let c = config_from(Some("UPD_COLOR_USER=red\nUPD_COLOR_USER=blue\n"), &no_env());
    assert_eq!(c.color_user, "34");
}

#[test]
fn environment_overrides_file() {
    let e = env(&[
        ("UPD_COLOR_USER", "yellow"),
        ("UPD_COLOR_HOST", ""),
        ("UPD_PROMPT_STYLE", "MINIMAL"),
        ("UPD_SHOW_GIT", "1"),
        ("UPD_SHOW_EXIT_CODE", ""),
    ]);
    let c = config_from(Some("UPD_COLOR_HOST=red\nUPD_SHOW_GIT=no\n"), &e);
    assert_eq!(c.color_user, "33");
    assert_eq!(c.color_host, "31");
    assert_eq!(c.prompt_style, "minimal");
    assert!(c.show_git);
    assert!(!c.show_exit_code);
}

#[test]
fn colour_codes_are_fixed_points() {
    for x in ["green", "bcyan", "32", "1;36", "#ff0000", "pink", ""] {
        assert_eq!(color_code(&color_code(x)), color_code(x));
    }
    assert_eq!(color_code("green"), "32");
    assert_eq!(color_code("bcyan"), "1;36");
    assert_eq!(color_code("pink"), "pink");
}
