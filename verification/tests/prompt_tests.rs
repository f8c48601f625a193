use updsh::config::ShellConfig;
use updsh::prompt::{build_prompt, code_to_bg, prompt_char, shorten_home, style, PromptContext};

fn ctx(branch: Option<&str>, exit_code: i32, width: usize) -> PromptContext {
    PromptContext {
        user: "u".to_string(),
        host: "h".to_string(),
        cwd: "~".to_string(),
        branch: branch.map(|b| b.to_string()),
        prompt_char: "$".to_string(),
        exit_code,
        width,
    }
}

fn cfg(style: &str) -> ShellConfig {
    let mut c = ShellConfig::default();
    c.prompt_style = style.to_string();
    c
}

#[test]
fn style_wraps_in_colour() {
    assert_eq!(style("x", "31"), "\x1b[31mx\x1b[0m");
    assert_eq!(style("x", ""), "x");
    assert_eq!(style("x", "0"), "x");
}

#[test]
fn prompt_char_for_root() {
    assert_eq!(prompt_char(Some("root")), "#");
    assert_eq!(prompt_char(Some("alice")), "$");
    assert_eq!(prompt_char(None), "$");
}

#[test]
fn home_becomes_tilde() {
    assert_eq!(shorten_home("/home/u/src", Some("/home/u")), "~/src");
    assert_eq!(shorten_home("/etc", Some("/home/u")), "/etc");
    assert_eq!(shorten_home("/home/u", None), "/home/u");
}

#[test]
fn background_codes() {
    assert_eq!(code_to_bg("32"), "\x1b[42m");
    assert_eq!(code_to_bg("1;34"), "\x1b[44m");
    assert_eq!(code_to_bg("93"), "\x1b[94m");
    assert_eq!(code_to_bg("38;5;208"), "\x1b[208m");
    assert_eq!(code_to_bg(""), "\x1b[m");
}

#[test]
fn plain_prompt() {
    assert_eq!(build_prompt(&cfg("plain"), &ctx(None, 3, 80)).unwrap(), "~ $ ");
    assert_eq!(build_prompt(&cfg("plain"), &ctx(Some("main"), 0, 80)).unwrap(), "~ $ (main) ");
}

#[test]
fn minimal_prompt() {
    assert_eq!(
        build_prompt(&cfg("minimal"), &ctx(Some("main"), 1, 80)).unwrap(),
        "\x1b[31m1\x1b[0m \x1b[33m~\x1b[0m \x1b[31m(main)\x1b[0m \x1b[32m$\x1b[0m "
    );
    assert_eq!(
        build_prompt(&cfg("minimal"), &ctx(None, 0, 80)).unwrap(),
        "\x1b[33m~\x1b[0m \x1b[32m$\x1b[0m "
    );
}

#[test]
fn powerline_prompt() {
    assert_eq!(
        build_prompt(&cfg("powerline"), &ctx(None, 0, 80)).unwrap(),
        "\x1b[42m\x1b[30m u \x1b[42m\x1b[32m\x1b[44m\x1b[30m h \x1b[44m\x1b[34m\x1b[43m\x1b[30m ~\x1b[0m \x1b[32m$\x1b[0m"
    );
    assert_eq!(
        build_prompt(&cfg("powerline"), &ctx(Some("b"), 2, 80)).unwrap(),
        "\x1b[31m2\x1b[0m \x1b[42m\x1b[30m u \x1b[42m\x1b[32m\x1b[44m\x1b[30m h \x1b[44m\x1b[34m\x1b[43m\x1b[30m ~ \x1b[41m\x1b[31m\x1b[41m\x1b[30m b\x1b[0m \x1b[32m$\x1b[0m \x1b[0m"
    );
}

#[test]
fn multiline_prompt() {
    let top = "\x1b[90m┌─\x1b[0m\x1b[32mu\x1b[0m@\x1b[34mh\x1b[0m \x1b[90m─\x1b[0m \x1b[33m~\x1b[0m";
    let bottom = "\n\x1b[90m└─\x1b[0m\x1b[32m$\x1b[0m ";
    assert_eq!(
        build_prompt(&cfg("multiline"), &ctx(None, 0, 200)).unwrap(),
        format!("{}{}", top, bottom)
    );
    assert_eq!(
        build_prompt(&cfg("anything"), &ctx(Some("dev"), 127, 200)).unwrap(),
        format!(
            "{} \x1b[90m(\x1b[0m\x1b[31mdev\x1b[0m)\x1b[90m \x1b[31m\u{2717} 127\x1b[0m{}",
            top, bottom
        )
    );
}

#[test]
fn multiline_truncates_to_width() {
    let p = build_prompt(&cfg("multiline"), &ctx(None, 0, 20)).unwrap();
    assert_eq!(p, "\x1b[90m┌─\x1b[\x1b[90m…\x1b[0m\n\x1b[90m└─\x1b[0m\x1b[32m$\x1b[0m ");
    let p = build_prompt(&cfg("multiline"), &ctx(None, 0, 2)).unwrap();
    assert_eq!(p, "\x1b[90m…\x1b[0m\n\x1b[90m└─\x1b[0m\x1b[32m$\x1b[0m ");
}

#[test]
fn multiline_cut_inside_a_character_has_no_prompt() {
    // The cut would fall inside '┌': no prompt is made.
    assert!(build_prompt(&cfg("multiline"), &ctx(None, 0, 13)).is_none());
}
