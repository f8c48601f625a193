use updsh::session::{accept_line, greeting, os_name, LineAction, MAX_INPUT_LEN};

#[test]
fn lines_are_trimmed_or_skipped() {
    assert!(matches!(accept_line("  ls -la \t"), LineAction::Run(s) if s == "ls -la"));
    assert!(matches!(accept_line(" \t "), LineAction::Blank));
    assert!(matches!(accept_line(""), LineAction::Blank));
}

#[test]
fn long_lines_are_refused() {
    let ok = "a".repeat(MAX_INPUT_LEN);
    assert!(matches!(accept_line(&ok), LineAction::Run(_)));
    let long = "a".repeat(MAX_INPUT_LEN + 1);
    assert!(matches!(accept_line(&long), LineAction::TooLong));
    // Bytes are counted, not characters.
    let wide = "é".repeat(MAX_INPUT_LEN / 2 + 1);
    assert!(matches!(accept_line(&wide), LineAction::TooLong));
    let blank = " ".repeat(MAX_INPUT_LEN + 1);
    assert!(matches!(accept_line(&blank), LineAction::TooLong));
}

#[test]
fn os_name_from_os_release() {
    let f = "NAME=\"Arch\"\nPRETTY_NAME=\"Arch Linux\"\nID=arch\n";
    assert_eq!(os_name(Some(f)), "Arch Linux");
    assert_eq!(os_name(Some("PRETTY_NAME=a=b\n")), "a");
    assert_eq!(os_name(Some("PRETTY_NAME=\n")), "");
    assert_eq!(os_name(Some("ID=x\n")), "Linux");
    assert_eq!(os_name(None), "Linux");
    assert_eq!(os_name(Some(" PRETTY_NAME=x")), "Linux");
}

#[test]
fn greeting_box() {
    let g = greeting(None, "box", "Linux");
    assert_eq!(g.len(), 6);
    assert_eq!(g[0], "");
    assert_eq!(
        g[1],
        "  \x1b[90m╭───\x1b[0m \x1b[1;34mupdSH\x1b[0m \x1b[90m───╮\x1b[0m"
    );
    assert_eq!(
        g[2],
        "  \x1b[90m│\x1b[0m \x1b[32muser\x1b[0m@\x1b[34mbox\x1b[0m  \x1b[90m│\x1b[0m"
    );
    assert_eq!(g[3], "  \x1b[90m│\x1b[0m \x1b[33mLinux\x1b[0m  \x1b[90m│\x1b[0m");
    assert_eq!(
        g[4],
        "  \x1b[90m╰──────╯\x1b[0m \x1b[2m  Type help for commands\x1b[0m"
    );
    assert_eq!(g[5], "");
    assert!(greeting(Some("ann"), "h", "x")[2].contains("\x1b[32mann\x1b[0m"));
}
