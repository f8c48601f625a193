use updsh::alias::{get, init, list, load_text, save_text, Aliases};

fn fresh() -> Aliases {
    let mut a = Aliases::new();
    init(&mut a);
    a
}

#[test]
fn saved_aliases_load_in_a_new_store() {
    let mut a = fresh();
    updsh::alias::set(&mut a, "ll", "ls -la");
    updsh::alias::set(&mut a, "gs", "git status --short");
    let text = save_text(&a);
    assert_eq!(text, "gs=git status --short\nll=ls -la\n");
    let mut b = fresh();
    load_text(&mut b, &text);
    assert_eq!(get(&b, "ll"), Some("ls -la".to_string()));
    assert_eq!(get(&b, "gs"), Some("git status --short".to_string()));
    assert_eq!(list(&b), list(&a));
}

#[test]
fn values_may_hold_equals_signs() {
    let mut a = fresh();
    updsh::alias::set(&mut a, "e", "env A=1 B=2");
    let mut b = fresh();
    load_text(&mut b, &save_text(&a));
    assert_eq!(get(&b, "e"), Some("env A=1 B=2".to_string()));
}

#[test]
fn loading_skips_lines_without_equals_and_later_lines_win() {
    let mut b = fresh();
    load_text(&mut b, "junk\nx=1\nx=2\n\n");
    assert_eq!(list(&b), vec![("x".to_string(), "2".to_string())]);
}

#[test]
fn nothing_before_init() {
    let mut a = Aliases::new();
    assert_eq!(save_text(&a), "");
    load_text(&mut a, "x=1\n");
    assert_eq!(get(&a, "x"), None);
    assert_eq!(save_text(&fresh()), "");
}

#[test]
fn newlines_backslashes_and_equals_in_names_survive() {
    let mut a = fresh();
    updsh::alias::set(&mut a, "two", "echo a\necho b\\n");
    updsh::alias::set(&mut a, "a=b", "c");
    let text = save_text(&a);
    assert_eq!(text, "a\\eb=c\ntwo=echo a\\necho b\\\\n\n");
    let mut b = fresh();
    load_text(&mut b, &text);
    assert_eq!(get(&b, "two"), Some("echo a\necho b\\n".to_string()));
    assert_eq!(get(&b, "a=b"), Some("c".to_string()));
    assert_eq!(list(&b), list(&a));
}
