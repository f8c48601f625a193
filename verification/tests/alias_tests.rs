use updsh::alias::{expand, get, init, list, remove, Aliases};

fn table() -> Aliases {
    let mut a = Aliases::new();
    init(&mut a);
    a
}

#[test]
fn set_then_get() {
    let mut a = table();
    updsh::alias::set(&mut a, "ll", "ls -la");
    assert_eq!(get(&a, "ll"), Some("ls -la".to_string()));
    assert_eq!(get(&a, "la"), None);
}

#[test]
fn set_overwrites() {
    let mut a = table();
    updsh::alias::set(&mut a, "g", "git");
    updsh::alias::set(&mut a, "g", "grep");
    assert_eq!(get(&a, "g"), Some("grep".to_string()));
    assert_eq!(list(&a).len(), 1);
}

#[test]
fn remove_reports_presence() {
    let mut a = table();
    updsh::alias::set(&mut a, "ll", "ls -la");
    assert!(remove(&mut a, "ll"));
    assert!(!remove(&mut a, "ll"));
    assert_eq!(get(&a, "ll"), None);
}

#[test]
fn uninitialised_table_ignores_everything() {
    let mut a = Aliases::new();
    updsh::alias::set(&mut a, "ll", "ls -la");
    assert_eq!(get(&a, "ll"), None);
    assert!(!remove(&mut a, "ll"));
    assert!(list(&a).is_empty());
    assert_eq!(expand(&a, "ll /tmp"), "ll /tmp");
}

#[test]
fn init_keeps_existing_table() {
    let mut a = table();
    updsh::alias::set(&mut a, "x", "y");
    init(&mut a);
    assert_eq!(get(&a, "x"), Some("y".to_string()));
}

#[test]
fn list_is_sorted_by_name() {
    let mut a = table();
    updsh::alias::set(&mut a, "zz", "1");
    updsh::alias::set(&mut a, "aa", "2");
    updsh::alias::set(&mut a, "mm", "3");
    let l = list(&a);
    let names: Vec<&str> = l.iter().map(|(k, _)| k.as_str()).collect();
    assert_eq!(names, vec!["aa", "mm", "zz"]);
    assert_eq!(l[0].1, "2");
}

#[test]
fn expand_first_word() {
    let mut a = table();
    updsh::alias::set(&mut a, "ll", "ls -la");
    assert_eq!(expand(&a, "ll /tmp"), "ls -la /tmp");
    assert_eq!(expand(&a, "ll"), "ls -la ");
    assert_eq!(expand(&a, "ll    x  "), "ls -la x  ");
}

#[test]
fn expand_leaves_other_lines() {
    let mut a = table();
    updsh::alias::set(&mut a, "ll", "ls -la");
    assert_eq!(expand(&a, "echo ll"), "echo ll");
    assert_eq!(expand(&a, "   "), "   ");
    assert_eq!(expand(&a, ""), "");
}

#[test]
fn expand_with_leading_space_slices_by_word_length() {
    // The rest is taken after as many bytes as the first word has,
    // counted from the start of the line.
    let mut a = table();
    updsh::alias::set(&mut a, "ab", "X");
    assert_eq!(expand(&a, " ab cd"), "X b cd");
}
