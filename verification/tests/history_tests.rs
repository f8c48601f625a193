use updsh::history::{History, HistoryHelper};

fn strings(v: &[&str]) -> Vec<String> {
    v.iter().map(|s| s.to_string()).collect()
}

#[test]
fn loads_non_blank_lines() {
    let h = History::new("/tmp/h".to_string(), strings(&["ls", "  ", "", " cd /tmp "]));
    assert_eq!(h.all(), &strings(&["ls", " cd /tmp "])[..]);
    assert_eq!(h.len(), 2);
    assert_eq!(h.file_path(), "/tmp/h");
}

#[test]
fn add_trims_and_reports_line_to_append() {
    let mut h = History::new("/tmp/h".to_string(), vec![]);
    assert_eq!(h.add("  ls -la  "), Some("ls -la".to_string()));
    assert_eq!(h.all(), &strings(&["ls -la"])[..]);
}

#[test]
fn add_skips_blank() {
    let mut h = History::new("/tmp/h".to_string(), vec![]);
    assert_eq!(h.add("   "), None);
    assert_eq!(h.len(), 0);
}

#[test]
fn add_skips_repeat_of_last() {
    let mut h = History::new("/tmp/h".to_string(), vec![]);
    h.add("ls");
    assert_eq!(h.add(" ls "), None);
    assert_eq!(h.len(), 1);
    h.add("pwd");
    assert_eq!(h.add("ls"), Some("ls".to_string()));
    assert_eq!(h.all(), &strings(&["ls", "pwd", "ls"])[..]);
}

#[test]
fn add_drops_oldest_past_limit() {
    let lines: Vec<String> = (0..10000).map(|i| format!("cmd{}", i)).collect();
    let mut h = History::new("/tmp/h".to_string(), lines);
    assert_eq!(h.len(), 10000);
    h.add("new");
    assert_eq!(h.len(), 10000);
    assert_eq!(h.all()[0], "cmd1");
    assert_eq!(h.all()[9999], "new");
}

#[test]
fn search_newest_first_at_most_ten() {
    let lines: Vec<String> = (0..15).map(|i| format!("git {}", i)).collect();
    let mut h = History::new("/tmp/h".to_string(), lines);
    h.add("ls");
    let r = h.search("git");
    assert_eq!(r.len(), 10);
    assert_eq!(r[0], "git 14");
    assert_eq!(r[9], "git 5");
    assert_eq!(h.search("ls"), strings(&["ls"]));
    assert!(h.search("nothing").is_empty());
}

#[test]
fn helper_steps_back_and_forth() {
    let e = strings(&["a", "b"]);
    let mut c = HistoryHelper::new(&e);
    assert_eq!(c.idx, 2);
    assert_eq!(c.prev(), Some("b"));
    assert_eq!(c.prev(), Some("a"));
    assert_eq!(c.prev(), None);
    assert_eq!(c.next(), Some("b"));
    assert_eq!(c.next(), None);
    assert_eq!(c.next(), None);
}

#[test]
fn appended_line_reads_back_as_newest() {
    let file = strings(&["ls", "", "pwd"]);
    let mut h = History::new("/tmp/h".to_string(), file.clone());
    let line = h.add("  make test  ").unwrap();
    assert_eq!(line, "make test");
    assert_eq!(h.all().last().unwrap(), "make test");
    let mut again = file.clone();
    again.push(line);
    let reread = History::new("/tmp/h".to_string(), again);
    assert_eq!(reread.all(), h.all());
}

#[test]
fn history_reads_back_in_a_new_session() {
    let file = "ls\n\ncd /tmp\n".to_string();
    let read = |text: &str| History::new("h".to_string(), text.lines().map(|l| l.to_string()).collect());
    let mut h = read(&file);
    let line = h.add("  echo hi  ").unwrap();
    let file2 = format!("{}{}\n", file, line);
    let h2 = read(&file2);
    assert_eq!(h2.all(), h.all());
    assert_eq!(h2.all().last().unwrap(), "echo hi");
}
