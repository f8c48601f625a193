use updsh::job::{done_notice, format_job_status, JobControl, JobStatus, PidWrapper};

#[test]
fn ids_count_up_from_one() {
    let mut j = JobControl::new();
    assert!(j.is_empty());
    assert_eq!(j.add_job(PidWrapper(100), "sleep 1".to_string(), false), 1);
    assert_eq!(j.add_job(PidWrapper(200), "sleep 2".to_string(), false), 2);
    assert_eq!(j.next_id(), 3);
    assert!(!j.is_empty());
}

#[test]
fn new_job_is_running_and_found() {
    let mut j = JobControl::new();
    let id = j.add_job(PidWrapper(100), "sleep 1".to_string(), true);
    let job = j.get_job(id).unwrap();
    assert_eq!(job.pid.0, 100);
    assert_eq!(job.command, "sleep 1");
    assert!(job.status == JobStatus::Running);
    assert!(job.foreground);
}

#[test]
fn ids_are_not_reused_after_removal() {
    let mut j = JobControl::new();
    let a = j.add_job(PidWrapper(1), "a".to_string(), false);
    assert!(j.remove_job(a).is_some());
    let b = j.add_job(PidWrapper(2), "b".to_string(), false);
    assert_eq!(b, 2);
    assert!(j.get_job(a).is_none());
}

#[test]
fn remove_returns_job_once() {
    let mut j = JobControl::new();
    let id = j.add_job(PidWrapper(7), "x".to_string(), false);
    let r = j.remove_job(id).unwrap();
    assert_eq!(r.pid.0, 7);
    assert!(j.remove_job(id).is_none());
    assert!(j.get_job(id).is_none());
}

#[test]
fn update_changes_status_only() {
    let mut j = JobControl::new();
    let id = j.add_job(PidWrapper(7), "x".to_string(), false);
    j.update_job(id, JobStatus::Stopped);
    let job = j.get_job(id).unwrap();
    assert!(job.status == JobStatus::Stopped);
    assert_eq!(job.command, "x");
    j.update_job(99, JobStatus::Done);
    assert_eq!(j.list_jobs().len(), 1);
}

#[test]
fn list_in_id_order() {
    let mut j = JobControl::new();
    j.add_job(PidWrapper(3), "c".to_string(), false);
    j.add_job(PidWrapper(1), "a".to_string(), false);
    j.add_job(PidWrapper(2), "b".to_string(), false);
    let ids: Vec<u32> = j.list_jobs().iter().map(|x| x.id).collect();
    assert_eq!(ids, vec![1, 2, 3]);
}

#[test]
fn cleanup_drops_finished_jobs() {
    let mut j = JobControl::new();
    let a = j.add_job(PidWrapper(1), "a".to_string(), false);
    let b = j.add_job(PidWrapper(2), "b".to_string(), false);
    let c = j.add_job(PidWrapper(3), "c".to_string(), false);
    let d = j.add_job(PidWrapper(4), "d".to_string(), false);
    j.update_job(a, JobStatus::Done);
    j.update_job(b, JobStatus::Terminated);
    j.update_job(c, JobStatus::Stopped);
    j.cleanup_done();
    let ids: Vec<u32> = j.list_jobs().iter().map(|x| x.id).collect();
    assert_eq!(ids, vec![c, d]);
}

#[test]
fn find_by_pid() {
    let mut j = JobControl::new();
    let a = j.add_job(PidWrapper(10), "a".to_string(), false);
    let b = j.add_job(PidWrapper(20), "b".to_string(), false);
    assert_eq!(j.find_by_pid(10), Some(a));
    assert_eq!(j.find_by_pid(20), Some(b));
    assert_eq!(j.find_by_pid(30), None);
}

#[test]
fn child_exit_marks_job_done() {
    let mut j = JobControl::new();
    let a = j.add_job(PidWrapper(10), "sleep 3".to_string(), false);
    assert_eq!(j.child_exited(10), Some((a, "sleep 3".to_string())));
    assert!(j.get_job(a).unwrap().status == JobStatus::Done);
    assert_eq!(j.child_exited(99), None);
    j.cleanup_done();
    assert!(j.is_empty());
}

#[test]
fn status_lines() {
    let mut j = JobControl::new();
    let id = j.add_job(PidWrapper(10), "sleep 3".to_string(), false);
    assert_eq!(format_job_status(j.get_job(id).unwrap()), "[1] Running  sleep 3");
    j.update_job(id, JobStatus::Terminated);
    assert_eq!(format_job_status(j.get_job(id).unwrap()), "[1] Terminated  sleep 3");
    assert_eq!(done_notice(12, "make"), "[12]  Done  make");
}

#[test]
fn listing_stays_ascending_after_removal_and_adds() {
    let mut j = JobControl::new();
    let a = j.add_job(PidWrapper(1), "a".to_string(), false);
    let b = j.add_job(PidWrapper(2), "b".to_string(), false);
    j.remove_job(a);
    let c = j.add_job(PidWrapper(3), "c".to_string(), false);
    assert!(c > b);
    let ids: Vec<u32> = j.list_jobs().iter().map(|x| x.id).collect();
    assert_eq!(ids, vec![2, 3]);
    assert!(j.get_job(a).is_none());
    assert_eq!(j.find_by_pid(3), Some(c));
    assert_eq!(j.find_by_pid(1), None);
}
