//! The table of background jobs.
use vstd::prelude::*;
use crate::num::{decimal, push_decimal};
use crate::text::{from_chars, to_chars};

verus! {

#[derive(Debug, Clone, Copy, PartialEq, Eq, Hash)]
pub struct PidWrapper(pub i32);

#[derive(Debug, Clone, Copy, PartialEq, Eq, Structural)]
pub enum JobStatus {
    Running,
    Stopped,
    Done,
    Terminated,
}

#[derive(Debug)]
pub struct Job {
    pub id: u32,
    pub pid: PidWrapper,
    pub command: String,
    pub status: JobStatus,
    pub foreground: bool,
}

pub struct JobV {
    pub id: u32,
    pub pid: i32,
    pub command: Seq<char>,
    pub status: JobStatus,
    pub foreground: bool,
}

impl View for Job {
    type V = JobV;

    open spec fn view(&self) -> JobV {
        JobV {
            id: self.id,
            pid: self.pid.0,
            command: self.command@,
            status: self.status,
            foreground: self.foreground,
        }
    }
}

/// The jobs in ascending order of id, and the id that the next job gets.
pub struct JobTable {
    pub jobs: Seq<JobV>,
    pub next_id: u32,
}

pub struct JobControl {
    jobs: Vec<Job>,
    next_id: u32,
}

impl View for JobControl {
    type V = JobTable;

    closed spec fn view(&self) -> JobTable {
        JobTable { jobs: self.jobs@.map_values(|j: Job| j@), next_id: self.next_id }
    }
}

pub open spec fn table_wf(t: JobTable) -> bool {
    &&& t.next_id >= 1
    &&& forall|i: int, j: int|
        0 <= i < j < t.jobs.len() ==> (#[trigger] t.jobs[i]).id < (#[trigger] t.jobs[j]).id
    &&& forall|i: int| 0 <= i < t.jobs.len() ==> (#[trigger] t.jobs[i]).id < t.next_id
}

/// Position of the job with id `id`.
pub open spec fn job_index(jobs: Seq<JobV>, id: u32) -> Option<int> {
    if exists|i: int| 0 <= i < jobs.len() && (#[trigger] jobs[i]).id == id {
        Some(choose|i: int| 0 <= i < jobs.len() && (#[trigger] jobs[i]).id == id)
    } else {
        None
    }
}

/// The job with id `id`.
pub open spec fn find_job(t: JobTable, id: u32) -> Option<JobV> {
    match job_index(t.jobs, id) {
        Some(i) => Some(t.jobs[i]),
        None => None,
    }
}

pub open spec fn add_spec(t: JobTable, pid: i32, command: Seq<char>, foreground: bool) -> JobTable {
    JobTable {
        jobs: t.jobs.push(
            JobV {
                id: t.next_id,
                pid: pid,
                command: command,
                status: JobStatus::Running,
                foreground: foreground,
            },
        ),
        next_id: (t.next_id + 1) as u32,
    }
}

pub open spec fn update_spec(t: JobTable, id: u32, status: JobStatus) -> JobTable {
    match job_index(t.jobs, id) {
        Some(i) => JobTable {
            jobs: t.jobs.update(i, JobV { status: status, ..t.jobs[i] }),
            next_id: t.next_id,
        },
        None => t,
    }
}

pub open spec fn remove_spec(t: JobTable, id: u32) -> JobTable {
    match job_index(t.jobs, id) {
        Some(i) => JobTable { jobs: t.jobs.remove(i), next_id: t.next_id },
        None => t,
    }
}

pub open spec fn is_live(j: JobV) -> bool {
    j.status != JobStatus::Done && j.status != JobStatus::Terminated
}

pub open spec fn cleanup_spec(t: JobTable) -> JobTable {
    JobTable { jobs: t.jobs.filter(|j: JobV| is_live(j)), next_id: t.next_id }
}

proof fn lemma_index_unique(t: JobTable, id: u32, i: int)
    requires
        table_wf(t),
        0 <= i < t.jobs.len(),
        t.jobs[i].id == id,
    ensures
        job_index(t.jobs, id) == Some(i),
{
    let k = choose|k: int| 0 <= k < t.jobs.len() && (#[trigger] t.jobs[k]).id == id;
    if k < i {
        assert(t.jobs[k].id < t.jobs[i].id);
    } else if k > i {
        assert(t.jobs[i].id < t.jobs[k].id);
    }
}

/// Removing or updating one job leaves the job under any other id as it
/// was.
pub proof fn lemma_other_jobs_kept(t: JobTable, id: u32, status: JobStatus, other: u32)
    requires
        table_wf(t),
        other != id,
    ensures
        find_job(remove_spec(t, id), other) == find_job(t, other),
        find_job(update_spec(t, id, status), other) == find_job(t, other),
{
    lemma_remove_job_gone(t, id);
    lemma_update_job_seen(t, id, status);
    let tr = remove_spec(t, id);
    let tu = update_spec(t, id, status);
    if job_index(t.jobs, id) is Some {
        let i = job_index(t.jobs, id)->0;
        match job_index(t.jobs, other) {
            Some(c) => {
                assert(c != i);
                let c2 = if c < i { c } else { c - 1 };
                assert(tr.jobs[c2] == t.jobs[c]);
                lemma_index_unique(tr, other, c2);
                assert(tu.jobs[c] == t.jobs[c]);
                lemma_index_unique(tu, other, c);
            },
            None => {
                assert forall|k: int| 0 <= k < tr.jobs.len() implies (#[trigger] tr.jobs[k]).id
                    != other by {
                    let k0 = if k < i { k } else { k + 1 };
                    assert(tr.jobs[k] == t.jobs[k0]);
                }
                assert forall|k: int| 0 <= k < tu.jobs.len() implies (#[trigger] tu.jobs[k]).id
                    != other by {
                    if k != i {
                        assert(tu.jobs[k] == t.jobs[k]);
                    }
                }
            },
        }
    }
}

impl JobControl {
    /// Ids are unique, ascending in the table, and below the next id.
    pub open spec fn wf(&self) -> bool {
        table_wf(self@)
    }

    pub fn new() -> (r: JobControl)
        ensures
            r.wf(),
            r@.jobs == Seq::<JobV>::empty(),
            r@.next_id == 1,
    {
        let r = JobControl { jobs: Vec::new(), next_id: 1 };
        assert(r@.jobs =~= Seq::<JobV>::empty());
        r
    }

    /// The id that the next added job will get.
    pub fn next_id(&self) -> (r: u32)
        ensures
            r == self@.next_id,
    {
        self.next_id
    }

    pub fn add_job(&mut self, pid: PidWrapper, command: String, foreground: bool) -> (id: u32)
        requires
            old(self).wf(),
            old(self)@.next_id < u32::MAX,
        ensures
            final(self).wf(),
            id == old(self)@.next_id,
            final(self)@ == add_spec(old(self)@, pid.0, command@, foreground),
            forall|i: int| 0 <= i < old(self)@.jobs.len() ==> (#[trigger] old(self)@.jobs[i]).id < id,
            find_job(final(self)@, id) == Some(
                JobV {
                    id: id,
                    pid: pid.0,
                    command: command@,
                    status: JobStatus::Running,
                    foreground: foreground,
                },
            ),
            forall|other: u32|
                other != id ==> #[trigger] find_job(final(self)@, other) == find_job(old(self)@, other),
    {
        proof {
            let t = self@;
            lemma_add_job_fresh(t, pid.0, command@, foreground, 0);
            assert forall|other: u32| other != t.next_id implies #[trigger] find_job(
                add_spec(t, pid.0, command@, foreground),
                other,
            ) == find_job(t, other) by {
                lemma_add_job_fresh(t, pid.0, command@, foreground, other);
            }
        }
        let id = self.next_id;
        self.next_id = self.next_id + 1;
        let ghost old_jobs = self@.jobs;
        self.jobs.push(Job { id, pid, command, status: JobStatus::Running, foreground });
        assert(self@.jobs =~= old_jobs.push(
            JobV {
                id: id,
                pid: pid.0,
                command: command@,
                status: JobStatus::Running,
                foreground: foreground,
            },
        ));
        id
    }

    fn index_of(&self, id: u32) -> (r: Option<usize>)
        requires
            self.wf(),
        ensures
            r matches Some(i) ==> job_index(self@.jobs, id) == Some(i as int) && i < self@.jobs.len(),
            r is None ==> job_index(self@.jobs, id) is None,
    {
        let mut i: usize = 0;
        while i < self.jobs.len()
            invariant
                i <= self@.jobs.len(),
                self.wf(),
                forall|k: int| 0 <= k < i ==> (#[trigger] self@.jobs[k]).id != id,
            decreases self.jobs.len() - i,
        {
            if self.jobs[i].id == id {
                proof {
                    lemma_index_unique(self@, id, i as int);
                }
                return Some(i);
            }
            i = i + 1;
        }
        None
    }

    pub fn update_job(&mut self, id: u32, status: JobStatus)
        requires
            old(self).wf(),
        ensures
            final(self).wf(),
            final(self)@ == update_spec(old(self)@, id, status),
            find_job(final(self)@, id) == match find_job(old(self)@, id) {
                Some(j) => Some(JobV { status: status, ..j }),
                None => None,
            },
            forall|other: u32|
                other != id ==> #[trigger] find_job(final(self)@, other) == find_job(old(self)@, other),
    {
        proof {
            let t = self@;
            lemma_update_job_seen(t, id, status);
            assert forall|other: u32| other != id implies #[trigger] find_job(
                update_spec(t, id, status),
                other,
            ) == find_job(t, other) by {
                lemma_other_jobs_kept(t, id, status, other);
            }
        }
        match self.index_of(id) {
            Some(i) => {
                let ghost old_jobs = self@.jobs;
                let mut job = self.jobs.remove(i);
                job.status = status;
                self.jobs.insert(i, job);
                assert(self@.jobs =~= old_jobs.update(
                    i as int,
                    JobV { status: status, ..old_jobs[i as int] },
                ));
            },
            None => {},
        }
    }

    pub fn remove_job(&mut self, id: u32) -> (r: Option<Job>)
        requires
            old(self).wf(),
        ensures
            final(self).wf(),
            final(self)@ == remove_spec(old(self)@, id),
            r matches Some(j) ==> find_job(old(self)@, id) == Some(j@),
            r is None ==> find_job(old(self)@, id) is None,
            find_job(final(self)@, id) is None,
            forall|other: u32|
                other != id ==> #[trigger] find_job(final(self)@, other) == find_job(old(self)@, other),
    {
        proof {
            let t = self@;
            lemma_remove_job_gone(t, id);
            assert forall|other: u32| other != id implies #[trigger] find_job(
                remove_spec(t, id),
                other,
            ) == find_job(t, other) by {
                lemma_other_jobs_kept(t, id, JobStatus::Running, other);
            }
        }
        match self.index_of(id) {
            Some(i) => {
                let ghost old_jobs = self@.jobs;
                let job = self.jobs.remove(i);
                assert(self@.jobs =~= old_jobs.remove(i as int));
                Some(job)
            },
            None => None,
        }
    }

    pub fn get_job(&self, id: u32) -> (r: Option<&Job>)
        requires
            self.wf(),
        ensures
            r matches Some(j) ==> find_job(self@, id) == Some(j@),
            r is None ==> find_job(self@, id) is None,
    {
        match self.index_of(id) {
            Some(i) => Some(&self.jobs[i]),
            None => None,
        }
    }

    /// The jobs in ascending order of id.
    pub fn list_jobs(&self) -> (r: Vec<&Job>)
        requires
            self.wf(),
        ensures
            r@.len() == self@.jobs.len(),
            forall|i: int| 0 <= i < r@.len() ==> (#[trigger] r@[i])@ == self@.jobs[i],
            forall|i: int, j: int| 0 <= i < j < r@.len() ==> (#[trigger] r@[i]).id < (#[trigger] r@[j]).id,
    {
        let mut r: Vec<&Job> = Vec::new();
        let mut i: usize = 0;
        while i < self.jobs.len()
            invariant
                i <= self@.jobs.len(),
                r@.len() == i,
                forall|k: int| 0 <= k < i ==> (#[trigger] r@[k])@ == self@.jobs[k],
            decreases self.jobs.len() - i,
        {
            r.push(&self.jobs[i]);
            i = i + 1;
        }
        r
    }

    /// Drops the jobs that are done or terminated.
    pub fn cleanup_done(&mut self)
        requires
            old(self).wf(),
        ensures
            final(self).wf(),
            final(self)@ == cleanup_spec(old(self)@),
    {
        let ghost orig = self@.jobs;
        let mut i: usize = 0;
        let ghost mut k: int = 0;
        assert(orig.take(0).filter(|j: JobV| is_live(j)) =~= Seq::<JobV>::empty());
        assert(self@.jobs.take(0) =~= Seq::<JobV>::empty());
        assert(orig.skip(0) == orig);
        while i < self.jobs.len()
            invariant
                self.wf(),
                self@.next_id == old(self)@.next_id,
                0 <= k <= orig.len(),
                i <= self@.jobs.len(),
                self@.jobs.take(i as int) == orig.take(k).filter(|j: JobV| is_live(j)),
                self@.jobs.skip(i as int) == orig.skip(k),
            decreases self.jobs.len() - i,
        {
            let ghost before = self@.jobs;
            assert(before.skip(i as int).len() == orig.skip(k).len());
            assert(k < orig.len());
            assert(before[i as int] == orig[k]) by {
                assert(before.skip(i as int)[0] == orig.skip(k)[0]);
            }
            assert(orig.take(k + 1) =~= orig.take(k).push(orig[k]));
            proof {
                orig.take(k).lemma_filter_push(orig[k], |j: JobV| is_live(j));
            }
            let st = self.jobs[i].status;
            if st == JobStatus::Done || st == JobStatus::Terminated {
                let _ = self.jobs.remove(i);
                assert(self@.jobs =~= before.remove(i as int));
                assert(self@.jobs.take(i as int) =~= before.take(i as int));
                assert forall|m: int| 0 <= m < orig.skip(k + 1).len() implies #[trigger] self@.jobs.skip(
                    i as int,
                )[m] == orig.skip(k + 1)[m] by {
                    assert(before.skip(i as int)[m + 1] == orig.skip(k)[m + 1]);
                }
                assert(self@.jobs.skip(i as int) =~= orig.skip(k + 1));
            } else {
                assert(self@.jobs.take(i + 1) =~= before.take(i as int).push(before[i as int]));
                assert forall|m: int| 0 <= m < orig.skip(k + 1).len() implies #[trigger] self@.jobs.skip(
                    i + 1,
                )[m] == orig.skip(k + 1)[m] by {
                    assert(before.skip(i as int)[m + 1] == orig.skip(k)[m + 1]);
                }
                assert(self@.jobs.skip(i + 1) =~= orig.skip(k + 1));
                i = i + 1;
            }
            proof {
                k = k + 1;
            }
        }
        proof {
            assert(orig.skip(k).len() == 0);
            assert(orig.take(k) =~= orig);
            assert(self@.jobs.take(i as int) =~= self@.jobs);
        }
    }

    pub fn is_empty(&self) -> (r: bool)
        ensures
            r == (self@.jobs.len() == 0),
    {
        self.jobs.len() == 0
    }

    /// The id of a job whose process id is `pid`.
    pub fn find_by_pid(&self, pid: i32) -> (r: Option<u32>)
        requires
            self.wf(),
        ensures
            r matches Some(id) ==> exists|i: int|
                0 <= i < self@.jobs.len() && (#[trigger] self@.jobs[i]).id == id
                    && self@.jobs[i].pid == pid,
            r is None ==> forall|i: int|
                0 <= i < self@.jobs.len() ==> (#[trigger] self@.jobs[i]).pid != pid,
            r matches Some(id) ==> (find_job(self@, id) matches Some(j) && j.pid == pid),
    {
        let mut i: usize = 0;
        while i < self.jobs.len()
            invariant
                i <= self@.jobs.len(),
                self.wf(),
                forall|k: int| 0 <= k < i ==> (#[trigger] self@.jobs[k]).pid != pid,
            decreases self.jobs.len() - i,
        {
            if self.jobs[i].pid.0 == pid {
                assert(self@.jobs[i as int].pid == pid);
                proof {
                    lemma_index_unique(self@, self@.jobs[i as int].id, i as int);
                }
                return Some(self.jobs[i].id);
            }
            i = i + 1;
        }
        None
    }

    /// A child process `pid` has ended: the job it belongs to, if any, is
    /// marked done, and its id and command are returned for the notice.
    pub fn child_exited(&mut self, pid: i32) -> (r: Option<(u32, String)>)
        requires
            old(self).wf(),
        ensures
            final(self).wf(),
            match r {
                None => {
                    &&& final(self)@ == old(self)@
                    &&& forall|i: int|
                        0 <= i < old(self)@.jobs.len() ==> (#[trigger] old(self)@.jobs[i]).pid != pid
                },
                Some(p) => {
                    &&& find_job(old(self)@, p.0) matches Some(j) && j.pid == pid && j.command
                        == p.1@
                    &&& final(self)@ == update_spec(old(self)@, p.0, JobStatus::Done)
                },
            },
    {
        match self.find_by_pid(pid) {
            None => None,
            Some(id) => {
                proof {
                    let i = choose|i: int|
                        0 <= i < self@.jobs.len() && (#[trigger] self@.jobs[i]).id == id
                            && self@.jobs[i].pid == pid;
                    lemma_index_unique(self@, id, i);
                }
                let cmd = match self.get_job(id) {
                    Some(j) => j.command.clone(),
                    None => String::new(),
                };
                self.update_job(id, JobStatus::Done);
                Some((id, cmd))
            },
        }
    }
}

pub open spec fn status_word(s: JobStatus) -> Seq<char> {
    match s {
        JobStatus::Running => "Running"@,
        JobStatus::Stopped => "Stopped"@,
        JobStatus::Done => "Done"@,
        JobStatus::Terminated => "Terminated"@,
    }
}

/// `[id] Status  command`.
pub open spec fn job_status_line(j: JobV) -> Seq<char> {
    seq!['['] + decimal(j.id as nat) + "] "@ + status_word(j.status) + "  "@ + j.command
}

fn push_str(out: &mut Vec<char>, s: &str)
    ensures
        final(out)@ == old(out)@ + s@,
{
    let v = to_chars(s);
    let mut i: usize = 0;
    while i < v.len()
        invariant
            i <= v@.len(),
            out@ == old(out)@ + v@.take(i as int),
        decreases v.len() - i,
    {
        out.push(v[i]);
        assert(v@.take(i + 1) == v@.take(i as int).push(v@[i as int]));
        i = i + 1;
    }
    assert(v@.take(v@.len() as int) == v@);
}

/// `[id]  Done  command`: the notice for a background job that ended.
pub open spec fn done_notice_spec(id: u32, command: Seq<char>) -> Seq<char> {
    seq!['['] + decimal(id as nat) + "]  Done  "@ + command
}

pub fn done_notice(id: u32, command: &str) -> (r: String)
    ensures
        r@ == done_notice_spec(id, command@),
{
    let mut out: Vec<char> = Vec::new();
    out.push('[');
    push_decimal(&mut out, id as u64);
    push_str(&mut out, "]  Done  ");
    push_str(&mut out, command);
    assert(out@ =~= done_notice_spec(id, command@));
    from_chars(out.as_slice())
}

pub fn format_job_status(job: &Job) -> (r: String)
    ensures
        r@ == job_status_line(job@),
{
    let status_str = match job.status {
        JobStatus::Running => "Running",
        JobStatus::Stopped => "Stopped",
        JobStatus::Done => "Done",
        JobStatus::Terminated => "Terminated",
    };
    let mut out: Vec<char> = Vec::new();
    out.push('[');
    push_decimal(&mut out, job.id as u64);
    push_str(&mut out, "] ");
    push_str(&mut out, status_str);
    push_str(&mut out, "  ");
    push_str(&mut out, job.command.as_str());
    assert(out@ =~= job_status_line(job@));
    from_chars(out.as_slice())
}

// ---------------------------------------------------------------------------
// Properties of the job table
// ---------------------------------------------------------------------------

/// A new job gets an id that no job had, and is then found under it; the
/// other jobs stay as they were.
pub proof fn lemma_add_job_fresh(t: JobTable, pid: i32, command: Seq<char>, foreground: bool, other: u32)
    requires
        table_wf(t),
        t.next_id < u32::MAX,
        other != t.next_id,
    ensures
        find_job(t, t.next_id) is None,
        table_wf(add_spec(t, pid, command, foreground)),
        find_job(add_spec(t, pid, command, foreground), t.next_id) == Some(
            JobV {
                id: t.next_id,
                pid: pid,
                command: command,
                status: JobStatus::Running,
                foreground: foreground,
            },
        ),
        find_job(add_spec(t, pid, command, foreground), other) == find_job(t, other),
{
    let t2 = add_spec(t, pid, command, foreground);
    let n = t.jobs.len() as int;
    assert(t2.jobs[n].id == t.next_id);
    lemma_index_unique(t2, t.next_id, n);
    if job_index(t.jobs, other) is Some {
        let i = job_index(t.jobs, other)->0;
        assert(t2.jobs[i] == t.jobs[i]);
        lemma_index_unique(t2, other, i);
    } else {
        assert forall|i: int| 0 <= i < t2.jobs.len() implies (#[trigger] t2.jobs[i]).id != other by {
            if i < n {
                assert(t2.jobs[i] == t.jobs[i]);
            }
        }
    }
}

/// After a job is removed it is no longer found, and the table stays
/// well-formed.
pub proof fn lemma_remove_job_gone(t: JobTable, id: u32)
    requires
        table_wf(t),
    ensures
        table_wf(remove_spec(t, id)),
        find_job(remove_spec(t, id), id) is None,
{
    let t2 = remove_spec(t, id);
    if job_index(t.jobs, id) is Some {
        let i = job_index(t.jobs, id)->0;
        assert forall|a: int, b: int| 0 <= a < b < t2.jobs.len() implies (#[trigger] t2.jobs[a]).id
            < (#[trigger] t2.jobs[b]).id by {
            let a0 = if a < i { a } else { a + 1 };
            let b0 = if b < i { b } else { b + 1 };
            assert(t2.jobs[a] == t.jobs[a0]);
            assert(t2.jobs[b] == t.jobs[b0]);
        }
        assert forall|a: int| 0 <= a < t2.jobs.len() implies (#[trigger] t2.jobs[a]).id != id by {
            let a0 = if a < i { a } else { a + 1 };
            assert(t2.jobs[a] == t.jobs[a0]);
            if t.jobs[a0].id == id {
                lemma_index_unique(t, id, a0);
            }
        }
        assert forall|a: int| 0 <= a < t2.jobs.len() implies (#[trigger] t2.jobs[a]).id < t2.next_id by {
            let a0 = if a < i { a } else { a + 1 };
            assert(t2.jobs[a] == t.jobs[a0]);
        }
    }
}

/// A status change is seen by the next lookup, and changes nothing else.
pub proof fn lemma_update_job_seen(t: JobTable, id: u32, status: JobStatus)
    requires
        table_wf(t),
    ensures
        table_wf(update_spec(t, id, status)),
        find_job(update_spec(t, id, status), id) == match find_job(t, id) {
            Some(j) => Some(JobV { status: status, ..j }),
            None => None,
        },
        update_spec(t, id, status).jobs.len() == t.jobs.len(),
{
    let t2 = update_spec(t, id, status);
    if job_index(t.jobs, id) is Some {
        let i = job_index(t.jobs, id)->0;
        assert forall|a: int| 0 <= a < t2.jobs.len() implies (#[trigger] t2.jobs[a]).id == t.jobs[a].id by {
        }
        lemma_index_unique(t2, id, i);
    }
}

/// Cleaning up keeps exactly the jobs that are neither done nor terminated,
/// in their order.
pub proof fn lemma_cleanup_keeps_live(t: JobTable)
    ensures
        forall|i: int|
            0 <= i < cleanup_spec(t).jobs.len() ==> is_live(#[trigger] cleanup_spec(t).jobs[i]),
        forall|i: int|
            0 <= i < t.jobs.len() && is_live(#[trigger] t.jobs[i]) ==> cleanup_spec(t).jobs.contains(
                t.jobs[i],
            ),
{
    let p = |j: JobV| is_live(j);
    assert forall|i: int| 0 <= i < cleanup_spec(t).jobs.len() implies is_live(
        #[trigger] cleanup_spec(t).jobs[i],
    ) by {
        t.jobs.lemma_filter_pred(p, i);
    }
    assert forall|i: int| 0 <= i < t.jobs.len() && is_live(#[trigger] t.jobs[i]) implies cleanup_spec(
        t,
    ).jobs.contains(t.jobs[i]) by {
        t.jobs.lemma_filter_contains(p, i);
    }
}

/// A job's status line names its status: Running, Stopped, Done or
/// Terminated, each its own word, so two jobs with the same id and command
/// but different statuses get different lines, and a line shows the word
/// of its status right after the id.
pub proof fn lemma_status_line_names_status(j1: JobV, j2: JobV)
    ensures
        j1.id == j2.id && j1.command == j2.command && j1.status != j2.status ==> job_status_line(j1)
            != job_status_line(j2),
        job_status_line(j1) == seq!['['] + decimal(j1.id as nat) + "] "@ + (match j1.status {
            JobStatus::Running => "Running"@,
            JobStatus::Stopped => "Stopped"@,
            JobStatus::Done => "Done"@,
            JobStatus::Terminated => "Terminated"@,
        }) + "  "@ + j1.command,
{
    reveal_strlit("Running");
    reveal_strlit("Stopped");
    reveal_strlit("Done");
    reveal_strlit("Terminated");
    reveal_strlit("] ");
    let p = seq!['['] + decimal(j1.id as nat) + "] "@;
    let w1 = status_word(j1.status);
    let w2 = status_word(j2.status);
    assert(w1.len() > 0 && w2.len() > 0);
    assert(job_status_line(j1) == p + w1 + "  "@ + j1.command);
    assert((p + w1 + "  "@ + j1.command)[p.len() as int] == w1[0]);
    if j1.id == j2.id && j1.command == j2.command && j1.status != j2.status {
        assert(job_status_line(j2) == p + w2 + "  "@ + j2.command);
        assert((p + w2 + "  "@ + j2.command)[p.len() as int] == w2[0]);
        assert(w1[0] != w2[0]);
    }
}

} // verus!
