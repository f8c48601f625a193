//! The built-in commands: what each one decides, changes in the job and
//! alias tables, and asks the caller to carry out.
use vstd::prelude::*;
use crate::alias::{alias_of, keys_sorted, list, pair_views, pairs_map, Aliases};
use crate::job::{
    find_job, format_job_status, job_status_line, lemma_other_jobs_kept, lemma_remove_job_gone,
    lemma_update_job_seen, remove_spec, table_wf, update_spec, JobControl, JobStatus, JobTable,
    JobV,
};
use crate::num::{decimal, pad_left, pad_left_chars, parse_i32, parse_u32, parse_i32_chars,
    parse_u32_chars, push_decimal};
use crate::order::{lemma_lt_irrefl, lemma_lt_total, lemma_lt_trans, seq_lt, views};
use crate::parser::{env_get, EnvV, Pipeline, ShellEnv};
use crate::text::{
    copy_string, from_chars, join, join_strings, push_chars, push_str, split_at_eq,
    split_at_eq_exec, starts_with, str_eq, str_starts_with, subvec, to_chars, trim_char,
    trim_char_exec,
};

verus! {

/// What a built-in asks its caller to do once it has decided.
pub enum BuiltinAction {
    /// Leave the shell with this status.
    Exit(i32),
    /// Change the working directory.
    ChangeDir(String),
    /// Print the working directory.
    PrintCwd,
    /// Print these lines on standard output.
    Print(Vec<String>),
    /// Clear the terminal.
    Clear,
    /// Set these environment variables.
    Export(Vec<(String, String)>),
    /// Open the documentation.
    OpenHelp,
    /// Continue this process group in the foreground and wait for it.
    Foreground(i32),
    /// Continue this process group in the background.
    Background(i32),
    /// Print this message on standard error; the built-in's status.
    Stderr(String, i32),
    /// Run the commands of this file.
    Source(String),
    /// Run the package manager with these arguments.
    Pkg(Vec<String>),
    /// Say whether this name is a command on `$PATH`.
    TypeLookup(String),
    /// Nothing more to do.
    Nothing,
}

pub enum ActionV {
    Exit(i32),
    ChangeDir(Seq<char>),
    PrintCwd,
    Print(Seq<Seq<char>>),
    Clear,
    Export(Seq<(Seq<char>, Seq<char>)>),
    OpenHelp,
    Foreground(i32),
    Background(i32),
    Stderr(Seq<char>, i32),
    Source(Seq<char>),
    Pkg(Seq<Seq<char>>),
    TypeLookup(Seq<char>),
    Nothing,
}

impl View for BuiltinAction {
    type V = ActionV;

    open spec fn view(&self) -> ActionV {
        match self {
            BuiltinAction::Exit(c) => ActionV::Exit(*c),
            BuiltinAction::ChangeDir(d) => ActionV::ChangeDir(d@),
            BuiltinAction::PrintCwd => ActionV::PrintCwd,
            BuiltinAction::Print(l) => ActionV::Print(views(l@)),
            BuiltinAction::Clear => ActionV::Clear,
            BuiltinAction::Export(p) => ActionV::Export(pair_views(p@)),
            BuiltinAction::OpenHelp => ActionV::OpenHelp,
            BuiltinAction::Foreground(p) => ActionV::Foreground(*p),
            BuiltinAction::Background(p) => ActionV::Background(*p),
            BuiltinAction::Stderr(m, c) => ActionV::Stderr(m@, *c),
            BuiltinAction::Source(f) => ActionV::Source(f@),
            BuiltinAction::Pkg(a) => ActionV::Pkg(views(a@)),
            BuiltinAction::TypeLookup(n) => ActionV::TypeLookup(n@),
            BuiltinAction::Nothing => ActionV::Nothing,
        }
    }
}

pub open spec fn is_builtin_spec(cmd: Seq<char>) -> bool {
    ||| cmd == "cd"@
    ||| cmd == "exit"@
    ||| cmd == "pwd"@
    ||| cmd == "echo"@
    ||| cmd == "clear"@
    ||| cmd == "export"@
    ||| cmd == "history"@
    ||| cmd == "help"@
    ||| cmd == "jobs"@
    ||| cmd == "fg"@
    ||| cmd == "bg"@
    ||| cmd == "source"@
    ||| cmd == "type"@
    ||| cmd == "pkg"@
    ||| cmd == "alias"@
    ||| cmd == "unalias"@
}

pub fn is_builtin(cmd: &str) -> (r: bool)
    ensures
        r == is_builtin_spec(cmd@),
{
    str_eq(cmd, "cd") || str_eq(cmd, "exit") || str_eq(cmd, "pwd") || str_eq(cmd, "echo")
        || str_eq(cmd, "clear") || str_eq(cmd, "export") || str_eq(cmd, "history") || str_eq(
        cmd,
        "help",
    ) || str_eq(cmd, "jobs") || str_eq(cmd, "fg") || str_eq(cmd, "bg") || str_eq(cmd, "source")
        || str_eq(cmd, "type") || str_eq(cmd, "pkg") || str_eq(cmd, "alias") || str_eq(
        cmd,
        "unalias",
    )
}

// ---------------------------------------------------------------------------
// The decisions of each built-in
// ---------------------------------------------------------------------------

/// `exit`'s status: the first argument as an `i32`, else 0.
pub open spec fn exit_status_arg(args: Seq<Seq<char>>) -> i32 {
    if args.len() > 0 {
        match parse_i32(args[0]) {
            Some(v) => v as i32,
            None => 0,
        }
    } else {
        0
    }
}

/// `cd`'s directory: `~` and a leading `~/` stand for `$HOME`.
pub open spec fn cd_target(args: Seq<Seq<char>>, env: EnvV) -> Seq<char> {
    let t = if args.len() > 0 {
        args[0]
    } else {
        "~"@
    };
    if t == "~"@ {
        match env_get(env.vars, "HOME"@) {
            Some(h) => h,
            None => "/"@,
        }
    } else if starts_with(t, "~/"@) {
        match env_get(env.vars, "HOME"@) {
            Some(h) => h + t.skip(1),
            None => t,
        }
    } else {
        t
    }
}

/// `history`'s listing: numbers from 1 right-aligned in five columns.
pub open spec fn history_lines(h: Seq<Seq<char>>) -> Seq<Seq<char>> {
    Seq::new(h.len(), |i: int| pad_left(decimal((i + 1) as nat), 5) + "  "@ + h[i])
}

/// `jobs`'s listing.
pub open spec fn jobs_lines(t: JobTable) -> Seq<Seq<char>> {
    if t.jobs.len() == 0 {
        seq!["No background jobs."@]
    } else {
        Seq::new(t.jobs.len(), |i: int| job_status_line(t.jobs[i]))
    }
}

/// The job `fg` and `bg` act on: the first argument as a job id, or else
/// the most recent job.
pub open spec fn job_arg(args: Seq<Seq<char>>, t: JobTable) -> Option<u32> {
    let parsed = if args.len() > 0 {
        parse_u32(args[0])
    } else {
        None
    };
    match parsed {
        Some(v) => Some(v as u32),
        None => if t.jobs.len() > 0 {
            Some(t.jobs.last().id)
        } else {
            None
        },
    }
}

/// `export`'s assignments: every `KEY=VALUE` argument, split at its first
/// `=`.
pub open spec fn export_pairs(args: Seq<Seq<char>>) -> Seq<(Seq<char>, Seq<char>)>
    decreases args.len(),
{
    if args.len() == 0 {
        Seq::empty()
    } else {
        let before = export_pairs(args.drop_last());
        match split_at_eq(args.last()) {
            Some(p) => before.push(p),
            None => before,
        }
    }
}

/// `alias NAME='VALUE'` as printed.
pub open spec fn alias_line(name: Seq<char>, value: Seq<char>) -> Seq<char> {
    "alias "@ + name + "='"@ + value + "'"@
}

/// An alias value with surrounding `'` and then `"` characters removed.
pub open spec fn alias_value(v: Seq<char>) -> Seq<char> {
    trim_char(trim_char(v, '\''), '"')
}

/// One argument of `alias`: `NAME=VALUE` defines, a bare name prints.
pub open spec fn alias_step(m: Option<Map<Seq<char>, Seq<char>>>, arg: Seq<char>) -> (
    Option<Map<Seq<char>, Seq<char>>>,
    Seq<Seq<char>>,
) {
    match split_at_eq(arg) {
        Some((n, v)) => (
            match m {
                Some(mm) => Some(mm.insert(n, alias_value(v))),
                None => None,
            },
            Seq::empty(),
        ),
        None => match alias_of(m, arg) {
            Some(val) => (m, seq![alias_line(arg, val)]),
            None => (m, Seq::empty()),
        },
    }
}

pub open spec fn alias_args(m: Option<Map<Seq<char>, Seq<char>>>, args: Seq<Seq<char>>) -> (
    Option<Map<Seq<char>, Seq<char>>>,
    Seq<Seq<char>>,
)
    decreases args.len(),
{
    if args.len() == 0 {
        (m, Seq::empty())
    } else {
        let (m1, out1) = alias_args(m, args.drop_last());
        let (m2, out2) = alias_step(m1, args.last());
        (m2, out1 + out2)
    }
}

/// The aliases as a list by ascending name.
pub open spec fn sorted_pairs(m: Map<Seq<char>, Seq<char>>) -> Seq<(Seq<char>, Seq<char>)> {
    choose|s: Seq<(Seq<char>, Seq<char>)>| keys_sorted(s) && pairs_map(s) == m
}

/// `alias` with no argument lists every alias.
pub open spec fn alias_listing(m: Option<Map<Seq<char>, Seq<char>>>) -> Seq<Seq<char>> {
    match m {
        Some(mm) => {
            let s = sorted_pairs(mm);
            Seq::new(s.len(), |i: int| alias_line(s[i].0, s[i].1))
        },
        None => Seq::empty(),
    }
}

pub open spec fn unalias_args(m: Option<Map<Seq<char>, Seq<char>>>, args: Seq<Seq<char>>) -> Option<
    Map<Seq<char>, Seq<char>>,
>
    decreases args.len(),
{
    if args.len() == 0 {
        m
    } else {
        match unalias_args(m, args.drop_last()) {
            Some(mm) => Some(mm.remove(args.last())),
            None => None,
        }
    }
}

/// What a built-in command does: the action for the caller (`None` when
/// `cmd` is not a built-in), and the job and alias tables afterwards.
pub open spec fn builtin_spec(
    cmd: Seq<char>,
    args: Seq<Seq<char>>,
    history: Seq<Seq<char>>,
    jobs: JobTable,
    aliases: Option<Map<Seq<char>, Seq<char>>>,
    env: EnvV,
) -> (Option<ActionV>, JobTable, Option<Map<Seq<char>, Seq<char>>>) {
    if cmd == "exit"@ {
        (Some(ActionV::Exit(exit_status_arg(args))), jobs, aliases)
    } else if cmd == "cd"@ {
        (Some(ActionV::ChangeDir(cd_target(args, env))), jobs, aliases)
    } else if cmd == "pwd"@ {
        (Some(ActionV::PrintCwd), jobs, aliases)
    } else if cmd == "echo"@ {
        (Some(ActionV::Print(seq![join(args, " "@)])), jobs, aliases)
    } else if cmd == "clear"@ {
        (Some(ActionV::Clear), jobs, aliases)
    } else if cmd == "export"@ {
        (Some(ActionV::Export(export_pairs(args))), jobs, aliases)
    } else if cmd == "history"@ {
        (Some(ActionV::Print(history_lines(history))), jobs, aliases)
    } else if cmd == "help"@ {
        (Some(ActionV::OpenHelp), jobs, aliases)
    } else if cmd == "jobs"@ {
        (Some(ActionV::Print(jobs_lines(jobs))), jobs, aliases)
    } else if cmd == "fg"@ {
        match job_arg(args, jobs) {
            Some(id) => match find_job(jobs, id) {
                Some(j) => (Some(ActionV::Foreground(j.pid)), remove_spec(jobs, id), aliases),
                None => (
                    Some(ActionV::Stderr("fg: job not found: "@ + decimal(id as nat), 0)),
                    jobs,
                    aliases,
                ),
            },
            None => (Some(ActionV::Stderr("fg: no current job"@, 0)), jobs, aliases),
        }
    } else if cmd == "bg"@ {
        match job_arg(args, jobs) {
            Some(id) => match find_job(jobs, id) {
                Some(j) => (
                    Some(ActionV::Background(j.pid)),
                    update_spec(jobs, id, JobStatus::Running),
                    aliases,
                ),
                None => (
                    Some(ActionV::Stderr("bg: job not found: "@ + decimal(id as nat), 0)),
                    jobs,
                    aliases,
                ),
            },
            None => (Some(ActionV::Stderr("bg: no current job"@, 0)), jobs, aliases),
        }
    } else if cmd == "source"@ {
        if args.len() > 0 {
            (Some(ActionV::Source(args[0])), jobs, aliases)
        } else {
            (Some(ActionV::Stderr("source: missing filename"@, 1)), jobs, aliases)
        }
    } else if cmd == "alias"@ {
        if args.len() == 0 {
            (Some(ActionV::Print(alias_listing(aliases))), jobs, aliases)
        } else {
            let (m, out) = alias_args(aliases, args);
            (Some(ActionV::Print(out)), jobs, m)
        }
    } else if cmd == "unalias"@ {
        (Some(ActionV::Nothing), jobs, unalias_args(aliases, args))
    } else if cmd == "pkg"@ {
        (Some(ActionV::Pkg(args)), jobs, aliases)
    } else if cmd == "type"@ {
        if args.len() > 0 {
            if is_builtin_spec(args[0]) {
                (Some(ActionV::Print(seq![args[0] + " is a shell builtin"@])), jobs, aliases)
            } else {
                (Some(ActionV::TypeLookup(args[0])), jobs, aliases)
            }
        } else {
            (Some(ActionV::Nothing), jobs, aliases)
        }
    } else {
        (None, jobs, aliases)
    }
}

// ---------------------------------------------------------------------------
// Sorted pair lists are determined by their map
// ---------------------------------------------------------------------------

proof fn lemma_sorted_first_is_min(s: Seq<(Seq<char>, Seq<char>)>, k: Seq<char>)
    requires
        keys_sorted(s),
        s.len() > 0,
        pairs_map(s).contains_key(k),
    ensures
        k == s[0].0 || seq_lt(s[0].0, k),
{
    let c = crate::alias::key_index(s, k);
    if c > 0 {
        assert(seq_lt(s[0].0, s[c].0));
    }
}

pub(crate) proof fn lemma_sorted_pairs_unique(s1: Seq<(Seq<char>, Seq<char>)>, s2: Seq<(Seq<char>, Seq<char>)>)
    requires
        keys_sorted(s1),
        keys_sorted(s2),
        pairs_map(s1) == pairs_map(s2),
    ensures
        s1 == s2,
    decreases s1.len(),
{
    let m = pairs_map(s1);
    if s1.len() == 0 {
        if s2.len() > 0 {
            assert(pairs_map(s2).contains_key(s2[0].0));
        }
        assert(s1 =~= s2);
    } else {
        if s2.len() == 0 {
            assert(pairs_map(s1).contains_key(s1[0].0));
        }
        assert(m.contains_key(s1[0].0));
        assert(m.contains_key(s2[0].0));
        lemma_sorted_first_is_min(s1, s2[0].0);
        lemma_sorted_first_is_min(s2, s1[0].0);
        if s1[0].0 != s2[0].0 {
            crate::order::lemma_lt_asym(s1[0].0, s2[0].0);
        }
        crate::alias::lemma_pairs_map_at_pub(s1, 0);
        crate::alias::lemma_pairs_map_at_pub(s2, 0);
        let t1 = s1.drop_first();
        let t2 = s2.drop_first();
        assert(keys_sorted(t1)) by {
            assert forall|i: int, j: int| 0 <= i < j < t1.len() implies seq_lt(
                (#[trigger] t1[i]).0,
                (#[trigger] t1[j]).0,
            ) by {
                assert(t1[i] == s1[i + 1] && t1[j] == s1[j + 1]);
            }
        }
        assert(keys_sorted(t2)) by {
            assert forall|i: int, j: int| 0 <= i < j < t2.len() implies seq_lt(
                (#[trigger] t2[i]).0,
                (#[trigger] t2[j]).0,
            ) by {
                assert(t2[i] == s2[i + 1] && t2[j] == s2[j + 1]);
            }
        }
        crate::alias::lemma_pairs_map_drop_first(s1);
        crate::alias::lemma_pairs_map_drop_first(s2);
        lemma_sorted_pairs_unique(t1, t2);
        assert(s1 =~= s2) by {
            assert forall|i: int| 0 <= i < s1.len() implies s1[i] == s2[i] by {
                if i > 0 {
                    assert(s1[i] == t1[i - 1]);
                    assert(s2[i] == t2[i - 1]);
                }
            }
        }
    }
}

// ---------------------------------------------------------------------------
// Executable built-ins
// ---------------------------------------------------------------------------

fn cd_target_exec(args: &[String], env: &ShellEnv) -> (r: String)
    ensures
        r@ == cd_target(views(args@), env@),
{
    let t: String = if args.len() > 0 {
        copy_string(&args[0])
    } else {
        String::from_str("~")
    };
    if str_eq(t.as_str(), "~") {
        match env.lookup_str("HOME") {
            Some(h) => from_chars(h.as_slice()),
            None => String::from_str("/"),
        }
    } else if str_starts_with(t.as_str(), "~/") {
        match env.lookup_str("HOME") {
            Some(h) => {
                let tv = to_chars(t.as_str());
                proof {
                    reveal_strlit("~/");
                }
                let rest = subvec(&tv, 1, tv.len());
                let mut out = h;
                push_chars(&mut out, &rest);
                assert(rest@ =~= t@.skip(1));
                from_chars(out.as_slice())
            },
            None => t,
        }
    } else {
        t
    }
}

fn history_lines_exec(history: &[String]) -> (r: Vec<String>)
    ensures
        views(r@) == history_lines(views(history@)),
{
    let mut r: Vec<String> = Vec::new();
    let mut i: usize = 0;
    while i < history.len()
        invariant
            i <= history@.len(),
            r@.len() == i,
            forall|k: int| 0 <= k < i ==> (#[trigger] r@[k])@ == history_lines(views(history@))[k],
        decreases history.len() - i,
    {
        let mut num: Vec<char> = Vec::new();
        push_decimal(&mut num, i as u64 + 1);
        assert(num@ =~= decimal((i + 1) as nat));
        let mut line = pad_left_chars(&num, 5);
        push_str(&mut line, "  ");
        push_str(&mut line, history[i].as_str());
        r.push(from_chars(line.as_slice()));
        i = i + 1;
    }
    assert(views(r@) =~= history_lines(views(history@)));
    r
}

fn jobs_lines_exec(jobs: &JobControl) -> (r: Vec<String>)
    requires
        jobs.wf(),
    ensures
        views(r@) == jobs_lines(jobs@),
{
    let mut r: Vec<String> = Vec::new();
    if jobs.is_empty() {
        r.push(String::from_str("No background jobs."));
        assert(views(r@) =~= jobs_lines(jobs@));
        return r;
    }
    let list = jobs.list_jobs();
    let mut i: usize = 0;
    while i < list.len()
        invariant
            i <= list@.len(),
            list@.len() == jobs@.jobs.len(),
            forall|k: int| 0 <= k < list@.len() ==> (#[trigger] list@[k])@ == jobs@.jobs[k],
            r@.len() == i,
            forall|k: int| 0 <= k < i ==> (#[trigger] r@[k])@ == job_status_line(jobs@.jobs[k]),
        decreases list.len() - i,
    {
        r.push(format_job_status(list[i]));
        i = i + 1;
    }
    assert(views(r@) =~= jobs_lines(jobs@));
    r
}

fn job_arg_exec(args: &[String], jobs: &JobControl) -> (r: Option<u32>)
    requires
        jobs.wf(),
    ensures
        r == job_arg(views(args@), jobs@),
{
    if args.len() > 0 {
        let a = to_chars(args[0].as_str());
        match parse_u32_chars(&a) {
            Some(v) => {
                return Some(v);
            },
            None => {},
        }
    }
    let list = jobs.list_jobs();
    if list.len() > 0 {
        Some(list[list.len() - 1].id)
    } else {
        None
    }
}

fn export_pairs_exec(args: &[String]) -> (r: Vec<(String, String)>)
    ensures
        pair_views(r@) == export_pairs(views(args@)),
{
    let ghost av = views(args@);
    let mut r: Vec<(String, String)> = Vec::new();
    let mut i: usize = 0;
    assert(av.take(0) =~= Seq::<Seq<char>>::empty());
    assert(pair_views(r@) =~= Seq::<(Seq<char>, Seq<char>)>::empty());
    while i < args.len()
        invariant
            i <= args@.len(),
            av == views(args@),
            pair_views(r@) == export_pairs(av.take(i as int)),
        decreases args.len() - i,
    {
        assert(av.take(i + 1).drop_last() =~= av.take(i as int));
        assert(av.take(i + 1).last() == args@[i as int]@);
        let a = to_chars(args[i].as_str());
        match split_at_eq_exec(&a) {
            Some((k, v)) => {
                let ghost before = pair_views(r@);
                r.push((from_chars(k.as_slice()), from_chars(v.as_slice())));
                assert(pair_views(r@) =~= before.push((k@, v@)));
            },
            None => {},
        }
        i = i + 1;
    }
    assert(av.take(i as int) =~= av);
    r
}

fn alias_line_exec(name: &Vec<char>, value: &Vec<char>) -> (r: String)
    ensures
        r@ == alias_line(name@, value@),
{
    let mut out: Vec<char> = Vec::new();
    push_str(&mut out, "alias ");
    push_chars(&mut out, name);
    push_str(&mut out, "='");
    push_chars(&mut out, value);
    push_str(&mut out, "'");
    assert(out@ =~= alias_line(name@, value@));
    from_chars(out.as_slice())
}

fn alias_builtin(aliases: &mut Aliases, args: &[String]) -> (r: Vec<String>)
    requires
        old(aliases).wf(),
    ensures
        final(aliases).wf(),
        args@.len() > 0 ==> (final(aliases)@, views(r@)) == alias_args(old(aliases)@, views(args@)),
        args@.len() == 0 ==> final(aliases)@ == old(aliases)@ && views(r@) == alias_listing(old(aliases)@),
{
    let mut out: Vec<String> = Vec::new();
    if args.len() == 0 {
        let pairs = list(aliases);
        let mut i: usize = 0;
        while i < pairs.len()
            invariant
                i <= pairs@.len(),
                out@.len() == i,
                forall|k: int| 0 <= k < i ==> (#[trigger] out@[k])@ == alias_line(
                    pairs@[k].0@,
                    pairs@[k].1@,
                ),
            decreases pairs.len() - i,
        {
            let n = to_chars(pairs[i].0.as_str());
            let v = to_chars(pairs[i].1.as_str());
            out.push(alias_line_exec(&n, &v));
            i = i + 1;
        }
        proof {
            match aliases@ {
                Some(m) => {
                    let s = sorted_pairs(m);
                    assert(keys_sorted(pair_views(pairs@)) && pairs_map(pair_views(pairs@)) == m);
                    lemma_sorted_pairs_unique(s, pair_views(pairs@));
                    assert(views(out@) =~= alias_listing(aliases@));
                },
                None => {
                    assert(views(out@) =~= alias_listing(aliases@));
                },
            }
        }
        return out;
    }
    let ghost av = views(args@);
    let mut i: usize = 0;
    assert(av.take(0) =~= Seq::<Seq<char>>::empty());
    assert(views(out@) =~= Seq::<Seq<char>>::empty());
    while i < args.len()
        invariant
            i <= args@.len(),
            av == views(args@),
            aliases.wf(),
            (aliases@, views(out@)) == alias_args(old(aliases)@, av.take(i as int)),
        decreases args.len() - i,
    {
        assert(av.take(i + 1).drop_last() =~= av.take(i as int));
        assert(av.take(i + 1).last() == args@[i as int]@);
        let a = to_chars(args[i].as_str());
        let ghost before = views(out@);
        match split_at_eq_exec(&a) {
            Some((name, value)) => {
                let v1 = trim_char_exec(&value, '\'');
                let v2 = trim_char_exec(&v1, '"');
                let ns = from_chars(name.as_slice());
                let vs = from_chars(v2.as_slice());
                crate::alias::set(aliases, ns.as_str(), vs.as_str());
                assert(views(out@) =~= before + Seq::<Seq<char>>::empty());
            },
            None => {
                match crate::alias::get(aliases, args[i].as_str()) {
                    Some(val) => {
                        let vv = to_chars(val.as_str());
                        out.push(alias_line_exec(&a, &vv));
                        assert(views(out@) =~= before + seq![alias_line(a@, val@)]);
                    },
                    None => {
                        assert(views(out@) =~= before + Seq::<Seq<char>>::empty());
                    },
                }
            },
        }
        i = i + 1;
    }
    assert(av.take(i as int) =~= av);
    out
}

fn unalias_builtin(aliases: &mut Aliases, args: &[String])
    requires
        old(aliases).wf(),
    ensures
        final(aliases).wf(),
        final(aliases)@ == unalias_args(old(aliases)@, views(args@)),
{
    let ghost av = views(args@);
    let mut i: usize = 0;
    assert(av.take(0) =~= Seq::<Seq<char>>::empty());
    while i < args.len()
        invariant
            i <= args@.len(),
            av == views(args@),
            aliases.wf(),
            aliases@ == unalias_args(old(aliases)@, av.take(i as int)),
        decreases args.len() - i,
    {
        assert(av.take(i + 1).drop_last() =~= av.take(i as int));
        assert(av.take(i + 1).last() == args@[i as int]@);
        let _ = crate::alias::remove(aliases, args[i].as_str());
        i = i + 1;
    }
    assert(av.take(i as int) =~= av);
}

fn copy_strings(v: &[String]) -> (r: Vec<String>)
    ensures
        views(r@) == views(v@),
{
    let mut r: Vec<String> = Vec::new();
    let mut i: usize = 0;
    while i < v.len()
        invariant
            i <= v@.len(),
            r@.len() == i,
            forall|k: int| 0 <= k < i ==> (#[trigger] r@[k])@ == v@[k]@,
        decreases v.len() - i,
    {
        r.push(copy_string(&v[i]));
        i = i + 1;
    }
    assert(views(r@) =~= views(v@));
    r
}

fn job_error(prefix: &str, id: u32) -> (r: BuiltinAction)
    ensures
        r@ == ActionV::Stderr(prefix@ + decimal(id as nat), 0),
{
    let mut m = to_chars(prefix);
    push_decimal(&mut m, id as u64);
    BuiltinAction::Stderr(from_chars(m.as_slice()), 0)
}

/// Runs the decision part of a built-in command. `None` when `cmd` is not
/// a built-in. Changes to the job and alias tables are made here; what
/// touches the process, the terminal or the file system is returned.
pub fn execute_builtin(
    cmd: &str,
    args: &[String],
    _pipelines: &[Pipeline],
    history: &[String],
    jobs: &mut JobControl,
    aliases: &mut Aliases,
    env: &ShellEnv,
) -> (r: Option<BuiltinAction>)
    requires
        old(jobs).wf(),
        old(aliases).wf(),
    ensures
        final(jobs).wf(),
        final(aliases).wf(),
        (
            match r {
                Some(a) => Some(a@),
                None => None,
            },
            final(jobs)@,
            final(aliases)@,
        ) == builtin_spec(cmd@, views(args@), views(history@), old(jobs)@, old(aliases)@, env@),
{
    if str_eq(cmd, "exit") {
        let code: i32 = if args.len() > 0 {
            let a = to_chars(args[0].as_str());
            match parse_i32_chars(&a) {
                Some(v) => v,
                None => 0,
            }
        } else {
            0
        };
        return Some(BuiltinAction::Exit(code));
    }
    if str_eq(cmd, "cd") {
        return Some(BuiltinAction::ChangeDir(cd_target_exec(args, env)));
    }
    if str_eq(cmd, "pwd") {
        return Some(BuiltinAction::PrintCwd);
    }
    if str_eq(cmd, "echo") {
        let mut lines: Vec<String> = Vec::new();
        lines.push(join_strings(args, " "));
        assert(views(lines@) =~= seq![join(views(args@), " "@)]);
        return Some(BuiltinAction::Print(lines));
    }
    if str_eq(cmd, "clear") {
        return Some(BuiltinAction::Clear);
    }
    if str_eq(cmd, "export") {
        return Some(BuiltinAction::Export(export_pairs_exec(args)));
    }
    if str_eq(cmd, "history") {
        return Some(BuiltinAction::Print(history_lines_exec(history)));
    }
    if str_eq(cmd, "help") {
        return Some(BuiltinAction::OpenHelp);
    }
    if str_eq(cmd, "jobs") {
        return Some(BuiltinAction::Print(jobs_lines_exec(jobs)));
    }
    if str_eq(cmd, "fg") {
        match job_arg_exec(args, jobs) {
            Some(id) => {
                match jobs.remove_job(id) {
                    Some(job) => {
                        return Some(BuiltinAction::Foreground(job.pid.0));
                    },
                    None => {
                        return Some(job_error("fg: job not found: ", id));
                    },
                }
            },
            None => {
                return Some(BuiltinAction::Stderr(String::from_str("fg: no current job"), 0));
            },
        }
    }
    if str_eq(cmd, "bg") {
        match job_arg_exec(args, jobs) {
            Some(id) => {
                let pid = match jobs.get_job(id) {
                    Some(job) => Some(job.pid.0),
                    None => None,
                };
                match pid {
                    Some(p) => {
                        jobs.update_job(id, JobStatus::Running);
                        return Some(BuiltinAction::Background(p));
                    },
                    None => {
                        return Some(job_error("bg: job not found: ", id));
                    },
                }
            },
            None => {
                return Some(BuiltinAction::Stderr(String::from_str("bg: no current job"), 0));
            },
        }
    }
    if str_eq(cmd, "source") {
        if args.len() > 0 {
            return Some(BuiltinAction::Source(copy_string(&args[0])));
        } else {
            return Some(BuiltinAction::Stderr(String::from_str("source: missing filename"), 1));
        }
    }
    if str_eq(cmd, "alias") {
        let out = alias_builtin(aliases, args);
        return Some(BuiltinAction::Print(out));
    }
    if str_eq(cmd, "unalias") {
        unalias_builtin(aliases, args);
        return Some(BuiltinAction::Nothing);
    }
    if str_eq(cmd, "pkg") {
        return Some(BuiltinAction::Pkg(copy_strings(args)));
    }
    if str_eq(cmd, "type") {
        if args.len() > 0 {
            if is_builtin(args[0].as_str()) {
                let mut m = to_chars(args[0].as_str());
                push_str(&mut m, " is a shell builtin");
                let mut lines: Vec<String> = Vec::new();
                lines.push(from_chars(m.as_slice()));
                assert(views(lines@) =~= seq![args@[0]@ + " is a shell builtin"@]);
                return Some(BuiltinAction::Print(lines));
            } else {
                return Some(BuiltinAction::TypeLookup(copy_string(&args[0])));
            }
        } else {
            return Some(BuiltinAction::Nothing);
        }
    }
    None
}

/// The lines of a sourced file that are run: trimmed, without blank lines
/// and comments.
pub open spec fn script_lines(content: Seq<char>) -> Seq<Seq<char>> {
    crate::text::lines(content).map_values(|l: Seq<char>| crate::text::trim(l)).filter(
        |l: Seq<char>| l.len() > 0 && l[0] != '#',
    )
}

pub fn source_lines(content: &str) -> (r: Vec<String>)
    ensures
        views(r@) == script_lines(content@),
{
    let c = to_chars(content);
    let ls = crate::text::split_lines(&c);
    let ghost lv = crate::text::lines(c@);
    let ghost tv = lv.map_values(|l: Seq<char>| crate::text::trim(l));
    let ghost p = |l: Seq<char>| l.len() > 0 && l[0] != '#';
    let mut r: Vec<String> = Vec::new();
    let mut i: usize = 0;
    assert(tv.take(0).filter(p) =~= Seq::<Seq<char>>::empty());
    assert(views(r@) =~= Seq::<Seq<char>>::empty());
    while i < ls.len()
        invariant
            i <= ls@.len(),
            ls@.len() == lv.len(),
            forall|m: int| 0 <= m < ls@.len() ==> #[trigger] ls@[m]@ == lv[m],
            tv == lv.map_values(|l: Seq<char>| crate::text::trim(l)),
            p == (|l: Seq<char>| l.len() > 0 && l[0] != '#'),
            views(r@) == tv.take(i as int).filter(p),
        decreases ls.len() - i,
    {
        assert(tv.take(i + 1) =~= tv.take(i as int).push(tv[i as int]));
        proof {
            tv.take(i as int).lemma_filter_push(tv[i as int], p);
        }
        let (a, b) = crate::text::trim_bounds(&ls[i]);
        let t = subvec(&ls[i], a, b);
        if t.len() > 0 && t[0] != '#' {
            let ghost before = views(r@);
            r.push(from_chars(t.as_slice()));
            assert(views(r@) =~= before.push(tv[i as int]));
        }
        i = i + 1;
    }
    assert(tv.take(i as int) =~= tv);
    r
}

/// A command that is not a built-in has no action and leaves the job and
/// alias tables as they were.
pub proof fn lemma_builtin_tables(
    cmd: Seq<char>,
    args: Seq<Seq<char>>,
    history: Seq<Seq<char>>,
    jobs: JobTable,
    aliases: Option<Map<Seq<char>, Seq<char>>>,
    env: EnvV,
)
    requires
        !is_builtin_spec(cmd),
    ensures
        builtin_spec(cmd, args, history, jobs, aliases, env) == (
            None::<ActionV>,
            jobs,
            aliases,
        ),
{
}

/// `bg` on a job of the table resumes it in the background: afterwards the
/// job is found under its id with status Running, every job under another
/// id is as it was, no job is added or removed, and the alias table is
/// untouched.
pub proof fn lemma_bg_resumes_job(
    args: Seq<Seq<char>>,
    history: Seq<Seq<char>>,
    jobs: JobTable,
    aliases: Option<Map<Seq<char>, Seq<char>>>,
    env: EnvV,
)
    requires
        table_wf(jobs),
        job_arg(args, jobs) matches Some(id) && find_job(jobs, id) is Some,
    ensures
        ({
            let id = job_arg(args, jobs)->0;
            let j = find_job(jobs, id)->0;
            let (a, t, m) = builtin_spec("bg"@, args, history, jobs, aliases, env);
            &&& a == Some(ActionV::Background(j.pid))
            &&& table_wf(t)
            &&& find_job(t, id) == Some(JobV { status: JobStatus::Running, ..j })
            &&& forall|other: u32|
                other != id ==> #[trigger] find_job(t, other) == find_job(jobs, other)
            &&& t.jobs.len() == jobs.jobs.len()
            &&& m == aliases
        }),
{
    reveal_strlit("exit");
    reveal_strlit("cd");
    reveal_strlit("pwd");
    reveal_strlit("echo");
    reveal_strlit("clear");
    reveal_strlit("export");
    reveal_strlit("history");
    reveal_strlit("help");
    reveal_strlit("jobs");
    reveal_strlit("fg");
    reveal_strlit("bg");
    assert("bg"@.len() != "exit"@.len());
    assert("bg"@[0] != "cd"@[0]);
    assert("bg"@.len() != "pwd"@.len());
    assert("bg"@.len() != "echo"@.len());
    assert("bg"@.len() != "clear"@.len());
    assert("bg"@.len() != "export"@.len());
    assert("bg"@.len() != "history"@.len());
    assert("bg"@.len() != "help"@.len());
    assert("bg"@.len() != "jobs"@.len());
    assert("bg"@[0] != "fg"@[0]);
    let id = job_arg(args, jobs)->0;
    lemma_update_job_seen(jobs, id, JobStatus::Running);
    assert forall|other: u32| other != id implies #[trigger] find_job(
        update_spec(jobs, id, JobStatus::Running),
        other,
    ) == find_job(jobs, other) by {
        lemma_other_jobs_kept(jobs, id, JobStatus::Running, other);
    }
}

/// `fg` on a job of the table brings it to the foreground and takes it out
/// of the table: afterwards no job has its id, every job under another id
/// is as it was, and the table holds one job less. Without an argument the
/// job taken is the one with the largest id.
pub proof fn lemma_fg_takes_job(
    args: Seq<Seq<char>>,
    history: Seq<Seq<char>>,
    jobs: JobTable,
    aliases: Option<Map<Seq<char>, Seq<char>>>,
    env: EnvV,
)
    requires
        table_wf(jobs),
        job_arg(args, jobs) matches Some(id) && find_job(jobs, id) is Some,
    ensures
        ({
            let id = job_arg(args, jobs)->0;
            let j = find_job(jobs, id)->0;
            let (a, t, m) = builtin_spec("fg"@, args, history, jobs, aliases, env);
            &&& a == Some(ActionV::Foreground(j.pid))
            &&& table_wf(t)
            &&& find_job(t, id) is None
            &&& forall|other: u32|
                other != id ==> #[trigger] find_job(t, other) == find_job(jobs, other)
            &&& t.jobs.len() + 1 == jobs.jobs.len()
            &&& m == aliases
            &&& args.len() == 0 ==> forall|i: int|
                0 <= i < jobs.jobs.len() ==> (#[trigger] jobs.jobs[i]).id <= id
        }),
{
    reveal_strlit("exit");
    reveal_strlit("cd");
    reveal_strlit("pwd");
    reveal_strlit("echo");
    reveal_strlit("clear");
    reveal_strlit("export");
    reveal_strlit("history");
    reveal_strlit("help");
    reveal_strlit("jobs");
    reveal_strlit("fg");
    reveal_strlit("bg");
    assert("fg"@.len() != "exit"@.len());
    assert("fg"@[0] != "cd"@[0]);
    assert("fg"@.len() != "pwd"@.len());
    assert("fg"@.len() != "echo"@.len());
    assert("fg"@.len() != "clear"@.len());
    assert("fg"@.len() != "export"@.len());
    assert("fg"@.len() != "history"@.len());
    assert("fg"@.len() != "help"@.len());
    assert("fg"@.len() != "jobs"@.len());
    let id = job_arg(args, jobs)->0;
    lemma_remove_job_gone(jobs, id);
    assert forall|other: u32| other != id implies #[trigger] find_job(remove_spec(jobs, id), other)
        == find_job(jobs, other) by {
        lemma_other_jobs_kept(jobs, id, JobStatus::Running, other);
    }
    if args.len() == 0 {
        assert forall|i: int| 0 <= i < jobs.jobs.len() implies (#[trigger] jobs.jobs[i]).id <= id by {
            if i < jobs.jobs.len() - 1 {
                assert(jobs.jobs[i].id < jobs.jobs[jobs.jobs.len() - 1].id);
            }
        }
    }
}

} // verus!
