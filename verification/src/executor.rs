//! What the executor decides around `fork` and `exec`: where a program is
//! looked for, how a pipeline or a single command runs, what a background
//! job is called, how a redirection opens its file, and the exit code that
//! a wait status gives. The process calls themselves are the caller's.
use vstd::prelude::*;
use crate::order::views;
use crate::parser::{Command, CommandV, Redirect};
use crate::text::{
    char_views, contains, from_chars, join, join_strings, push_chars, split_char, split_fields,
    to_chars,
};

verus! {

// ---------------------------------------------------------------------------
// Program lookup
// ---------------------------------------------------------------------------

/// `Path::join` of a directory with a name that holds no `/`.
pub open spec fn path_join(dir: Seq<char>, name: Seq<char>) -> Seq<char> {
    if dir.len() == 0 {
        name
    } else if dir.last() == '/' {
        dir + name
    } else {
        dir + seq!['/'] + name
    }
}

/// The paths tried for a command, in order: the name itself when it holds
/// a `/`; else each `$PATH` entry joined with it (none when `$PATH` is
/// unset). The first that is a file is the program.
pub open spec fn lookup_candidates_spec(cmd: Seq<char>, path: Option<Seq<char>>) -> Seq<Seq<char>> {
    if cmd.contains('/') {
        seq![cmd]
    } else {
        match path {
            None => Seq::empty(),
            Some(p) => split_char(p, ':').map_values(|d: Seq<char>| path_join(d, cmd)),
        }
    }
}

pub open spec fn opt_view(o: Option<&str>) -> Option<Seq<char>> {
    match o {
        Some(s) => Some(s@),
        None => None,
    }
}

fn join_exec(dir: &Vec<char>, name: &Vec<char>) -> (r: String)
    ensures
        r@ == path_join(dir@, name@),
{
    let mut out: Vec<char> = Vec::new();
    push_chars(&mut out, dir);
    if dir.len() > 0 && dir[dir.len() - 1] != '/' {
        out.push('/');
    }
    push_chars(&mut out, name);
    assert(dir@.len() == 0 ==> out@ =~= name@);
    from_chars(out.as_slice())
}

fn has_char(s: &Vec<char>, c: char) -> (r: bool)
    ensures
        r == s@.contains(c),
{
    let mut i: usize = 0;
    while i < s.len()
        invariant
            i <= s@.len(),
            forall|k: int| 0 <= k < i ==> s@[k] != c,
        decreases s.len() - i,
    {
        if s[i] == c {
            assert(s@[i as int] == c);
            return true;
        }
        i = i + 1;
    }
    false
}

pub fn lookup_candidates(cmd: &str, path: Option<&str>) -> (r: Vec<String>)
    ensures
        views(r@) == lookup_candidates_spec(cmd@, opt_view(path)),
{
    let name = to_chars(cmd);
    let mut out: Vec<String> = Vec::new();
    if has_char(&name, '/') {
        out.push(from_chars(name.as_slice()));
        assert(views(out@) =~= seq![cmd@]);
        return out;
    }
    match path {
        None => {
            assert(views(out@) =~= Seq::<Seq<char>>::empty());
            out
        },
        Some(p) => {
            let pv = to_chars(p);
            let dirs = split_fields(&pv, ':');
            let ghost ds = char_views(dirs@);
            let mut i: usize = 0;
            assert(views(out@) =~= ds.take(0).map_values(|d: Seq<char>| path_join(d, cmd@)));
            while i < dirs.len()
                invariant
                    i <= dirs@.len(),
                    ds == char_views(dirs@),
                    name@ == cmd@,
                    views(out@) == ds.take(i as int).map_values(
                        |d: Seq<char>| path_join(d, cmd@),
                    ),
                decreases dirs.len() - i,
            {
                let ghost before = views(out@);
                let j = join_exec(&dirs[i], &name);
                out.push(j);
                assert(ds.take(i + 1) =~= ds.take(i as int).push(dirs@[i as int]@));
                assert(views(out@) =~= before.push(path_join(ds[i as int], cmd@)));
                assert(ds.take(i + 1).map_values(|d: Seq<char>| path_join(d, cmd@)) =~= ds.take(
                    i as int,
                ).map_values(|d: Seq<char>| path_join(d, cmd@)).push(
                    path_join(ds[i as int], cmd@),
                ));
                i = i + 1;
            }
            assert(ds.take(i as int) =~= ds);
            out
        },
    }
}

/// The arguments handed to `exec`: those that hold a NUL byte cannot be
/// passed and are left out.
pub open spec fn exec_args_spec(args: Seq<Seq<char>>) -> Seq<Seq<char>> {
    args.filter(|a: Seq<char>| !a.contains('\0'))
}

pub fn exec_args(args: &[String]) -> (r: Vec<String>)
    ensures
        views(r@) == exec_args_spec(views(args@)),
{
    let ghost av = views(args@);
    let ghost p = |a: Seq<char>| !a.contains('\0');
    let mut out: Vec<String> = Vec::new();
    let mut i: usize = 0;
    assert(av.take(0).filter(p) =~= Seq::<Seq<char>>::empty());
    assert(views(out@) =~= Seq::<Seq<char>>::empty());
    while i < args.len()
        invariant
            i <= args@.len(),
            av == views(args@),
            p == (|a: Seq<char>| !a.contains('\0')),
            views(out@) == av.take(i as int).filter(p),
        decreases args.len() - i,
    {
        assert(av.take(i + 1) =~= av.take(i as int).push(av[i as int]));
        proof {
            av.take(i as int).lemma_filter_push(av[i as int], p);
        }
        let a = to_chars(args[i].as_str());
        if !has_char(&a, '\0') {
            let ghost before = views(out@);
            out.push(from_chars(a.as_slice()));
            assert(views(out@) =~= before.push(av[i as int]));
        }
        i = i + 1;
    }
    assert(av.take(i as int) =~= av);
    out
}

// ---------------------------------------------------------------------------
// Plans
// ---------------------------------------------------------------------------

/// The text a background job is listed under: its words joined by spaces.
pub open spec fn command_text(c: CommandV) -> Seq<char> {
    join(c.args, " "@)
}

/// The text of a background pipeline: each command's text, joined by ` | `.
pub open spec fn pipeline_text(cs: Seq<CommandV>) -> Seq<char> {
    join(cs.map_values(|c: CommandV| command_text(c)), " | "@)
}

pub open spec fn cmd_views(cs: Seq<Command>) -> Seq<CommandV> {
    cs.map_values(|c: Command| c@)
}

/// How a pipeline runs.
pub enum PipelineStep {
    /// No commands: nothing happens.
    Nothing,
    /// One command: see [`execute_external`], after running it as a
    /// built-in.
    Single,
    /// Several commands, each in a child, connected by pipes. In the
    /// foreground the shell waits for all and keeps the last one's exit
    /// code; in the background the first child's process id is added as a
    /// job under `job_text`.
    Piped { foreground: bool, job_text: String },
}

pub enum PipelineStepV {
    Nothing,
    Single,
    Piped { foreground: bool, job_text: Seq<char> },
}

impl View for PipelineStep {
    type V = PipelineStepV;

    open spec fn view(&self) -> PipelineStepV {
        match self {
            PipelineStep::Nothing => PipelineStepV::Nothing,
            PipelineStep::Single => PipelineStepV::Single,
            PipelineStep::Piped { foreground, job_text } => PipelineStepV::Piped {
                foreground: *foreground,
                job_text: job_text@,
            },
        }
    }
}

pub open spec fn pipeline_step_spec(cs: Seq<CommandV>) -> PipelineStepV {
    if cs.len() == 0 {
        PipelineStepV::Nothing
    } else if cs.len() == 1 {
        PipelineStepV::Single
    } else {
        PipelineStepV::Piped { foreground: !cs.last().background, job_text: pipeline_text(cs) }
    }
}

pub fn command_job_text(c: &Command) -> (r: String)
    ensures
        r@ == command_text(c@),
{
    assert(views(c.args@) =~= c@.args);
    join_strings(c.args.as_slice(), " ")
}

/// How a pipeline of commands runs.
pub fn execute_pipeline(commands: &[Command]) -> (r: PipelineStep)
    ensures
        r@ == pipeline_step_spec(cmd_views(commands@)),
{
    let ghost cs = cmd_views(commands@);
    if commands.len() == 0 {
        return PipelineStep::Nothing;
    }
    if commands.len() == 1 {
        return PipelineStep::Single;
    }
    let mut texts: Vec<String> = Vec::new();
    let mut i: usize = 0;
    let ghost f = |c: CommandV| command_text(c);
    assert(views(texts@) =~= cs.take(0).map_values(f));
    while i < commands.len()
        invariant
            i <= commands@.len(),
            cs == cmd_views(commands@),
            f == (|c: CommandV| command_text(c)),
            views(texts@) == cs.take(i as int).map_values(f),
        decreases commands.len() - i,
    {
        let ghost before = views(texts@);
        texts.push(command_job_text(&commands[i]));
        assert(cs.take(i + 1) =~= cs.take(i as int).push(cs[i as int]));
        assert(views(texts@) =~= before.push(f(cs[i as int])));
        assert(cs.take(i + 1).map_values(f) =~= cs.take(i as int).map_values(f).push(
            f(cs[i as int]),
        ));
        i = i + 1;
    }
    assert(cs.take(i as int) =~= cs);
    let job_text = join_strings(texts.as_slice(), " | ");
    let last = &commands[commands.len() - 1];
    assert(last@ == cs.last());
    PipelineStep::Piped { foreground: !last.background, job_text }
}

/// How one command runs, once it has been tried as a built-in.
pub enum SinglePlan {
    /// No words: nothing happens.
    Nothing,
    /// A built-in without redirections: it has already run; the exit code
    /// is 0.
    Done,
    /// A built-in with redirections: it has run in the shell, and runs
    /// again in a child with the redirections applied.
    Builtin { foreground: bool, job_text: String },
    /// A program, looked up and executed in a child.
    External { foreground: bool, job_text: String },
}

pub enum SinglePlanV {
    Nothing,
    Done,
    Builtin { foreground: bool, job_text: Seq<char> },
    External { foreground: bool, job_text: Seq<char> },
}

impl View for SinglePlan {
    type V = SinglePlanV;

    open spec fn view(&self) -> SinglePlanV {
        match self {
            SinglePlan::Nothing => SinglePlanV::Nothing,
            SinglePlan::Done => SinglePlanV::Done,
            SinglePlan::Builtin { foreground, job_text } => SinglePlanV::Builtin {
                foreground: *foreground,
                job_text: job_text@,
            },
            SinglePlan::External { foreground, job_text } => SinglePlanV::External {
                foreground: *foreground,
                job_text: job_text@,
            },
        }
    }
}

pub open spec fn single_plan_spec(c: CommandV, is_builtin: bool) -> SinglePlanV {
    if c.args.len() == 0 {
        SinglePlanV::Nothing
    } else if is_builtin && c.redirects.len() == 0 {
        SinglePlanV::Done
    } else if is_builtin {
        SinglePlanV::Builtin { foreground: !c.background, job_text: command_text(c) }
    } else {
        SinglePlanV::External { foreground: !c.background, job_text: command_text(c) }
    }
}

/// How one command runs, given whether its first word was a built-in.
pub fn execute_external(cmd: &Command, is_builtin: bool) -> (r: SinglePlan)
    ensures
        r@ == single_plan_spec(cmd@, is_builtin),
{
    if cmd.args.len() == 0 {
        return SinglePlan::Nothing;
    }
    if is_builtin && cmd.redirects.len() == 0 {
        return SinglePlan::Done;
    }
    let job_text = command_job_text(cmd);
    if is_builtin {
        SinglePlan::Builtin { foreground: !cmd.background, job_text }
    } else {
        SinglePlan::External { foreground: !cmd.background, job_text }
    }
}

// ---------------------------------------------------------------------------
// Redirections and exit codes
// ---------------------------------------------------------------------------

/// How a redirection opens its target.
#[derive(PartialEq, Eq, Structural, Clone, Copy)]
pub enum OpenMode {
    /// `<`: read only.
    Read,
    /// `>>`: write, create, append.
    Append,
    /// `>`: write, create, truncate.
    Truncate,
}

pub fn open_mode(r: &Redirect) -> (m: OpenMode)
    ensures
        m == (if r.input {
            OpenMode::Read
        } else if r.append {
            OpenMode::Append
        } else {
            OpenMode::Truncate
        }),
{
    if r.input {
        OpenMode::Read
    } else if r.append {
        OpenMode::Append
    } else {
        OpenMode::Truncate
    }
}

/// Calls `libc::WIFEXITED`, which on Linux is `(status & 0x7f) == 0`.
#[verifier::external_body]
fn wifexited(status: i32) -> (r: bool)
    ensures
        r == (status & 0x7f == 0),
{
    libc::WIFEXITED(status)
}

/// Calls `libc::WEXITSTATUS`, which on Linux is `(status >> 8) & 0xff`.
#[verifier::external_body]
fn wexitstatus(status: i32) -> (r: i32)
    ensures
        r == (status >> 8) & 0xff,
{
    libc::WEXITSTATUS(status)
}

/// The exit code a wait status reports: the code given to `exit` when the
/// child exited, 1 when a signal ended it.
pub open spec fn exit_code_spec(status: i32) -> i32 {
    if status & 0x7f == 0 {
        (status >> 8) & 0xff
    } else {
        1
    }
}

pub fn exit_code(status: i32) -> (r: i32)
    ensures
        r == exit_code_spec(status),
        0 <= r <= 255,
{
    let r = if wifexited(status) {
        wexitstatus(status)
    } else {
        1
    };
    assert(0 <= (status >> 8) & 0xff <= 255) by (bit_vector);
    r
}

/// A child that called `exit` with a code from 0 to 255 reports that code.
pub proof fn lemma_exit_code_of_exit(code: i32)
    requires
        0 <= code < 256,
    ensures
        exit_code_spec(code << 8) == code,
{
    assert((code << 8) & 0x7f == 0) by (bit_vector)
        requires
            0 <= code < 256,
    ;
    assert(((code << 8) >> 8) & 0xff == code) by (bit_vector)
        requires
            0 <= code < 256,
    ;
}

} // verus!
