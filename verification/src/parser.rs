//! The command-line tokenizer: quoting, escapes, variable expansion,
//! redirections, pipes, `;` and `&` sequencing, and `#` comments.
use vstd::prelude::*;
use crate::text::{
    is_ws, join, suffix_while, trim_start, ws_pred,
    trim, trim_str, char_alphanumeric, chars_eq, is_alphanumeric, lemma_prefix_while_bound,
    lemma_prefix_while_unique, prefix_while, subvec, to_chars,
};
use crate::num::{
    decimal, push_decimal,
};

verus! {

// ---------------------------------------------------------------------------
// Syntax tree
// ---------------------------------------------------------------------------

/// A redirection of descriptor `fd`: to the file `target` (read when
/// `input`, appended to when `append`), or, for `2>&1`, onto the
/// descriptor `dup` (`target` then stays empty).
#[derive(Debug)]
pub struct Redirect {
    pub fd: u32,
    pub target: String,
    pub append: bool,
    pub input: bool,
    pub dup: Option<u32>,
}

#[derive(Debug)]
pub struct Command {
    pub args: Vec<String>,
    pub redirects: Vec<Redirect>,
    pub background: bool,
}

#[derive(Debug)]
pub struct Pipeline {
    pub commands: Vec<Command>,
}

pub struct RedirectV {
    pub fd: u32,
    pub target: Seq<char>,
    pub append: bool,
    pub input: bool,
    pub dup: Option<u32>,
}

pub struct CommandV {
    pub args: Seq<Seq<char>>,
    pub redirects: Seq<RedirectV>,
    pub background: bool,
}

impl View for Redirect {
    type V = RedirectV;

    open spec fn view(&self) -> RedirectV {
        RedirectV {
            fd: self.fd,
            target: self.target@,
            append: self.append,
            input: self.input,
            dup: self.dup,
        }
    }
}

impl View for Command {
    type V = CommandV;

    open spec fn view(&self) -> CommandV {
        CommandV {
            args: self.args@.map_values(|s: String| s@),
            redirects: self.redirects@.map_values(|r: Redirect| r@),
            background: self.background,
        }
    }
}

impl View for Pipeline {
    type V = Seq<CommandV>;

    open spec fn view(&self) -> Seq<CommandV> {
        self.commands@.map_values(|c: Command| c@)
    }
}

pub open spec fn pipelines_view(p: Seq<Pipeline>) -> Seq<Seq<CommandV>> {
    p.map_values(|x: Pipeline| x@)
}

impl Command {
    pub fn empty() -> (c: Command)
        ensures
            c@ == empty_cmd(),
    {
        let c = Command { args: Vec::new(), redirects: Vec::new(), background: false };
        assert(c@.args =~= Seq::<Seq<char>>::empty());
        assert(c@.redirects =~= Seq::<RedirectV>::empty());
        c
    }
}

pub open spec fn empty_cmd() -> CommandV {
    CommandV { args: Seq::empty(), redirects: Seq::empty(), background: false }
}

pub open spec fn cmd_nonempty(c: CommandV) -> bool {
    c.args.len() > 0 || c.redirects.len() > 0
}

// ---------------------------------------------------------------------------
// Environment seen by the expander
// ---------------------------------------------------------------------------

/// The environment variables (name and value, in the order the process
/// holds them) and the shell's process id, as `$VAR`, `${VAR}`, `$$` and
/// `~` read them.
pub struct ShellEnv {
    pub vars: Vec<(String, String)>,
    pub pid: u32,
}

pub struct EnvV {
    pub vars: Seq<(Seq<char>, Seq<char>)>,
    pub pid: u32,
}

impl View for ShellEnv {
    type V = EnvV;

    open spec fn view(&self) -> EnvV {
        EnvV { vars: self.vars@.map_values(|p: (String, String)| (p.0@, p.1@)), pid: self.pid }
    }
}

/// The value of the first variable named `name`.
pub open spec fn env_get(vars: Seq<(Seq<char>, Seq<char>)>, name: Seq<char>) -> Option<Seq<char>>
    decreases vars.len(),
{
    if vars.len() == 0 {
        None
    } else if vars[0].0 == name {
        Some(vars[0].1)
    } else {
        env_get(vars.drop_first(), name)
    }
}

/// `env::var(name).unwrap_or_default()`.
pub open spec fn env_or_empty(env: EnvV, name: Seq<char>) -> Seq<char> {
    match env_get(env.vars, name) {
        Some(v) => v,
        None => Seq::empty(),
    }
}

proof fn lemma_env_get_skip(vars: Seq<(Seq<char>, Seq<char>)>, name: Seq<char>, i: int)
    requires
        0 <= i < vars.len(),
        forall|j: int| 0 <= j < i ==> (#[trigger] vars[j]).0 != name,
    ensures
        env_get(vars, name) == env_get(vars.skip(i), name),
    decreases i,
{
    if i > 0 {
        assert(vars.drop_first().skip(i - 1) =~= vars.skip(i));
        assert forall|j: int| 0 <= j < i - 1 implies (#[trigger] vars.drop_first()[j]).0
            != name by {
            assert(vars.drop_first()[j] == vars[j + 1]);
        }
        lemma_env_get_skip(vars.drop_first(), name, i - 1);
    } else {
        assert(vars.skip(0) == vars);
    }
}

proof fn lemma_env_get_none(vars: Seq<(Seq<char>, Seq<char>)>, name: Seq<char>)
    requires
        forall|j: int| 0 <= j < vars.len() ==> (#[trigger] vars[j]).0 != name,
    ensures
        env_get(vars, name) is None,
    decreases vars.len(),
{
    if vars.len() > 0 {
        assert forall|j: int| 0 <= j < vars.drop_first().len() implies (
        #[trigger] vars.drop_first()[j]).0 != name by {
            assert(vars.drop_first()[j] == vars[j + 1]);
        }
        lemma_env_get_none(vars.drop_first(), name);
    }
}

impl ShellEnv {
    /// The value of the variable `name`, if it is set.
    pub fn lookup(&self, name: &Vec<char>) -> (r: Option<Vec<char>>)
        ensures
            r matches Some(v) ==> env_get(self@.vars, name@) == Some(v@),
            r is None ==> env_get(self@.vars, name@) is None,
    {
        let mut i: usize = 0;
        while i < self.vars.len()
            invariant
                i <= self.vars@.len(),
                forall|j: int| 0 <= j < i ==> (#[trigger] self@.vars[j]).0 != name@,
            decreases self.vars.len() - i,
        {
            let k = to_chars(self.vars[i].0.as_str());
            if chars_eq(k.as_slice(), name.as_slice()) {
                proof {
                    lemma_env_get_skip(self@.vars, name@, i as int);
                }
                return Some(to_chars(self.vars[i].1.as_str()));
            }
            i = i + 1;
        }
        proof {
            lemma_env_get_none(self@.vars, name@);
        }
        None
    }

    pub fn lookup_str(&self, name: &str) -> (r: Option<Vec<char>>)
        ensures
            r matches Some(v) ==> env_get(self@.vars, name@) == Some(v@),
            r is None ==> env_get(self@.vars, name@) is None,
    {
        let n = to_chars(name);
        self.lookup(&n)
    }
}

// ---------------------------------------------------------------------------
// Variable expansion
// ---------------------------------------------------------------------------

pub open spec fn not_close_brace() -> spec_fn(char) -> bool {
    |c: char| c != '}'
}

pub open spec fn is_name_char(c: char) -> bool {
    char_alphanumeric(c) || c == '_'
}

pub open spec fn name_pred() -> spec_fn(char) -> bool {
    |c: char| is_name_char(c)
}

/// What `~` at the start of a word becomes: `$HOME`, or `~` itself.
pub open spec fn home_or_tilde(env: EnvV) -> Seq<char> {
    match env_get(env.vars, "HOME"@) {
        Some(h) => h,
        None => seq!['~'],
    }
}

/// Expansion of `s`, appended to what was already produced (`acc`):
/// `${NAME}`, `$$`, `$NAME`, a lone `$`, a leading `~`, and `\c`.
pub open spec fn expand_from(s: Seq<char>, acc: Seq<char>, env: EnvV) -> Seq<char>
    decreases s.len(),
{
    if s.len() == 0 {
        acc
    } else {
        let c = s[0];
        let rest = s.drop_first();
        if c == '$' {
            if rest.len() > 0 && rest[0] == '{' {
                let body = rest.drop_first();
                let k = prefix_while(body, not_close_brace());
                proof {
                    lemma_prefix_while_bound(body, not_close_brace());
                }
                let after = if k < body.len() {
                    body.skip(k + 1 as int)
                } else {
                    Seq::empty()
                };
                expand_from(after, acc + env_or_empty(env, body.take(k as int)), env)
            } else if rest.len() > 0 && rest[0] == '$' {
                expand_from(rest.drop_first(), acc + decimal(env.pid as nat), env)
            } else if rest.len() > 0 && is_name_char(rest[0]) {
                let k = prefix_while(rest, name_pred());
                proof {
                    lemma_prefix_while_bound(rest, name_pred());
                }
                expand_from(rest.skip(k as int), acc + env_or_empty(env, rest.take(k as int)), env)
            } else {
                expand_from(rest, acc.push('$'), env)
            }
        } else if c == '~' && acc.len() == 0 {
            expand_from(rest, home_or_tilde(env), env)
        } else if c == '\\' {
            if rest.len() > 0 {
                expand_from(rest.drop_first(), acc.push(rest[0]), env)
            } else {
                acc.push('\\')
            }
        } else {
            expand_from(rest, acc.push(c), env)
        }
    }
}

pub open spec fn expand_vars_spec(s: Seq<char>, env: EnvV) -> Seq<char> {
    expand_from(s, Seq::empty(), env)
}

fn append_chars(acc: &mut Vec<char>, v: &Vec<char>)
    ensures
        final(acc)@ == old(acc)@ + v@,
{
    let mut i: usize = 0;
    while i < v.len()
        invariant
            i <= v@.len(),
            acc@ == old(acc)@ + v@.take(i as int),
        decreases v.len() - i,
    {
        acc.push(v[i]);
        assert(v@.take(i + 1) == v@.take(i as int).push(v@[i as int]));
        i = i + 1;
    }
    assert(v@.take(v@.len() as int) == v@);
}

fn is_name_char_exec(c: char) -> (r: bool)
    ensures
        r == is_name_char(c),
{
    is_alphanumeric(c) || c == '_'
}

/// Expands `$VAR`, `${VAR}`, `$$`, a leading `~` and backslash escapes.
fn expand_vars(s: &Vec<char>, env: &ShellEnv) -> (r: Vec<char>)
    ensures
        r@ == expand_vars_spec(s@, env@),
{
    let mut result: Vec<char> = Vec::new();
    let mut i: usize = 0;
    let n = s.len();
    assert(s@.skip(0) == s@);
    while i < n
        invariant
            n == s@.len(),
            i <= n,
            expand_vars_spec(s@, env@) == expand_from(s@.skip(i as int), result@, env@),
        decreases n - i,
    {
        let ghost t = s@.skip(i as int);
        let ghost rest = t.drop_first();
        assert(t[0] == s@[i as int]);
        assert(rest =~= s@.skip(i + 1));
        let c = s[i];
        if c == '$' {
            if i + 1 < n && s[i + 1] == '{' {
                assert(rest[0] == s@[i + 1]);
                let mut j = i + 2;
                while j < n && s[j] != '}'
                    invariant
                        i + 2 <= j <= n,
                        n == s@.len(),
                        forall|m: int| i + 2 <= m < j ==> s@[m] != '}',
                    decreases n - j,
                {
                    j = j + 1;
                }
                let ghost body = rest.drop_first();
                proof {
                    assert(body =~= s@.skip(i + 2));
                    assert forall|m: int| 0 <= m < j - (i + 2) implies not_close_brace()(
                        #[trigger] body[m],
                    ) by {
                        assert(body[m] == s@[i + 2 + m]);
                    }
                    if j < n {
                        assert(body[j - (i + 2)] == s@[j as int]);
                    }
                    lemma_prefix_while_unique(body, not_close_brace(), j - (i + 2));
                    assert(body.take(j - (i + 2)) =~= s@.subrange(i + 2, j as int));
                }
                let name = subvec(s, i + 2, j);
                match env.lookup(&name) {
                    Some(v) => append_chars(&mut result, &v),
                    None => {
                        assert(result@ + Seq::<char>::empty() =~= result@);
                    },
                }
                if j < n {
                    assert(body.skip(j - (i + 2) + 1) =~= s@.skip(j + 1));
                    i = j + 1;
                } else {
                    assert(s@.skip(n as int) =~= Seq::<char>::empty());
                    i = n;
                }
            } else if i + 1 < n && s[i + 1] == '$' {
                assert(rest[0] == s@[i + 1]);
                assert(rest.drop_first() =~= s@.skip(i + 2));
                push_decimal(&mut result, env.pid as u64);
                i = i + 2;
            } else if i + 1 < n && is_name_char_exec(s[i + 1]) {
                assert(rest[0] == s@[i + 1]);
                let mut j = i + 1;
                while j < n && is_name_char_exec(s[j])
                    invariant
                        i + 1 <= j <= n,
                        n == s@.len(),
                        forall|m: int| i + 1 <= m < j ==> is_name_char(#[trigger] s@[m]),
                    decreases n - j,
                {
                    j = j + 1;
                }
                proof {
                    assert forall|m: int| 0 <= m < j - (i + 1) implies name_pred()(
                        #[trigger] rest[m],
                    ) by {
                        assert(rest[m] == s@[i + 1 + m]);
                    }
                    if j < n {
                        assert(rest[j - (i + 1)] == s@[j as int]);
                    }
                    lemma_prefix_while_unique(rest, name_pred(), j - (i + 1));
                    assert(rest.take(j - (i + 1)) =~= s@.subrange(i + 1, j as int));
                    assert(rest.skip(j - (i + 1)) =~= s@.skip(j as int));
                }
                let name = subvec(s, i + 1, j);
                match env.lookup(&name) {
                    Some(v) => append_chars(&mut result, &v),
                    None => {
                        assert(result@ + Seq::<char>::empty() =~= result@);
                    },
                }
                i = j;
            } else {
                proof {
                    if i + 1 < n {
                        assert(rest[0] == s@[i + 1]);
                    }
                }
                result.push('$');
                i = i + 1;
            }
        } else if c == '~' && result.len() == 0 {
            match env.lookup_str("HOME") {
                Some(h) => {
                    result = h;
                },
                None => {
                    result.push('~');
                    assert(result@ =~= seq!['~']);
                },
            }
            i = i + 1;
        } else if c == '\\' {
            if i + 1 < n {
                assert(rest[0] == s@[i + 1]);
                assert(rest.drop_first() =~= s@.skip(i + 2));
                result.push(s[i + 1]);
                i = i + 2;
            } else {
                result.push('\\');
                assert(s@.skip(n as int) =~= Seq::<char>::empty());
                i = n;
            }
        } else {
            result.push(c);
            i = i + 1;
        }
    }
    assert(s@.skip(n as int) =~= Seq::<char>::empty());
    result
}

// ---------------------------------------------------------------------------
// Tokenizing
// ---------------------------------------------------------------------------

/// The redirection operators: `(fd, input, append)`.
pub open spec fn redirect_op(e: Seq<char>) -> Option<(u32, bool, bool)> {
    if e == seq!['<'] {
        Some((0u32, true, false))
    } else if e == seq!['>'] {
        Some((1u32, false, false))
    } else if e == seq!['>', '>'] {
        Some((1u32, false, true))
    } else if e == seq!['2', '>'] {
        Some((2u32, false, false))
    } else if e == seq!['2', '>', '>'] {
        Some((2u32, false, true))
    } else {
        None
    }
}

/// `2>&1`: standard error sent where standard output goes.
pub open spec fn stderr_to_stdout() -> RedirectV {
    RedirectV { fd: 2, target: Seq::empty(), append: false, input: false, dup: Some(1) }
}

/// A finished word: expanded, then taken as a redirection operator, as the
/// target of a pending redirection, or as an argument.
pub open spec fn flush_spec(cmd: CommandV, token: Seq<char>, env: EnvV) -> CommandV {
    if token.len() == 0 {
        cmd
    } else {
        let e = expand_vars_spec(token, env);
        match redirect_op(e) {
                Some((fd, input, append)) => CommandV {
                    args: cmd.args,
                    redirects: cmd.redirects.push(
                        RedirectV {
                            fd: fd,
                            target: Seq::empty(),
                            append: append,
                            input: input,
                            dup: None,
                        },
                    ),
                    background: cmd.background,
                },
                None => if cmd.redirects.len() > 0 && cmd.redirects.last().target.len() == 0
                    && cmd.redirects.last().dup is None {
                    let last = cmd.redirects.last();
                    CommandV {
                        args: cmd.args,
                        redirects: cmd.redirects.update(
                            cmd.redirects.len() - 1,
                            RedirectV {
                                fd: last.fd,
                                target: e,
                                append: last.append,
                                input: last.input,
                                dup: None,
                            },
                        ),
                        background: cmd.background,
                    }
                } else {
                    CommandV {
                        args: cmd.args.push(e),
                        redirects: cmd.redirects,
                        background: cmd.background,
                    }
                },
        }
    }
}

/// Ends a command: a non-empty one joins the pipeline.
pub open spec fn push_cmd_spec(pl: Seq<CommandV>, cmd: CommandV) -> (Seq<CommandV>, CommandV) {
    if cmd_nonempty(cmd) {
        (pl.push(cmd), empty_cmd())
    } else {
        (pl, cmd)
    }
}

/// Ends a pipeline: a non-empty one joins the result.
pub open spec fn push_pipeline_spec(pls: Seq<Seq<CommandV>>, pl: Seq<CommandV>) -> (
    Seq<Seq<CommandV>>,
    Seq<CommandV>,
) {
    if pl.len() > 0 {
        (pls.push(pl), Seq::empty())
    } else {
        (pls, pl)
    }
}

/// What a character following a backslash stands for.
pub open spec fn escape_seq(ch: char) -> Seq<char> {
    if ch == 'n' {
        seq!['\n']
    } else if ch == 't' {
        seq!['\t']
    } else if ch == 'r' {
        seq!['\r']
    } else if ch == '\\' || ch == '"' || ch == '\'' || ch == '$' || ch == ' ' {
        seq![ch]
    } else {
        seq!['\\', ch]
    }
}

#[verifier::ext_equal]
pub struct ParseState {
    pub pipelines: Seq<Seq<CommandV>>,
    pub pipeline: Seq<CommandV>,
    pub cmd: CommandV,
    pub in_single: bool,
    pub in_double: bool,
    pub escaped: bool,
    pub token: Seq<char>,
    pub stopped: bool,
    /// How much of `&1` has been read right after the word `2>`: a `2>&1`
    /// in the making, decided when the word ends.
    pub dup_seen: nat,
}

pub open spec fn init_state() -> ParseState {
    ParseState {
        pipelines: Seq::empty(),
        pipeline: Seq::empty(),
        cmd: empty_cmd(),
        in_single: false,
        in_double: false,
        escaped: false,
        token: Seq::empty(),
        stopped: false,
        dup_seen: 0,
    }
}

/// One character of the tokenizer, `2>&1` aside.
pub open spec fn base_step(st: ParseState, ch: char, env: EnvV) -> ParseState {
    if st.stopped {
        st
    } else if st.escaped {
        ParseState { token: st.token + escape_seq(ch), escaped: false, ..st }
    } else if ch == '\\' && !st.in_single {
        ParseState { escaped: true, ..st }
    } else if ch == '\'' && !st.in_double {
        ParseState { in_single: !st.in_single, ..st }
    } else if ch == '"' && !st.in_single {
        ParseState { in_double: !st.in_double, ..st }
    } else if st.in_single {
        ParseState { token: st.token.push(ch), ..st }
    } else if ch == '#' && st.token.len() == 0 && st.cmd.args.len() == 0
        && st.cmd.redirects.len() == 0 {
        ParseState { stopped: true, ..st }
    } else if ch == ';' && !st.in_double {
        let c1 = flush_spec(st.cmd, st.token, env);
        let (pl1, c2) = push_cmd_spec(st.pipeline, c1);
        let (pls2, pl2) = push_pipeline_spec(st.pipelines, pl1);
        ParseState { pipelines: pls2, pipeline: pl2, cmd: c2, token: Seq::empty(), ..st }
    } else if ch == '|' && !st.in_double {
        let c1 = flush_spec(st.cmd, st.token, env);
        let (pl1, c2) = push_cmd_spec(st.pipeline, c1);
        ParseState { pipeline: pl1, cmd: c2, token: Seq::empty(), ..st }
    } else if ch == '&' && !st.in_double {
        let c1 = flush_spec(st.cmd, st.token, env);
        let pl1 = if cmd_nonempty(c1) {
            st.pipeline.push(CommandV { background: true, ..c1 })
        } else {
            st.pipeline
        };
        let (pls2, pl2) = push_pipeline_spec(st.pipelines, pl1);
        ParseState { pipelines: pls2, pipeline: pl2, cmd: empty_cmd(), token: Seq::empty(), ..st }
    } else if ch == ' ' && !st.in_double {
        ParseState { cmd: flush_spec(st.cmd, st.token, env), token: Seq::empty(), ..st }
    } else {
        ParseState { token: st.token.push(ch), ..st }
    }
}

/// An `&` right after the unquoted word `2>` may begin `2>&1`.
pub open spec fn starts_dup(st: ParseState, ch: char) -> bool {
    &&& !st.stopped
    &&& !st.escaped
    &&& !st.in_single
    &&& !st.in_double
    &&& ch == '&'
    &&& st.token == seq!['2', '>']
}

/// A character read with no `2>&1` pending.
pub open spec fn step0(st: ParseState, ch: char, env: EnvV) -> ParseState {
    if starts_dup(st, ch) {
        ParseState { dup_seen: 1, ..st }
    } else {
        base_step(st, ch, env)
    }
}

/// The pending `2>&` is no `2>&1` after all: the `&` is read as usual,
/// after the word `2>`.
pub open spec fn drop_dup(st: ParseState, env: EnvV) -> ParseState {
    base_step(ParseState { dup_seen: 0, ..st }, '&', env)
}

/// The word `2>&1` is complete: the command gets the redirection.
pub open spec fn take_dup(st: ParseState) -> ParseState {
    ParseState {
        cmd: CommandV { redirects: st.cmd.redirects.push(stderr_to_stdout()), ..st.cmd },
        token: Seq::empty(),
        dup_seen: 0,
        ..st
    }
}

/// A character that ends a word outside quotes.
pub open spec fn ends_word(ch: char) -> bool {
    ch == ' ' || ch == ';' || ch == '|' || ch == '&'
}

/// One character of the tokenizer.
pub open spec fn step(st: ParseState, ch: char, env: EnvV) -> ParseState {
    if st.stopped {
        st
    } else if st.dup_seen == 1 {
        if ch == '1' {
            ParseState { dup_seen: 2, ..st }
        } else {
            step0(drop_dup(st, env), ch, env)
        }
    } else if st.dup_seen == 2 {
        if ends_word(ch) {
            step0(take_dup(st), ch, env)
        } else {
            step0(step0(drop_dup(st, env), '1', env), ch, env)
        }
    } else {
        step0(st, ch, env)
    }
}

/// The tokenizer's state after reading `s`.
pub open spec fn run(s: Seq<char>, env: EnvV) -> ParseState
    decreases s.len(),
{
    if s.len() == 0 {
        init_state()
    } else {
        step(run(s.drop_last(), env), s.last(), env)
    }
}

/// End of input decides a pending `2>&1`.
pub open spec fn settle(st: ParseState, env: EnvV) -> ParseState {
    if st.dup_seen == 1 {
        drop_dup(st, env)
    } else if st.dup_seen == 2 {
        take_dup(st)
    } else {
        st
    }
}

/// End of input: a dangling backslash stays, the last word, command and
/// pipeline are ended.
pub open spec fn finish_words(st: ParseState, env: EnvV) -> Seq<Seq<CommandV>> {
    let tok = if st.escaped {
        st.token.push('\\')
    } else {
        st.token
    };
    let c1 = flush_spec(st.cmd, tok, env);
    let (pl1, c2) = push_cmd_spec(st.pipeline, c1);
    push_pipeline_spec(st.pipelines, pl1).0
}

pub open spec fn finish(st: ParseState, env: EnvV) -> Seq<Seq<CommandV>> {
    finish_words(settle(st, env), env)
}

/// The pipelines that a command line denotes.
pub open spec fn parse_line_spec(line: Seq<char>, env: EnvV) -> Seq<Seq<CommandV>> {
    let t = trim(line);
    if t.len() == 0 {
        Seq::empty()
    } else {
        finish(run(t, env), env)
    }
}

fn redirect_op_exec(e: &Vec<char>) -> (r: Option<(u32, bool, bool)>)
    ensures
        r == redirect_op(e@),
{
    let n = e.len();
    if n == 1 && e[0] == '<' {
        assert(e@ =~= seq!['<']);
        Some((0, true, false))
    } else if n == 1 && e[0] == '>' {
        assert(e@ =~= seq!['>']);
        Some((1, false, false))
    } else if n == 2 && e[0] == '>' && e[1] == '>' {
        assert(e@ =~= seq!['>', '>']);
        Some((1, false, true))
    } else if n == 2 && e[0] == '2' && e[1] == '>' {
        assert(e@ =~= seq!['2', '>']);
        Some((2, false, false))
    } else if n == 3 && e[0] == '2' && e[1] == '>' && e[2] == '>' {
        assert(e@ =~= seq!['2', '>', '>']);
        Some((2, false, true))
    } else {
        proof {
            if n == 1 {
                assert(e@ != seq!['<']) by {
                    assert(seq!['<'][0] == '<');
                }
                assert(e@ != seq!['>']) by {
                    assert(seq!['>'][0] == '>');
                }
            }
            if n == 2 {
                assert(e@ != seq!['>', '>']) by {
                    assert(seq!['>', '>'][0] == '>');
                    assert(seq!['>', '>'][1] == '>');
                }
                assert(e@ != seq!['2', '>']) by {
                    assert(seq!['2', '>'][0] == '2');
                    assert(seq!['2', '>'][1] == '>');
                }
            }
            if n == 3 {
                assert(e@ != seq!['2', '>', '>']) by {
                    assert(seq!['2', '>', '>'][0] == '2');
                    assert(seq!['2', '>', '>'][1] == '>');
                    assert(seq!['2', '>', '>'][2] == '>');
                }
            }
        }
        None
    }
}

fn flush_token(cmd: &mut Command, token: &mut Vec<char>, env: &ShellEnv)
    ensures
        final(cmd)@ == flush_spec(old(cmd)@, old(token)@, env@),
        final(token)@ == Seq::<char>::empty(),
{
    if token.len() == 0 {
        return ;
    }
    let expanded = expand_vars(token, env);
    token.clear();
    let ghost c0 = cmd@;
    match redirect_op_exec(&expanded) {
        Some((fd, input, append)) => {
            cmd.redirects.push(Redirect { fd, target: String::new(), append, input, dup: None });
            assert(cmd@.redirects =~= c0.redirects.push(
                RedirectV {
                    fd: fd,
                    target: Seq::empty(),
                    append: append,
                    input: input,
                    dup: None,
                },
            ));
        },
        None => {
            let n = cmd.redirects.len();
            if n > 0 && cmd.redirects[n - 1].target.as_str().unicode_len() == 0
                && cmd.redirects[n - 1].dup.is_none() {
                let last = cmd.redirects.pop().unwrap();
                let target = crate::text::from_chars(expanded.as_slice());
                cmd.redirects.push(
                    Redirect {
                        fd: last.fd,
                        target,
                        append: last.append,
                        input: last.input,
                        dup: None,
                    },
                );
                assert(cmd@.redirects =~= c0.redirects.update(
                    n - 1,
                    RedirectV {
                        fd: last.fd,
                        target: expanded@,
                        append: last.append,
                        input: last.input,
                        dup: None,
                    },
                ));
            } else {
                let a = crate::text::from_chars(expanded.as_slice());
                cmd.args.push(a);
                assert(cmd@.args =~= c0.args.push(expanded@));
            }
        },
    }
}

fn push_cmd(pipeline: &mut Pipeline, cmd: &mut Command)
    ensures
        (final(pipeline)@, final(cmd)@) == push_cmd_spec(old(pipeline)@, old(cmd)@),
{
    if cmd.args.len() > 0 || cmd.redirects.len() > 0 {
        let ghost p0 = pipeline@;
        let mut fresh = Command::empty();
        std::mem::swap(cmd, &mut fresh);
        pipeline.commands.push(fresh);
        assert(pipeline@ =~= p0.push(old(cmd)@));
    }
}

fn push_pipeline(pipelines: &mut Vec<Pipeline>, pipeline: &mut Pipeline)
    ensures
        (pipelines_view(final(pipelines)@), final(pipeline)@) == push_pipeline_spec(
            pipelines_view(old(pipelines)@),
            old(pipeline)@,
        ),
{
    if pipeline.commands.len() > 0 {
        let ghost p0 = pipelines_view(pipelines@);
        let mut fresh = Pipeline { commands: Vec::new() };
        assert(fresh@ =~= Seq::<CommandV>::empty());
        std::mem::swap(pipeline, &mut fresh);
        pipelines.push(fresh);
        assert(pipelines_view(pipelines@) =~= p0.push(old(pipeline)@));
    }
}

fn push_escape(token: &mut Vec<char>, ch: char)
    ensures
        final(token)@ == old(token)@ + escape_seq(ch),
{
    if ch == 'n' {
        token.push('\n');
    } else if ch == 't' {
        token.push('\t');
    } else if ch == 'r' {
        token.push('\r');
    } else if ch == '\\' || ch == '"' || ch == '\'' || ch == '$' || ch == ' ' {
        token.push(ch);
    } else {
        token.push('\\');
        token.push(ch);
    }
    assert(final(token)@ =~= old(token)@ + escape_seq(ch));
}

/// The tokenizer's state while a line is read.
struct Tokenizer {
    pipelines: Vec<Pipeline>,
    pipeline: Pipeline,
    cmd: Command,
    in_single: bool,
    in_double: bool,
    escaped: bool,
    token: Vec<char>,
    stopped: bool,
    dup_seen: u8,
}

impl View for Tokenizer {
    type V = ParseState;

    closed spec fn view(&self) -> ParseState {
        ParseState {
            pipelines: pipelines_view(self.pipelines@),
            pipeline: self.pipeline@,
            cmd: self.cmd@,
            in_single: self.in_single,
            in_double: self.in_double,
            escaped: self.escaped,
            token: self.token@,
            stopped: self.stopped,
            dup_seen: self.dup_seen as nat,
        }
    }
}

impl Tokenizer {
    fn new() -> (t: Tokenizer)
        ensures
            t@ == init_state(),
    {
        let t = Tokenizer {
            pipelines: Vec::new(),
            pipeline: Pipeline { commands: Vec::new() },
            cmd: Command::empty(),
            in_single: false,
            in_double: false,
            escaped: false,
            token: Vec::new(),
            stopped: false,
            dup_seen: 0,
        };
        assert(pipelines_view(t.pipelines@) =~= Seq::<Seq<CommandV>>::empty());
        assert(t.pipeline@ =~= Seq::<CommandV>::empty());
        assert(t@ =~= init_state());
        t
    }

    fn base_step(&mut self, ch: char, env: &ShellEnv)
        ensures
            final(self)@ == base_step(old(self)@, ch, env@),
    {
        if self.stopped {
        } else if self.escaped {
            push_escape(&mut self.token, ch);
            self.escaped = false;
        } else if ch == '\\' && !self.in_single {
            self.escaped = true;
        } else if ch == '\'' && !self.in_double {
            self.in_single = !self.in_single;
        } else if ch == '"' && !self.in_single {
            self.in_double = !self.in_double;
        } else if self.in_single {
            self.token.push(ch);
        } else if ch == '#' && self.token.len() == 0 && self.cmd.args.len() == 0
            && self.cmd.redirects.len() == 0 {
            self.stopped = true;
        } else if ch == ';' && !self.in_double {
            flush_token(&mut self.cmd, &mut self.token, env);
            push_cmd(&mut self.pipeline, &mut self.cmd);
            push_pipeline(&mut self.pipelines, &mut self.pipeline);
        } else if ch == '|' && !self.in_double {
            flush_token(&mut self.cmd, &mut self.token, env);
            push_cmd(&mut self.pipeline, &mut self.cmd);
        } else if ch == '&' && !self.in_double {
            flush_token(&mut self.cmd, &mut self.token, env);
            let ghost c1 = self.cmd@;
            if self.cmd.args.len() > 0 || self.cmd.redirects.len() > 0 {
                self.cmd.background = true;
                assert(self.cmd@ =~= CommandV { background: true, ..c1 });
                let ghost p0 = self.pipeline@;
                let mut fresh = Command::empty();
                std::mem::swap(&mut self.cmd, &mut fresh);
                self.pipeline.commands.push(fresh);
                assert(self.pipeline@ =~= p0.push(CommandV { background: true, ..c1 }));
            }
            push_pipeline(&mut self.pipelines, &mut self.pipeline);
            self.cmd = Command::empty();
        } else if ch == ' ' && !self.in_double {
            flush_token(&mut self.cmd, &mut self.token, env);
        } else {
            self.token.push(ch);
        }
    }

    fn step0(&mut self, ch: char, env: &ShellEnv)
        requires
            old(self)@.dup_seen == 0,
        ensures
            final(self)@ == step0(old(self)@, ch, env@),
    {
        if !self.stopped && !self.escaped && !self.in_single && !self.in_double && ch == '&'
            && self.token.len() == 2 && self.token[0] == '2' && self.token[1] == '>' {
            assert(self.token@ =~= seq!['2', '>']);
            self.dup_seen = 1;
        } else {
            proof {
                if self.token@ == seq!['2', '>'] {
                    assert(self.token@.len() == 2 && self.token@[0] == '2' && self.token@[1] == '>');
                }
            }
            self.base_step(ch, env);
        }
    }

    fn drop_dup(&mut self, env: &ShellEnv)
        ensures
            final(self)@ == drop_dup(old(self)@, env@),
    {
        self.dup_seen = 0;
        self.base_step('&', env);
    }

    fn take_dup(&mut self)
        ensures
            final(self)@ == take_dup(old(self)@),
    {
        let ghost r0 = self.cmd@.redirects;
        self.cmd.redirects.push(
            Redirect { fd: 2, target: String::new(), append: false, input: false, dup: Some(1) },
        );
        assert(self.cmd@.redirects =~= r0.push(stderr_to_stdout()));
        self.token.clear();
        self.dup_seen = 0;
    }

    fn step(&mut self, ch: char, env: &ShellEnv)
        requires
            old(self)@.dup_seen <= 2,
        ensures
            final(self)@ == step(old(self)@, ch, env@),
            final(self)@.dup_seen <= 2,
    {
        if self.stopped {
        } else if self.dup_seen == 1 {
            if ch == '1' {
                self.dup_seen = 2;
            } else {
                self.drop_dup(env);
                self.step0(ch, env);
            }
        } else if self.dup_seen == 2 {
            if ch == ' ' || ch == ';' || ch == '|' || ch == '&' {
                self.take_dup();
                self.step0(ch, env);
            } else {
                self.drop_dup(env);
                self.step0('1', env);
                self.step0(ch, env);
            }
        } else {
            self.step0(ch, env);
        }
    }

    fn finish(self, env: &ShellEnv) -> (r: Vec<Pipeline>)
        requires
            self@.dup_seen <= 2,
        ensures
            pipelines_view(r@) == finish(self@, env@),
    {
        let mut t = self;
        if t.dup_seen == 1 {
            t.drop_dup(env);
        } else if t.dup_seen == 2 {
            t.take_dup();
        }
        if t.escaped {
            t.token.push('\\');
        }
        flush_token(&mut t.cmd, &mut t.token, env);
        push_cmd(&mut t.pipeline, &mut t.cmd);
        push_pipeline(&mut t.pipelines, &mut t.pipeline);
        t.pipelines
    }
}

/// Splits a command line into pipelines of commands.
pub fn parse_line(line: &str, env: &ShellEnv) -> (r: Vec<Pipeline>)
    ensures
        pipelines_view(r@) == parse_line_spec(line@, env@),
{
    let chars = trim_str(line);
    if chars.len() == 0 {
        let r: Vec<Pipeline> = Vec::new();
        assert(pipelines_view(r@) =~= Seq::<Seq<CommandV>>::empty());
        return r;
    }
    let mut t = Tokenizer::new();
    let n = chars.len();
    let mut i: usize = 0;
    assert(chars@.take(0) =~= Seq::<char>::empty());
    while i < n
        invariant
            n == chars@.len(),
            i <= n,
            t@ == run(chars@.take(i as int), env@),
            t@.dup_seen <= 2,
        decreases n - i,
    {
        let ch = chars[i];
        assert(chars@.take(i + 1).drop_last() =~= chars@.take(i as int));
        assert(chars@.take(i + 1).last() == ch);
        t.step(ch, env);
        i = i + 1;
    }
    assert(chars@.take(n as int) =~= chars@);
    t.finish(env)
}

// ---------------------------------------------------------------------------
// Properties of the tokenizer
// ---------------------------------------------------------------------------

pub open spec fn cmds_nonempty(pl: Seq<CommandV>) -> bool {
    forall|i: int| 0 <= i < pl.len() ==> cmd_nonempty(#[trigger] pl[i])
}

pub open spec fn pipelines_wf(pls: Seq<Seq<CommandV>>) -> bool {
    forall|k: int| 0 <= k < pls.len() ==> (#[trigger] pls[k]).len() > 0 && cmds_nonempty(pls[k])
}

spec fn state_wf(st: ParseState) -> bool {
    pipelines_wf(st.pipelines) && cmds_nonempty(st.pipeline)
}

proof fn lemma_push_cmd_wf(pl: Seq<CommandV>, c: CommandV)
    requires
        cmds_nonempty(pl),
    ensures
        cmds_nonempty(push_cmd_spec(pl, c).0),
{
    let r = push_cmd_spec(pl, c).0;
    assert forall|i: int| 0 <= i < r.len() implies cmd_nonempty(#[trigger] r[i]) by {
        if i < pl.len() {
            assert(r[i] == pl[i]);
        }
    }
}

proof fn lemma_push_pipeline_wf(pls: Seq<Seq<CommandV>>, pl: Seq<CommandV>)
    requires
        pipelines_wf(pls),
        cmds_nonempty(pl),
    ensures
        pipelines_wf(push_pipeline_spec(pls, pl).0),
        cmds_nonempty(push_pipeline_spec(pls, pl).1),
{
    let r = push_pipeline_spec(pls, pl).0;
    assert forall|k: int| 0 <= k < r.len() implies (#[trigger] r[k]).len() > 0 && cmds_nonempty(
        r[k],
    ) by {
        if k < pls.len() {
            assert(r[k] == pls[k]);
        }
    }
}

proof fn lemma_base_step_wf(st: ParseState, ch: char, env: EnvV)
    requires
        state_wf(st),
    ensures
        state_wf(base_step(st, ch, env)),
{
    let c1 = flush_spec(st.cmd, st.token, env);
    if !st.stopped && !st.escaped && !(ch == '\\' && !st.in_single) && !(ch == '\''
        && !st.in_double) && !(ch == '"' && !st.in_single) && !st.in_single && !(ch == '#'
        && st.token.len() == 0 && st.cmd.args.len() == 0 && st.cmd.redirects.len() == 0) {
        if ch == ';' && !st.in_double {
            lemma_push_cmd_wf(st.pipeline, c1);
            lemma_push_pipeline_wf(st.pipelines, push_cmd_spec(st.pipeline, c1).0);
        } else if ch == '|' && !st.in_double {
            lemma_push_cmd_wf(st.pipeline, c1);
        } else if ch == '&' && !st.in_double {
            let pl1 = if cmd_nonempty(c1) {
                st.pipeline.push(CommandV { background: true, ..c1 })
            } else {
                st.pipeline
            };
            assert forall|i: int| 0 <= i < pl1.len() implies cmd_nonempty(#[trigger] pl1[i]) by {
                if i < st.pipeline.len() {
                    assert(pl1[i] == st.pipeline[i]);
                }
            }
            lemma_push_pipeline_wf(st.pipelines, pl1);
        }
    }
}

proof fn lemma_step0_wf(st: ParseState, ch: char, env: EnvV)
    requires
        state_wf(st),
    ensures
        state_wf(step0(st, ch, env)),
{
    lemma_base_step_wf(st, ch, env);
}

proof fn lemma_drop_dup_wf(st: ParseState, env: EnvV)
    requires
        state_wf(st),
    ensures
        state_wf(drop_dup(st, env)),
        state_wf(take_dup(st)),
        state_wf(settle(st, env)),
{
    lemma_base_step_wf(ParseState { dup_seen: 0, ..st }, '&', env);
}

proof fn lemma_step_wf(st: ParseState, ch: char, env: EnvV)
    requires
        state_wf(st),
    ensures
        state_wf(step(st, ch, env)),
{
    lemma_drop_dup_wf(st, env);
    lemma_step0_wf(st, ch, env);
    lemma_step0_wf(take_dup(st), ch, env);
    lemma_step0_wf(drop_dup(st, env), ch, env);
    lemma_step0_wf(drop_dup(st, env), '1', env);
    lemma_step0_wf(step0(drop_dup(st, env), '1', env), ch, env);
}

proof fn lemma_run_wf(s: Seq<char>, env: EnvV)
    ensures
        state_wf(run(s, env)),
    decreases s.len(),
{
    if s.len() > 0 {
        lemma_run_wf(s.drop_last(), env);
        lemma_step_wf(run(s.drop_last(), env), s.last(), env);
    }
}

proof fn lemma_run_stopped(s: Seq<char>, j: int, k: int, env: EnvV)
    requires
        0 <= j <= k <= s.len(),
        run(s.take(j), env).stopped,
    ensures
        run(s.take(k), env) == run(s.take(j), env),
    decreases k - j,
{
    if k > j {
        lemma_run_stopped(s, j, k - 1, env);
        assert(s.take(k).drop_last() =~= s.take(k - 1));
    }
}

/// Every pipeline that a line yields holds at least one command, and every
/// command has a word or a redirection.
pub proof fn lemma_parse_line_no_empty_parts(line: Seq<char>, env: EnvV)
    ensures
        pipelines_wf(parse_line_spec(line, env)),
{
    let t = trim(line);
    if t.len() > 0 {
        lemma_run_wf(t, env);
        lemma_drop_dup_wf(run(t, env), env);
        let st = settle(run(t, env), env);
        let tok = if st.escaped {
            st.token.push('\\')
        } else {
            st.token
        };
        let c1 = flush_spec(st.cmd, tok, env);
        lemma_push_cmd_wf(st.pipeline, c1);
        lemma_push_pipeline_wf(st.pipelines, push_cmd_spec(st.pipeline, c1).0);
    } else {
        assert(parse_line_spec(line, env) =~= Seq::<Seq<CommandV>>::empty());
    }
}

/// A blank line, and a line whose first non-blank character is `#`, yield
/// no pipeline.
pub proof fn lemma_parse_line_blank_or_comment(line: Seq<char>, env: EnvV)
    requires
        trim(line).len() == 0 || trim(line)[0] == '#',
    ensures
        parse_line_spec(line, env) == Seq::<Seq<CommandV>>::empty(),
{
    let t = trim(line);
    if t.len() > 0 {
        assert(t.take(1).drop_last() =~= Seq::<char>::empty());
        assert(t.take(1).last() == '#');
        assert(run(Seq::<char>::empty(), env) == init_state());
        assert(run(t.take(1), env) == step(init_state(), '#', env));
        assert(run(t.take(1), env).stopped);
        lemma_run_stopped(t, 1, t.len() as int, env);
        assert(t.take(t.len() as int) =~= t);
        let st = run(t, env);
        assert(st.pipelines =~= Seq::<Seq<CommandV>>::empty());
        assert(st.pipeline =~= Seq::<CommandV>::empty());
        assert(st.token =~= Seq::<char>::empty());
        assert(parse_line_spec(line, env) =~= Seq::<Seq<CommandV>>::empty());
    }
}

/// No command of the pipeline but the last runs in the background.
pub open spec fn background_only_last(pl: Seq<CommandV>) -> bool {
    forall|i: int| 0 <= i < pl.len() - 1 ==> !(#[trigger] pl[i]).background
}

spec fn all_foreground(pl: Seq<CommandV>) -> bool {
    forall|i: int| 0 <= i < pl.len() ==> !(#[trigger] pl[i]).background
}

spec fn state_background_ok(st: ParseState) -> bool {
    &&& forall|k: int| 0 <= k < st.pipelines.len() ==> background_only_last(#[trigger] st.pipelines[k])
    &&& all_foreground(st.pipeline)
    &&& !st.cmd.background
}

proof fn lemma_push_cmd_foreground(pl: Seq<CommandV>, c: CommandV)
    requires
        all_foreground(pl),
        !c.background,
    ensures
        all_foreground(push_cmd_spec(pl, c).0),
        !push_cmd_spec(pl, c).1.background,
{
    let r = push_cmd_spec(pl, c).0;
    assert forall|i: int| 0 <= i < r.len() implies !(#[trigger] r[i]).background by {
        if i < pl.len() {
            assert(r[i] == pl[i]);
        }
    }
}

proof fn lemma_push_pipeline_background(pls: Seq<Seq<CommandV>>, pl: Seq<CommandV>)
    requires
        forall|k: int| 0 <= k < pls.len() ==> background_only_last(#[trigger] pls[k]),
        background_only_last(pl),
    ensures
        forall|k: int|
            0 <= k < push_pipeline_spec(pls, pl).0.len() ==> background_only_last(
                #[trigger] push_pipeline_spec(pls, pl).0[k],
            ),
{
    let r = push_pipeline_spec(pls, pl).0;
    assert forall|k: int| 0 <= k < r.len() implies background_only_last(#[trigger] r[k]) by {
        if k < pls.len() {
            assert(r[k] == pls[k]);
        }
    }
}

proof fn lemma_base_step_background(st: ParseState, ch: char, env: EnvV)
    requires
        state_background_ok(st),
    ensures
        state_background_ok(base_step(st, ch, env)),
{
    let c1 = flush_spec(st.cmd, st.token, env);
    assert(c1.background == st.cmd.background);
    if !st.stopped && !st.escaped && !(ch == '\\' && !st.in_single) && !(ch == '\''
        && !st.in_double) && !(ch == '"' && !st.in_single) && !st.in_single && !(ch == '#'
        && st.token.len() == 0 && st.cmd.args.len() == 0 && st.cmd.redirects.len() == 0) {
        if ch == ';' && !st.in_double {
            lemma_push_cmd_foreground(st.pipeline, c1);
            lemma_push_pipeline_background(st.pipelines, push_cmd_spec(st.pipeline, c1).0);
        } else if ch == '|' && !st.in_double {
            lemma_push_cmd_foreground(st.pipeline, c1);
        } else if ch == '&' && !st.in_double {
            let pl1 = if cmd_nonempty(c1) {
                st.pipeline.push(CommandV { background: true, ..c1 })
            } else {
                st.pipeline
            };
            assert forall|i: int| 0 <= i < pl1.len() - 1 implies !(#[trigger] pl1[i]).background by {
                assert(pl1[i] == st.pipeline[i]);
            }
            lemma_push_pipeline_background(st.pipelines, pl1);
            assert(all_foreground(push_pipeline_spec(st.pipelines, pl1).1)) by {
                if pl1.len() == 0 {
                    assert(push_pipeline_spec(st.pipelines, pl1).1 == pl1);
                }
            }
        }
    }
}

proof fn lemma_dup_background(st: ParseState, env: EnvV)
    requires
        state_background_ok(st),
    ensures
        state_background_ok(drop_dup(st, env)),
        state_background_ok(take_dup(st)),
        state_background_ok(settle(st, env)),
{
    lemma_base_step_background(ParseState { dup_seen: 0, ..st }, '&', env);
}

proof fn lemma_step_background(st: ParseState, ch: char, env: EnvV)
    requires
        state_background_ok(st),
    ensures
        state_background_ok(step(st, ch, env)),
{
    lemma_dup_background(st, env);
    lemma_base_step_background(st, ch, env);
    lemma_base_step_background(take_dup(st), ch, env);
    lemma_base_step_background(drop_dup(st, env), ch, env);
    lemma_base_step_background(drop_dup(st, env), '1', env);
    lemma_base_step_background(step0(drop_dup(st, env), '1', env), ch, env);
}

proof fn lemma_run_background(s: Seq<char>, env: EnvV)
    ensures
        state_background_ok(run(s, env)),
    decreases s.len(),
{
    if s.len() > 0 {
        lemma_run_background(s.drop_last(), env);
        lemma_step_background(run(s.drop_last(), env), s.last(), env);
    }
}

/// In every pipeline that a line yields, only the last command can be
/// marked to run in the background: `&` ends the pipeline it stands in.
pub proof fn lemma_parse_line_background_last(line: Seq<char>, env: EnvV)
    ensures
        forall|k: int|
            0 <= k < parse_line_spec(line, env).len() ==> background_only_last(
                #[trigger] parse_line_spec(line, env)[k],
            ),
{
    let t = trim(line);
    if t.len() > 0 {
        lemma_run_background(t, env);
        lemma_dup_background(run(t, env), env);
        let st = settle(run(t, env), env);
        let tok = if st.escaped {
            st.token.push('\\')
        } else {
            st.token
        };
        let c1 = flush_spec(st.cmd, tok, env);
        assert(c1.background == st.cmd.background);
        lemma_push_cmd_foreground(st.pipeline, c1);
        let pl1 = push_cmd_spec(st.pipeline, c1).0;
        assert(background_only_last(pl1));
        lemma_push_pipeline_background(st.pipelines, pl1);
    } else {
        assert(parse_line_spec(line, env) =~= Seq::<Seq<CommandV>>::empty());
    }
}

/// A character with no meaning to the tokenizer or the expander: not
/// whitespace, quote, backslash, `#`, `;`, `|`, `&`, `$`, `~`, `<` or `>`.
pub open spec fn plain_char(c: char) -> bool {
    &&& !is_ws(c)
    &&& c != '\\'
    &&& c != '\''
    &&& c != '"'
    &&& c != '#'
    &&& c != ';'
    &&& c != '|'
    &&& c != '&'
    &&& c != '$'
    &&& c != '~'
    &&& c != '<'
    &&& c != '>'
}

pub open spec fn plain_word(w: Seq<char>) -> bool {
    w.len() > 0 && forall|j: int| 0 <= j < w.len() ==> plain_char(#[trigger] w[j])
}

/// The tokenizer between words: the pipelines and commands finished so far,
/// the arguments of the current command and the word being read, nothing
/// else.
spec fn quiet(
    pls: Seq<Seq<CommandV>>,
    pl: Seq<CommandV>,
    args: Seq<Seq<char>>,
    token: Seq<char>,
) -> ParseState {
    quiet_cmd(pls, pl, words_cmd(args), token)
}

/// The tokenizer outside quotes and escapes, with the command so far.
spec fn quiet_cmd(pls: Seq<Seq<CommandV>>, pl: Seq<CommandV>, cmd: CommandV, token: Seq<char>) -> ParseState {
    ParseState {
        pipelines: pls,
        pipeline: pl,
        cmd: cmd,
        in_single: false,
        in_double: false,
        escaped: false,
        token: token,
        stopped: false,
        dup_seen: 0,
    }
}

/// A character that the tokenizer adds to the word being read.
pub open spec fn token_char(c: char) -> bool {
    &&& c != '\\'
    &&& c != '\''
    &&& c != '"'
    &&& c != '#'
    &&& c != ';'
    &&& c != '|'
    &&& c != '&'
    &&& c != ' '
}

/// A character that expansion copies as it is.
pub open spec fn literal_char(c: char) -> bool {
    c != '$' && c != '~' && c != '\\'
}

proof fn lemma_run_push(s: Seq<char>, c: char, env: EnvV)
    ensures
        run(s.push(c), env) == step(run(s, env), c, env),
{
    assert(s.push(c).drop_last() =~= s);
}

proof fn lemma_expand_plain(s: Seq<char>, acc: Seq<char>, env: EnvV)
    requires
        forall|j: int| 0 <= j < s.len() ==> literal_char(#[trigger] s[j]),
    ensures
        expand_from(s, acc, env) == acc + s,
    decreases s.len(),
{
    if s.len() == 0 {
        assert(acc + s =~= acc);
    } else {
        assert(literal_char(s[0]));
        let rest = s.drop_first();
        assert forall|j: int| 0 <= j < rest.len() implies literal_char(#[trigger] rest[j]) by {
            assert(rest[j] == s[j + 1]);
        }
        lemma_expand_plain(rest, acc.push(s[0]), env);
        assert(acc.push(s[0]) + rest =~= acc + s);
    }
}

proof fn lemma_run_token(
    s: Seq<char>,
    w: Seq<char>,
    pls: Seq<Seq<CommandV>>,
    pl: Seq<CommandV>,
    cmd: CommandV,
    tok: Seq<char>,
    env: EnvV,
)
    requires
        run(s, env) == quiet_cmd(pls, pl, cmd, tok),
        forall|j: int| 0 <= j < w.len() ==> token_char(#[trigger] w[j]),
    ensures
        run(s + w, env) == quiet_cmd(pls, pl, cmd, tok + w),
    decreases w.len(),
{
    if w.len() == 0 {
        assert(s + w =~= s);
        assert(tok + w =~= tok);
    } else {
        let w0 = w.drop_last();
        let c = w.last();
        assert(token_char(w[w.len() - 1]));
        assert forall|j: int| 0 <= j < w0.len() implies token_char(#[trigger] w0[j]) by {
            assert(w0[j] == w[j]);
        }
        lemma_run_token(s, w0, pls, pl, cmd, tok, env);
        assert(s + w =~= (s + w0).push(c));
        lemma_run_push(s + w0, c, env);
        assert((tok + w0).push(c) =~= tok + w);
        assert(step(quiet_cmd(pls, pl, cmd, tok + w0), c, env) =~= quiet_cmd(pls, pl, cmd, tok + w));
    }
}

proof fn lemma_run_word(
    s: Seq<char>,
    w: Seq<char>,
    pls: Seq<Seq<CommandV>>,
    pl: Seq<CommandV>,
    args: Seq<Seq<char>>,
    tok: Seq<char>,
    env: EnvV,
)
    requires
        run(s, env) == quiet(pls, pl, args, tok),
        forall|j: int| 0 <= j < w.len() ==> plain_char(#[trigger] w[j]),
    ensures
        run(s + w, env) == quiet(pls, pl, args, tok + w),
{
    assert forall|j: int| 0 <= j < w.len() implies token_char(#[trigger] w[j]) by {
        assert(plain_char(w[j]));
    }
    lemma_run_token(s, w, pls, pl, words_cmd(args), tok, env);
}

/// The command that a list of words makes.
pub open spec fn words_cmd(ws: Seq<Seq<char>>) -> CommandV {
    CommandV { args: ws, redirects: Seq::empty(), background: false }
}

proof fn lemma_flush_plain(args: Seq<Seq<char>>, w: Seq<char>, env: EnvV)
    requires
        plain_word(w),
    ensures
        flush_spec(words_cmd(args), w, env) == words_cmd(args.push(w)),
{
    assert forall|j: int| 0 <= j < w.len() implies literal_char(#[trigger] w[j]) by {
        assert(plain_char(w[j]));
    }
    lemma_expand_plain(w, Seq::empty(), env);
    assert(Seq::<char>::empty() + w =~= w);
    assert(plain_char(w[0]));
    if w.len() > 1 {
        assert(plain_char(w[1]));
    }
    assert(w != seq!['<']) by {
        if w == seq!['<'] {
            assert(w[0] == '<');
        }
    }
    assert(w != seq!['>']) by {
        if w == seq!['>'] {
            assert(w[0] == '>');
        }
    }
    assert(w != seq!['>', '>']) by {
        if w == seq!['>', '>'] {
            assert(w[0] == '>');
        }
    }
    assert(w != seq!['2', '>']) by {
        if w == seq!['2', '>'] {
            assert(w[1] == '>');
        }
    }
    assert(w != seq!['2', '>', '>']) by {
        if w == seq!['2', '>', '>'] {
            assert(w[1] == '>');
        }
    }
    assert(redirect_op(w) is None);
}

/// A command written as plain words separated by single spaces.
pub open spec fn words_line(ws: Seq<Seq<char>>) -> Seq<char> {
    join(ws, " "@)
}

pub open spec fn plain_words(ws: Seq<Seq<char>>) -> bool {
    ws.len() > 0 && forall|i: int| 0 <= i < ws.len() ==> plain_word(#[trigger] ws[i])
}

proof fn lemma_run_words(
    s: Seq<char>,
    ws: Seq<Seq<char>>,
    pls: Seq<Seq<CommandV>>,
    pl: Seq<CommandV>,
    env: EnvV,
)
    requires
        run(s, env) == quiet(pls, pl, Seq::empty(), Seq::empty()),
        plain_words(ws),
    ensures
        run(s + words_line(ws), env) == quiet(pls, pl, ws.drop_last(), ws.last()),
    decreases ws.len(),
{
    reveal_strlit(" ");
    assert(plain_word(ws[ws.len() - 1]));
    if ws.len() == 1 {
        assert(words_line(ws) == ws[0]);
        lemma_run_word(s, ws[0], pls, pl, Seq::empty(), Seq::empty(), env);
        assert(Seq::<char>::empty() + ws[0] =~= ws[0]);
        assert(ws.drop_last() =~= Seq::<Seq<char>>::empty());
    } else {
        let front = ws.drop_last();
        assert forall|i: int| 0 <= i < front.len() implies plain_word(#[trigger] front[i]) by {
            assert(front[i] == ws[i]);
        }
        lemma_run_words(s, front, pls, pl, env);
        let j = s + words_line(front);
        assert(plain_word(front[front.len() - 1]));
        lemma_flush_plain(front.drop_last(), front.last(), env);
        lemma_run_push(j, ' ', env);
        assert(front.drop_last().push(front.last()) =~= front);
        assert(run(j.push(' '), env) =~= quiet(pls, pl, front, Seq::empty()));
        lemma_run_word(j.push(' '), ws.last(), pls, pl, front, Seq::empty(), env);
        assert(j.push(' ') + ws.last() =~= s + words_line(ws));
        assert(Seq::<char>::empty() + ws.last() =~= ws.last());
    }
}

/// A pipeline written as commands separated by ` | `.
pub open spec fn pipe_line(cs: Seq<Seq<Seq<char>>>) -> Seq<char> {
    join(cs.map_values(|ws: Seq<Seq<char>>| words_line(ws)), " | "@)
}

pub open spec fn plain_cmds(cs: Seq<Seq<Seq<char>>>) -> bool {
    cs.len() > 0 && forall|i: int| 0 <= i < cs.len() ==> plain_words(#[trigger] cs[i])
}

pub open spec fn cmds_of(cs: Seq<Seq<Seq<char>>>) -> Seq<CommandV> {
    cs.map_values(|ws: Seq<Seq<char>>| words_cmd(ws))
}

/// After a word: ` | `.
proof fn lemma_run_bar(
    s: Seq<char>,
    pls: Seq<Seq<CommandV>>,
    pl: Seq<CommandV>,
    ws: Seq<Seq<char>>,
    env: EnvV,
)
    requires
        run(s, env) == quiet(pls, pl, ws.drop_last(), ws.last()),
        plain_words(ws),
    ensures
        run(s.push(' ').push('|').push(' '), env) == quiet(
            pls,
            pl.push(words_cmd(ws)),
            Seq::empty(),
            Seq::empty(),
        ),
{
    assert(plain_word(ws[ws.len() - 1]));
    lemma_flush_plain(ws.drop_last(), ws.last(), env);
    assert(ws.drop_last().push(ws.last()) =~= ws);
    lemma_run_push(s, ' ', env);
    let s1 = s.push(' ');
    assert(run(s1, env) =~= quiet(pls, pl, ws, Seq::empty()));
    lemma_run_push(s1, '|', env);
    let s2 = s1.push('|');
    assert(cmd_nonempty(words_cmd(ws)));
    assert(flush_spec(words_cmd(ws), Seq::empty(), env) == words_cmd(ws));
    assert(run(s2, env) =~= quiet(pls, pl.push(words_cmd(ws)), Seq::empty(), Seq::empty()));
    lemma_run_push(s2, ' ', env);
    assert(flush_spec(words_cmd(Seq::empty()), Seq::empty(), env) == words_cmd(Seq::empty()));
}

/// After a word: `; `.
proof fn lemma_run_semicolon(
    s: Seq<char>,
    pls: Seq<Seq<CommandV>>,
    pl: Seq<CommandV>,
    ws: Seq<Seq<char>>,
    env: EnvV,
)
    requires
        run(s, env) == quiet(pls, pl, ws.drop_last(), ws.last()),
        plain_words(ws),
    ensures
        run(s.push(';').push(' '), env) == quiet(
            pls.push(pl.push(words_cmd(ws))),
            Seq::empty(),
            Seq::empty(),
            Seq::empty(),
        ),
{
    assert(plain_word(ws[ws.len() - 1]));
    lemma_flush_plain(ws.drop_last(), ws.last(), env);
    assert(ws.drop_last().push(ws.last()) =~= ws);
    assert(cmd_nonempty(words_cmd(ws)));
    lemma_run_push(s, ';', env);
    let s1 = s.push(';');
    assert(run(s1, env) =~= quiet(
        pls.push(pl.push(words_cmd(ws))),
        Seq::empty(),
        Seq::empty(),
        Seq::empty(),
    ));
    lemma_run_push(s1, ' ', env);
    assert(flush_spec(words_cmd(Seq::empty()), Seq::empty(), env) == words_cmd(Seq::empty()));
}

proof fn lemma_run_cmds(s: Seq<char>, cs: Seq<Seq<Seq<char>>>, pls: Seq<Seq<CommandV>>, env: EnvV)
    requires
        run(s, env) == quiet(pls, Seq::empty(), Seq::empty(), Seq::empty()),
        plain_cmds(cs),
    ensures
        run(s + pipe_line(cs), env) == quiet(
            pls,
            cmds_of(cs.drop_last()),
            cs.last().drop_last(),
            cs.last().last(),
        ),
    decreases cs.len(),
{
    reveal_strlit(" | ");
    assert(plain_words(cs[cs.len() - 1]));
    if cs.len() == 1 {
        assert(pipe_line(cs) == words_line(cs[0]));
        lemma_run_words(s, cs[0], pls, Seq::empty(), env);
        assert(cmds_of(cs.drop_last()) =~= Seq::<CommandV>::empty());
    } else {
        let front = cs.drop_last();
        assert forall|i: int| 0 <= i < front.len() implies plain_words(#[trigger] front[i]) by {
            assert(front[i] == cs[i]);
        }
        lemma_run_cmds(s, front, pls, env);
        let j = s + pipe_line(front);
        assert(plain_words(front[front.len() - 1]));
        lemma_run_bar(j, pls, cmds_of(front.drop_last()), front.last(), env);
        assert(cmds_of(front.drop_last()).push(words_cmd(front.last())) =~= cmds_of(front));
        let k = j.push(' ').push('|').push(' ');
        lemma_run_words(k, cs.last(), pls, cmds_of(front), env);
        assert(cs.map_values(|ws: Seq<Seq<char>>| words_line(ws)).drop_last() =~= front.map_values(
            |ws: Seq<Seq<char>>| words_line(ws),
        ));
        assert(k + words_line(cs.last()) =~= s + pipe_line(cs));
    }
}

/// A command line written as pipelines separated by `; `.
pub open spec fn seq_line(ps: Seq<Seq<Seq<Seq<char>>>>) -> Seq<char> {
    join(ps.map_values(|cs: Seq<Seq<Seq<char>>>| pipe_line(cs)), "; "@)
}

pub open spec fn plain_pipelines(ps: Seq<Seq<Seq<Seq<char>>>>) -> bool {
    ps.len() > 0 && forall|i: int| 0 <= i < ps.len() ==> plain_cmds(#[trigger] ps[i])
}

pub open spec fn pipelines_of(ps: Seq<Seq<Seq<Seq<char>>>>) -> Seq<Seq<CommandV>> {
    ps.map_values(|cs: Seq<Seq<Seq<char>>>| cmds_of(cs))
}

proof fn lemma_run_seq(ps: Seq<Seq<Seq<Seq<char>>>>, env: EnvV)
    requires
        plain_pipelines(ps),
    ensures
        run(seq_line(ps), env) == quiet(
            pipelines_of(ps.drop_last()),
            cmds_of(ps.last().drop_last()),
            ps.last().last().drop_last(),
            ps.last().last().last(),
        ),
    decreases ps.len(),
{
    reveal_strlit("; ");
    assert(plain_cmds(ps[ps.len() - 1]));
    assert(run(Seq::<char>::empty(), env) =~= quiet(
        Seq::empty(),
        Seq::empty(),
        Seq::empty(),
        Seq::empty(),
    ));
    if ps.len() == 1 {
        assert(seq_line(ps) == pipe_line(ps[0]));
        lemma_run_cmds(Seq::empty(), ps[0], Seq::empty(), env);
        assert(Seq::<char>::empty() + pipe_line(ps[0]) =~= pipe_line(ps[0]));
        assert(pipelines_of(ps.drop_last()) =~= Seq::<Seq<CommandV>>::empty());
    } else {
        let front = ps.drop_last();
        assert forall|i: int| 0 <= i < front.len() implies plain_cmds(#[trigger] front[i]) by {
            assert(front[i] == ps[i]);
        }
        lemma_run_seq(front, env);
        let j = seq_line(front);
        let last = front.last();
        assert(plain_cmds(front[front.len() - 1]));
        assert(plain_words(last[last.len() - 1]));
        lemma_run_semicolon(
            j,
            pipelines_of(front.drop_last()),
            cmds_of(last.drop_last()),
            last.last(),
            env,
        );
        assert(cmds_of(last.drop_last()).push(words_cmd(last.last())) =~= cmds_of(last));
        assert(pipelines_of(front.drop_last()).push(cmds_of(last)) =~= pipelines_of(front));
        let k = j.push(';').push(' ');
        lemma_run_cmds(k, ps.last(), pipelines_of(front), env);
        assert(ps.map_values(|cs: Seq<Seq<Seq<char>>>| pipe_line(cs)).drop_last() =~= front.map_values(
            |cs: Seq<Seq<Seq<char>>>| pipe_line(cs),
        ));
        assert(k + pipe_line(ps.last()) =~= seq_line(ps));
    }
}

proof fn lemma_join_ends(ws: Seq<Seq<char>>, sep: Seq<char>)
    requires
        ws.len() > 0,
        forall|i: int| 0 <= i < ws.len() ==> (#[trigger] ws[i]).len() > 0,
    ensures
        join(ws, sep).len() > 0,
        join(ws, sep)[0] == ws[0][0],
        join(ws, sep).last() == ws.last().last(),
    decreases ws.len(),
{
    if ws.len() > 1 {
        let front = ws.drop_last();
        assert forall|i: int| 0 <= i < front.len() implies (#[trigger] front[i]).len() > 0 by {
            assert(front[i] == ws[i]);
        }
        lemma_join_ends(front, sep);
        assert(ws[ws.len() - 1].len() > 0);
        assert(front[0] == ws[0]);
    } else {
        assert(ws[0].len() > 0);
    }
}

proof fn lemma_words_line_ends(ws: Seq<Seq<char>>)
    requires
        plain_words(ws),
    ensures
        words_line(ws).len() > 0,
        plain_char(words_line(ws)[0]),
        plain_char(words_line(ws).last()),
{
    assert forall|i: int| 0 <= i < ws.len() implies (#[trigger] ws[i]).len() > 0 by {
        assert(plain_word(ws[i]));
    }
    lemma_join_ends(ws, " "@);
    assert(plain_word(ws[0]));
    assert(plain_char(ws[0][0]));
    assert(plain_word(ws[ws.len() - 1]));
    assert(plain_char(ws.last()[ws.last().len() - 1]));
}

proof fn lemma_pipe_line_ends(cs: Seq<Seq<Seq<char>>>)
    requires
        plain_cmds(cs),
    ensures
        pipe_line(cs).len() > 0,
        plain_char(pipe_line(cs)[0]),
        plain_char(pipe_line(cs).last()),
{
    let ls = cs.map_values(|ws: Seq<Seq<char>>| words_line(ws));
    assert forall|i: int| 0 <= i < ls.len() implies (#[trigger] ls[i]).len() > 0 by {
        assert(plain_words(cs[i]));
        lemma_words_line_ends(cs[i]);
    }
    lemma_join_ends(ls, " | "@);
    assert(plain_words(cs[0]));
    lemma_words_line_ends(cs[0]);
    assert(plain_words(cs[cs.len() - 1]));
    lemma_words_line_ends(cs[cs.len() - 1]);
    assert(ls.last() == words_line(cs.last()));
}

/// A command line of plain words, with ` | ` between the commands of a
/// pipeline and `; ` between pipelines, parses into exactly those
/// pipelines, commands and words.
pub proof fn lemma_plain_line(ps: Seq<Seq<Seq<Seq<char>>>>, env: EnvV)
    requires
        plain_pipelines(ps),
    ensures
        parse_line_spec(seq_line(ps), env) == pipelines_of(ps),
{
    let line = seq_line(ps);
    let ls = ps.map_values(|cs: Seq<Seq<Seq<char>>>| pipe_line(cs));
    assert forall|i: int| 0 <= i < ls.len() implies (#[trigger] ls[i]).len() > 0 by {
        assert(plain_cmds(ps[i]));
        lemma_pipe_line_ends(ps[i]);
    }
    lemma_join_ends(ls, "; "@);
    assert(plain_cmds(ps[0]));
    lemma_pipe_line_ends(ps[0]);
    assert(plain_cmds(ps[ps.len() - 1]));
    lemma_pipe_line_ends(ps[ps.len() - 1]);
    assert(ls.last() == pipe_line(ps.last()));
    assert(prefix_while(line, ws_pred()) == 0);
    assert(trim_start(line) =~= line);
    assert(suffix_while(line, ws_pred()) == 0);
    assert(trim(line) =~= line);
    lemma_run_seq(ps, env);
    let last = ps.last();
    let ws = last.last();
    assert(plain_words(last[last.len() - 1]));
    assert(plain_word(ws[ws.len() - 1]));
    lemma_flush_plain(ws.drop_last(), ws.last(), env);
    assert(ws.drop_last().push(ws.last()) =~= ws);
    assert(cmd_nonempty(words_cmd(ws)));
    assert(cmds_of(last.drop_last()).push(words_cmd(ws)) =~= cmds_of(last));
    assert(pipelines_of(ps.drop_last()).push(cmds_of(last)) =~= pipelines_of(ps));
}

/// A command of plain words followed by ` &` runs in the background: it is
/// a pipeline of its own, marked so.
pub proof fn lemma_plain_background(ws: Seq<Seq<char>>, env: EnvV)
    requires
        plain_words(ws),
    ensures
        parse_line_spec(words_line(ws) + " &"@, env) == seq![
            seq![(CommandV { args: ws, redirects: Seq::empty(), background: true })],
        ],
{
    reveal_strlit(" &");
    let w = words_line(ws);
    let line = w + " &"@;
    lemma_words_line_ends(ws);
    assert(line[0] == w[0]);
    assert(line.last() == '&');
    assert(!is_ws('&'));
    assert(prefix_while(line, ws_pred()) == 0);
    assert(trim_start(line) =~= line);
    assert(suffix_while(line, ws_pred()) == 0);
    assert(trim(line) =~= line);
    assert(run(Seq::<char>::empty(), env) =~= quiet(
        Seq::empty(),
        Seq::empty(),
        Seq::empty(),
        Seq::empty(),
    ));
    lemma_run_words(Seq::empty(), ws, Seq::empty(), Seq::empty(), env);
    assert(Seq::<char>::empty() + w =~= w);
    assert(plain_word(ws[ws.len() - 1]));
    lemma_flush_plain(ws.drop_last(), ws.last(), env);
    assert(ws.drop_last().push(ws.last()) =~= ws);
    lemma_run_push(w, ' ', env);
    assert(run(w.push(' '), env) =~= quiet(Seq::empty(), Seq::empty(), ws, Seq::empty()));
    lemma_run_push(w.push(' '), '&', env);
    assert(w.push(' ').push('&') =~= line);
    assert(flush_spec(words_cmd(ws), Seq::empty(), env) == words_cmd(ws));
    assert(cmd_nonempty(words_cmd(ws)));
    let bg = CommandV { args: ws, redirects: Seq::empty(), background: true };
    assert(CommandV { background: true, ..words_cmd(ws) } == bg);
    assert(run(line, env) =~= quiet(seq![seq![bg]], Seq::empty(), Seq::empty(), Seq::empty()));
    assert(flush_spec(words_cmd(Seq::empty()), Seq::empty(), env) == words_cmd(Seq::empty()));
    assert(!cmd_nonempty(words_cmd(Seq::empty())));
}

/// The redirection that operator `op` makes to `target`.
pub open spec fn redirect_to(op: Seq<char>, target: Seq<char>) -> RedirectV {
    match redirect_op(op) {
        Some((fd, input, append)) => RedirectV {
            fd: fd,
            target: target,
            append: append,
            input: input,
            dup: None,
        },
        None => RedirectV { fd: 0, target: target, append: false, input: false, dup: None },
    }
}

proof fn lemma_op_chars(op: Seq<char>)
    requires
        redirect_op(op) is Some,
    ensures
        op.len() > 0,
        forall|j: int| 0 <= j < op.len() ==> token_char(#[trigger] op[j]),
        forall|j: int| 0 <= j < op.len() ==> literal_char(#[trigger] op[j]),
{
}

/// A command of plain words, a redirection operator (`<`, `>`, `>>`, `2>`
/// or `2>>`) and a plain target, separated by single spaces: one command
/// with those words and that redirection.
pub proof fn lemma_plain_redirect(ws: Seq<Seq<char>>, op: Seq<char>, target: Seq<char>, env: EnvV)
    requires
        plain_words(ws),
        redirect_op(op) is Some,
        plain_word(target),
    ensures
        parse_line_spec(words_line(ws) + " "@ + op + " "@ + target, env) == seq![
            seq![
                (CommandV {
                    args: ws,
                    redirects: seq![redirect_to(op, target)],
                    background: false,
                }),
            ],
        ],
{
    reveal_strlit(" ");
    let r1 = redirect_to(op, target);
    let fd = r1.fd;
    let input = r1.input;
    let append = r1.append;
    let w = words_line(ws);
    let line = w + " "@ + op + " "@ + target;
    lemma_words_line_ends(ws);
    lemma_op_chars(op);
    assert(line[0] == w[0]);
    assert(plain_char(target[target.len() - 1]));
    assert(line.last() == target.last());
    assert(prefix_while(line, ws_pred()) == 0);
    assert(trim_start(line) =~= line);
    assert(suffix_while(line, ws_pred()) == 0);
    assert(trim(line) =~= line);
    // the words
    assert(run(Seq::<char>::empty(), env) =~= quiet(
        Seq::empty(),
        Seq::empty(),
        Seq::empty(),
        Seq::empty(),
    ));
    lemma_run_words(Seq::empty(), ws, Seq::empty(), Seq::empty(), env);
    assert(Seq::<char>::empty() + w =~= w);
    assert(plain_word(ws[ws.len() - 1]));
    lemma_flush_plain(ws.drop_last(), ws.last(), env);
    assert(ws.drop_last().push(ws.last()) =~= ws);
    lemma_run_push(w, ' ', env);
    let s1 = w.push(' ');
    assert(run(s1, env) =~= quiet_cmd(Seq::empty(), Seq::empty(), words_cmd(ws), Seq::empty()));
    // the operator
    lemma_run_token(s1, op, Seq::empty(), Seq::empty(), words_cmd(ws), Seq::empty(), env);
    assert(Seq::<char>::empty() + op =~= op);
    let s2 = s1 + op;
    lemma_expand_plain(op, Seq::empty(), env);
    assert(Seq::<char>::empty() + op =~= op);
    let r0 = RedirectV { fd: fd, target: Seq::empty(), append: append, input: input, dup: None };
    let c1 = CommandV { args: ws, redirects: seq![r0], background: false };
    assert(flush_spec(words_cmd(ws), op, env) =~= c1);
    lemma_run_push(s2, ' ', env);
    let s3 = s2.push(' ');
    assert(run(s3, env) =~= quiet_cmd(Seq::empty(), Seq::empty(), c1, Seq::empty()));
    // the target
    assert forall|j: int| 0 <= j < target.len() implies token_char(#[trigger] target[j]) by {
        assert(plain_char(target[j]));
    }
    lemma_run_token(s3, target, Seq::empty(), Seq::empty(), c1, Seq::empty(), env);
    assert(Seq::<char>::empty() + target =~= target);
    assert(s3 + target =~= line);
    // the end
    lemma_flush_plain(Seq::empty(), target, env);
    assert(redirect_op(target) is None);
    let c2 = CommandV { args: ws, redirects: seq![r1], background: false };
    assert forall|j: int| 0 <= j < target.len() implies literal_char(#[trigger] target[j]) by {
        assert(plain_char(target[j]));
    }
    lemma_expand_plain(target, Seq::empty(), env);
    assert(expand_vars_spec(target, env) == target);
    assert(c1.redirects.last() == r0);
    assert(c1.redirects.update(0, r1) =~= seq![r1]);
    assert(flush_spec(c1, target, env) =~= c2);
    assert(cmd_nonempty(c2));
}

/// A word that is `$NAME` (letters, digits, `_`) or `${NAME}` becomes the
/// variable's value, empty when it is not set; `$$` becomes the shell's
/// process id. (`{` and `$`, which are not letters or digits, are ruled out
/// as the first character of `NAME` in so many words.)
pub proof fn lemma_expand_variables(name: Seq<char>, braced: Seq<char>, env: EnvV)
    requires
        name.len() > 0,
        name[0] != '{' && name[0] != '$',
        forall|j: int| 0 <= j < name.len() ==> is_name_char(#[trigger] name[j]),
        forall|j: int| 0 <= j < braced.len() ==> #[trigger] braced[j] != '}',
    ensures
        expand_vars_spec(seq!['$'] + name, env) == env_or_empty(env, name),
        expand_vars_spec(seq!['$', '{'] + braced + seq!['}'], env) == env_or_empty(env, braced),
        expand_vars_spec(seq!['$', '$'], env) == decimal(env.pid as nat),
{
    let s1 = seq!['$'] + name;
    assert(s1[0] == '$');
    let rest = s1.drop_first();
    assert(rest =~= name);
    assert(is_name_char(name[0]));
    assert forall|j: int| 0 <= j < name.len() implies name_pred()(#[trigger] name[j]) by {}
    lemma_prefix_while_unique(name, name_pred(), name.len() as int);
    assert(name.skip(name.len() as int) =~= Seq::<char>::empty());
    assert(name.take(name.len() as int) =~= name);
    assert(Seq::<char>::empty() + env_or_empty(env, name) =~= env_or_empty(env, name));
    assert(expand_from(Seq::<char>::empty(), env_or_empty(env, name), env) == env_or_empty(env, name));
    assert(expand_from(s1, Seq::empty(), env) == expand_from(
        rest.skip(name.len() as int),
        Seq::<char>::empty() + env_or_empty(env, rest.take(name.len() as int)),
        env,
    ));

    let s2 = seq!['$', '{'] + braced + seq!['}'];
    assert(s2[0] == '$');
    let rest2 = s2.drop_first();
    assert(rest2[0] == '{');
    let body = rest2.drop_first();
    assert(body =~= braced + seq!['}']);
    assert forall|j: int| 0 <= j < braced.len() implies not_close_brace()(#[trigger] body[j]) by {
        assert(body[j] == braced[j]);
    }
    assert(body[braced.len() as int] == '}');
    lemma_prefix_while_unique(body, not_close_brace(), braced.len() as int);
    assert(body.skip(braced.len() + 1 as int) =~= Seq::<char>::empty());
    assert(body.take(braced.len() as int) =~= braced);
    assert(Seq::<char>::empty() + env_or_empty(env, braced) =~= env_or_empty(env, braced));
    assert(expand_from(Seq::<char>::empty(), env_or_empty(env, braced), env) == env_or_empty(env, braced));
    assert(expand_from(s2, Seq::empty(), env) == expand_from(
        body.skip(braced.len() + 1 as int),
        Seq::<char>::empty() + env_or_empty(env, body.take(braced.len() as int)),
        env,
    ));

    let s3 = seq!['$', '$'];
    assert(s3.drop_first()[0] == '$');
    assert(s3.drop_first().drop_first() =~= Seq::<char>::empty());
    assert(Seq::<char>::empty() + decimal(env.pid as nat) =~= decimal(env.pid as nat));
    assert(expand_from(Seq::<char>::empty(), decimal(env.pid as nat), env) == decimal(
        env.pid as nat,
    ));
}

/// `2>&1` after a command of plain words makes its standard error a copy
/// of its standard output: one foreground command with that one
/// redirection.
pub proof fn lemma_plain_stderr_to_stdout(ws: Seq<Seq<char>>, env: EnvV)
    requires
        plain_words(ws),
    ensures
        parse_line_spec(words_line(ws) + " 2>&1"@, env) == seq![
            seq![
                (CommandV {
                    args: ws,
                    redirects: seq![
                        (RedirectV {
                            fd: 2,
                            target: Seq::empty(),
                            append: false,
                            input: false,
                            dup: Some(1),
                        }),
                    ],
                    background: false,
                }),
            ],
        ],
{
    reveal_strlit(" 2>&1");
    let w = words_line(ws);
    let line = w + " 2>&1"@;
    lemma_words_line_ends(ws);
    assert(line[0] == w[0]);
    assert(line.last() == '1');
    assert(!is_ws('1'));
    assert(prefix_while(line, ws_pred()) == 0);
    assert(trim_start(line) =~= line);
    assert(suffix_while(line, ws_pred()) == 0);
    assert(trim(line) =~= line);
    assert(run(Seq::<char>::empty(), env) =~= quiet(
        Seq::empty(),
        Seq::empty(),
        Seq::empty(),
        Seq::empty(),
    ));
    lemma_run_words(Seq::empty(), ws, Seq::empty(), Seq::empty(), env);
    assert(Seq::<char>::empty() + w =~= w);
    assert(plain_word(ws[ws.len() - 1]));
    lemma_flush_plain(ws.drop_last(), ws.last(), env);
    assert(ws.drop_last().push(ws.last()) =~= ws);
    let c0 = words_cmd(ws);
    let e = Seq::<Seq<CommandV>>::empty();
    let p = Seq::<CommandV>::empty();
    let s1 = w.push(' ');
    lemma_run_push(w, ' ', env);
    assert(run(s1, env) =~= quiet_cmd(e, p, c0, Seq::empty()));
    let s2 = s1.push('2');
    lemma_run_push(s1, '2', env);
    assert(run(s2, env) =~= quiet_cmd(e, p, c0, seq!['2']));
    let s3 = s2.push('>');
    lemma_run_push(s2, '>', env);
    assert(run(s3, env) =~= quiet_cmd(e, p, c0, seq!['2', '>']));
    let s4 = s3.push('&');
    lemma_run_push(s3, '&', env);
    assert(starts_dup(run(s3, env), '&'));
    assert(run(s4, env) =~= ParseState { dup_seen: 1, ..quiet_cmd(e, p, c0, seq!['2', '>']) });
    let s5 = s4.push('1');
    lemma_run_push(s4, '1', env);
    assert(run(s5, env) =~= ParseState { dup_seen: 2, ..quiet_cmd(e, p, c0, seq!['2', '>']) });
    assert(s5 =~= line);
    let c1 = CommandV { args: ws, redirects: seq![stderr_to_stdout()], background: false };
    assert(settle(run(s5, env), env) =~= quiet_cmd(e, p, c1, Seq::empty()));
    assert(cmd_nonempty(c1));
}

spec fn in_quotes(pls: Seq<Seq<CommandV>>, pl: Seq<CommandV>, cmd: CommandV, token: Seq<char>) -> ParseState {
    ParseState { in_single: true, ..quiet_cmd(pls, pl, cmd, token) }
}

proof fn lemma_run_quoted(
    s: Seq<char>,
    q: Seq<char>,
    pls: Seq<Seq<CommandV>>,
    pl: Seq<CommandV>,
    cmd: CommandV,
    tok: Seq<char>,
    env: EnvV,
)
    requires
        run(s, env) == in_quotes(pls, pl, cmd, tok),
        forall|j: int| 0 <= j < q.len() ==> #[trigger] q[j] != '\'',
    ensures
        run(s + q, env) == in_quotes(pls, pl, cmd, tok + q),
    decreases q.len(),
{
    if q.len() == 0 {
        assert(s + q =~= s);
        assert(tok + q =~= tok);
    } else {
        let q0 = q.drop_last();
        let c = q.last();
        assert(q[q.len() - 1] != '\'');
        assert forall|j: int| 0 <= j < q0.len() implies #[trigger] q0[j] != '\'' by {
            assert(q0[j] == q[j]);
        }
        lemma_run_quoted(s, q0, pls, pl, cmd, tok, env);
        assert(s + q =~= (s + q0).push(c));
        lemma_run_push(s + q0, c, env);
        assert((tok + q0).push(c) =~= tok + q);
        assert(step(in_quotes(pls, pl, cmd, tok + q0), c, env) =~= in_quotes(pls, pl, cmd, tok + q));
    }
}

/// A word in single quotes is one argument, spaces, `|`, `;`, `&` and `#`
/// included: plain words followed by `'q'` make one command whose last
/// argument is `q`. (The quotes group characters into a word; a quoted
/// word that spells a redirection is still taken as one, and `$` and `~`
/// are still expanded, so such words, and words with a backslash, are left
/// out here.)
pub proof fn lemma_quoted_word(ws: Seq<Seq<char>>, q: Seq<char>, env: EnvV)
    requires
        plain_words(ws),
        q.len() > 0,
        forall|j: int| 0 <= j < q.len() ==> #[trigger] q[j] != '\'' && literal_char(q[j]),
        redirect_op(q) is None,
    ensures
        parse_line_spec(words_line(ws) + " '"@ + q + "'"@, env) == seq![seq![words_cmd(ws.push(q))]],
{
    reveal_strlit(" '");
    reveal_strlit("'");
    let w = words_line(ws);
    let line = w + " '"@ + q + "'"@;
    lemma_words_line_ends(ws);
    assert(line[0] == w[0]);
    assert(line.last() == '\'');
    assert(!is_ws('\''));
    assert(prefix_while(line, ws_pred()) == 0);
    assert(trim_start(line) =~= line);
    assert(suffix_while(line, ws_pred()) == 0);
    assert(trim(line) =~= line);
    assert(run(Seq::<char>::empty(), env) =~= quiet(
        Seq::empty(),
        Seq::empty(),
        Seq::empty(),
        Seq::empty(),
    ));
    lemma_run_words(Seq::empty(), ws, Seq::empty(), Seq::empty(), env);
    assert(Seq::<char>::empty() + w =~= w);
    assert(plain_word(ws[ws.len() - 1]));
    lemma_flush_plain(ws.drop_last(), ws.last(), env);
    assert(ws.drop_last().push(ws.last()) =~= ws);
    let c0 = words_cmd(ws);
    let e = Seq::<Seq<CommandV>>::empty();
    let p = Seq::<CommandV>::empty();
    let s1 = w.push(' ');
    lemma_run_push(w, ' ', env);
    assert(run(s1, env) =~= quiet_cmd(e, p, c0, Seq::empty()));
    let s2 = s1.push('\'');
    lemma_run_push(s1, '\'', env);
    assert(run(s2, env) =~= in_quotes(e, p, c0, Seq::empty()));
    lemma_run_quoted(s2, q, e, p, c0, Seq::empty(), env);
    assert(Seq::<char>::empty() + q =~= q);
    let s3 = s2 + q;
    let s4 = s3.push('\'');
    lemma_run_push(s3, '\'', env);
    assert(run(s4, env) =~= quiet_cmd(e, p, c0, q));
    assert(s4 =~= line);
    lemma_expand_plain(q, Seq::empty(), env);
    assert(flush_spec(c0, q, env) =~= words_cmd(ws.push(q)));
}

proof fn lemma_expand_literal_prefix(p: Seq<char>, t: Seq<char>, acc: Seq<char>, env: EnvV)
    requires
        forall|j: int| 0 <= j < p.len() ==> literal_char(#[trigger] p[j]),
    ensures
        expand_from(p + t, acc, env) == expand_from(t, acc + p, env),
    decreases p.len(),
{
    if p.len() == 0 {
        assert(p + t =~= t);
        assert(acc + p =~= acc);
    } else {
        let c = p[0];
        assert(literal_char(c));
        let p1 = p.drop_first();
        assert forall|j: int| 0 <= j < p1.len() implies literal_char(#[trigger] p1[j]) by {
            assert(p1[j] == p[j + 1]);
        }
        assert((p + t)[0] == c);
        assert((p + t).drop_first() =~= p1 + t);
        lemma_expand_literal_prefix(p1, t, acc.push(c), env);
        assert(acc.push(c) + p1 =~= acc + p);
    }
}

/// A variable reference `$NAME` inside a word is replaced by the
/// variable's value (empty when it is not set) and by nothing more: the
/// literal text before it and the text after the name, starting with the
/// first character that cannot belong to a name, are kept in place.
pub proof fn lemma_expand_name_keeps_rest(
    p: Seq<char>,
    name: Seq<char>,
    c: char,
    rest: Seq<char>,
    env: EnvV,
)
    requires
        forall|j: int| 0 <= j < p.len() ==> literal_char(#[trigger] p[j]),
        name.len() > 0,
        forall|j: int| 0 <= j < name.len() ==> is_name_char(#[trigger] name[j]),
        !is_name_char(c),
        literal_char(c),
        forall|j: int| 0 <= j < rest.len() ==> literal_char(#[trigger] rest[j]),
    ensures
        expand_vars_spec(p + seq!['$'] + name + seq![c] + rest, env) == p + env_or_empty(env, name)
            + seq![c] + rest,
        expand_vars_spec(p + seq!['$'] + name, env) == p + env_or_empty(env, name),
{
    let v = env_or_empty(env, name);
    assert(is_name_char(name[0]));
    assert(name[0] != '{' && name[0] != '$');
    // the name followed by more text
    let after = seq![c] + rest;
    let t = seq!['$'] + name + after;
    assert(p + seq!['$'] + name + seq![c] + rest =~= p + t);
    lemma_expand_literal_prefix(p, t, Seq::empty(), env);
    assert(Seq::<char>::empty() + p =~= p);
    let tr = t.drop_first();
    assert(tr =~= name + after);
    assert(t[0] == '$');
    assert(tr[0] == name[0]);
    assert forall|j: int| 0 <= j < name.len() implies name_pred()(#[trigger] tr[j]) by {
        assert(tr[j] == name[j]);
    }
    assert(tr[name.len() as int] == c);
    lemma_prefix_while_unique(tr, name_pred(), name.len() as int);
    assert(tr.take(name.len() as int) =~= name);
    assert(tr.skip(name.len() as int) =~= after);
    assert forall|j: int| 0 <= j < after.len() implies literal_char(#[trigger] after[j]) by {
        if j > 0 {
            assert(after[j] == rest[j - 1]);
        }
    }
    lemma_expand_plain(after, p + v, env);
    assert(p + v + after =~= p + v + seq![c] + rest);
    // the name ending the word
    let t2 = seq!['$'] + name;
    assert(p + seq!['$'] + name =~= p + t2);
    lemma_expand_literal_prefix(p, t2, Seq::empty(), env);
    let tr2 = t2.drop_first();
    assert(tr2 =~= name);
    assert(t2[0] == '$');
    assert forall|j: int| 0 <= j < name.len() implies name_pred()(#[trigger] tr2[j]) by {}
    lemma_prefix_while_unique(tr2, name_pred(), name.len() as int);
    assert(tr2.take(name.len() as int) =~= name);
    assert(tr2.skip(name.len() as int) =~= Seq::<char>::empty());
    assert(expand_from(Seq::<char>::empty(), p + v, env) == p + v);
    assert(expand_from(t2, p, env) == expand_from(Seq::<char>::empty(), p + v, env));
}

/// The other forms of `$` inside a word also leave the surrounding text in
/// place: `${NAME}` becomes the variable's value, `$$` the shell's process
/// id, and a `$` followed by a character that starts none of these stays
/// a `$`.
pub proof fn lemma_expand_forms_keep_rest(
    p: Seq<char>,
    name: Seq<char>,
    c: char,
    rest: Seq<char>,
    env: EnvV,
)
    requires
        forall|j: int| 0 <= j < p.len() ==> literal_char(#[trigger] p[j]),
        forall|j: int| 0 <= j < name.len() ==> #[trigger] name[j] != '}',
        forall|j: int| 0 <= j < rest.len() ==> literal_char(#[trigger] rest[j]),
        literal_char(c),
        !is_name_char(c),
        c != '{',
    ensures
        expand_vars_spec(p + seq!['$', '{'] + name + seq!['}'] + rest, env) == p + env_or_empty(
            env,
            name,
        ) + rest,
        expand_vars_spec(p + seq!['$', '$'] + rest, env) == p + decimal(env.pid as nat) + rest,
        expand_vars_spec(p + seq!['$', c] + rest, env) == p + seq!['$', c] + rest,
{
    assert(Seq::<char>::empty() + p =~= p);
    // ${NAME}
    let t1 = seq!['$', '{'] + name + seq!['}'] + rest;
    assert(p + seq!['$', '{'] + name + seq!['}'] + rest =~= p + t1);
    lemma_expand_literal_prefix(p, t1, Seq::empty(), env);
    let r1 = t1.drop_first();
    assert(r1[0] == '{');
    let body = r1.drop_first();
    assert(body =~= name + seq!['}'] + rest);
    assert forall|j: int| 0 <= j < name.len() implies not_close_brace()(#[trigger] body[j]) by {
        assert(body[j] == name[j]);
    }
    assert(body[name.len() as int] == '}');
    lemma_prefix_while_unique(body, not_close_brace(), name.len() as int);
    assert(body.take(name.len() as int) =~= name);
    assert(body.skip(name.len() + 1 as int) =~= rest);
    lemma_expand_plain(rest, p + env_or_empty(env, name), env);
    // $$
    let t2 = seq!['$', '$'] + rest;
    assert(p + seq!['$', '$'] + rest =~= p + t2);
    lemma_expand_literal_prefix(p, t2, Seq::empty(), env);
    assert(t2.drop_first().drop_first() =~= rest);
    lemma_expand_plain(rest, p + decimal(env.pid as nat), env);
    // a lone `$`
    let t3 = seq!['$', c] + rest;
    assert(p + seq!['$', c] + rest =~= p + t3);
    lemma_expand_literal_prefix(p, t3, Seq::empty(), env);
    let r3 = t3.drop_first();
    assert(r3 =~= seq![c] + rest);
    assert forall|j: int| 0 <= j < r3.len() implies literal_char(#[trigger] r3[j]) by {
        if j > 0 {
            assert(r3[j] == rest[j - 1]);
        }
    }
    lemma_expand_plain(r3, p.push('$'), env);
    assert(p.push('$') + r3 =~= p + seq!['$', c] + rest);
}

/// `~` becomes `$HOME` (or stays `~` when it is not set) only at the start
/// of a word, and is kept as it is after other text; a backslash stands
/// for the character after it. The text around is kept in place.
pub proof fn lemma_expand_tilde_and_backslash(p: Seq<char>, c: char, rest: Seq<char>, env: EnvV)
    requires
        forall|j: int| 0 <= j < p.len() ==> literal_char(#[trigger] p[j]),
        forall|j: int| 0 <= j < rest.len() ==> literal_char(#[trigger] rest[j]),
    ensures
        expand_vars_spec(seq!['~'] + rest, env) == home_or_tilde(env) + rest,
        p.len() > 0 ==> expand_vars_spec(p + seq!['~'] + rest, env) == p + seq!['~'] + rest,
        expand_vars_spec(p + seq!['\\', c] + rest, env) == p + seq![c] + rest,
{
    assert(Seq::<char>::empty() + p =~= p);
    let t1 = seq!['~'] + rest;
    assert(t1[0] == '~');
    assert(t1.drop_first() =~= rest);
    lemma_expand_plain(rest, home_or_tilde(env), env);
    if p.len() > 0 {
        let t2 = seq!['~'] + rest;
        assert(p + seq!['~'] + rest =~= p + t2);
        lemma_expand_literal_prefix(p, t2, Seq::empty(), env);
        lemma_expand_plain(rest, p.push('~'), env);
        assert(p.push('~') + rest =~= p + seq!['~'] + rest);
    }
    let t3 = seq!['\\', c] + rest;
    assert(p + seq!['\\', c] + rest =~= p + t3);
    lemma_expand_literal_prefix(p, t3, Seq::empty(), env);
    assert(t3[0] == '\\');
    assert(t3.drop_first()[0] == c);
    assert(t3.drop_first().drop_first() =~= rest);
    lemma_expand_plain(rest, p.push(c), env);
    assert(p.push(c) + rest =~= p + seq![c] + rest);
}

} // verus!
