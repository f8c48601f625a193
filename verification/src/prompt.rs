//! Prompt rendering in four styles: multiline, powerline, minimal, plain.
use vstd::prelude::*;
use crate::config::{ConfigV, ShellConfig};
use crate::num::{push_signed_decimal, signed_decimal};
use crate::text::{
    char_index_at, char_index_of_byte, from_chars, is_byte_boundary, lemma_char_index_at,
    push_chars, push_str, starts_with, str_eq, str_starts_with, subvec, to_chars, utf8_len,
    utf8_len_exec,
};

verus! {

/// What the prompt shows besides the configuration.
pub struct PromptContext {
    pub user: String,
    pub host: String,
    pub cwd: String,
    pub branch: Option<String>,
    pub prompt_char: String,
    pub exit_code: i32,
    pub width: usize,
}

pub struct PromptContextV {
    pub user: Seq<char>,
    pub host: Seq<char>,
    pub cwd: Seq<char>,
    pub branch: Option<Seq<char>>,
    pub prompt_char: Seq<char>,
    pub exit_code: i32,
    pub width: nat,
}

impl View for PromptContext {
    type V = PromptContextV;

    open spec fn view(&self) -> PromptContextV {
        PromptContextV {
            user: self.user@,
            host: self.host@,
            cwd: self.cwd@,
            branch: match self.branch {
                Some(b) => Some(b@),
                None => None,
            },
            prompt_char: self.prompt_char@,
            exit_code: self.exit_code,
            width: self.width as nat,
        }
    }
}

/// `#` for root, `$` for everyone else (and when `$USER` is unset).
pub open spec fn prompt_char_spec(user_var: Option<Seq<char>>) -> Seq<char> {
    match user_var {
        Some(u) => if u == "root"@ {
            "#"@
        } else {
            "$"@
        },
        None => "$"@,
    }
}

pub fn prompt_char(user_var: Option<&str>) -> (r: String)
    ensures
        r@ == prompt_char_spec(
            match user_var {
                Some(u) => Some(u@),
                None => None,
            },
        ),
{
    match user_var {
        Some(u) => if str_eq(u, "root") {
            String::from_str("#")
        } else {
            String::from_str("$")
        },
        None => String::from_str("$"),
    }
}

/// The working directory with a leading `$HOME` shown as `~`.
pub open spec fn shorten_home_spec(path: Seq<char>, home: Option<Seq<char>>) -> Seq<char> {
    match home {
        Some(h) => if starts_with(path, h) {
            seq!['~'] + path.skip(h.len() as int)
        } else {
            path
        },
        None => path,
    }
}

pub fn shorten_home(path: &str, home: Option<&str>) -> (r: String)
    ensures
        r@ == shorten_home_spec(
            path@,
            match home {
                Some(h) => Some(h@),
                None => None,
            },
        ),
{
    match home {
        Some(h) => {
            if str_starts_with(path, h) {
                let p = to_chars(path);
                let hv = to_chars(h);
                let rest = subvec(&p, hv.len(), p.len());
                let mut out: Vec<char> = Vec::new();
                out.push('~');
                push_chars(&mut out, &rest);
                assert(out@ =~= seq!['~'] + path@.skip(h@.len() as int));
                from_chars(out.as_slice())
            } else {
                String::from_str(path)
            }
        },
        None => String::from_str(path),
    }
}

/// Text in an ANSI colour; an empty code or `0` leaves it plain.
pub open spec fn style_spec(s: Seq<char>, code: Seq<char>) -> Seq<char> {
    if code.len() == 0 || code == "0"@ {
        s
    } else {
        "\x1b["@ + code + "m"@ + s + "\x1b[0m"@
    }
}

fn push_style(out: &mut Vec<char>, s: &str, code: &str)
    ensures
        final(out)@ == old(out)@ + style_spec(s@, code@),
{
    let c = to_chars(code);
    if c.len() == 0 || str_eq(code, "0") {
        push_str(out, s);
    } else {
        push_str(out, "\x1b[");
        push_str(out, code);
        push_str(out, "m");
        push_str(out, s);
        push_str(out, "\x1b[0m");
        assert(final(out)@ =~= old(out)@ + style_spec(s@, code@));
    }
}

pub fn style(s: &str, code: &str) -> (r: String)
    ensures
        r@ == style_spec(s@, code@),
{
    let mut out: Vec<char> = Vec::new();
    push_style(&mut out, s, code);
    assert(out@ =~= style_spec(s@, code@));
    from_chars(out.as_slice())
}

/// The text after the last `;` (all of it when there is none).
pub open spec fn last_segment(code: Seq<char>) -> Seq<char> {
    code.skip(code.len() - crate::text::suffix_while(code, crate::text::not_char(';')))
}

/// Every `3` replaced by `4`.
pub open spec fn three_to_four(s: Seq<char>) -> Seq<char> {
    s.map_values(|c: char| if c == '3' { '4' } else { c })
}

/// The background-colour escape matching a foreground code.
pub open spec fn code_to_bg_spec(code: Seq<char>) -> Seq<char> {
    let base = last_segment(code);
    if base == "30"@ {
        "\x1b[40m"@
    } else if base == "31"@ {
        "\x1b[41m"@
    } else if base == "32"@ {
        "\x1b[42m"@
    } else if base == "33"@ {
        "\x1b[43m"@
    } else if base == "34"@ {
        "\x1b[44m"@
    } else if base == "35"@ {
        "\x1b[45m"@
    } else if base == "36"@ {
        "\x1b[46m"@
    } else if base == "37"@ {
        "\x1b[47m"@
    } else if base == "1;31"@ {
        "\x1b[41;1m"@
    } else if base == "1;32"@ {
        "\x1b[42;1m"@
    } else if base == "1;33"@ {
        "\x1b[43;1m"@
    } else if base == "1;34"@ {
        "\x1b[44;1m"@
    } else if base == "1;35"@ {
        "\x1b[45;1m"@
    } else if base == "1;36"@ {
        "\x1b[46;1m"@
    } else if base == "1;37"@ {
        "\x1b[47;1m"@
    } else {
        "\x1b["@ + three_to_four(base) + "m"@
    }
}

fn push_code_to_bg(out: &mut Vec<char>, code: &str)
    ensures
        final(out)@ == old(out)@ + code_to_bg_spec(code@),
{
    let c = to_chars(code);
    let k = crate::text::count_trailing_not(&c, ';');
    let base_v = subvec(&c, c.len() - k, c.len());
    assert(base_v@ =~= last_segment(code@));
    let base = from_chars(base_v.as_slice());
    let b = base.as_str();
    let lit = if str_eq(b, "30") {
        "\x1b[40m"
    } else if str_eq(b, "31") {
        "\x1b[41m"
    } else if str_eq(b, "32") {
        "\x1b[42m"
    } else if str_eq(b, "33") {
        "\x1b[43m"
    } else if str_eq(b, "34") {
        "\x1b[44m"
    } else if str_eq(b, "35") {
        "\x1b[45m"
    } else if str_eq(b, "36") {
        "\x1b[46m"
    } else if str_eq(b, "37") {
        "\x1b[47m"
    } else if str_eq(b, "1;31") {
        "\x1b[41;1m"
    } else if str_eq(b, "1;32") {
        "\x1b[42;1m"
    } else if str_eq(b, "1;33") {
        "\x1b[43;1m"
    } else if str_eq(b, "1;34") {
        "\x1b[44;1m"
    } else if str_eq(b, "1;35") {
        "\x1b[45;1m"
    } else if str_eq(b, "1;36") {
        "\x1b[46;1m"
    } else if str_eq(b, "1;37") {
        "\x1b[47;1m"
    } else {
        push_str(out, "\x1b[");
        let mut i: usize = 0;
        let ghost start = out@;
        while i < base_v.len()
            invariant
                i <= base_v@.len(),
                out@ == start + three_to_four(base_v@.take(i as int)),
            decreases base_v.len() - i,
        {
            let ch = base_v[i];
            out.push(if ch == '3' { '4' } else { ch });
            assert(three_to_four(base_v@.take(i + 1)) =~= three_to_four(base_v@.take(i as int)).push(
                if ch == '3' { '4' } else { ch },
            ));
            i = i + 1;
        }
        assert(base_v@.take(i as int) =~= base_v@);
        push_str(out, "m");
        assert(final(out)@ =~= old(out)@ + code_to_bg_spec(code@));
        return ;
    };
    push_str(out, lit);
}

pub fn code_to_bg(code: &str) -> (r: String)
    ensures
        r@ == code_to_bg_spec(code@),
{
    let mut out: Vec<char> = Vec::new();
    push_code_to_bg(&mut out, code);
    assert(out@ =~= code_to_bg_spec(code@));
    from_chars(out.as_slice())
}

pub open spec fn sat_sub(a: nat, b: nat) -> nat {
    if a >= b {
        (a - b) as nat
    } else {
        0
    }
}

/// First line of the multiline prompt before any shortening.
pub open spec fn multiline_top(c: PromptContextV, cfg: ConfigV) -> Seq<char> {
    let top0 = "\x1b[90m┌─\x1b[0m"@ + style_spec(c.user, cfg.color_user) + "@"@ + style_spec(
        c.host,
        cfg.color_host,
    ) + " \x1b[90m─\x1b[0m "@ + style_spec(c.cwd, cfg.color_path);
    let top1 = match c.branch {
        Some(b) => top0 + " \x1b[90m(\x1b[0m"@ + style_spec(b, cfg.color_git) + ")\x1b[90m"@,
        None => top0,
    };
    let exit_str = if c.exit_code != 0 {
        " \x1b["@ + cfg.color_exit + "m\u{2717} "@ + signed_decimal(c.exit_code as int)
            + "\x1b[0m"@
    } else {
        Seq::empty()
    };
    top1 + exit_str
}

/// Whether the first line is longer (in bytes) than the terminal allows.
pub open spec fn multiline_too_wide(c: PromptContextV, cfg: ConfigV) -> bool {
    utf8_len(multiline_top(c, cfg)) > sat_sub(c.width, 4)
}

/// Shortening cuts the line at `width - 7` bytes, which must fall between
/// characters.
pub open spec fn multiline_ok(c: PromptContextV, cfg: ConfigV) -> bool {
    multiline_too_wide(c, cfg) ==> is_byte_boundary(multiline_top(c, cfg), sat_sub(c.width, 7) as int)
}

pub open spec fn multiline_spec(c: PromptContextV, cfg: ConfigV) -> Seq<char> {
    let top = multiline_top(c, cfg);
    let top2 = if multiline_too_wide(c, cfg) {
        top.take(char_index_at(top, sat_sub(c.width, 7) as int)) + "\x1b[90m…\x1b[0m"@
    } else {
        top
    };
    top2 + "\n\x1b[90m└─\x1b[0m"@ + style_spec(c.prompt_char, cfg.color_user) + " "@
}

fn build_multiline(c: &PromptContext, cfg: &ShellConfig) -> (r: Option<String>)
    ensures
        r is Some <==> multiline_ok(c@, cfg@),
        r matches Some(s) ==> s@ == multiline_spec(c@, cfg@),
{
    let mut top: Vec<char> = Vec::new();
    push_str(&mut top, "\x1b[90m┌─\x1b[0m");
    push_style(&mut top, c.user.as_str(), cfg.color_user.as_str());
    push_str(&mut top, "@");
    push_style(&mut top, c.host.as_str(), cfg.color_host.as_str());
    push_str(&mut top, " \x1b[90m─\x1b[0m ");
    push_style(&mut top, c.cwd.as_str(), cfg.color_path.as_str());
    match &c.branch {
        Some(b) => {
            push_str(&mut top, " \x1b[90m(\x1b[0m");
            push_style(&mut top, b.as_str(), cfg.color_git.as_str());
            push_str(&mut top, ")\x1b[90m");
        },
        None => {},
    }
    if c.exit_code != 0 {
        push_str(&mut top, " \x1b[");
        push_str(&mut top, cfg.color_exit.as_str());
        push_str(&mut top, "m\u{2717} ");
        push_signed_decimal(&mut top, c.exit_code as i64);
        push_str(&mut top, "\x1b[0m");
    }
    assert(top@ =~= multiline_top(c@, cfg@));
    let width = c.width;
    let w4: usize = if width >= 4 {
        width - 4
    } else {
        0
    };
    let w7: usize = if width >= 7 {
        width - 7
    } else {
        0
    };
    let len = utf8_len_exec(&top);
    let mut out: Vec<char>;
    if len > w4 as u128 {
        match char_index_of_byte(&top, w7 as u128) {
            None => {
                return None;
            },
            Some(k) => {
                proof {
                    lemma_char_index_at(top@, w7 as int, k as int);
                }
                out = subvec(&top, 0, k);
                assert(out@ =~= top@.take(k as int));
                push_str(&mut out, "\x1b[90m…\x1b[0m");
            },
        }
    } else {
        out = top;
    }
    push_str(&mut out, "\n\x1b[90m└─\x1b[0m");
    push_style(&mut out, c.prompt_char.as_str(), cfg.color_user.as_str());
    push_str(&mut out, " ");
    assert(out@ =~= multiline_spec(c@, cfg@));
    Some(from_chars(out.as_slice()))
}

pub open spec fn powerline_spec(c: PromptContextV, cfg: ConfigV) -> Seq<char> {
    let fg_black = "\x1b[30m"@;
    let p0 = code_to_bg_spec(cfg.color_user) + fg_black + " "@ + c.user + " "@
        + "\x1b[42m\x1b[32m"@ + code_to_bg_spec(cfg.color_host) + fg_black + " "@ + c.host
        + " "@ + "\x1b[44m\x1b[34m"@ + code_to_bg_spec(cfg.color_path) + fg_black + " "@
        + c.cwd;
    let p1 = match c.branch {
        Some(b) => p0 + " "@ + "\x1b[41m\x1b[31m"@ + code_to_bg_spec(cfg.color_git)
            + "\x1b[30m"@ + " "@ + b,
        None => p0,
    };
    let p2 = p1 + "\x1b[0m"@ + " "@ + style_spec(c.prompt_char, cfg.color_user);
    if c.exit_code != 0 {
        style_spec(signed_decimal(c.exit_code as int), cfg.color_exit) + " "@ + p2 + " "@
            + "\x1b[0m"@
    } else {
        p2
    }
}

fn build_powerline(c: &PromptContext, cfg: &ShellConfig) -> (r: String)
    ensures
        r@ == powerline_spec(c@, cfg@),
{
    let mut p: Vec<char> = Vec::new();
    push_code_to_bg(&mut p, cfg.color_user.as_str());
    push_str(&mut p, "\x1b[30m");
    push_str(&mut p, " ");
    push_str(&mut p, c.user.as_str());
    push_str(&mut p, " ");
    push_str(&mut p, "\x1b[42m\x1b[32m");
    push_code_to_bg(&mut p, cfg.color_host.as_str());
    push_str(&mut p, "\x1b[30m");
    push_str(&mut p, " ");
    push_str(&mut p, c.host.as_str());
    push_str(&mut p, " ");
    push_str(&mut p, "\x1b[44m\x1b[34m");
    push_code_to_bg(&mut p, cfg.color_path.as_str());
    push_str(&mut p, "\x1b[30m");
    push_str(&mut p, " ");
    push_str(&mut p, c.cwd.as_str());
    match &c.branch {
        Some(b) => {
            push_str(&mut p, " ");
            push_str(&mut p, "\x1b[41m\x1b[31m");
            push_code_to_bg(&mut p, cfg.color_git.as_str());
            push_str(&mut p, "\x1b[30m");
            push_str(&mut p, " ");
            push_str(&mut p, b.as_str());
        },
        None => {},
    }
    push_str(&mut p, "\x1b[0m");
    push_str(&mut p, " ");
    push_style(&mut p, c.prompt_char.as_str(), cfg.color_user.as_str());
    if c.exit_code != 0 {
        let code = crate::num::i64_to_string(c.exit_code as i64);
        let mut q: Vec<char> = Vec::new();
        push_style(&mut q, code.as_str(), cfg.color_exit.as_str());
        push_str(&mut q, " ");
        push_chars(&mut q, &p);
        push_str(&mut q, " ");
        push_str(&mut q, "\x1b[0m");
        assert(q@ =~= powerline_spec(c@, cfg@));
        return from_chars(q.as_slice());
    }
    assert(p@ =~= powerline_spec(c@, cfg@));
    from_chars(p.as_slice())
}

pub open spec fn minimal_spec(c: PromptContextV, cfg: ConfigV) -> Seq<char> {
    let p0 = style_spec(c.cwd, cfg.color_path) + " "@;
    let p1 = match c.branch {
        Some(b) => p0 + style_spec(seq!['('] + b + seq![')'], cfg.color_git) + " "@,
        None => p0,
    };
    let p2 = if c.exit_code != 0 {
        style_spec(signed_decimal(c.exit_code as int), cfg.color_exit) + " "@ + p1
    } else {
        p1
    };
    p2 + style_spec(c.prompt_char, cfg.color_user) + seq![' ']
}

fn build_minimal(c: &PromptContext, cfg: &ShellConfig) -> (r: String)
    ensures
        r@ == minimal_spec(c@, cfg@),
{
    let mut p: Vec<char> = Vec::new();
    push_style(&mut p, c.cwd.as_str(), cfg.color_path.as_str());
    push_str(&mut p, " ");
    match &c.branch {
        Some(b) => {
            let mut inner: Vec<char> = Vec::new();
            inner.push('(');
            push_str(&mut inner, b.as_str());
            inner.push(')');
            let inner_s = from_chars(inner.as_slice());
            assert(inner_s@ =~= seq!['('] + b@ + seq![')']);
            push_style(&mut p, inner_s.as_str(), cfg.color_git.as_str());
            push_str(&mut p, " ");
        },
        None => {},
    }
    if c.exit_code != 0 {
        let code = crate::num::i64_to_string(c.exit_code as i64);
        let mut q: Vec<char> = Vec::new();
        push_style(&mut q, code.as_str(), cfg.color_exit.as_str());
        push_str(&mut q, " ");
        push_chars(&mut q, &p);
        p = q;
    }
    push_style(&mut p, c.prompt_char.as_str(), cfg.color_user.as_str());
    p.push(' ');
    assert(p@ =~= minimal_spec(c@, cfg@));
    from_chars(p.as_slice())
}

pub open spec fn plain_spec(c: PromptContextV) -> Seq<char> {
    let p0 = c.cwd + " "@ + c.prompt_char;
    let p1 = match c.branch {
        Some(b) => p0 + " ("@ + b + ")"@,
        None => p0,
    };
    p1 + seq![' ']
}

fn build_plain(c: &PromptContext) -> (r: String)
    ensures
        r@ == plain_spec(c@),
{
    let mut p: Vec<char> = Vec::new();
    push_str(&mut p, c.cwd.as_str());
    push_str(&mut p, " ");
    push_str(&mut p, c.prompt_char.as_str());
    match &c.branch {
        Some(b) => {
            push_str(&mut p, " (");
            push_str(&mut p, b.as_str());
            push_str(&mut p, ")");
        },
        None => {},
    }
    p.push(' ');
    assert(p@ =~= plain_spec(c@));
    from_chars(p.as_slice())
}

/// The prompt in the configured style; `None` exactly when the multiline
/// style has to cut its first line inside a character.
pub open spec fn prompt_spec(c: PromptContextV, cfg: ConfigV) -> Option<Seq<char>> {
    if cfg.prompt_style == "minimal"@ {
        Some(minimal_spec(c, cfg))
    } else if cfg.prompt_style == "powerline"@ {
        Some(powerline_spec(c, cfg))
    } else if cfg.prompt_style == "plain"@ {
        Some(plain_spec(c))
    } else if multiline_ok(c, cfg) {
        Some(multiline_spec(c, cfg))
    } else {
        None
    }
}

pub fn build_prompt(cfg: &ShellConfig, c: &PromptContext) -> (r: Option<String>)
    ensures
        match r {
            Some(s) => prompt_spec(c@, cfg@) == Some(s@),
            None => prompt_spec(c@, cfg@) is None,
        },
{
    let st = cfg.prompt_style.as_str();
    if str_eq(st, "minimal") {
        Some(build_minimal(c, cfg))
    } else if str_eq(st, "powerline") {
        Some(build_powerline(c, cfg))
    } else if str_eq(st, "plain") {
        Some(build_plain(c))
    } else {
        build_multiline(c, cfg)
    }
}

/// The plain style: the directory, a space, the prompt character, the
/// branch in parentheses when there is one, and a space.
pub proof fn lemma_plain_prompt(c: PromptContextV, cfg: ConfigV)
    requires
        cfg.prompt_style == "plain"@,
    ensures
        prompt_spec(c, cfg) == Some(
            c.cwd + " "@ + c.prompt_char + match c.branch {
                Some(b) => " ("@ + b + ")"@,
                None => Seq::<char>::empty(),
            } + " "@,
        ),
{
    reveal_strlit("plain");
    reveal_strlit("minimal");
    reveal_strlit("powerline");
    reveal_strlit(" ");
    assert("plain"@.len() != "minimal"@.len());
    assert("plain"@.len() != "powerline"@.len());
    let p0 = c.cwd + " "@ + c.prompt_char;
    match c.branch {
        Some(b) => {
            assert(p0 + " ("@ + b + ")"@ + seq![' '] =~= c.cwd + " "@ + c.prompt_char + (" ("@ + b
                + ")"@) + " "@);
        },
        None => {
            assert(p0 + seq![' '] =~= c.cwd + " "@ + c.prompt_char + Seq::<char>::empty() + " "@);
        },
    }
}

/// An empty code or `0` leaves text plain.
pub proof fn lemma_style_plain(s: Seq<char>)
    ensures
        style_spec(s, Seq::empty()) == s,
        style_spec(s, "0"@) == s,
{
}

} // verus!
