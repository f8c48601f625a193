//! The interactive session around the line editor: which input lines are
//! run, and the greeting shown at start.
use vstd::prelude::*;
use crate::text::{
    char_views, from_chars, lines, push_chars, push_str, split_char, split_fields, split_lines,
    starts_with, has_prefix, to_chars, trim, trim_char, trim_char_exec, trim_str, utf8_len,
    utf8_len_exec,
};

verus! {

/// The longest input line, in bytes, that is run.
pub const MAX_INPUT_LEN: usize = 65536;

/// What happens to a line read from the editor.
pub enum LineAction {
    /// Longer than [`MAX_INPUT_LEN`] bytes: refused with a message.
    TooLong,
    /// Only whitespace: ignored.
    Blank,
    /// Recorded in the history and run, trimmed.
    Run(String),
}

pub enum LineActionV {
    TooLong,
    Blank,
    Run(Seq<char>),
}

impl View for LineAction {
    type V = LineActionV;

    open spec fn view(&self) -> LineActionV {
        match self {
            LineAction::TooLong => LineActionV::TooLong,
            LineAction::Blank => LineActionV::Blank,
            LineAction::Run(s) => LineActionV::Run(s@),
        }
    }
}

pub open spec fn accept_line_spec(line: Seq<char>) -> LineActionV {
    if utf8_len(line) > MAX_INPUT_LEN {
        LineActionV::TooLong
    } else if trim(line).len() == 0 {
        LineActionV::Blank
    } else {
        LineActionV::Run(trim(line))
    }
}

pub fn accept_line(line: &str) -> (r: LineAction)
    ensures
        r@ == accept_line_spec(line@),
{
    let v = to_chars(line);
    if utf8_len_exec(&v) > MAX_INPUT_LEN as u128 {
        return LineAction::TooLong;
    }
    let t = trim_str(line);
    if t.len() == 0 {
        return LineAction::Blank;
    }
    LineAction::Run(from_chars(t.as_slice()))
}

// ---------------------------------------------------------------------------
// Greeting
// ---------------------------------------------------------------------------

/// The first of `ls` that starts with `p`.
pub open spec fn first_with_prefix(ls: Seq<Seq<char>>, p: Seq<char>) -> Option<Seq<char>>
    decreases ls.len(),
{
    if ls.len() == 0 {
        None
    } else if starts_with(ls[0], p) {
        Some(ls[0])
    } else {
        first_with_prefix(ls.drop_first(), p)
    }
}

/// The system's name from the text of `/etc/os-release`: the second
/// `=`-separated field of the first `PRETTY_NAME=` line, without quotes;
/// `Linux` when the file could not be read or has no such line.
pub open spec fn os_name_spec(os_release: Option<Seq<char>>) -> Seq<char> {
    match os_release {
        None => "Linux"@,
        Some(c) => match first_with_prefix(lines(c), "PRETTY_NAME="@) {
            None => "Linux"@,
            Some(l) => if split_char(l, '=').len() >= 2 {
                trim_char(split_char(l, '=')[1], '"')
            } else {
                "Linux"@
            },
        },
    }
}

pub fn os_name(os_release: Option<&str>) -> (r: String)
    ensures
        r@ == os_name_spec(
            match os_release {
                Some(c) => Some(c@),
                None => None,
            },
        ),
{
    let c = match os_release {
        None => return String::from_str("Linux"),
        Some(c) => c,
    };
    let ls = split_lines(&to_chars(c));
    let ghost lv = lines(c@);
    let key = to_chars("PRETTY_NAME=");
    let mut i: usize = 0;
    assert(lv.skip(0) =~= lv);
    while i < ls.len()
        invariant
            i <= ls@.len(),
            ls@.len() == lv.len(),
            forall|k: int| 0 <= k < ls@.len() ==> #[trigger] ls@[k]@ == lv[k],
            key@ == "PRETTY_NAME="@,
            os_release == Some(c),
            lv == lines(c@),
            first_with_prefix(lv, "PRETTY_NAME="@) == first_with_prefix(lv.skip(i as int), "PRETTY_NAME="@),
        decreases ls.len() - i,
    {
        let ghost rest = lv.skip(i as int);
        assert(rest[0] == lv[i as int]);
        assert(rest.drop_first() =~= lv.skip(i + 1));
        if has_prefix(ls[i].as_slice(), key.as_slice()) {
            assert(first_with_prefix(lv, "PRETTY_NAME="@) == Some(lv[i as int]));
            let fields = split_fields(&ls[i], '=');
            if fields.len() >= 2 {
                assert(char_views(fields@)[1] == fields@[1]@);
                let t = trim_char_exec(&fields[1], '"');
                return from_chars(t.as_slice());
            }
            return String::from_str("Linux");
        }
        i = i + 1;
    }
    assert(lv.skip(i as int) =~= Seq::<Seq<char>>::empty());
    String::from_str("Linux")
}

/// `\e[<code>m<s>\e[0m`.
pub open spec fn paint(s: Seq<char>, code: Seq<char>) -> Seq<char> {
    "\x1b["@ + code + "m"@ + s + "\x1b[0m"@
}

fn push_paint(out: &mut Vec<char>, s: &str, code: &str)
    ensures
        final(out)@ == old(out)@ + paint(s@, code@),
{
    push_str(out, "\x1b[");
    push_str(out, code);
    push_str(out, "m");
    push_str(out, s);
    push_str(out, "\x1b[0m");
    assert(final(out)@ =~= old(out)@ + paint(s@, code@));
}

/// The lines printed at start: a blank line, a small box with the name of
/// the shell, `user@host` and the system's name, a hint, and a blank line.
/// The user is `user` when unknown.
pub open spec fn greeting_spec(user: Option<Seq<char>>, host: Seq<char>, os: Seq<char>) -> Seq<
    Seq<char>,
> {
    let u = match user {
        Some(u) => u,
        None => "user"@,
    };
    seq![
        Seq::empty(),
        "  "@ + paint("╭───"@, "90"@) + " "@ + paint("updSH"@, "1;34"@) + " "@ + paint(
            "───╮"@,
            "90"@,
        ),
        "  "@ + paint("│"@, "90"@) + " "@ + paint(u, "32"@) + "@"@ + paint(host, "34"@) + "  "@
            + paint("│"@, "90"@),
        "  "@ + paint("│"@, "90"@) + " "@ + paint(os, "33"@) + "  "@ + paint("│"@, "90"@),
        "  "@ + paint("╰──────╯"@, "90"@) + " "@ + paint("  Type help for commands"@, "2"@),
        Seq::empty(),
    ]
}

pub fn greeting(user: Option<&str>, host: &str, os: &str) -> (r: Vec<String>)
    ensures
        crate::order::views(r@) == greeting_spec(
            match user {
                Some(u) => Some(u@),
                None => None,
            },
            host@,
            os@,
        ),
{
    let u = match user {
        Some(u) => u,
        None => "user",
    };
    let mut a: Vec<char> = Vec::new();
    push_str(&mut a, "  ");
    push_paint(&mut a, "╭───", "90");
    push_str(&mut a, " ");
    push_paint(&mut a, "updSH", "1;34");
    push_str(&mut a, " ");
    push_paint(&mut a, "───╮", "90");
    let mut b: Vec<char> = Vec::new();
    push_str(&mut b, "  ");
    push_paint(&mut b, "│", "90");
    push_str(&mut b, " ");
    push_paint(&mut b, u, "32");
    push_str(&mut b, "@");
    push_paint(&mut b, host, "34");
    push_str(&mut b, "  ");
    push_paint(&mut b, "│", "90");
    let mut c: Vec<char> = Vec::new();
    push_str(&mut c, "  ");
    push_paint(&mut c, "│", "90");
    push_str(&mut c, " ");
    push_paint(&mut c, os, "33");
    push_str(&mut c, "  ");
    push_paint(&mut c, "│", "90");
    let mut d: Vec<char> = Vec::new();
    push_str(&mut d, "  ");
    push_paint(&mut d, "╰──────╯", "90");
    push_str(&mut d, " ");
    push_paint(&mut d, "  Type help for commands", "2");
    let mut r: Vec<String> = Vec::new();
    r.push(String::new());
    r.push(from_chars(a.as_slice()));
    r.push(from_chars(b.as_slice()));
    r.push(from_chars(c.as_slice()));
    r.push(from_chars(d.as_slice()));
    r.push(String::new());
    let ghost g = greeting_spec(
        match user {
            Some(u) => Some(u@),
            None => None,
        },
        host@,
        os@,
    );
    assert(a@ =~= g[1]);
    assert(b@ =~= g[2]);
    assert(c@ =~= g[3]);
    assert(d@ =~= g[4]);
    assert(crate::order::views(r@) =~= g);
    r
}

} // verus!
