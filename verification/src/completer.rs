//! Tab completion and history-based autosuggestion: what to complete and
//! which candidates qualify. Listing directories and the registry is left
//! to the caller.
use vstd::prelude::*;
use crate::order::views;
use crate::text::{
    char_index_at, char_index_of_byte, chars_eq, contains, copy_string, from_chars, has_prefix,
    is_byte_boundary, lemma_char_index_at, lemma_words_utf8_bound, push_chars, push_str,
    split_words, starts_with, str_eq, subvec, to_chars, trim, trim_bounds, utf8_len,
    utf8_len_exec, words,
};

verus! {

/// A completion: what the menu shows, and what replaces the word.
pub struct Candidate {
    pub display: String,
    pub replacement: String,
}

pub open spec fn cand_views(v: Seq<Candidate>) -> Seq<(Seq<char>, Seq<char>)> {
    v.map_values(|c: Candidate| (c.display@, c.replacement@))
}

pub struct UpdshCompleter {
    pub history: Vec<String>,
}

/// The text before the cursor (at byte `pos`).
pub open spec fn line_before(line: Seq<char>, pos: int) -> Seq<char> {
    line.take(char_index_at(line, pos))
}

/// The suggestion after the cursor: the rest of the newest history entry
/// that extends the typed text, when the text is one word.
pub open spec fn hint_from(history: Seq<Seq<char>>, t: Seq<char>) -> Option<Seq<char>>
    decreases history.len(),
{
    if history.len() == 0 {
        None
    } else {
        let e = history.last();
        if utf8_len(e) > utf8_len(t) && starts_with(e, t) && e != t {
            Some(e.skip(t.len() as int))
        } else {
            hint_from(history.drop_last(), t)
        }
    }
}

pub open spec fn hint_spec(history: Seq<Seq<char>>, line: Seq<char>, pos: int) -> Option<Seq<char>> {
    let lb = line_before(line, pos);
    let t = trim(lb);
    if t.len() == 0 || lb.contains(' ') {
        None
    } else {
        hint_from(history, t)
    }
}

/// How to complete the word before the cursor.
pub enum CompletionKind {
    Nothing,
    /// Command names starting with the word.
    Commands(String),
    /// Directory entries matching the word as a path.
    Paths(String),
    /// These `pkg` subcommands.
    PkgSubcommands(Vec<Candidate>),
    /// Registry package names starting with the word.
    PkgNames(String),
    /// Installed package names starting with the word.
    InstalledNames(String),
}

pub enum KindV {
    Nothing,
    Commands(Seq<char>),
    Paths(Seq<char>),
    PkgSubcommands(Seq<(Seq<char>, Seq<char>)>),
    PkgNames(Seq<char>),
    InstalledNames(Seq<char>),
}

impl View for CompletionKind {
    type V = KindV;

    open spec fn view(&self) -> KindV {
        match self {
            CompletionKind::Nothing => KindV::Nothing,
            CompletionKind::Commands(w) => KindV::Commands(w@),
            CompletionKind::Paths(w) => KindV::Paths(w@),
            CompletionKind::PkgSubcommands(c) => KindV::PkgSubcommands(cand_views(c@)),
            CompletionKind::PkgNames(w) => KindV::PkgNames(w@),
            CompletionKind::InstalledNames(w) => KindV::InstalledNames(w@),
        }
    }
}

pub open spec fn pkg_subcommands() -> Seq<Seq<char>> {
    seq!["install"@, "remove"@, "list"@, "search"@, "info"@, "update"@, "help"@]
}

/// The subcommands that start with `input`, each completed with a space.
pub open spec fn subcommand_candidates(cmds: Seq<Seq<char>>, input: Seq<char>) -> Seq<
    (Seq<char>, Seq<char>),
>
    decreases cmds.len(),
{
    if cmds.len() == 0 {
        Seq::empty()
    } else {
        let before = subcommand_candidates(cmds.drop_last(), input);
        if starts_with(cmds.last(), input) {
            before.push((cmds.last(), cmds.last() + seq![' ']))
        } else {
            before
        }
    }
}

/// Completion after `pkg`: subcommands for the second word; package names
/// when the third word is `install`, `info` or `remove`.
pub open spec fn complete_pkg_spec(input: Seq<char>, word_count: nat) -> KindV {
    if word_count == 2 {
        KindV::PkgSubcommands(subcommand_candidates(pkg_subcommands(), input))
    } else if word_count == 3 && (input == "install"@ || input == "info"@) {
        KindV::PkgNames(Seq::empty())
    } else if word_count == 3 && input == "remove"@ {
        KindV::InstalledNames(Seq::empty())
    } else {
        KindV::Nothing
    }
}

/// Where the completed word starts (a byte offset) and how to complete it.
pub open spec fn complete_spec(line: Seq<char>, pos: int) -> (int, KindV) {
    let lb = line_before(line, pos);
    let ws = words(lb);
    if ws.len() == 0 {
        (pos, KindV::Nothing)
    } else {
        let last = ws.last();
        let start = pos - utf8_len(last);
        if ws[0] == "pkg"@ {
            if ws.len() == 2 {
                (start, complete_pkg_spec(last, 2))
            } else if ws.len() >= 3 {
                let sub = ws[1];
                if sub == "install"@ || sub == "info"@ || sub == "show"@ {
                    (start, KindV::PkgNames(last))
                } else if sub == "remove"@ || sub == "r"@ {
                    (start, KindV::InstalledNames(last))
                } else {
                    (start, KindV::Nothing)
                }
            } else {
                (pos, KindV::Nothing)
            }
        } else if ws.len() == 1 && !last.contains('/') {
            (start, KindV::Commands(last))
        } else {
            (start, KindV::Paths(last))
        }
    }
}

fn cand(display: &Vec<char>, replacement: &Vec<char>) -> (r: Candidate)
    ensures
        r.display@ == display@,
        r.replacement@ == replacement@,
{
    Candidate { display: from_chars(display.as_slice()), replacement: from_chars(replacement.as_slice()) }
}

fn contains_char(s: &Vec<char>, c: char) -> (r: bool)
    ensures
        r == s@.contains(c),
{
    let mut i: usize = 0;
    while i < s.len()
        invariant
            i <= s@.len(),
            forall|k: int| 0 <= k < i ==> s@[k] != c,
        decreases s.len() - i,
    {
        if s[i] == c {
            assert(s@[i as int] == c);
            return true;
        }
        i = i + 1;
    }
    false
}

impl UpdshCompleter {
    pub fn new(history: &[String]) -> (r: UpdshCompleter)
        ensures
            views(r.history@) == views(history@),
    {
        let mut v: Vec<String> = Vec::new();
        let mut i: usize = 0;
        while i < history.len()
            invariant
                i <= history@.len(),
                v@.len() == i,
                forall|k: int| 0 <= k < i ==> (#[trigger] v@[k])@ == history@[k]@,
            decreases history.len() - i,
        {
            v.push(copy_string(&history[i]));
            i = i + 1;
        }
        assert(views(v@) =~= views(history@));
        UpdshCompleter { history: v }
    }

    /// The suggested continuation of the line typed so far.
    pub fn hint(&self, line: &str, pos: usize) -> (r: Option<String>)
        requires
            is_byte_boundary(line@, pos as int),
        ensures
            match r {
                Some(s) => hint_spec(views(self.history@), line@, pos as int) == Some(s@),
                None => hint_spec(views(self.history@), line@, pos as int) is None,
            },
    {
        let chars = to_chars(line);
        let k = char_index_of_byte(&chars, pos as u128).unwrap();
        proof {
            lemma_char_index_at(chars@, pos as int, k as int);
        }
        let lb = subvec(&chars, 0, k);
        assert(lb@ =~= line_before(line@, pos as int));
        let (a, b) = trim_bounds(&lb);
        let t = subvec(&lb, a, b);
        if t.len() == 0 || contains_char(&lb, ' ') {
            return None;
        }
        let tl = utf8_len_exec(&t);
        let ghost hv = views(self.history@);
        assert(t@ == trim(lb@));
        assert(hint_spec(hv, line@, pos as int) == hint_from(hv, t@));
        let mut i: usize = self.history.len();
        assert(hv.take(hv.len() as int) =~= hv);
        while i > 0
            invariant
                i <= self.history@.len(),
                hv == views(self.history@),
                hint_spec(hv, line@, pos as int) == hint_from(hv, t@),
                tl == utf8_len(t@),
                hint_from(hv, t@) == hint_from(hv.take(i as int), t@),
            decreases i,
        {
            assert(hv.take(i as int).last() == self.history@[i - 1]@);
            assert(hv.take(i as int).drop_last() =~= hv.take(i - 1));
            let e = to_chars(self.history[i - 1].as_str());
            let el = utf8_len_exec(&e);
            if el > tl && has_prefix(e.as_slice(), t.as_slice()) && !chars_eq(
                e.as_slice(),
                t.as_slice(),
            ) {
                let rest = subvec(&e, t.len(), e.len());
                assert(rest@ =~= e@.skip(t@.len() as int));
                assert(e@ == hv.take(i as int).last());
                assert(hint_from(hv.take(i as int), t@) == Some(rest@));
                return Some(from_chars(rest.as_slice()));
            }
            i = i - 1;
        }
        assert(hv.take(0) =~= Seq::<Seq<char>>::empty());
        None
    }

    /// Completion after `pkg` with the given word and word count.
    pub fn complete_pkg(input: &str, word_count: usize) -> (r: CompletionKind)
        ensures
            r@ == complete_pkg_spec(input@, word_count as nat),
    {
        if word_count == 2 {
            let subs = ["install", "remove", "list", "search", "info", "update", "help"];
            let ghost sv = pkg_subcommands();
            assert(sv.len() == 7);
            let mut out: Vec<Candidate> = Vec::new();
            let inp = to_chars(input);
            let mut i: usize = 0;
            assert(sv.take(0) =~= Seq::<Seq<char>>::empty());
            assert(cand_views(out@) =~= Seq::<(Seq<char>, Seq<char>)>::empty());
            while i < 7
                invariant
                    i <= 7,
                    sv == pkg_subcommands(),
                    subs@.len() == 7,
                    forall|k: int| 0 <= k < 7 ==> (#[trigger] subs@[k])@ == sv[k],
                    inp@ == input@,
                    cand_views(out@) == subcommand_candidates(sv.take(i as int), input@),
                decreases 7 - i,
            {
                assert(sv.take(i + 1).drop_last() =~= sv.take(i as int));
                assert(sv.take(i + 1).last() == sv[i as int]);
                let c = to_chars(subs[i]);
                if has_prefix(c.as_slice(), inp.as_slice()) {
                    let mut rep = to_chars(subs[i]);
                    rep.push(' ');
                    assert(rep@ =~= sv[i as int] + seq![' ']);
                    let ghost before = cand_views(out@);
                    out.push(cand(&c, &rep));
                    assert(cand_views(out@) =~= before.push((sv[i as int], sv[i as int] + seq![' '])));
                }
                i = i + 1;
            }
            assert(sv.take(7) =~= sv);
            return CompletionKind::PkgSubcommands(out);
        }
        if word_count == 3 {
            if str_eq(input, "install") || str_eq(input, "info") {
                let e = String::new();
                return CompletionKind::PkgNames(e);
            }
            if str_eq(input, "remove") {
                let e = String::new();
                return CompletionKind::InstalledNames(e);
            }
        }
        CompletionKind::Nothing
    }

    /// The start (byte offset) of the word being completed and how to
    /// complete it.
    pub fn complete(line: &str, pos: usize) -> (r: (usize, CompletionKind))
        requires
            is_byte_boundary(line@, pos as int),
        ensures
            (r.0 as int, r.1@) == complete_spec(line@, pos as int),
    {
        let chars = to_chars(line);
        let k = char_index_of_byte(&chars, pos as u128).unwrap();
        proof {
            lemma_char_index_at(chars@, pos as int, k as int);
        }
        let lb = subvec(&chars, 0, k);
        assert(lb@ =~= line_before(line@, pos as int));
        let ws = split_words(&lb);
        if ws.len() == 0 {
            return (pos, CompletionKind::Nothing);
        }
        let last = &ws[ws.len() - 1];
        let ll = utf8_len_exec(last);
        proof {
            lemma_words_utf8_bound(lb@);
            assert(utf8_len(words(lb@)[words(lb@).len() - 1]) <= utf8_len(lb@));
            assert(lb@ == chars@.take(k as int));
        }
        let start = pos - ll as usize;
        let last_s = from_chars(last.as_slice());
        let first = from_chars(ws[0].as_slice());
        if str_eq(first.as_str(), "pkg") {
            if ws.len() == 2 {
                return (start, UpdshCompleter::complete_pkg(last_s.as_str(), 2));
            }
            if ws.len() >= 3 {
                let sub = from_chars(ws[1].as_slice());
                let s = sub.as_str();
                if str_eq(s, "install") || str_eq(s, "info") || str_eq(s, "show") {
                    return (start, CompletionKind::PkgNames(last_s));
                }
                if str_eq(s, "remove") || str_eq(s, "r") {
                    return (start, CompletionKind::InstalledNames(last_s));
                }
                return (start, CompletionKind::Nothing);
            }
            return (pos, CompletionKind::Nothing);
        }
        if ws.len() == 1 && !contains_char(last, '/') {
            return (start, CompletionKind::Commands(last_s));
        }
        (start, CompletionKind::Paths(last_s))
    }
}

// ---------------------------------------------------------------------------
// Candidates
// ---------------------------------------------------------------------------

pub open spec fn builtin_commands() -> Seq<Seq<char>> {
    seq![
        "cd"@, "exit"@, "history"@, "help"@, "jobs"@, "fg"@, "bg"@, "export"@, "source"@,
        "type"@, "echo"@, "pwd"@, "clear"@,
    ]
}

/// The names starting with `input`, each only at its first occurrence.
pub open spec fn distinct_matches(names: Seq<Seq<char>>, input: Seq<char>) -> Seq<Seq<char>>
    decreases names.len(),
{
    if names.len() == 0 {
        Seq::empty()
    } else {
        let before = distinct_matches(names.drop_last(), input);
        let x = names.last();
        if starts_with(x, input) && !before.contains(x) {
            before.push(x)
        } else {
            before
        }
    }
}

fn contains_name(v: &Vec<String>, x: &Vec<char>) -> (r: bool)
    ensures
        r == views(v@).contains(x@),
{
    let mut i: usize = 0;
    while i < v.len()
        invariant
            i <= v@.len(),
            forall|k: int| 0 <= k < i ==> views(v@)[k] != x@,
        decreases v.len() - i,
    {
        let c = to_chars(v[i].as_str());
        if chars_eq(c.as_slice(), x.as_slice()) {
            assert(views(v@)[i as int] == x@);
            return true;
        }
        i = i + 1;
    }
    false
}

fn consider_name(
    name: &Vec<char>,
    inp: &Vec<char>,
    seen: &mut Vec<String>,
    out: &mut Vec<Candidate>,
    Ghost(prefix): Ghost<Seq<Seq<char>>>,
)
    requires
        views(old(seen)@) == distinct_matches(prefix, inp@),
        cand_views(old(out)@) == views(old(seen)@).map_values(|n: Seq<char>| (n, n)),
    ensures
        views(final(seen)@) == distinct_matches(prefix.push(name@), inp@),
        cand_views(final(out)@) == views(final(seen)@).map_values(|n: Seq<char>| (n, n)),
{
    assert(prefix.push(name@).drop_last() =~= prefix);
    assert(prefix.push(name@).last() == name@);
    if has_prefix(name.as_slice(), inp.as_slice()) && !contains_name(seen, name) {
        let ghost b1 = views(seen@);
        let ghost b2 = cand_views(out@);
        seen.push(from_chars(name.as_slice()));
        out.push(cand(name, name));
        assert(views(seen@) =~= b1.push(name@));
        assert(cand_views(out@) =~= b2.push((name@, name@)));
        assert(views(seen@).map_values(|n: Seq<char>| (n, n)) =~= b1.map_values(
            |n: Seq<char>| (n, n),
        ).push((name@, name@)));
    }
}

/// Commands for the first word: names found on `$PATH` (in the order
/// given), then the built-ins, each once.
pub fn command_candidates(path_names: &[String], input: &str) -> (r: Vec<Candidate>)
    ensures
        cand_views(r@) == distinct_matches(views(path_names@) + builtin_commands(), input@).map_values(
            |n: Seq<char>| (n, n),
        ),
{
    let builtins = [
        "cd", "exit", "history", "help", "jobs", "fg", "bg", "export", "source", "type", "echo",
        "pwd", "clear",
    ];
    let ghost pn = views(path_names@);
    let ghost bc = builtin_commands();
    let inp = to_chars(input);
    let mut seen: Vec<String> = Vec::new();
    let mut out: Vec<Candidate> = Vec::new();
    let mut i: usize = 0;
    assert(pn.take(0) =~= Seq::<Seq<char>>::empty());
    assert(views(seen@) =~= Seq::<Seq<char>>::empty());
    assert(cand_views(out@) =~= Seq::<(Seq<char>, Seq<char>)>::empty());
    while i < path_names.len()
        invariant
            i <= path_names@.len(),
            pn == views(path_names@),
            inp@ == input@,
            views(seen@) == distinct_matches(pn.take(i as int), input@),
            cand_views(out@) == views(seen@).map_values(|n: Seq<char>| (n, n)),
        decreases path_names.len() - i,
    {
        let name = to_chars(path_names[i].as_str());
        assert(pn.take(i + 1) =~= pn.take(i as int).push(name@));
        consider_name(&name, &inp, &mut seen, &mut out, Ghost(pn.take(i as int)));
        i = i + 1;
    }
    assert(pn.take(i as int) =~= pn);
    let mut j: usize = 0;
    assert(pn + bc.take(0) =~= pn);
    while j < 13
        invariant
            j <= 13,
            bc == builtin_commands(),
            builtins@.len() == 13,
            forall|k: int| 0 <= k < 13 ==> (#[trigger] builtins@[k])@ == bc[k],
            inp@ == input@,
            views(seen@) == distinct_matches(pn + bc.take(j as int), input@),
            cand_views(out@) == views(seen@).map_values(|n: Seq<char>| (n, n)),
        decreases 13 - j,
    {
        let name = to_chars(builtins[j]);
        assert(pn + bc.take(j + 1) =~= (pn + bc.take(j as int)).push(name@));
        consider_name(&name, &inp, &mut seen, &mut out, Ghost(pn + bc.take(j as int)));
        j = j + 1;
    }
    assert(bc.take(13) =~= bc);
    out
}

/// Names starting with `partial`, each completed with a space.
pub open spec fn name_candidates_spec(names: Seq<Seq<char>>, partial: Seq<char>) -> Seq<
    (Seq<char>, Seq<char>),
> {
    names.filter(|n: Seq<char>| starts_with(n, partial)).map_values(
        |n: Seq<char>| (n, n + seq![' ']),
    )
}

pub fn name_candidates(names: &[String], partial: &str) -> (r: Vec<Candidate>)
    ensures
        cand_views(r@) == name_candidates_spec(views(names@), partial@),
{
    let ghost nv = views(names@);
    let ghost p = |n: Seq<char>| starts_with(n, partial@);
    let pv = to_chars(partial);
    let mut out: Vec<Candidate> = Vec::new();
    let mut i: usize = 0;
    assert(nv.take(0).filter(p) =~= Seq::<Seq<char>>::empty());
    assert(cand_views(out@) =~= Seq::<(Seq<char>, Seq<char>)>::empty());
    while i < names.len()
        invariant
            i <= names@.len(),
            nv == views(names@),
            p == (|n: Seq<char>| starts_with(n, partial@)),
            pv@ == partial@,
            cand_views(out@) == nv.take(i as int).filter(p).map_values(
                |n: Seq<char>| (n, n + seq![' ']),
            ),
        decreases names.len() - i,
    {
        assert(nv.take(i + 1) =~= nv.take(i as int).push(nv[i as int]));
        proof {
            nv.take(i as int).lemma_filter_push(nv[i as int], p);
        }
        let n = to_chars(names[i].as_str());
        if has_prefix(n.as_slice(), pv.as_slice()) {
            let mut rep = to_chars(names[i].as_str());
            rep.push(' ');
            assert(rep@ =~= n@ + seq![' ']);
            let ghost before = cand_views(out@);
            out.push(cand(&n, &rep));
            assert(cand_views(out@) =~= before.push((n@, n@ + seq![' '])));
            assert(nv.take(i + 1).filter(p).map_values(|n: Seq<char>| (n, n + seq![' '])) =~= nv.take(
                i as int,
            ).filter(p).map_values(|n: Seq<char>| (n, n + seq![' '])).push((n@, n@ + seq![' '])));
        }
        i = i + 1;
    }
    assert(nv.take(i as int) =~= nv);
    out
}

// ---------------------------------------------------------------------------
// Paths
// ---------------------------------------------------------------------------

/// What `Path::parent` gives for a path, as text.
pub uninterp spec fn path_parent(p: Seq<char>) -> Option<Seq<char>>;

/// What `Path::file_name` gives for a path, as text.
pub uninterp spec fn path_file_name(p: Seq<char>) -> Option<Seq<char>>;

/// Calls `Path::parent` on the path and returns the parent as text. The
/// contract claims only that the answer depends on the path alone (it names
/// it `path_parent`); how `Path` splits a path is left unsaid.
#[verifier::external_body]
fn parent_of(p: &str) -> (r: Option<String>)
    ensures
        match r {
            Some(s) => path_parent(p@) == Some(s@),
            None => path_parent(p@) is None,
        },
{
    match std::path::Path::new(p).parent() {
        Some(q) => match q.to_str() {
            Some(t) => Some(t.to_string()),
            None => None,
        },
        None => None,
    }
}

/// Calls `Path::file_name` on the path and returns the last component as
/// text. The contract claims only that the answer depends on the path alone
/// (it names it `path_file_name`); how `Path` splits a path is left unsaid.
#[verifier::external_body]
fn file_name_of(p: &str) -> (r: Option<String>)
    ensures
        match r {
            Some(s) => path_file_name(p@) == Some(s@),
            None => path_file_name(p@) is None,
        },
{
    match std::path::Path::new(p).file_name() {
        Some(q) => match q.to_str() {
            Some(t) => Some(t.to_string()),
            None => None,
        },
        None => None,
    }
}

/// The directory a path completion lists, as shown (ending in `/`), the
/// part of the name typed so far, and the directory to read (`~` as
/// `$HOME`).
pub struct PathRequest {
    pub dir: String,
    pub partial: String,
    pub read_dir: String,
}

pub open spec fn path_request_spec(input: Seq<char>, home: Option<Seq<char>>) -> (
    Seq<char>,
    Seq<char>,
    Seq<char>,
) {
    let (dir, partial) = if input.len() > 0 && input.last() == '/' {
        (input, Seq::<char>::empty())
    } else {
        let parent = match path_parent(input) {
            Some(p) => p,
            None => "."@,
        };
        let name = match path_file_name(input) {
            Some(n) => n,
            None => Seq::<char>::empty(),
        };
        let d = if parent.len() > 0 {
            parent + seq!['/']
        } else {
            "./"@
        };
        (d, name)
    };
    let read = if dir.len() > 0 && dir[0] == '~' {
        match home {
            Some(h) => h + dir.skip(1),
            None => dir,
        }
    } else {
        dir
    };
    (dir, partial, read)
}

pub fn path_request(input: &str, home: Option<&str>) -> (r: PathRequest)
    ensures
        (r.dir@, r.partial@, r.read_dir@) == path_request_spec(
            input@,
            match home {
                Some(h) => Some(h@),
                None => None,
            },
        ),
{
    let iv = to_chars(input);
    let (dir, partial): (Vec<char>, Vec<char>) = if iv.len() > 0 && iv[iv.len() - 1] == '/' {
        (iv, Vec::new())
    } else {
        let parent = match parent_of(input) {
            Some(p) => to_chars(p.as_str()),
            None => to_chars("."),
        };
        let name = match file_name_of(input) {
            Some(n) => to_chars(n.as_str()),
            None => Vec::new(),
        };
        let d = if parent.len() > 0 {
            let mut d = parent;
            d.push('/');
            d
        } else {
            to_chars("./")
        };
        (d, name)
    };
    let read: Vec<char> = if dir.len() > 0 && dir[0] == '~' {
        match home {
            Some(h) => {
                let mut out = to_chars(h);
                let rest = subvec(&dir, 1, dir.len());
                push_chars(&mut out, &rest);
                assert(rest@ =~= dir@.skip(1));
                out
            },
            None => subvec(&dir, 0, dir.len()),
        }
    } else {
        subvec(&dir, 0, dir.len())
    };
    assert(dir@.subrange(0, dir@.len() as int) =~= dir@);
    PathRequest {
        dir: from_chars(dir.as_slice()),
        partial: from_chars(partial.as_slice()),
        read_dir: from_chars(read.as_slice()),
    }
}

/// The directory entries (name, is-directory) that complete `partial`:
/// not hidden, not `partial` itself; directories get a `/`, files a space.
pub open spec fn path_candidates_spec(
    dir: Seq<char>,
    partial: Seq<char>,
    entries: Seq<(Seq<char>, bool)>,
) -> Seq<(Seq<char>, Seq<char>)>
    decreases entries.len(),
{
    if entries.len() == 0 {
        Seq::empty()
    } else {
        let before = path_candidates_spec(dir, partial, entries.drop_last());
        let (name, is_dir) = entries.last();
        if starts_with(name, partial) && !(name.len() > 0 && name[0] == '.') && partial != name {
            before.push(
                (
                    dir + name,
                    if is_dir {
                        name + seq!['/']
                    } else {
                        name + seq![' ']
                    },
                ),
            )
        } else {
            before
        }
    }
}

pub fn path_candidates(dir: &str, partial: &str, entries: &[(String, bool)]) -> (r: Vec<Candidate>)
    ensures
        cand_views(r@) == path_candidates_spec(
            dir@,
            partial@,
            entries@.map_values(|e: (String, bool)| (e.0@, e.1)),
        ),
{
    let ghost ev = entries@.map_values(|e: (String, bool)| (e.0@, e.1));
    let pv = to_chars(partial);
    let mut out: Vec<Candidate> = Vec::new();
    let mut i: usize = 0;
    assert(ev.take(0) =~= Seq::<(Seq<char>, bool)>::empty());
    assert(cand_views(out@) =~= Seq::<(Seq<char>, Seq<char>)>::empty());
    while i < entries.len()
        invariant
            i <= entries@.len(),
            ev == entries@.map_values(|e: (String, bool)| (e.0@, e.1)),
            pv@ == partial@,
            cand_views(out@) == path_candidates_spec(dir@, partial@, ev.take(i as int)),
        decreases entries.len() - i,
    {
        assert(ev.take(i + 1).drop_last() =~= ev.take(i as int));
        assert(ev.take(i + 1).last() == (entries@[i as int].0@, entries@[i as int].1));
        let name = to_chars(entries[i].0.as_str());
        let hidden = name.len() > 0 && name[0] == '.';
        if has_prefix(name.as_slice(), pv.as_slice()) && !hidden && !chars_eq(
            pv.as_slice(),
            name.as_slice(),
        ) {
            let mut disp = to_chars(dir);
            push_chars(&mut disp, &name);
            let mut rep = to_chars(entries[i].0.as_str());
            if entries[i].1 {
                rep.push('/');
                assert(rep@ =~= name@ + seq!['/']);
            } else {
                rep.push(' ');
                assert(rep@ =~= name@ + seq![' ']);
            }
            assert(disp@ =~= dir@ + name@);
            let ghost before = cand_views(out@);
            out.push(cand(&disp, &rep));
            assert(cand_views(out@) =~= before.push((disp@, rep@)));
        }
        i = i + 1;
    }
    assert(ev.take(i as int) =~= ev);
    out
}

// ---------------------------------------------------------------------------
// Properties
// ---------------------------------------------------------------------------

proof fn lemma_hint_from_entry(history: Seq<Seq<char>>, t: Seq<char>)
    ensures
        hint_from(history, t) matches Some(h) ==> h.len() > 0 && history.contains(t + h),
    decreases history.len(),
{
    if history.len() > 0 {
        let e = history.last();
        if utf8_len(e) > utf8_len(t) && starts_with(e, t) && e != t {
            let h = e.skip(t.len() as int);
            assert(t + h =~= e);
            assert(history[history.len() - 1] == e);
        } else {
            lemma_hint_from_entry(history.drop_last(), t);
            match hint_from(history.drop_last(), t) {
                Some(h) => {
                    let k = choose|k: int| 0 <= k < history.drop_last().len()
                        && history.drop_last()[k] == t + h;
                    assert(history[k] == t + h);
                },
                None => {},
            }
        }
    }
}

/// A suggestion completes the word typed before the cursor to an entry of
/// the history: the word followed by the suggestion is one of the entries,
/// and the suggestion is not empty.
pub proof fn lemma_hint_completes_entry(history: Seq<Seq<char>>, line: Seq<char>, pos: int)
    ensures
        hint_spec(history, line, pos) matches Some(h) ==> h.len() > 0 && history.contains(
            trim(line_before(line, pos)) + h,
        ),
{
    lemma_hint_from_entry(history, trim(line_before(line, pos)));
}

/// The command candidates hold each name once, every one starts with the
/// typed word, and every name that starts with it is among them.
pub proof fn lemma_distinct_matches(names: Seq<Seq<char>>, input: Seq<char>)
    ensures
        forall|i: int, j: int|
            0 <= i < j < distinct_matches(names, input).len() ==> distinct_matches(names, input)[i]
                != distinct_matches(names, input)[j],
        forall|i: int|
            0 <= i < distinct_matches(names, input).len() ==> starts_with(
                #[trigger] distinct_matches(names, input)[i],
                input,
            ),
        forall|x: Seq<char>|
            #[trigger] names.contains(x) && starts_with(x, input) ==> distinct_matches(
                names,
                input,
            ).contains(x),
        forall|i: int|
            0 <= i < distinct_matches(names, input).len() ==> names.contains(
                #[trigger] distinct_matches(names, input)[i],
            ),
    decreases names.len(),
{
    if names.len() > 0 {
        let before = distinct_matches(names.drop_last(), input);
        lemma_distinct_matches(names.drop_last(), input);
        let x = names.last();
        let r = distinct_matches(names, input);
        assert forall|i: int| 0 <= i < r.len() implies names.contains(#[trigger] r[i]) by {
            if i < before.len() {
                assert(r[i] == before[i]);
                assert(names.drop_last().contains(before[i]));
                let k = choose|k: int| 0 <= k < names.drop_last().len() && names.drop_last()[k] == before[i];
                assert(names[k] == before[i]);
            } else {
                assert(r[i] == x);
                assert(names[names.len() - 1] == x);
            }
        }
        if starts_with(x, input) && !before.contains(x) {
            assert(r == before.push(x));
            assert forall|i: int, j: int| 0 <= i < j < r.len() implies r[i] != r[j] by {
                if j == r.len() - 1 {
                    assert(r[i] == before[i]);
                    if r[i] == r[j] {
                        assert(before.contains(x));
                    }
                }
            }
            assert forall|y: Seq<char>| #[trigger] names.contains(y) && starts_with(y, input) implies r.contains(
                y,
            ) by {
                let k = choose|k: int| 0 <= k < names.len() && names[k] == y;
                if k < names.len() - 1 {
                    assert(names.drop_last()[k] == y);
                    assert(names.drop_last().contains(y));
                    let m = choose|m: int| 0 <= m < before.len() && before[m] == y;
                    assert(r[m] == y);
                } else {
                    assert(r[r.len() - 1] == y);
                }
            }
        } else {
            assert forall|y: Seq<char>| #[trigger] names.contains(y) && starts_with(y, input) implies r.contains(
                y,
            ) by {
                let k = choose|k: int| 0 <= k < names.len() && names[k] == y;
                if k < names.len() - 1 {
                    assert(names.drop_last()[k] == y);
                    assert(names.drop_last().contains(y));
                }
            }
        }
    }
}

/// The commands offered for a first word: each name once, each starting
/// with the typed word, and they are exactly the names on `$PATH` and the
/// built-ins that start with it.
pub proof fn lemma_command_candidates(path_names: Seq<Seq<char>>, input: Seq<char>)
    ensures
        ({
            let d = distinct_matches(path_names + builtin_commands(), input);
            &&& forall|i: int, j: int| 0 <= i < j < d.len() ==> d[i] != d[j]
            &&& forall|x: Seq<char>|
                #[trigger] d.contains(x) <==> starts_with(x, input) && (path_names.contains(x)
                    || builtin_commands().contains(x))
        }),
{
    let all = path_names + builtin_commands();
    let d = distinct_matches(all, input);
    lemma_distinct_matches(all, input);
    assert forall|x: Seq<char>| #[trigger] d.contains(x) <==> starts_with(x, input) && (
    path_names.contains(x) || builtin_commands().contains(x)) by {
        if d.contains(x) {
            let i = choose|i: int| 0 <= i < d.len() && d[i] == x;
            assert(starts_with(d[i], input));
            assert(all.contains(d[i]));
            let k = choose|k: int| 0 <= k < all.len() && all[k] == x;
            if k < path_names.len() {
                assert(path_names[k] == x);
            } else {
                assert(builtin_commands()[k - path_names.len()] == x);
            }
        }
        if starts_with(x, input) && path_names.contains(x) {
            let k = choose|k: int| 0 <= k < path_names.len() && path_names[k] == x;
            assert(all[k] == x);
            assert(all.contains(x));
        }
        if starts_with(x, input) && builtin_commands().contains(x) {
            let k = choose|k: int| 0 <= k < builtin_commands().len() && builtin_commands()[k] == x;
            assert(all[path_names.len() + k] == x);
            assert(all.contains(x));
        }
    }
}

/// Completing after `pkg`: the package names of the registry after
/// `install`, `info` or `show`, the installed ones after `remove` or `r`,
/// and in both cases for the last word, which the completion replaces.
/// A first word that is not `pkg` and holds no `/` completes to commands.
pub proof fn lemma_complete_words(line: Seq<char>, pos: int)
    ensures
        ({
            let ws = words(line_before(line, pos));
            let start = pos - utf8_len(ws.last());
            &&& ws.len() >= 3 && ws[0] == "pkg"@ && (ws[1] == "remove"@ || ws[1] == "r"@)
                ==> complete_spec(line, pos) == (start, KindV::InstalledNames(ws.last()))
            &&& ws.len() >= 3 && ws[0] == "pkg"@ && (ws[1] == "install"@ || ws[1] == "info"@
                || ws[1] == "show"@) ==> complete_spec(line, pos) == (start, KindV::PkgNames(
                ws.last(),
            ))
            &&& ws.len() >= 3 && ws[0] == "pkg"@ && !(ws[1] == "install"@ || ws[1] == "info"@
                || ws[1] == "show"@ || ws[1] == "remove"@ || ws[1] == "r"@) ==> complete_spec(
                line,
                pos,
            ) == (start, KindV::Nothing)
            &&& ws.len() == 1 && ws[0] != "pkg"@ && !ws[0].contains('/') ==> complete_spec(
                line,
                pos,
            ) == (start, KindV::Commands(ws[0]))
            &&& ws.len() >= 1 && ws[0] != "pkg"@ && (ws.len() >= 2 || ws[0].contains('/'))
                ==> complete_spec(line, pos) == (start, KindV::Paths(ws.last()))
            &&& ws.len() == 0 ==> complete_spec(line, pos) == (pos, KindV::Nothing)
            &&& ws.len() == 1 && ws[0] == "pkg"@ ==> complete_spec(line, pos) == (pos, KindV::Nothing)
        }),
{
    reveal_strlit("remove");
    reveal_strlit("r");
    reveal_strlit("install");
    reveal_strlit("info");
    reveal_strlit("show");
    assert("remove"@.len() != "install"@.len());
    assert("remove"@.len() != "info"@.len());
    assert("remove"@.len() != "show"@.len());
    assert("r"@.len() != "install"@.len());
    assert("r"@.len() != "info"@.len());
    assert("r"@.len() != "show"@.len());
}

} // verus!
