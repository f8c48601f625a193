//! Command history: the entries kept in memory, the rule for adding one,
//! search, and a cursor for stepping through them.
use vstd::prelude::*;
use crate::order::views;
use crate::text::{
    contains, copy_string, find_sub, from_chars, lemma_prefix_while_bound, lemma_prefix_while_unique,
    lines, not_newline, prefix_while, strip_cr, to_chars, trim, trim_str,
};

verus! {

pub struct History {
    entries: Vec<String>,
    file_path: String,
    max_entries: usize,
}

pub struct HistoryV {
    pub entries: Seq<Seq<char>>,
    pub file_path: Seq<char>,
    pub max_entries: nat,
}

impl View for History {
    type V = HistoryV;

    closed spec fn view(&self) -> HistoryV {
        HistoryV {
            entries: views(self.entries@),
            file_path: self.file_path@,
            max_entries: self.max_entries as nat,
        }
    }
}

/// The entries read back from the history file: its non-blank lines.
pub open spec fn loaded_entries(lines: Seq<Seq<char>>) -> Seq<Seq<char>> {
    lines.filter(|l: Seq<char>| trim(l).len() > 0)
}

/// Adding a command: its trimmed text is stored unless blank or equal to
/// the last entry; the oldest entry goes when the limit is passed. The
/// second component is the text to append to the history file.
pub open spec fn add_spec(h: HistoryV, cmd: Seq<char>) -> (HistoryV, Option<Seq<char>>) {
    let t = trim(cmd);
    if t.len() == 0 || (h.entries.len() > 0 && h.entries.last() == t) {
        (h, None)
    } else {
        let e = h.entries.push(t);
        let e2 = if e.len() > h.max_entries {
            e.drop_first()
        } else {
            e
        };
        (HistoryV { entries: e2, ..h }, Some(t))
    }
}

/// The most recent entries containing `term`, newest first, at most ten.
pub open spec fn search_spec(entries: Seq<Seq<char>>, term: Seq<char>) -> Seq<Seq<char>> {
    let f = entries.reverse().filter(|e: Seq<char>| contains(e, term));
    if f.len() <= 10 {
        f
    } else {
        f.take(10)
    }
}

proof fn lemma_filter_take_prefix(s: Seq<Seq<char>>, p: spec_fn(Seq<char>) -> bool, k: int)
    requires
        0 <= k <= s.len(),
    ensures
        s.take(k).filter(p).len() <= s.filter(p).len(),
        s.take(k).filter(p) == s.filter(p).take(s.take(k).filter(p).len() as int),
    decreases s.len() - k,
{
    if k < s.len() {
        lemma_filter_take_prefix(s, p, k + 1);
        assert(s.take(k + 1) =~= s.take(k).push(s[k]));
        s.take(k).lemma_filter_push(s[k], p);
        let a = s.take(k).filter(p);
        let b = s.take(k + 1).filter(p);
        let f = s.filter(p);
        assert(b == f.take(b.len() as int));
        if p(s[k]) {
            assert(a =~= b.drop_last());
            assert(a =~= f.take(a.len() as int));
        } else {
            assert(a == b);
        }
    } else {
        assert(s.take(k) =~= s);
        assert(s.filter(p).take(s.filter(p).len() as int) =~= s.filter(p));
    }
}

impl History {
    /// The limit on entries is the one the shell uses: 10000.
    pub open spec fn wf(&self) -> bool {
        self@.max_entries == 10000
    }

    /// A history stored at `file_path`, holding the non-blank lines read
    /// from that file.
    pub fn new(file_path: String, file_lines: Vec<String>) -> (h: History)
        ensures
            h.wf(),
            h@.entries == loaded_entries(views(file_lines@)),
            h@.file_path == file_path@,
            h@.max_entries == 10000,
    {
        let mut entries: Vec<String> = Vec::new();
        let ghost src = views(file_lines@);
        let ghost p = |l: Seq<char>| trim(l).len() > 0;
        let mut i: usize = 0;
        assert(src.take(0).filter(p) =~= Seq::<Seq<char>>::empty());
        assert(views(entries@) =~= Seq::<Seq<char>>::empty());
        while i < file_lines.len()
            invariant
                i <= file_lines@.len(),
                src == views(file_lines@),
                p == (|l: Seq<char>| trim(l).len() > 0),
                views(entries@) == src.take(i as int).filter(p),
            decreases file_lines.len() - i,
        {
            assert(src.take(i + 1) =~= src.take(i as int).push(src[i as int]));
            proof {
                src.take(i as int).lemma_filter_push(src[i as int], p);
            }
            let t = trim_str(file_lines[i].as_str());
            if t.len() > 0 {
                let ghost before = views(entries@);
                entries.push(copy_string(&file_lines[i]));
                assert(views(entries@) =~= before.push(src[i as int]));
            }
            i = i + 1;
        }
        assert(src.take(i as int) =~= src);
        History { entries, file_path, max_entries: 10000 }
    }

    /// Adds a command; returns the text to append to the history file, if
    /// the command was stored.
    pub fn add(&mut self, cmd: &str) -> (r: Option<String>)
        requires
            old(self).wf(),
        ensures
            final(self).wf(),
            (final(self)@, match r {
                Some(s) => Some(s@),
                None => None,
            }) == add_spec(old(self)@, cmd@),
    {
        let trimmed = trim_str(cmd);
        if trimmed.len() == 0 {
            return None;
        }
        let n = self.entries.len();
        if n > 0 {
            let last = to_chars(self.entries[n - 1].as_str());
            if crate::text::chars_eq(last.as_slice(), trimmed.as_slice()) {
                return None;
            }
        }
        let ghost before = views(self.entries@);
        self.entries.push(from_chars(trimmed.as_slice()));
        assert(views(self.entries@) =~= before.push(trimmed@));
        if self.entries.len() > self.max_entries {
            let ghost e = views(self.entries@);
            let _ = self.entries.remove(0);
            assert(views(self.entries@) =~= e.drop_first());
        }
        Some(from_chars(trimmed.as_slice()))
    }

    pub fn all(&self) -> (r: &[String])
        ensures
            views(r@) == self@.entries,
    {
        self.entries.as_slice()
    }

    /// The ten most recent entries that contain `term`, newest first.
    pub fn search(&self, term: &str) -> (r: Vec<String>)
        ensures
            views(r@) == search_spec(self@.entries, term@),
    {
        let t = to_chars(term);
        let ghost rev = views(self.entries@).reverse();
        let ghost p = |e: Seq<char>| contains(e, term@);
        let mut r: Vec<String> = Vec::new();
        let mut i: usize = self.entries.len();
        assert(rev.take(0).filter(p) =~= Seq::<Seq<char>>::empty());
        assert(views(r@) =~= Seq::<Seq<char>>::empty());
        while i > 0 && r.len() < 10
            invariant
                i <= self@.entries.len(),
                rev == views(self.entries@).reverse(),
                rev.len() == self@.entries.len(),
                t@ == term@,
                p == (|e: Seq<char>| contains(e, term@)),
                views(r@) == rev.take(self@.entries.len() - i).filter(p),
                r@.len() <= 10,
            decreases i,
        {
            let k = self.entries.len() - i;
            assert(rev[k as int] == views(self.entries@)[i - 1]);
            assert(rev.take(k + 1) =~= rev.take(k as int).push(rev[k as int]));
            proof {
                rev.take(k as int).lemma_filter_push(rev[k as int], p);
            }
            let e = to_chars(self.entries[i - 1].as_str());
            if find_sub(e.as_slice(), t.as_slice()) {
                let ghost before = views(r@);
                r.push(copy_string(&self.entries[i - 1]));
                assert(views(r@) =~= before.push(rev[k as int]));
            }
            i = i - 1;
        }
        proof {
            let k = self@.entries.len() - i;
            lemma_filter_take_prefix(rev, p, k);
            if i == 0 {
                assert(rev.take(k) =~= rev);
            }
            let f = rev.filter(p);
            if r@.len() == 10 {
                assert(views(r@).len() == 10);
            } else {
                assert(i == 0);
            }
        }
        r
    }

    pub fn len(&self) -> (r: usize)
        ensures
            r == self@.entries.len(),
    {
        self.entries.len()
    }

    /// Where the history file is.
    pub fn file_path(&self) -> (r: &str)
        ensures
            r@ == self@.file_path,
    {
        self.file_path.as_str()
    }
}

/// A cursor over a copy of the history, for stepping back and forth.
pub struct HistoryHelper {
    pub entries: Vec<String>,
    pub idx: usize,
}

impl HistoryHelper {
    pub fn new(entries: &[String]) -> (r: HistoryHelper)
        ensures
            views(r.entries@) == views(entries@),
            r.idx == entries@.len(),
    {
        let mut v: Vec<String> = Vec::new();
        let mut i: usize = 0;
        while i < entries.len()
            invariant
                i <= entries@.len(),
                views(v@) == views(entries@).take(i as int),
            decreases entries.len() - i,
        {
            let ghost before = views(v@);
            v.push(copy_string(&entries[i]));
            assert(views(v@) =~= before.push(views(entries@)[i as int]));
            assert(views(entries@).take(i + 1) =~= views(entries@).take(i as int).push(
                views(entries@)[i as int],
            ));
            i = i + 1;
        }
        assert(views(entries@).take(i as int) =~= views(entries@));
        HistoryHelper { entries: v, idx: entries.len() }
    }

    /// Steps back one entry.
    pub fn prev(&mut self) -> (r: Option<&str>)
        ensures
            views(final(self).entries@) == views(old(self).entries@),
            old(self).idx == 0 ==> r is None && final(self).idx == 0,
            old(self).idx > 0 ==> final(self).idx == old(self).idx - 1 && (if final(self).idx
                < old(self).entries@.len() {
                r matches Some(s) && s@ == old(self).entries@[final(self).idx as int]@
            } else {
                r is None
            }),
    {
        if self.idx == 0 {
            return None;
        }
        self.idx = self.idx - 1;
        if self.idx < self.entries.len() {
            Some(self.entries[self.idx].as_str())
        } else {
            None
        }
    }

    /// Steps forward one entry; past the newest there is nothing.
    pub fn next(&mut self) -> (r: Option<&str>)
        ensures
            views(final(self).entries@) == views(old(self).entries@),
            old(self).idx >= old(self).entries@.len() ==> r is None && final(self).idx == old(
                self,
            ).idx,
            old(self).idx < old(self).entries@.len() ==> final(self).idx == old(self).idx + 1 && (
            if final(self).idx < old(self).entries@.len() {
                r matches Some(s) && s@ == old(self).entries@[final(self).idx as int]@
            } else {
                r is None
            }),
    {
        if self.idx >= self.entries.len() {
            return None;
        }
        self.idx = self.idx + 1;
        if self.idx < self.entries.len() {
            Some(self.entries[self.idx].as_str())
        } else {
            None
        }
    }
}

/// A blank command is not stored and nothing is written.
pub proof fn lemma_add_blank(h: HistoryV, cmd: Seq<char>)
    requires
        trim(cmd).len() == 0,
    ensures
        add_spec(h, cmd) == (h, None::<Seq<char>>),
{
}

/// What `add` asks to append to the history file is the entry it stored,
/// and reading the file back yields that entry as the newest.
pub proof fn lemma_add_persists(h: HistoryV, cmd: Seq<char>, file_lines: Seq<Seq<char>>)
    requires
        h.max_entries >= 1,
    ensures
        add_spec(h, cmd).1 matches Some(t) ==> {
            &&& add_spec(h, cmd).0.entries.last() == t
            &&& loaded_entries(file_lines.push(t)) == loaded_entries(file_lines).push(t)
        },
{
    let t = trim(cmd);
    if add_spec(h, cmd).1 is Some {
        crate::text::lemma_trim_idempotent(cmd);
        let p = |l: Seq<char>| trim(l).len() > 0;
        file_lines.lemma_filter_push(t, p);
    }
}

/// A history that holds what its file holds keeps doing so across `add`:
/// appending what `add` returns to the file, if anything, and reading the
/// file back gives the entries `add` left in memory, as long as the limit
/// on entries has not been reached.
pub proof fn lemma_add_then_reload(h: HistoryV, cmd: Seq<char>, file_lines: Seq<Seq<char>>)
    requires
        h.entries == loaded_entries(file_lines),
        h.entries.len() < h.max_entries,
    ensures
        match add_spec(h, cmd).1 {
            Some(t) => add_spec(h, cmd).0.entries == loaded_entries(file_lines.push(t)),
            None => add_spec(h, cmd).0.entries == loaded_entries(file_lines),
        },
{
    lemma_add_persists(h, cmd, file_lines);
}

/// Appending a line and a newline to a text that is empty or ends with a
/// newline adds that line to the text's lines.
proof fn lemma_lines_append(f: Seq<char>, t: Seq<char>)
    requires
        f.len() == 0 || f.last() == '\n',
        forall|j: int| 0 <= j < t.len() ==> #[trigger] t[j] != '\n',
        t.len() == 0 || t.last() != '\r',
    ensures
        lines(f + t.push('\n')) == lines(f).push(t),
    decreases f.len(),
{
    let x = t.push('\n');
    let s = f + x;
    if f.len() == 0 {
        assert(s =~= x);
        assert forall|j: int| 0 <= j < t.len() implies not_newline()(#[trigger] s[j]) by {
            assert(s[j] == t[j]);
        }
        lemma_prefix_while_unique(s, not_newline(), t.len() as int);
        assert(s.take(t.len() as int) =~= t);
        assert(s.skip(t.len() + 1 as int) =~= Seq::<char>::empty());
        assert(strip_cr(t) == t);
        assert(lines(Seq::<char>::empty()) =~= Seq::<Seq<char>>::empty());
        assert(lines(s) == seq![strip_cr(s.take(t.len() as int))] + lines(s.skip(t.len() + 1 as int)));
        assert(lines(s) =~= seq![t]);
        assert(lines(f).push(t) =~= seq![t]);
    } else {
        lemma_prefix_while_bound(f, not_newline());
        let k = prefix_while(f, not_newline()) as int;
        assert(f[f.len() - 1] == '\n');
        assert(k < f.len());
        assert forall|j: int| 0 <= j < k implies not_newline()(#[trigger] s[j]) by {
            assert(s[j] == f[j]);
        }
        assert(s[k] == f[k]);
        lemma_prefix_while_unique(s, not_newline(), k);
        let rest = f.skip(k + 1);
        assert(s.take(k) =~= f.take(k));
        assert(s.skip(k + 1) =~= rest + x);
        if rest.len() > 0 {
            assert(rest.last() == f.last());
        }
        lemma_lines_append(rest, t);
        assert(lines(f) == seq![strip_cr(f.take(k))] + lines(rest));
        assert(lines(s) == seq![strip_cr(f.take(k))] + lines(rest + x));
        assert(seq![strip_cr(f.take(k))] + lines(rest).push(t) =~= (seq![strip_cr(f.take(k))]
            + lines(rest)).push(t));
    }
}

/// History persists across sessions: when a history holds the non-blank
/// lines of its file (empty or ending with a newline), and the line that
/// `add` returns, if any, is appended to the file with a newline, a history
/// read from the file afterwards holds what the first one holds after the
/// `add`. This needs the limit on entries not reached, and the stored line
/// free of newlines and carriage returns.
pub proof fn lemma_history_across_sessions(h: HistoryV, cmd: Seq<char>, file: Seq<char>)
    requires
        h.entries == loaded_entries(lines(file)),
        h.entries.len() < h.max_entries,
        file.len() == 0 || file.last() == '\n',
        forall|j: int| 0 <= j < trim(cmd).len() ==> #[trigger] trim(cmd)[j] != '\n' && trim(
            cmd,
        )[j] != '\r',
    ensures
        match add_spec(h, cmd).1 {
            Some(t) => add_spec(h, cmd).0.entries == loaded_entries(lines(file + t.push('\n'))),
            None => add_spec(h, cmd).0.entries == loaded_entries(lines(file)),
        },
{
    lemma_add_then_reload(h, cmd, lines(file));
    let t = trim(cmd);
    if add_spec(h, cmd).1 is Some {
        if t.len() > 0 {
            assert(t[t.len() - 1] != '\r');
        }
        lemma_lines_append(file, t);
    }
}

/// Entering the same command twice in a row stores it once.
pub proof fn lemma_add_twice(h: HistoryV, cmd: Seq<char>)
    requires
        h.max_entries >= 1,
    ensures
        add_spec(add_spec(h, cmd).0, cmd).0 == add_spec(h, cmd).0,
        add_spec(add_spec(h, cmd).0, cmd).1 is None,
{
    let t = trim(cmd);
    let h1 = add_spec(h, cmd).0;
    if t.len() > 0 && !(h.entries.len() > 0 && h.entries.last() == t) {
        let e = h.entries.push(t);
        assert(e.last() == t);
        if e.len() > h.max_entries {
            assert(e.drop_first().last() == t);
        }
    }
}

/// The history never grows past its limit once within it.
pub proof fn lemma_add_bounded(h: HistoryV, cmd: Seq<char>)
    requires
        h.entries.len() <= h.max_entries,
    ensures
        add_spec(h, cmd).0.entries.len() <= h.max_entries,
        add_spec(h, cmd).0.max_entries == h.max_entries,
{
}

/// A search returns at most ten entries, each containing the term and each
/// taken from the history.
pub proof fn lemma_search_results(entries: Seq<Seq<char>>, term: Seq<char>)
    ensures
        search_spec(entries, term).len() <= 10,
        forall|i: int|
            0 <= i < search_spec(entries, term).len() ==> contains(
                #[trigger] search_spec(entries, term)[i],
                term,
            ) && entries.contains(search_spec(entries, term)[i]),
{
    let p = |e: Seq<char>| contains(e, term);
    let rev = entries.reverse();
    let f = rev.filter(p);
    assert forall|i: int| 0 <= i < search_spec(entries, term).len() implies contains(
        #[trigger] search_spec(entries, term)[i],
        term,
    ) && entries.contains(search_spec(entries, term)[i]) by {
        assert(search_spec(entries, term)[i] == f[i]);
        rev.lemma_filter_pred(p, i);
        assert(f.contains(f[i]));
        rev.lemma_filter_contains_rev(p, f[i]);
        let j = choose|j: int| 0 <= j < rev.len() && rev[j] == f[i];
        assert(rev[j] == entries[entries.len() - 1 - j]);
    }
}

} // verus!
