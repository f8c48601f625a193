//! The alias store and alias expansion of a command line's first word.
use vstd::prelude::*;
use crate::order::{chars_lt, lemma_lt_irrefl, lemma_lt_total, lemma_lt_trans, seq_lt};
use crate::text::{
    char_views, lemma_prefix_while_bound, lemma_prefix_while_unique, not_char, split_at_eq,
    split_at_eq_exec, split_char, split_fields,
    char_index_at, char_index_of_byte, chars_eq, copy_string, from_chars, is_byte_boundary,
    lemma_char_index_at, skip_ws, split_words, to_chars, trim_start, utf8_len, utf8_len_exec,
    words,
};

verus! {

/// Name-value pairs as a map.
pub open spec fn pairs_map(s: Seq<(Seq<char>, Seq<char>)>) -> Map<Seq<char>, Seq<char>> {
    Map::new(
        |k: Seq<char>| exists|i: int| 0 <= i < s.len() && (#[trigger] s[i]).0 == k,
        |k: Seq<char>| s[key_index(s, k)].1,
    )
}

/// A position holding the name `k`.
pub open spec fn key_index(s: Seq<(Seq<char>, Seq<char>)>, k: Seq<char>) -> int {
    choose|i: int| 0 <= i < s.len() && (#[trigger] s[i]).0 == k
}

/// Names in strictly ascending order.
pub open spec fn keys_sorted(s: Seq<(Seq<char>, Seq<char>)>) -> bool {
    forall|i: int, j: int| 0 <= i < j < s.len() ==> seq_lt((#[trigger] s[i]).0, (#[trigger] s[j]).0)
}

proof fn lemma_keys_unique(s: Seq<(Seq<char>, Seq<char>)>, i: int, j: int)
    requires
        keys_sorted(s),
        0 <= i < s.len(),
        0 <= j < s.len(),
        s[i].0 == s[j].0,
    ensures
        i == j,
{
    if i < j {
        lemma_lt_irrefl(s[i].0);
    } else if j < i {
        lemma_lt_irrefl(s[i].0);
    }
}

proof fn lemma_pairs_map_at(s: Seq<(Seq<char>, Seq<char>)>, i: int)
    requires
        keys_sorted(s),
        0 <= i < s.len(),
    ensures
        pairs_map(s).contains_key(s[i].0),
        pairs_map(s)[s[i].0] == s[i].1,
{
    let k = s[i].0;
    assert(pairs_map(s).dom().contains(k));
    let c = key_index(s, k);
    lemma_keys_unique(s, c, i);
    assert(pairs_map(s)[k] == s[c].1);
}

pub proof fn lemma_pairs_map_at_pub(s: Seq<(Seq<char>, Seq<char>)>, i: int)
    requires
        keys_sorted(s),
        0 <= i < s.len(),
    ensures
        pairs_map(s).contains_key(s[i].0),
        pairs_map(s)[s[i].0] == s[i].1,
{
    lemma_pairs_map_at(s, i);
}

/// Dropping the first pair removes its name from the map.
pub proof fn lemma_pairs_map_drop_first(s: Seq<(Seq<char>, Seq<char>)>)
    requires
        keys_sorted(s),
        s.len() > 0,
    ensures
        pairs_map(s.drop_first()) == pairs_map(s).remove(s[0].0),
{
    let t = s.drop_first();
    let m2 = pairs_map(t);
    let m = pairs_map(s).remove(s[0].0);
    assert(keys_sorted(t)) by {
        assert forall|i: int, j: int| 0 <= i < j < t.len() implies seq_lt(
            (#[trigger] t[i]).0,
            (#[trigger] t[j]).0,
        ) by {
            assert(t[i] == s[i + 1] && t[j] == s[j + 1]);
        }
    }
    assert forall|k: Seq<char>| m2.contains_key(k) <==> m.contains_key(k) by {
        if m2.contains_key(k) {
            let c = key_index(t, k);
            assert(s[c + 1] == t[c]);
            if k == s[0].0 {
                lemma_keys_unique(s, 0, c + 1);
            }
        }
        if m.contains_key(k) {
            let c = key_index(s, k);
            assert(c != 0);
            assert(t[c - 1] == s[c]);
        }
    }
    assert forall|k: Seq<char>| #[trigger] m2.contains_key(k) implies m2[k] == m[k] by {
        let c = key_index(t, k);
        assert(s[c + 1] == t[c]);
        lemma_pairs_map_at(t, c);
        lemma_pairs_map_at(s, c + 1);
    }
    assert(m2 =~= m);
}

/// The alias table: unset until `init`, then a map from name to value.
pub struct Aliases {
    table: Option<Vec<(String, String)>>,
}

pub open spec fn pair_views(v: Seq<(String, String)>) -> Seq<(Seq<char>, Seq<char>)> {
    v.map_values(|p: (String, String)| (p.0@, p.1@))
}

impl View for Aliases {
    type V = Option<Map<Seq<char>, Seq<char>>>;

    closed spec fn view(&self) -> Option<Map<Seq<char>, Seq<char>>> {
        match self.table {
            Some(v) => Some(pairs_map(pair_views(v@))),
            None => None,
        }
    }
}

impl Aliases {
    pub closed spec fn wf(&self) -> bool {
        match self.table {
            Some(v) => keys_sorted(pair_views(v@)),
            None => true,
        }
    }

    /// A table that has not been initialised yet.
    pub fn new() -> (r: Aliases)
        ensures
            r.wf(),
            r@ is None,
    {
        Aliases { table: None }
    }
}

/// Creates the (empty) table unless it exists.
pub fn init(aliases: &mut Aliases)
    requires
        old(aliases).wf(),
    ensures
        final(aliases).wf(),
        final(aliases)@ == match old(aliases)@ {
            Some(m) => Some(m),
            None => Some(Map::<Seq<char>, Seq<char>>::empty()),
        },
{
    if aliases.table.is_none() {
        let v: Vec<(String, String)> = Vec::new();
        aliases.table = Some(v);
        assert(pairs_map(pair_views(v@)) =~= Map::<Seq<char>, Seq<char>>::empty());
    }
}

/// Position where `name` is or belongs: all names before it are smaller.
fn locate(v: &Vec<(String, String)>, name: &Vec<char>) -> (r: (usize, bool))
    requires
        keys_sorted(pair_views(v@)),
    ensures
        r.0 <= v@.len(),
        forall|k: int| 0 <= k < r.0 ==> seq_lt((#[trigger] pair_views(v@)[k]).0, name@),
        r.1 ==> r.0 < v@.len() && pair_views(v@)[r.0 as int].0 == name@,
        !r.1 ==> r.0 < v@.len() ==> seq_lt(name@, pair_views(v@)[r.0 as int].0),
{
    let ghost s = pair_views(v@);
    let mut i: usize = 0;
    while i < v.len()
        invariant
            i <= v@.len(),
            s == pair_views(v@),
            forall|k: int| 0 <= k < i ==> seq_lt((#[trigger] s[k]).0, name@),
        decreases v.len() - i,
    {
        let key = to_chars(v[i].0.as_str());
        assert(s[i as int].0 == key@);
        if chars_eq(key.as_slice(), name.as_slice()) {
            return (i, true);
        }
        if !chars_lt(key.as_slice(), name.as_slice()) {
            proof {
                lemma_lt_total(key@, name@);
            }
            return (i, false);
        }
        i = i + 1;
    }
    (i, false)
}

/// Defines or redefines an alias (nothing happens before `init`).
pub fn set(aliases: &mut Aliases, name: &str, value: &str)
    requires
        old(aliases).wf(),
    ensures
        final(aliases).wf(),
        final(aliases)@ == match old(aliases)@ {
            Some(m) => Some(m.insert(name@, value@)),
            None => None,
        },
{
    let mut table = None;
    std::mem::swap(&mut table, &mut aliases.table);
    match table {
        None => {},
        Some(mut v) => {
            let ghost s = pair_views(v@);
            let n = to_chars(name);
            let (p, found) = locate(&v, &n);
            let entry = (String::from_str(name), String::from_str(value));
            if found {
                let _ = v.remove(p);
                v.insert(p, entry);
                proof {
                    let s2 = pair_views(v@);
                    assert(s2 =~= s.update(p as int, (name@, value@)));
                    assert(keys_sorted(s2)) by {
                        assert forall|i: int, j: int| 0 <= i < j < s2.len() implies seq_lt(
                            (#[trigger] s2[i]).0,
                            (#[trigger] s2[j]).0,
                        ) by {
                            assert(s2[i].0 == s[i].0);
                            assert(s2[j].0 == s[j].0);
                        }
                    }
                    let m2 = pairs_map(s2);
                    let m = pairs_map(s).insert(name@, value@);
                    lemma_pairs_map_at(s2, p as int);
                    assert forall|k: Seq<char>| m2.contains_key(k) <==> m.contains_key(k) by {
                        if m2.contains_key(k) {
                            let c = choose|c: int| 0 <= c < s2.len() && (#[trigger] s2[c]).0 == k;
                            if k != name@ {
                                assert(s[c].0 == k);
                            }
                        }
                        if m.contains_key(k) && k != name@ {
                            let c = choose|c: int| 0 <= c < s.len() && (#[trigger] s[c]).0 == k;
                            assert(s2[c].0 == k);
                        }
                    }
                    assert forall|k: Seq<char>| #[trigger] m2.contains_key(k) implies m2[k] == m[k] by {
                        if k != name@ {
                            let c = choose|c: int| 0 <= c < s2.len() && (#[trigger] s2[c]).0 == k;
                            assert(s[c] == s2[c]);
                            lemma_pairs_map_at(s2, c);
                            lemma_pairs_map_at(s, c);
                        }
                    }
                    assert(m2 =~= m);
                }
            } else {
                v.insert(p, entry);
                proof {
                    let s2 = pair_views(v@);
                    assert(s2 =~= s.insert(p as int, (name@, value@)));
                    assert(keys_sorted(s2)) by {
                        assert forall|i: int, j: int| 0 <= i < j < s2.len() implies seq_lt(
                            (#[trigger] s2[i]).0,
                            (#[trigger] s2[j]).0,
                        ) by {
                            if j < p {
                                assert(s2[i] == s[i] && s2[j] == s[j]);
                            } else if j == p {
                                assert(s2[i] == s[i]);
                            } else if i == p {
                                assert(s2[j] == s[j - 1]);
                                if j - 1 > p {
                                    lemma_lt_trans(name@, s[p as int].0, s[j - 1].0);
                                }
                            } else if i < p {
                                assert(s2[i] == s[i] && s2[j] == s[j - 1]);
                                lemma_lt_trans(s[i].0, name@, s[p as int].0);
                                if j - 1 > p {
                                    lemma_lt_trans(s[i].0, s[p as int].0, s[j - 1].0);
                                }
                            } else {
                                assert(s2[i] == s[i - 1] && s2[j] == s[j - 1]);
                            }
                        }
                    }
                    let m2 = pairs_map(s2);
                    let m = pairs_map(s).insert(name@, value@);
                    lemma_pairs_map_at(s2, p as int);
                    assert forall|k: Seq<char>| m2.contains_key(k) <==> m.contains_key(k) by {
                        if m2.contains_key(k) && k != name@ {
                            let c = choose|c: int| 0 <= c < s2.len() && (#[trigger] s2[c]).0 == k;
                            let c0 = if c < p { c } else { c - 1 };
                            assert(s[c0] == s2[c]);
                        }
                        if m.contains_key(k) && k != name@ {
                            let c = choose|c: int| 0 <= c < s.len() && (#[trigger] s[c]).0 == k;
                            let c2 = if c < p { c } else { c + 1 };
                            assert(s2[c2] == s[c]);
                        }
                    }
                    assert forall|k: Seq<char>| #[trigger] m2.contains_key(k) implies m2[k] == m[k] by {
                        if k != name@ {
                            let c = choose|c: int| 0 <= c < s2.len() && (#[trigger] s2[c]).0 == k;
                            let c0 = if c < p { c } else { c - 1 };
                            assert(s[c0] == s2[c]);
                            lemma_pairs_map_at(s2, c);
                            lemma_pairs_map_at(s, c0);
                        }
                    }
                    assert(m2 =~= m);
                }
            }
            aliases.table = Some(v);
        },
    }
}

/// The value of an alias.
pub fn get(aliases: &Aliases, name: &str) -> (r: Option<String>)
    requires
        aliases.wf(),
    ensures
        r matches Some(v) ==> (aliases@ matches Some(m) && m.contains_key(name@) && m[name@]
            == v@),
        r is None ==> (aliases@ matches Some(m) ==> !m.contains_key(name@)),
{
    match &aliases.table {
        None => None,
        Some(v) => {
            let n = to_chars(name);
            let (p, found) = locate(v, &n);
            if found {
                proof {
                    lemma_pairs_map_at(pair_views(v@), p as int);
                }
                Some(copy_string(&v[p].1))
            } else {
                proof {
                    let s = pair_views(v@);
                    if pairs_map(s).contains_key(name@) {
                        let c = choose|c: int| 0 <= c < s.len() && (#[trigger] s[c]).0 == name@;
                        if c < p {
                            lemma_lt_irrefl(name@);
                        } else if c > p {
                            lemma_lt_trans(name@, s[p as int].0, s[c].0);
                            lemma_lt_irrefl(name@);
                        } else {
                            lemma_lt_irrefl(name@);
                        }
                    }
                }
                None
            }
        },
    }
}

/// Removes an alias; tells whether there was one.
pub fn remove(aliases: &mut Aliases, name: &str) -> (r: bool)
    requires
        old(aliases).wf(),
    ensures
        final(aliases).wf(),
        r == (old(aliases)@ matches Some(m) && m.contains_key(name@)),
        final(aliases)@ == match old(aliases)@ {
            Some(m) => Some(m.remove(name@)),
            None => None,
        },
{
    let mut table = None;
    std::mem::swap(&mut table, &mut aliases.table);
    match table {
        None => false,
        Some(mut v) => {
            let ghost s = pair_views(v@);
            let n = to_chars(name);
            let (p, found) = locate(&v, &n);
            proof {
                if !found && pairs_map(s).contains_key(name@) {
                    let c = choose|c: int| 0 <= c < s.len() && (#[trigger] s[c]).0 == name@;
                    if c < p {
                        lemma_lt_irrefl(name@);
                    } else if c > p {
                        lemma_lt_trans(name@, s[p as int].0, s[c].0);
                        lemma_lt_irrefl(name@);
                    } else {
                        lemma_lt_irrefl(name@);
                    }
                }
            }
            if found {
                let _ = v.remove(p);
                proof {
                    let s2 = pair_views(v@);
                    assert(s2 =~= s.remove(p as int));
                    assert(keys_sorted(s2)) by {
                        assert forall|i: int, j: int| 0 <= i < j < s2.len() implies seq_lt(
                            (#[trigger] s2[i]).0,
                            (#[trigger] s2[j]).0,
                        ) by {
                            let i0 = if i < p { i } else { i + 1 };
                            let j0 = if j < p { j } else { j + 1 };
                            assert(s2[i] == s[i0] && s2[j] == s[j0]);
                        }
                    }
                    let m2 = pairs_map(s2);
                    let m = pairs_map(s).remove(name@);
                    assert forall|k: Seq<char>| m2.contains_key(k) <==> m.contains_key(k) by {
                        if m2.contains_key(k) {
                            let c = choose|c: int| 0 <= c < s2.len() && (#[trigger] s2[c]).0 == k;
                            let c0 = if c < p { c } else { c + 1 };
                            assert(s[c0] == s2[c]);
                            if k == name@ {
                                lemma_keys_unique(s, c0, p as int);
                            }
                        }
                        if m.contains_key(k) {
                            let c = choose|c: int| 0 <= c < s.len() && (#[trigger] s[c]).0 == k;
                            assert(c != p);
                            let c2 = if c < p { c } else { c - 1 };
                            assert(s2[c2] == s[c]);
                        }
                    }
                    assert forall|k: Seq<char>| #[trigger] m2.contains_key(k) implies m2[k] == m[k] by {
                        let c = choose|c: int| 0 <= c < s2.len() && (#[trigger] s2[c]).0 == k;
                        let c0 = if c < p { c } else { c + 1 };
                        assert(s[c0] == s2[c]);
                        lemma_pairs_map_at(s2, c);
                        lemma_pairs_map_at(s, c0);
                    }
                    assert(m2 =~= m);
                }
                aliases.table = Some(v);
                true
            } else {
                assert(pairs_map(s).remove(name@) =~= pairs_map(s));
                aliases.table = Some(v);
                false
            }
        },
    }
}

/// All aliases, by ascending name.
pub fn list(aliases: &Aliases) -> (r: Vec<(String, String)>)
    requires
        aliases.wf(),
    ensures
        keys_sorted(pair_views(r@)),
        match aliases@ {
            Some(m) => pairs_map(pair_views(r@)) == m,
            None => r@.len() == 0,
        },
{
    let mut r: Vec<(String, String)> = Vec::new();
    match &aliases.table {
        None => {},
        Some(v) => {
            let mut i: usize = 0;
            while i < v.len()
                invariant
                    i <= v@.len(),
                    r@.len() == i,
                    pair_views(r@) == pair_views(v@).take(i as int),
                decreases v.len() - i,
            {
                let k = copy_string(&v[i].0);
                let x = copy_string(&v[i].1);
                let ghost before = r@;
                let ghost kv = k@;
                let ghost xv = x@;
                r.push((k, x));
                assert(r@[i as int].0@ == kv);
                assert(r@[i as int].1@ == xv);
                assert(pair_views(r@)[i as int] == pair_views(v@)[i as int]);
                assert(pair_views(r@) =~= pair_views(v@).take(i + 1));
                i = i + 1;
            }
            assert(pair_views(v@).take(i as int) =~= pair_views(v@));
        },
    }
    assert(match aliases.table {
        None => r@.len() == 0,
        Some(v) => pair_views(r@) == pair_views(v@),
    });
    r
}

/// The alias value for a name, if the table exists and holds it.
pub open spec fn alias_of(aliases: Option<Map<Seq<char>, Seq<char>>>, name: Seq<char>) -> Option<
    Seq<char>,
> {
    match aliases {
        Some(m) => if m.contains_key(name) {
            Some(m[name])
        } else {
            None
        },
        None => None,
    }
}

/// Whether slicing the line after its first word's byte length is possible
/// (it always is when the line has no leading whitespace).
pub open spec fn expand_ok(aliases: Option<Map<Seq<char>, Seq<char>>>, line: Seq<char>) -> bool {
    let ws = words(line);
    ws.len() > 0 && alias_of(aliases, ws[0]) is Some ==> is_byte_boundary(line, utf8_len(ws[0]) as int)
}

/// A line whose first word is an alias: the alias value, a space, and the
/// text after as many bytes as the word has, with leading whitespace
/// removed; any other line unchanged.
pub open spec fn expand_spec(aliases: Option<Map<Seq<char>, Seq<char>>>, line: Seq<char>) -> Seq<
    char,
> {
    let ws = words(line);
    if ws.len() == 0 {
        line
    } else {
        match alias_of(aliases, ws[0]) {
            Some(r) => r + seq![' '] + trim_start(
                line.skip(char_index_at(line, utf8_len(ws[0]) as int)),
            ),
            None => line,
        }
    }
}

pub fn expand(aliases: &Aliases, line: &str) -> (r: String)
    requires
        aliases.wf(),
        expand_ok(aliases@, line@),
    ensures
        r@ == expand_spec(aliases@, line@),
{
    let chars = to_chars(line);
    let ws = split_words(&chars);
    if ws.len() > 0 {
        let first = from_chars(ws[0].as_slice());
        match get(aliases, first.as_str()) {
            Some(replacement) => {
                let bytes = utf8_len_exec(&ws[0]);
                let c = char_index_of_byte(&chars, bytes).unwrap();
                proof {
                    lemma_char_index_at(chars@, bytes as int, c as int);
                }
                let start = skip_ws(&chars, c);
                let mut out = to_chars(replacement.as_str());
                out.push(' ');
                let mut i = start;
                let ghost head = out@;
                while i < chars.len()
                    invariant
                        start <= i <= chars@.len(),
                        out@ == head + chars@.subrange(start as int, i as int),
                    decreases chars.len() - i,
                {
                    out.push(chars[i]);
                    assert(chars@.subrange(start as int, i + 1) =~= chars@.subrange(
                        start as int,
                        i as int,
                    ).push(chars@[i as int]));
                    i = i + 1;
                }
                proof {
                    let rest = chars@.skip(c as int);
                    assert(rest.skip(
                        crate::text::prefix_while(rest, crate::text::ws_pred()) as int,
                    ) =~= chars@.subrange(start as int, chars@.len() as int));
                    assert(head =~= replacement@ + seq![' ']);
                }
                return from_chars(out.as_slice());
            },
            None => {},
        }
    }
    String::from_str(line)
}

/// A line with no leading whitespace can always be expanded.
pub proof fn lemma_expand_ok_without_leading_space(
    aliases: Option<Map<Seq<char>, Seq<char>>>,
    line: Seq<char>,
)
    requires
        line.len() == 0 || !crate::text::is_ws(line[0]),
    ensures
        expand_ok(aliases, line),
{
    let ws = words(line);
    if ws.len() > 0 {
        crate::text::lemma_prefix_while_bound(line, crate::text::ws_pred());
        if line.len() > 0 {
            assert(crate::text::prefix_while(line, crate::text::ws_pred()) == 0);
        }
        assert(trim_start(line) =~= line);
        let k = crate::text::prefix_while(line, crate::text::non_ws_pred());
        crate::text::lemma_prefix_while_bound(line, crate::text::non_ws_pred());
        assert(ws[0] == line.take(k as int));
        assert(line.take(k as int) == line.take(k as int));
        assert(utf8_len(line.take(k as int)) == utf8_len(ws[0]));
    }
}

/// Reading an alias gives back the value last set for it; setting one name
/// leaves every other name as it was; a removed alias is gone.
pub proof fn lemma_alias_set_get_remove(
    m: Map<Seq<char>, Seq<char>>,
    name: Seq<char>,
    value: Seq<char>,
    other: Seq<char>,
)
    requires
        other != name,
    ensures
        alias_of(Some(m.insert(name, value)), name) == Some(value),
        alias_of(Some(m.insert(name, value)), other) == alias_of(Some(m), other),
        alias_of(Some(m.remove(name)), name) is None,
        alias_of(Some(m.remove(name)), other) == alias_of(Some(m), other),
{
}

/// Before the table is initialised nothing is an alias, and expansion
/// leaves every line unchanged.
pub proof fn lemma_alias_uninitialised(name: Seq<char>, line: Seq<char>)
    ensures
        alias_of(None, name) is None,
        expand_spec(None, line) == line,
{
}

/// A line whose first word is not an alias is left as it is.
pub proof fn lemma_expand_non_alias(aliases: Option<Map<Seq<char>, Seq<char>>>, line: Seq<char>)
    requires
        words(line).len() == 0 || alias_of(aliases, words(line)[0]) is None,
    ensures
        expand_spec(aliases, line) == line,
{
}

// ---------------------------------------------------------------------------
// The alias file
// ---------------------------------------------------------------------------

/// How a character is written in the alias file: a backslash and a
/// newline as `\\` and `\n`, and, where `eq` holds (in names), `=` as `\e`;
/// any other character as it is.
pub open spec fn escape_char(c: char, eq: bool) -> Seq<char> {
    if c == '\\' {
        seq!['\\', '\\']
    } else if c == '\n' {
        seq!['\\', 'n']
    } else if eq && c == '=' {
        seq!['\\', 'e']
    } else {
        seq![c]
    }
}

/// A text as the alias file writes it.
pub open spec fn escape(s: Seq<char>, eq: bool) -> Seq<char>
    decreases s.len(),
{
    if s.len() == 0 {
        Seq::empty()
    } else {
        escape_char(s[0], eq) + escape(s.drop_first(), eq)
    }
}

/// A text as the alias file reads it: `\\`, `\n` and `\e` stand for a
/// backslash, a newline and `=`; any other character stands for itself.
pub open spec fn unescape(s: Seq<char>) -> Seq<char>
    decreases s.len(),
{
    if s.len() == 0 {
        Seq::empty()
    } else if s.len() >= 2 && s[0] == '\\' && (s[1] == '\\' || s[1] == 'n' || s[1] == 'e') {
        seq![
            if s[1] == 'n' {
                '\n'
            } else if s[1] == 'e' {
                '='
            } else {
                '\\'
            },
        ] + unescape(s.skip(2))
    } else {
        seq![s[0]] + unescape(s.drop_first())
    }
}

/// A name and a value as the alias file writes them.
pub open spec fn escaped(p: (Seq<char>, Seq<char>)) -> (Seq<char>, Seq<char>) {
    (escape(p.0, true), escape(p.1, false))
}

/// A name and a value as the alias file reads them.
pub open spec fn unescaped(p: (Seq<char>, Seq<char>)) -> (Seq<char>, Seq<char>) {
    (unescape(p.0), unescape(p.1))
}

/// One line of the alias file, as written: `name=value` and a newline.
pub open spec fn alias_file_line(p: (Seq<char>, Seq<char>)) -> Seq<char> {
    p.0 + seq!['='] + p.1 + seq!['\n']
}

/// The lines for a list of written pairs, a line each, in order.
pub open spec fn pairs_text(s: Seq<(Seq<char>, Seq<char>)>) -> Seq<char>
    decreases s.len(),
{
    if s.len() == 0 {
        Seq::empty()
    } else {
        alias_file_line(s[0]) + pairs_text(s.drop_first())
    }
}

/// What the alias file holds for a table: its aliases by ascending name,
/// each written escaped.
pub open spec fn saved_text(m: Map<Seq<char>, Seq<char>>) -> Seq<char> {
    pairs_text(crate::builtins::sorted_pairs(m).map_values(|p: (Seq<char>, Seq<char>)| escaped(p)))
}

/// The written pairs that lines hold: each line with an `=`, split at the
/// first.
pub open spec fn fields_pairs(ls: Seq<Seq<char>>) -> Seq<(Seq<char>, Seq<char>)>
    decreases ls.len(),
{
    if ls.len() == 0 {
        Seq::empty()
    } else {
        let before = fields_pairs(ls.drop_last());
        match split_at_eq(ls.last()) {
            Some(p) => before.push(p),
            None => before,
        }
    }
}

/// The pairs that an alias file's text holds, in order, read back.
pub open spec fn text_pairs(text: Seq<char>) -> Seq<(Seq<char>, Seq<char>)> {
    fields_pairs(split_char(text, '\n')).map_values(|p: (Seq<char>, Seq<char>)| unescaped(p))
}

/// Setting each pair in turn, later ones winning.
pub open spec fn insert_all(
    m: Map<Seq<char>, Seq<char>>,
    ps: Seq<(Seq<char>, Seq<char>)>,
) -> Map<Seq<char>, Seq<char>>
    decreases ps.len(),
{
    if ps.len() == 0 {
        m
    } else {
        insert_all(m, ps.drop_last()).insert(ps.last().0, ps.last().1)
    }
}

proof fn lemma_pairs_text_push(s: Seq<(Seq<char>, Seq<char>)>, p: (Seq<char>, Seq<char>))
    ensures
        pairs_text(s.push(p)) == pairs_text(s) + alias_file_line(p),
    decreases s.len(),
{
    if s.len() == 0 {
        assert(s.push(p).drop_first() =~= Seq::<(Seq<char>, Seq<char>)>::empty());
        assert(pairs_text(Seq::<(Seq<char>, Seq<char>)>::empty()) == Seq::<char>::empty());
        assert(s.push(p)[0] == p);
        assert(pairs_text(s.push(p)) =~= alias_file_line(p));
        assert(pairs_text(s) + alias_file_line(p) =~= alias_file_line(p));
    } else {
        assert(s.push(p).drop_first() =~= s.drop_first().push(p));
        lemma_pairs_text_push(s.drop_first(), p);
        assert(s.push(p)[0] == s[0]);
        assert(pairs_text(s.push(p)) =~= pairs_text(s) + alias_file_line(p));
    }
}

/// Reading back what was written gives the text.
proof fn lemma_unescape_escape(s: Seq<char>, eq: bool)
    ensures
        unescape(escape(s, eq)) == s,
    decreases s.len(),
{
    if s.len() > 0 {
        let c = s[0];
        let rest = s.drop_first();
        lemma_unescape_escape(rest, eq);
        let e = escape(s, eq);
        let r = escape(rest, eq);
        assert(e == escape_char(c, eq) + r);
        if c == '\\' || c == '\n' || (eq && c == '=') {
            assert(e[0] == '\\');
            assert(e.skip(2) =~= r);
        } else {
            assert(e[0] == c);
            assert(e.drop_first() =~= r);
        }
        assert(seq![c] + rest =~= s);
    }
}

/// A written text holds no newline, and, where `eq` holds, no `=`.
proof fn lemma_escape_clean(s: Seq<char>, eq: bool)
    ensures
        forall|j: int|
            0 <= j < escape(s, eq).len() ==> #[trigger] escape(s, eq)[j] != '\n' && (eq
                ==> escape(s, eq)[j] != '='),
    decreases s.len(),
{
    if s.len() > 0 {
        let c = s[0];
        let rest = s.drop_first();
        lemma_escape_clean(rest, eq);
        let e = escape(s, eq);
        let h = escape_char(c, eq);
        let r = escape(rest, eq);
        assert(e == h + r);
        assert forall|j: int| 0 <= j < e.len() implies #[trigger] e[j] != '\n' && (eq ==> e[j]
            != '=') by {
            if j < h.len() {
                assert(e[j] == h[j]);
            } else {
                assert(e[j] == r[j - h.len()]);
            }
        }
    }
}

/// Appends `s` as the alias file writes it.
fn push_escaped(out: &mut Vec<char>, s: &str, eq: bool)
    ensures
        final(out)@ == old(out)@ + escape(s@, eq),
{
    let v = to_chars(s);
    let mut i: usize = 0;
    assert(v@.skip(0) =~= v@);
    assert(old(out)@ =~= old(out)@ + Seq::<char>::empty());
    while i < v.len()
        invariant
            i <= v@.len(),
            v@ == s@,
            out@ + escape(v@.skip(i as int), eq) == old(out)@ + escape(s@, eq),
        decreases v.len() - i,
    {
        let c = v[i];
        let ghost rest = v@.skip(i as int);
        assert(rest[0] == c);
        assert(rest.drop_first() =~= v@.skip(i + 1));
        let ghost before = out@;
        if c == '\\' {
            out.push('\\');
            out.push('\\');
        } else if c == '\n' {
            out.push('\\');
            out.push('n');
        } else if eq && c == '=' {
            out.push('\\');
            out.push('e');
        } else {
            out.push(c);
        }
        assert(out@ =~= before + escape_char(c, eq));
        assert(before + escape(rest, eq) =~= out@ + escape(v@.skip(i + 1), eq));
        i = i + 1;
    }
    assert(escape(v@.skip(i as int), eq) =~= Seq::<char>::empty());
    assert(out@ + Seq::<char>::empty() =~= out@);
}

/// Reads a name or value of the alias file back.
fn unescape_exec(v: &Vec<char>) -> (r: Vec<char>)
    ensures
        r@ == unescape(v@),
{
    let mut out: Vec<char> = Vec::new();
    let mut i: usize = 0;
    let n = v.len();
    assert(v@.skip(0) =~= v@);
    assert(Seq::<char>::empty() + unescape(v@) =~= unescape(v@));
    while i < n
        invariant
            n == v@.len(),
            i <= n,
            out@ + unescape(v@.skip(i as int)) == unescape(v@),
        decreases n - i,
    {
        let ghost rest = v@.skip(i as int);
        let ghost before = out@;
        if i + 1 < n && v[i] == '\\' && (v[i + 1] == '\\' || v[i + 1] == 'n' || v[i + 1] == 'e') {
            let d = if v[i + 1] == 'n' {
                '\n'
            } else if v[i + 1] == 'e' {
                '='
            } else {
                '\\'
            };
            assert(rest[0] == v@[i as int] && rest[1] == v@[i + 1]);
            assert(rest.skip(2) =~= v@.skip(i + 2));
            out.push(d);
            assert(before + unescape(rest) =~= out@ + unescape(v@.skip(i + 2)));
            i = i + 2;
        } else {
            assert(rest[0] == v@[i as int]);
            if i + 1 < n {
                assert(rest[1] == v@[i + 1]);
            }
            assert(rest.drop_first() =~= v@.skip(i + 1));
            out.push(v[i]);
            assert(before + unescape(rest) =~= out@ + unescape(v@.skip(i + 1)));
            i = i + 1;
        }
    }
    assert(v@.skip(i as int) =~= Seq::<char>::empty());
    assert(out@ + Seq::<char>::empty() =~= out@);
    out
}

/// Writes the text of the alias file for the table (empty before `init`).
pub fn save_text(aliases: &Aliases) -> (r: String)
    requires
        aliases.wf(),
    ensures
        match aliases@ {
            Some(m) => r@ == saved_text(m),
            None => r@ == Seq::<char>::empty(),
        },
{
    let pairs = list(aliases);
    let ghost pv = pair_views(pairs@);
    let ghost es = pv.map_values(|p: (Seq<char>, Seq<char>)| escaped(p));
    let mut out: Vec<char> = Vec::new();
    let mut i: usize = 0;
    assert(es.take(0) =~= Seq::<(Seq<char>, Seq<char>)>::empty());
    while i < pairs.len()
        invariant
            i <= pairs@.len(),
            pv == pair_views(pairs@),
            es == pv.map_values(|p: (Seq<char>, Seq<char>)| escaped(p)),
            out@ == pairs_text(es.take(i as int)),
        decreases pairs.len() - i,
    {
        assert(es.take(i + 1) =~= es.take(i as int).push(es[i as int]));
        proof {
            lemma_pairs_text_push(es.take(i as int), es[i as int]);
        }
        let ghost before = out@;
        push_escaped(&mut out, pairs[i].0.as_str(), true);
        out.push('=');
        push_escaped(&mut out, pairs[i].1.as_str(), false);
        out.push('\n');
        assert(es[i as int] == escaped(pv[i as int]));
        assert(out@ =~= before + alias_file_line(es[i as int]));
        i = i + 1;
    }
    assert(es.take(i as int) =~= es);
    proof {
        match aliases@ {
            Some(m) => {
                let t = crate::builtins::sorted_pairs(m);
                assert(keys_sorted(pv) && pairs_map(pv) == m);
                crate::builtins::lemma_sorted_pairs_unique(t, pv);
            },
            None => {
                assert(pv =~= Seq::<(Seq<char>, Seq<char>)>::empty());
                assert(es =~= Seq::<(Seq<char>, Seq<char>)>::empty());
            },
        }
    }
    from_chars(out.as_slice())
}

/// Sets every alias that the alias file's text holds, in order (nothing
/// happens before `init`).
pub fn load_text(aliases: &mut Aliases, text: &str)
    requires
        old(aliases).wf(),
    ensures
        final(aliases).wf(),
        final(aliases)@ == match old(aliases)@ {
            Some(m) => Some(insert_all(m, text_pairs(text@))),
            None => None,
        },
{
    let t = to_chars(text);
    let fields = split_fields(&t, '\n');
    let ghost fv = char_views(fields@);
    let ghost m0 = aliases@;
    let mut i: usize = 0;
    assert(fv.take(0) =~= Seq::<Seq<char>>::empty());
    assert(fields_pairs(fv.take(0)).map_values(|p: (Seq<char>, Seq<char>)| unescaped(p))
        =~= Seq::<(Seq<char>, Seq<char>)>::empty());
    while i < fields.len()
        invariant
            i <= fields@.len(),
            fv == char_views(fields@),
            fv == split_char(text@, '\n'),
            aliases.wf(),
            aliases@ == match m0 {
                Some(m) => Some(
                    insert_all(
                        m,
                        fields_pairs(fv.take(i as int)).map_values(
                            |p: (Seq<char>, Seq<char>)| unescaped(p),
                        ),
                    ),
                ),
                None => None,
            },
        decreases fields.len() - i,
    {
        assert(fv.take(i + 1).drop_last() =~= fv.take(i as int));
        assert(fv.take(i + 1).last() == fields@[i as int]@);
        let ghost before = fields_pairs(fv.take(i as int));
        assert(fv[i as int] == fields@[i as int]@);
        match split_at_eq_exec(&fields[i]) {
            Some((k, v)) => {
                let k2 = unescape_exec(&k);
                let v2 = unescape_exec(&v);
                let ks = from_chars(k2.as_slice());
                let vs = from_chars(v2.as_slice());
                set(aliases, ks.as_str(), vs.as_str());
                assert(fields_pairs(fv.take(i + 1)) == before.push((k@, v@)));
                let ghost f = |p: (Seq<char>, Seq<char>)| unescaped(p);
                assert(before.push((k@, v@)).map_values(f) =~= before.map_values(f).push(
                    (k2@, v2@),
                ));
                assert(before.map_values(f).push((k2@, v2@)).drop_last() =~= before.map_values(f));
            },
            None => {
                assert(fields_pairs(fv.take(i + 1)) == before);
            },
        }
        i = i + 1;
    }
    assert(fv.take(i as int) =~= fv);
}

proof fn lemma_split_pairs_text(s: Seq<(Seq<char>, Seq<char>)>)
    requires
        forall|i: int|
            0 <= i < s.len() ==> !(#[trigger] s[i]).0.contains('\n') && !s[i].1.contains('\n'),
    ensures
        split_char(pairs_text(s), '\n') == s.map_values(
            |p: (Seq<char>, Seq<char>)| p.0 + seq!['='] + p.1,
        ).push(Seq::<char>::empty()),
    decreases s.len(),
{
    let f = |p: (Seq<char>, Seq<char>)| p.0 + seq!['='] + p.1;
    let text = pairs_text(s);
    if s.len() == 0 {
        lemma_prefix_while_bound(text, not_char('\n'));
        assert(split_char(text, '\n') =~= seq![Seq::<char>::empty()]);
        assert(s.map_values(f).push(Seq::<char>::empty()) =~= seq![Seq::<char>::empty()]);
    } else {
        let rest = s.drop_first();
        assert forall|i: int| 0 <= i < rest.len() implies !(#[trigger] rest[i]).0.contains('\n')
            && !rest[i].1.contains('\n') by {
            assert(rest[i] == s[i + 1]);
        }
        lemma_split_pairs_text(rest);
        let l = f(s[0]);
        assert(!s[0].0.contains('\n') && !s[0].1.contains('\n'));
        assert forall|j: int| 0 <= j < l.len() implies not_char('\n')(#[trigger] text[j]) by {
            assert(text[j] == l[j]);
            if j < s[0].0.len() {
                assert(l[j] == s[0].0[j]);
                if s[0].0[j] == '\n' {
                    assert(s[0].0.contains('\n'));
                }
            } else if j > s[0].0.len() {
                assert(l[j] == s[0].1[j - s[0].0.len() - 1]);
                if s[0].1[j - s[0].0.len() - 1] == '\n' {
                    assert(s[0].1.contains('\n'));
                }
            }
        }
        assert(text[l.len() as int] == '\n');
        lemma_prefix_while_unique(text, not_char('\n'), l.len() as int);
        assert(text.take(l.len() as int) =~= l);
        assert(text.skip(l.len() + 1 as int) =~= pairs_text(rest));
        assert(split_char(text, '\n') == seq![l] + split_char(pairs_text(rest), '\n'));
        assert(seq![l] + rest.map_values(f).push(Seq::<char>::empty()) =~= s.map_values(f).push(
            Seq::<char>::empty(),
        ));
    }
}

proof fn lemma_fields_pairs_lines(s: Seq<(Seq<char>, Seq<char>)>)
    requires
        forall|i: int| 0 <= i < s.len() ==> !(#[trigger] s[i]).0.contains('='),
    ensures
        fields_pairs(s.map_values(|p: (Seq<char>, Seq<char>)| p.0 + seq!['='] + p.1)) == s,
    decreases s.len(),
{
    let f = |p: (Seq<char>, Seq<char>)| p.0 + seq!['='] + p.1;
    let ls = s.map_values(f);
    if s.len() == 0 {
        assert(ls =~= Seq::<Seq<char>>::empty());
    } else {
        let front = s.drop_last();
        assert forall|i: int| 0 <= i < front.len() implies !(#[trigger] front[i]).0.contains('=') by {
            assert(front[i] == s[i]);
        }
        lemma_fields_pairs_lines(front);
        assert(ls.drop_last() =~= front.map_values(f));
        let p = s.last();
        let l = f(p);
        assert(ls.last() == l);
        assert(!s[s.len() - 1].0.contains('='));
        assert forall|j: int| 0 <= j < p.0.len() implies not_char('=')(#[trigger] l[j]) by {
            assert(l[j] == p.0[j]);
            if p.0[j] == '=' {
                assert(p.0.contains('='));
            }
        }
        assert(l[p.0.len() as int] == '=');
        lemma_prefix_while_unique(l, not_char('='), p.0.len() as int);
        assert(l.take(p.0.len() as int) =~= p.0);
        assert(l.skip(p.0.len() + 1 as int) =~= p.1);
        assert(split_at_eq(l) == Some(p));
        assert(front.push(p) =~= s);
    }
}

proof fn lemma_pairs_map_push(s: Seq<(Seq<char>, Seq<char>)>)
    requires
        keys_sorted(s),
        s.len() > 0,
    ensures
        pairs_map(s) == pairs_map(s.drop_last()).insert(s.last().0, s.last().1),
{
    let front = s.drop_last();
    let n = s.len() - 1;
    let m = pairs_map(s);
    let m2 = pairs_map(front).insert(s.last().0, s.last().1);
    assert(keys_sorted(front)) by {
        assert forall|i: int, j: int| 0 <= i < j < front.len() implies seq_lt(
            (#[trigger] front[i]).0,
            (#[trigger] front[j]).0,
        ) by {
            assert(front[i] == s[i] && front[j] == s[j]);
        }
    }
    assert forall|k: Seq<char>| m.contains_key(k) <==> m2.contains_key(k) by {
        if m.contains_key(k) && k != s.last().0 {
            let c = key_index(s, k);
            assert(c != n);
            assert(front[c] == s[c]);
        }
        if m2.contains_key(k) && k != s.last().0 {
            let c = key_index(front, k);
            assert(s[c] == front[c]);
        }
        if k == s.last().0 {
            assert(s[n].0 == k);
        }
    }
    assert forall|k: Seq<char>| #[trigger] m.contains_key(k) implies m[k] == m2[k] by {
        if k == s.last().0 {
            lemma_pairs_map_at(s, n);
        } else {
            let c = key_index(front, k);
            assert(s[c] == front[c]);
            lemma_pairs_map_at(front, c);
            lemma_pairs_map_at(s, c);
        }
    }
    assert(m =~= m2);
}

proof fn lemma_insert_all_sorted(s: Seq<(Seq<char>, Seq<char>)>)
    requires
        keys_sorted(s),
    ensures
        insert_all(Map::empty(), s) == pairs_map(s),
    decreases s.len(),
{
    if s.len() == 0 {
        assert(pairs_map(s) =~= Map::<Seq<char>, Seq<char>>::empty());
    } else {
        let front = s.drop_last();
        assert(keys_sorted(front)) by {
            assert forall|i: int, j: int| 0 <= i < j < front.len() implies seq_lt(
                (#[trigger] front[i]).0,
                (#[trigger] front[j]).0,
            ) by {
                assert(front[i] == s[i] && front[j] == s[j]);
            }
        }
        lemma_insert_all_sorted(front);
        lemma_pairs_map_push(s);
    }
}

proof fn lemma_load_saved(s: Seq<(Seq<char>, Seq<char>)>)
    requires
        keys_sorted(s),
    ensures
        insert_all(Map::empty(), text_pairs(saved_text(pairs_map(s)))) == pairs_map(s),
{
    let t = crate::builtins::sorted_pairs(pairs_map(s));
    crate::builtins::lemma_sorted_pairs_unique(t, s);
    let g = |p: (Seq<char>, Seq<char>)| escaped(p);
    let u = |p: (Seq<char>, Seq<char>)| unescaped(p);
    let es = s.map_values(g);
    assert forall|i: int| 0 <= i < es.len() implies !(#[trigger] es[i]).0.contains('\n')
        && !es[i].1.contains('\n') && !es[i].0.contains('=') by {
        lemma_escape_clean(s[i].0, true);
        lemma_escape_clean(s[i].1, false);
        assert(es[i] == escaped(s[i]));
        if es[i].0.contains('\n') {
            let j = choose|j: int| 0 <= j < es[i].0.len() && es[i].0[j] == '\n';
            assert(escape(s[i].0, true)[j] != '\n');
        }
        if es[i].0.contains('=') {
            let j = choose|j: int| 0 <= j < es[i].0.len() && es[i].0[j] == '=';
            assert(escape(s[i].0, true)[j] != '=');
        }
        if es[i].1.contains('\n') {
            let j = choose|j: int| 0 <= j < es[i].1.len() && es[i].1[j] == '\n';
            assert(escape(s[i].1, false)[j] != '\n');
        }
    }
    let f = |p: (Seq<char>, Seq<char>)| p.0 + seq!['='] + p.1;
    lemma_split_pairs_text(es);
    let ls = es.map_values(f);
    assert(ls.push(Seq::<char>::empty()).drop_last() =~= ls);
    assert(split_at_eq(Seq::<char>::empty()) is None) by {
        lemma_prefix_while_bound(Seq::<char>::empty(), not_char('='));
    }
    assert(fields_pairs(ls.push(Seq::<char>::empty())) == fields_pairs(ls));
    lemma_fields_pairs_lines(es);
    assert forall|i: int| 0 <= i < s.len() implies #[trigger] es.map_values(u)[i] == s[i] by {
        lemma_unescape_escape(s[i].0, true);
        lemma_unescape_escape(s[i].1, false);
    }
    assert(es.map_values(u) =~= s);
    lemma_insert_all_sorted(s);
}

/// Loading the alias file that was saved for a table, into a table just
/// initialised, gives back the same aliases. Names and values may hold any
/// character: a backslash, a newline and (in a name) `=` are written
/// escaped.
pub proof fn lemma_alias_file_round_trip(aliases: &Aliases)
    requires
        aliases.wf(),
        aliases@ is Some,
    ensures
        insert_all(Map::empty(), text_pairs(saved_text(aliases@->0))) == aliases@->0,
{
    let v = aliases.table->0;
    let s = pair_views(v@);
    let m = aliases@->0;
    assert(m == pairs_map(s));
    lemma_load_saved(s);
}

} // verus!
