//! Character-level text primitives shared by the shell's parsers and
//! formatters: whitespace, trimming, word splitting, substring search,
//! decimal conversion and lexicographic order.
use vstd::prelude::*;

verus! {

// ---------------------------------------------------------------------------
// Characters
// ---------------------------------------------------------------------------

/// The Unicode `White_Space` property, which is what `char::is_whitespace`
/// tests.
pub open spec fn is_ws(c: char) -> bool {
    ||| ('\u{9}' <= c && c <= '\u{d}')
    ||| c == ' '
    ||| c == '\u{85}'
    ||| c == '\u{a0}'
    ||| c == '\u{1680}'
    ||| ('\u{2000}' <= c && c <= '\u{200a}')
    ||| c == '\u{2028}'
    ||| c == '\u{2029}'
    ||| c == '\u{202f}'
    ||| c == '\u{205f}'
    ||| c == '\u{3000}'
}

pub fn is_whitespace(c: char) -> (r: bool)
    ensures
        r == is_ws(c),
{
    ('\u{9}' <= c && c <= '\u{d}') || c == ' ' || c == '\u{85}' || c == '\u{a0}' || c
        == '\u{1680}' || ('\u{2000}' <= c && c <= '\u{200a}') || c == '\u{2028}' || c
        == '\u{2029}' || c == '\u{202f}' || c == '\u{205f}' || c == '\u{3000}'
}

/// What `char::is_alphanumeric` answers for a character beyond ASCII (the
/// Unicode `Alphabetic` or `Numeric` properties).
pub uninterp spec fn unicode_alphanumeric(c: char) -> bool;

/// An ASCII letter or digit.
pub open spec fn ascii_alphanumeric(c: char) -> bool {
    ('a' <= c && c <= 'z') || ('A' <= c && c <= 'Z') || ('0' <= c && c <= '9')
}

/// Whether a character is alphanumeric: within ASCII the letters and
/// digits, beyond it what the Unicode tables say.
pub open spec fn char_alphanumeric(c: char) -> bool {
    if (c as u32) < 128 {
        ascii_alphanumeric(c)
    } else {
        unicode_alphanumeric(c)
    }
}

/// Calls `char::is_alphanumeric`. The contract claims that within ASCII
/// exactly the letters and digits are alphanumeric, and that beyond ASCII
/// the answer depends on the character alone (it names it
/// `unicode_alphanumeric`); which of those characters are alphanumeric is
/// left unsaid.
#[verifier::external_body]
pub(crate) fn is_alphanumeric(c: char) -> (r: bool)
    ensures
        r == (if (c as u32) < 128 {
            ascii_alphanumeric(c)
        } else {
            unicode_alphanumeric(c)
        }),
{
    c.is_alphanumeric()
}

/// What `str::to_lowercase` returns for a text that is not all ASCII (the
/// Unicode lowercase mapping, character by character, with its context
/// rules).
pub uninterp spec fn unicode_lowercase(s: Seq<char>) -> Seq<char>;

/// Every character is ASCII.
pub open spec fn all_ascii(s: Seq<char>) -> bool {
    forall|i: int| 0 <= i < s.len() ==> (#[trigger] s[i] as u32) < 128
}

/// An ASCII capital turned into its small letter; any other character kept.
pub open spec fn ascii_lower(c: char) -> char {
    if 'A' <= c && c <= 'Z' {
        ((c as u32) + 32) as char
    } else {
        c
    }
}

/// The lowercase of a text: an ASCII text has each capital letter turned
/// into its small letter; any other text is mapped by the Unicode tables.
pub open spec fn lowercase(s: Seq<char>) -> Seq<char> {
    if all_ascii(s) {
        s.map_values(|c: char| ascii_lower(c))
    } else {
        unicode_lowercase(s)
    }
}

/// Calls `str::to_lowercase`. The contract claims that an ASCII text comes
/// back with each capital letter made small and nothing else changed, and
/// that for any other text the result depends on the text alone (it names
/// it `unicode_lowercase`); the Unicode case mapping itself is left unsaid.
#[verifier::external_body]
pub(crate) fn to_lowercase(s: &str) -> (r: String)
    ensures
        r@ == (if all_ascii(s@) {
            s@.map_values(|c: char| ascii_lower(c))
        } else {
            unicode_lowercase(s@)
        }),
{
    s.to_lowercase()
}

/// Number of bytes that UTF-8 uses for a character.
pub open spec fn char_utf8_len(c: char) -> nat {
    if (c as u32) < 0x80 {
        1
    } else if (c as u32) < 0x800 {
        2
    } else if (c as u32) < 0x10000 {
        3
    } else {
        4
    }
}

/// Number of bytes of the UTF-8 encoding of a character sequence.
pub open spec fn utf8_len(s: Seq<char>) -> nat
    decreases s.len(),
{
    if s.len() == 0 {
        0
    } else {
        utf8_len(s.drop_last()) + char_utf8_len(s.last())
    }
}

pub fn char_len_utf8(c: char) -> (n: usize)
    ensures
        n == char_utf8_len(c),
{
    let v = c as u32;
    if v < 0x80 {
        1
    } else if v < 0x800 {
        2
    } else if v < 0x10000 {
        3
    } else {
        4
    }
}

pub proof fn lemma_utf8_len_take_succ(s: Seq<char>, i: int)
    requires
        0 <= i < s.len(),
    ensures
        utf8_len(s.take(i + 1)) == utf8_len(s.take(i)) + char_utf8_len(s[i]),
{
    assert(s.take(i + 1).drop_last() == s.take(i));
}

pub proof fn lemma_utf8_len_mono(s: Seq<char>, i: int, j: int)
    requires
        0 <= i <= j <= s.len(),
    ensures
        utf8_len(s.take(i)) + (j - i) <= utf8_len(s.take(j)),
    decreases j - i,
{
    if i < j {
        lemma_utf8_len_mono(s, i, j - 1);
        lemma_utf8_len_take_succ(s, j - 1);
    }
}

/// The char index at which a byte offset falls on a character boundary.
pub open spec fn is_byte_boundary(s: Seq<char>, byte: int) -> bool {
    exists|k: int| 0 <= k <= s.len() && utf8_len(#[trigger] s.take(k)) == byte
}

/// Finds the character index whose UTF-8 prefix is `byte` bytes long.
pub fn char_index_of_byte(s: &Vec<char>, byte: u128) -> (r: Option<usize>)
    ensures
        r is Some <==> is_byte_boundary(s@, byte as int),
        r matches Some(k) ==> k <= s@.len() && utf8_len(s@.take(k as int)) == byte,
{
    let mut k: usize = 0;
    let mut acc: u128 = 0;
    assert(s@.take(0) =~= Seq::<char>::empty());
    while k < s.len()
        invariant
            k <= s@.len(),
            acc == utf8_len(s@.take(k as int)),
            forall|j: int| 0 <= j < k ==> utf8_len(#[trigger] s@.take(j)) < byte,
        decreases s.len() - k,
    {
        if acc == byte {
            return Some(k);
        }
        if acc > byte {
            proof {
                assert forall|j: int| 0 <= j <= s@.len() implies utf8_len(#[trigger] s@.take(j))
                    != byte by {
                    if j >= k {
                        lemma_utf8_len_mono(s@, k as int, j);
                    }
                }
            }
            return None;
        }
        let l = char_len_utf8(s[k]) as u128;
        proof {
            lemma_utf8_len_take_succ(s@, k as int);
        }
        if l > byte - acc {
            proof {
                assert forall|j: int| 0 <= j <= s@.len() implies utf8_len(#[trigger] s@.take(j))
                    != byte by {
                    if j > k {
                        lemma_utf8_len_mono(s@, k + 1, j);
                    }
                }
            }
            return None;
        }
        acc = acc + l;
        k = k + 1;
    }
    if acc == byte {
        assert(s@.take(k as int) == s@.take(k as int));
        return Some(k);
    }
    proof {
        assert forall|j: int| 0 <= j <= s@.len() implies utf8_len(#[trigger] s@.take(j))
            != byte by {
            if j == k {
            } else {
            }
        }
    }
    None
}

/// The char index at which a byte offset falls, when it is a boundary.
pub open spec fn char_index_at(s: Seq<char>, byte: int) -> int {
    choose|k: int| 0 <= k <= s.len() && utf8_len(#[trigger] s.take(k)) == byte
}

pub proof fn lemma_char_index_at(s: Seq<char>, byte: int, k: int)
    requires
        0 <= k <= s.len(),
        utf8_len(s.take(k)) == byte,
    ensures
        is_byte_boundary(s, byte),
        char_index_at(s, byte) == k,
{
    let c = char_index_at(s, byte);
    if c < k {
        lemma_utf8_len_mono(s, c, k);
    } else if c > k {
        lemma_utf8_len_mono(s, k, c);
    }
}

/// Byte length of the UTF-8 encoding of `s`.
pub fn utf8_len_exec(s: &Vec<char>) -> (r: u128)
    ensures
        r == utf8_len(s@),
{
    let mut i: usize = 0;
    let mut acc: u128 = 0;
    assert(s@.take(0) =~= Seq::<char>::empty());
    while i < s.len()
        invariant
            i <= s@.len(),
            acc == utf8_len(s@.take(i as int)),
            acc <= 4 * i,
        decreases s.len() - i,
    {
        proof {
            lemma_utf8_len_take_succ(s@, i as int);
        }
        acc = acc + char_len_utf8(s[i]) as u128;
        i = i + 1;
    }
    assert(s@.take(s@.len() as int) == s@);
    acc
}

// ---------------------------------------------------------------------------
// Conversions between strings and character vectors
// ---------------------------------------------------------------------------

/// Calls `String::push`; the contract says that the character is appended
/// to the text.
#[verifier::external_body]
pub(crate) fn push_char(s: &mut String, c: char)
    ensures
        final(s)@ == old(s)@.push(c),
{
    s.push(c);
}

pub fn to_chars(s: &str) -> (v: Vec<char>)
    ensures
        v@ == s@,
{
    let mut v: Vec<char> = Vec::new();
    for c in it: s.chars()
        invariant
            v@ == it.seq().take(it.index() as int),
            it.seq() == s@,
    {
        v.push(c);
    }
    v
}

pub fn from_chars(v: &[char]) -> (s: String)
    ensures
        s@ == v@,
{
    let mut s = String::new();
    let mut i: usize = 0;
    while i < v.len()
        invariant
            i <= v.len(),
            s@ == v@.take(i as int),
        decreases v.len() - i,
    {
        push_char(&mut s, v[i]);
        assert(v@.take(i + 1) == v@.take(i as int).push(v@[i as int]));
        i = i + 1;
    }
    assert(v@.take(v.len() as int) == v@);
    s
}

pub fn copy_string(s: &String) -> (r: String)
    ensures
        r@ == s@,
{
    String::from_str(s.as_str())
}

pub fn chars_eq(a: &[char], b: &[char]) -> (r: bool)
    ensures
        r == (a@ == b@),
{
    if a.len() != b.len() {
        return false;
    }
    let mut i: usize = 0;
    while i < a.len()
        invariant
            a@.len() == b@.len(),
            i <= a.len(),
            forall|j: int| 0 <= j < i ==> a@[j] == b@[j],
        decreases a.len() - i,
    {
        if a[i] != b[i] {
            return false;
        }
        i = i + 1;
    }
    assert(a@ =~= b@);
    true
}

pub fn str_eq(a: &str, b: &str) -> (r: bool)
    ensures
        r == (a@ == b@),
{
    let x = to_chars(a);
    let y = to_chars(b);
    chars_eq(x.as_slice(), y.as_slice())
}

// ---------------------------------------------------------------------------
// Prefixes, trimming and words
// ---------------------------------------------------------------------------

/// Length of the longest prefix of `s` all of whose characters satisfy `p`.
pub open spec fn prefix_while(s: Seq<char>, p: spec_fn(char) -> bool) -> nat
    decreases s.len(),
{
    if s.len() == 0 || !p(s[0]) {
        0
    } else {
        1 + prefix_while(s.drop_first(), p)
    }
}

/// Length of the longest suffix of `s` all of whose characters satisfy `p`.
pub open spec fn suffix_while(s: Seq<char>, p: spec_fn(char) -> bool) -> nat
    decreases s.len(),
{
    if s.len() == 0 || !p(s.last()) {
        0
    } else {
        1 + suffix_while(s.drop_last(), p)
    }
}

pub proof fn lemma_prefix_while_bound(s: Seq<char>, p: spec_fn(char) -> bool)
    ensures
        prefix_while(s, p) <= s.len(),
        forall|j: int| 0 <= j < prefix_while(s, p) ==> p(#[trigger] s[j]),
        prefix_while(s, p) < s.len() ==> !p(s[prefix_while(s, p) as int]),
    decreases s.len(),
{
    if s.len() > 0 && p(s[0]) {
        lemma_prefix_while_bound(s.drop_first(), p);
        assert forall|j: int| 0 <= j < prefix_while(s, p) implies p(#[trigger] s[j]) by {
            if j > 0 {
                assert(s[j] == s.drop_first()[j - 1]);
            }
        }
    }
}

/// Characterises `prefix_while` by its two defining facts.
pub proof fn lemma_prefix_while_unique(s: Seq<char>, p: spec_fn(char) -> bool, k: int)
    requires
        0 <= k <= s.len(),
        forall|j: int| 0 <= j < k ==> p(#[trigger] s[j]),
        k < s.len() ==> !p(s[k]),
    ensures
        prefix_while(s, p) == k,
    decreases s.len(),
{
    if k > 0 {
        assert(p(s[0]));
        assert forall|j: int| 0 <= j < k - 1 implies p(#[trigger] s.drop_first()[j]) by {
            assert(s.drop_first()[j] == s[j + 1]);
        }
        lemma_prefix_while_unique(s.drop_first(), p, k - 1);
    }
}

pub proof fn lemma_suffix_while_bound(s: Seq<char>, p: spec_fn(char) -> bool)
    ensures
        suffix_while(s, p) <= s.len(),
        forall|j: int| s.len() - suffix_while(s, p) <= j < s.len() ==> p(#[trigger] s[j]),
        suffix_while(s, p) < s.len() ==> !p(s[s.len() - suffix_while(s, p) - 1]),
    decreases s.len(),
{
    if s.len() > 0 && p(s.last()) {
        lemma_suffix_while_bound(s.drop_last(), p);
        assert forall|j: int| s.len() - suffix_while(s, p) <= j < s.len() implies p(
            #[trigger] s[j],
        ) by {
            if j < s.len() - 1 {
                assert(s[j] == s.drop_last()[j]);
            }
        }
    }
}

pub proof fn lemma_suffix_while_unique(s: Seq<char>, p: spec_fn(char) -> bool, k: int)
    requires
        0 <= k <= s.len(),
        forall|j: int| s.len() - k <= j < s.len() ==> p(#[trigger] s[j]),
        k < s.len() ==> !p(s[s.len() - k - 1]),
    ensures
        suffix_while(s, p) == k,
    decreases s.len(),
{
    if k > 0 {
        assert(p(s.last()));
        assert forall|j: int| s.drop_last().len() - (k - 1) <= j < s.drop_last().len() implies p(
            #[trigger] s.drop_last()[j],
        ) by {
            assert(s.drop_last()[j] == s[j]);
        }
        lemma_suffix_while_unique(s.drop_last(), p, k - 1);
    }
}

pub open spec fn ws_pred() -> spec_fn(char) -> bool {
    |c: char| is_ws(c)
}

pub open spec fn non_ws_pred() -> spec_fn(char) -> bool {
    |c: char| !is_ws(c)
}

/// `str::trim_start`.
pub open spec fn trim_start(s: Seq<char>) -> Seq<char> {
    s.skip(prefix_while(s, ws_pred()) as int)
}

/// `str::trim_end`.
pub open spec fn trim_end(s: Seq<char>) -> Seq<char> {
    s.take(s.len() - suffix_while(s, ws_pred()))
}

/// `str::trim`.
pub open spec fn trim(s: Seq<char>) -> Seq<char> {
    trim_end(trim_start(s))
}

/// Trimming twice is trimming once.
pub proof fn lemma_trim_idempotent(s: Seq<char>)
    ensures
        trim(trim(s)) == trim(s),
{
    let k = prefix_while(s, ws_pred());
    lemma_prefix_while_bound(s, ws_pred());
    let u = trim_start(s);
    let m = suffix_while(u, ws_pred());
    lemma_suffix_while_bound(u, ws_pred());
    let t = trim(s);
    if t.len() == 0 {
        assert(prefix_while(t, ws_pred()) == 0);
        assert(trim_start(t) =~= t);
        assert(suffix_while(t, ws_pred()) == 0);
        assert(trim(t) =~= t);
    } else {
        assert(u[0] == s[k as int]);
        assert(!ws_pred()(u[0]));
        if m == u.len() {
            assert(ws_pred()(u[0]));
        }
        assert(t[0] == u[0]);
        assert(t.last() == u[u.len() - m - 1]);
        assert(prefix_while(t, ws_pred()) == 0);
        assert(trim_start(t) =~= t);
        assert(suffix_while(t, ws_pred()) == 0);
        assert(trim(t) =~= t);
    }
}

/// Index of the first non-whitespace character at or after `from`.
pub fn skip_ws(s: &Vec<char>, from: usize) -> (r: usize)
    requires
        from <= s@.len(),
    ensures
        from <= r <= s@.len(),
        r == from + prefix_while(s@.skip(from as int), ws_pred()),
{
    let mut i = from;
    while i < s.len() && is_whitespace(s[i])
        invariant
            from <= i <= s@.len(),
            forall|j: int| from <= j < i ==> is_ws(#[trigger] s@[j]),
        decreases s.len() - i,
    {
        i = i + 1;
    }
    proof {
        let t = s@.skip(from as int);
        assert forall|j: int| 0 <= j < i - from implies ws_pred()(#[trigger] t[j]) by {
            assert(t[j] == s@[from + j]);
        }
        if i < s@.len() {
            assert(t[i - from] == s@[i as int]);
        }
        lemma_prefix_while_unique(t, ws_pred(), i - from);
    }
    i
}

/// Index just past the last character of the non-whitespace run starting at
/// `from`.
pub fn skip_word(s: &Vec<char>, from: usize) -> (r: usize)
    requires
        from <= s@.len(),
    ensures
        from <= r <= s@.len(),
        r == from + prefix_while(s@.skip(from as int), non_ws_pred()),
{
    let mut i = from;
    while i < s.len() && !is_whitespace(s[i])
        invariant
            from <= i <= s@.len(),
            forall|j: int| from <= j < i ==> !is_ws(#[trigger] s@[j]),
        decreases s.len() - i,
    {
        i = i + 1;
    }
    proof {
        let t = s@.skip(from as int);
        assert forall|j: int| 0 <= j < i - from implies non_ws_pred()(#[trigger] t[j]) by {
            assert(t[j] == s@[from + j]);
        }
        if i < s@.len() {
            assert(t[i - from] == s@[i as int]);
        }
        lemma_prefix_while_unique(t, non_ws_pred(), i - from);
    }
    i
}

/// Number of trailing whitespace characters of `s[..upto]`.
pub fn count_trailing_ws(s: &Vec<char>, upto: usize) -> (r: usize)
    requires
        upto <= s@.len(),
    ensures
        r <= upto,
        r == suffix_while(s@.take(upto as int), ws_pred()),
{
    let mut k: usize = 0;
    while k < upto && is_whitespace(s[upto - k - 1])
        invariant
            k <= upto <= s@.len(),
            forall|j: int| upto - k <= j < upto ==> is_ws(#[trigger] s@[j]),
        decreases upto - k,
    {
        k = k + 1;
    }
    proof {
        let t = s@.take(upto as int);
        assert forall|j: int| t.len() - k <= j < t.len() implies ws_pred()(#[trigger] t[j]) by {
            assert(t[j] == s@[j]);
        }
        if k < upto {
            assert(t[t.len() - k - 1] == s@[upto - k - 1]);
        }
        lemma_suffix_while_unique(t, ws_pred(), k as int);
    }
    k
}

/// Bounds `[a, b)` of the trimmed part of `s`.
pub fn trim_bounds(s: &Vec<char>) -> (r: (usize, usize))
    ensures
        r.0 <= r.1 <= s@.len(),
        s@.subrange(r.0 as int, r.1 as int) == trim(s@),
        r.0 as int == prefix_while(s@, ws_pred()),
{
    let a = skip_ws(s, 0);
    assert(s@.skip(0) == s@);
    let t = count_trailing_ws(s, s.len());
    assert(s@.take(s.len() as int) == s@);
    proof {
        lemma_suffix_while_bound(s@, ws_pred());
        lemma_prefix_while_bound(s@, ws_pred());
        let u = trim_start(s@);
        // the whitespace suffix of the whole line is also the suffix of `u`
        // unless the line is all whitespace.
        let k = if t <= s.len() - a { t as int } else { (s.len() - a) as int };
        assert forall|j: int| u.len() - k <= j < u.len() implies ws_pred()(#[trigger] u[j]) by {
            assert(u[j] == s@[a + j]);
        }
        if k < u.len() {
            assert(u[u.len() - k - 1] == s@[a + u.len() - k - 1]);
            if t > s.len() - a {
                lemma_prefix_while_bound(s@, ws_pred());
            }
        }
        lemma_suffix_while_unique(u, ws_pred(), k);
    }
    if t <= s.len() - a {
        proof {
            assert(s@.subrange(a as int, (s.len() - t) as int) =~= trim(s@));
        }
        (a, s.len() - t)
    } else {
        proof {
            assert(s@.subrange(a as int, a as int) =~= trim(s@));
        }
        (a, a)
    }
}

pub fn subvec(s: &Vec<char>, a: usize, b: usize) -> (r: Vec<char>)
    requires
        a <= b <= s@.len(),
    ensures
        r@ == s@.subrange(a as int, b as int),
{
    let mut r: Vec<char> = Vec::new();
    let mut i = a;
    while i < b
        invariant
            a <= i <= b <= s@.len(),
            r@ == s@.subrange(a as int, i as int),
        decreases b - i,
    {
        r.push(s[i]);
        assert(s@.subrange(a as int, i + 1) == s@.subrange(a as int, i as int).push(s@[i as int]));
        i = i + 1;
    }
    r
}

/// `str::trim` on a string.
pub fn trim_str(s: &str) -> (r: Vec<char>)
    ensures
        r@ == trim(s@),
{
    let v = to_chars(s);
    let (a, b) = trim_bounds(&v);
    subvec(&v, a, b)
}

/// The words of `s` in the sense of `str::split_whitespace`.
pub open spec fn words(s: Seq<char>) -> Seq<Seq<char>>
    decreases s.len(),
{
    let t = trim_start(s);
    proof {
        lemma_prefix_while_bound(s, ws_pred());
    }
    if t.len() == 0 {
        Seq::empty()
    } else {
        let w = t.take(prefix_while(t, non_ws_pred()) as int);
        if w.len() == 0 || w.len() > t.len() {
            Seq::empty()
        } else {
            seq![w] + words(t.skip(w.len() as int))
        }
    }
}

/// Splits at whitespace, as `str::split_whitespace` does.
pub fn split_words(s: &Vec<char>) -> (r: Vec<Vec<char>>)
    ensures
        r@.len() == words(s@).len(),
        forall|i: int| 0 <= i < r@.len() ==> #[trigger] r@[i]@ == words(s@)[i],
{
    let mut r: Vec<Vec<char>> = Vec::new();
    let mut i: usize = 0;
    let ghost mut acc: Seq<Seq<char>> = Seq::empty();
    assert(s@.skip(0) == s@);
    while i < s.len()
        invariant
            i <= s@.len(),
            r@.len() == acc.len(),
            forall|k: int| 0 <= k < r@.len() ==> #[trigger] r@[k]@ == acc[k],
            acc + words(s@.skip(i as int)) == words(s@),
        decreases s.len() - i,
    {
        let j = skip_ws(s, i);
        let ghost rest = s@.skip(i as int);
        proof {
            lemma_prefix_while_bound(rest, ws_pred());
            assert(trim_start(rest) =~= s@.skip(j as int));
        }
        if j == s.len() {
            proof {
                assert(words(rest) =~= Seq::<Seq<char>>::empty());
                assert(s@.skip(j as int) =~= Seq::<char>::empty());
                assert(words(s@.skip(j as int)) =~= Seq::<Seq<char>>::empty());
            }
            i = j;
        } else {
            let k = skip_word(s, j);
            let ghost t = s@.skip(j as int);
            proof {
                lemma_prefix_while_bound(t, non_ws_pred());
                assert(!is_ws(t[0]));
                assert(t.skip((k - j) as int) =~= s@.skip(k as int));
                assert(t.take((k - j) as int) =~= s@.subrange(j as int, k as int));
                assert(words(rest) == seq![s@.subrange(j as int, k as int)] + words(
                    s@.skip(k as int),
                ));
            }
            let w = subvec(s, j, k);
            r.push(w);
            proof {
                acc = acc.push(s@.subrange(j as int, k as int));
                assert(acc + words(s@.skip(k as int)) =~= words(s@));
            }
            i = k;
        }
    }
    proof {
        assert(s@.skip(i as int) =~= Seq::<char>::empty());
        assert(words(s@.skip(i as int)) =~= Seq::<Seq<char>>::empty());
        assert(acc =~= words(s@));
    }
    r
}

// ---------------------------------------------------------------------------
// Substrings
// ---------------------------------------------------------------------------

pub open spec fn starts_with(s: Seq<char>, p: Seq<char>) -> bool {
    p.len() <= s.len() && s.take(p.len() as int) == p
}

pub open spec fn ends_with(s: Seq<char>, p: Seq<char>) -> bool {
    p.len() <= s.len() && s.skip(s.len() - p.len()) == p
}

pub open spec fn occurs_at(s: Seq<char>, p: Seq<char>, i: int) -> bool {
    0 <= i && i + p.len() <= s.len() && s.subrange(i, i + p.len()) == p
}

/// `str::contains` with a string pattern.
pub open spec fn contains(s: Seq<char>, p: Seq<char>) -> bool {
    exists|i: int| occurs_at(s, p, i)
}

pub fn matches_at(s: &[char], p: &[char], i: usize) -> (r: bool)
    requires
        i <= s@.len(),
    ensures
        r == occurs_at(s@, p@, i as int),
{
    if p.len() > s.len() - i {
        return false;
    }
    let mut k: usize = 0;
    while k < p.len()
        invariant
            k <= p@.len(),
            i + p@.len() <= s@.len(),
            s@.len() == s.len(),
            forall|j: int| 0 <= j < k ==> s@[i + j] == p@[j],
        decreases p.len() - k,
    {
        if s[i + k] != p[k] {
            assert(s@.subrange(i as int, i + p@.len())[k as int] == s@[i + k]);
            return false;
        }
        k = k + 1;
    }
    assert(s@.subrange(i as int, i + p@.len()) =~= p@);
    true
}

pub fn has_prefix(s: &[char], p: &[char]) -> (r: bool)
    ensures
        r == starts_with(s@, p@),
{
    let r = matches_at(s, p, 0);
    assert(s@.subrange(0, p@.len() as int) == s@.take(p@.len() as int));
    r
}

pub fn has_suffix(s: &[char], p: &[char]) -> (r: bool)
    ensures
        r == ends_with(s@, p@),
{
    if p.len() > s.len() {
        return false;
    }
    let r = matches_at(s, p, s.len() - p.len());
    assert(s@.subrange(s@.len() - p@.len(), s@.len() as int) == s@.skip(s@.len() - p@.len()));
    r
}

pub fn find_sub(s: &[char], p: &[char]) -> (r: bool)
    ensures
        r == contains(s@, p@),
{
    let mut i: usize = 0;
    while i < s.len()
        invariant
            i <= s@.len(),
            forall|j: int| 0 <= j < i ==> !occurs_at(s@, p@, j),
        decreases s.len() - i,
    {
        if matches_at(s, p, i) {
            return true;
        }
        i = i + 1;
    }
    if matches_at(s, p, i) {
        return true;
    }
    assert forall|j: int| !occurs_at(s@, p@, j) by {
        if j > i {
            assert(j + p@.len() > s@.len());
        }
    }
    false
}

pub fn str_starts_with(s: &str, p: &str) -> (r: bool)
    ensures
        r == starts_with(s@, p@),
{
    let a = to_chars(s);
    let b = to_chars(p);
    has_prefix(a.as_slice(), b.as_slice())
}

// ---------------------------------------------------------------------------
// Lines and trimming of a given character
// ---------------------------------------------------------------------------

pub open spec fn not_newline() -> spec_fn(char) -> bool {
    |c: char| c != '\n'
}

/// A line without its `\r` before the newline.
pub open spec fn strip_cr(l: Seq<char>) -> Seq<char> {
    if l.len() > 0 && l.last() == '\r' {
        l.drop_last()
    } else {
        l
    }
}

/// `str::lines`: pieces between `\n`s (a `\r` before a `\n` dropped), with
/// no empty piece after a final `\n`.
pub open spec fn lines(s: Seq<char>) -> Seq<Seq<char>>
    decreases s.len(),
{
    if s.len() == 0 {
        Seq::empty()
    } else {
        let k = prefix_while(s, not_newline());
        proof {
            lemma_prefix_while_bound(s, not_newline());
        }
        if k >= s.len() {
            seq![s]
        } else {
            seq![strip_cr(s.take(k as int))] + lines(s.skip(k + 1 as int))
        }
    }
}

/// Splits into lines as `str::lines` does.
pub fn split_lines(s: &Vec<char>) -> (r: Vec<Vec<char>>)
    ensures
        r@.len() == lines(s@).len(),
        forall|i: int| 0 <= i < r@.len() ==> #[trigger] r@[i]@ == lines(s@)[i],
{
    let mut r: Vec<Vec<char>> = Vec::new();
    let mut i: usize = 0;
    let ghost mut acc: Seq<Seq<char>> = Seq::empty();
    assert(s@.skip(0) == s@);
    while i < s.len()
        invariant
            i <= s@.len(),
            r@.len() == acc.len(),
            forall|k: int| 0 <= k < r@.len() ==> #[trigger] r@[k]@ == acc[k],
            acc + lines(s@.skip(i as int)) == lines(s@),
        decreases s.len() - i,
    {
        let ghost rest = s@.skip(i as int);
        let mut j = i;
        while j < s.len() && s[j] != '\n'
            invariant
                i <= j <= s@.len(),
                forall|m: int| i <= m < j ==> s@[m] != '\n',
            decreases s.len() - j,
        {
            j = j + 1;
        }
        proof {
            assert forall|m: int| 0 <= m < j - i implies not_newline()(#[trigger] rest[m]) by {
                assert(rest[m] == s@[i + m]);
            }
            if j < s.len() {
                assert(rest[j - i] == s@[j as int]);
            }
            lemma_prefix_while_unique(rest, not_newline(), j - i);
        }
        if j == s.len() {
            let line = subvec(s, i, j);
            proof {
                assert(rest =~= s@.subrange(i as int, j as int));
                assert(lines(rest) == seq![rest]);
            }
            r.push(line);
            proof {
                acc = acc.push(rest);
                assert(s@.skip(j as int) =~= Seq::<char>::empty());
                assert(acc + lines(s@.skip(j as int)) =~= lines(s@));
            }
            i = j;
        } else {
            let mut end = j;
            if end > i && s[end - 1] == '\r' {
                end = end - 1;
            }
            let line = subvec(s, i, end);
            proof {
                let piece = rest.take(j - i);
                assert(piece =~= s@.subrange(i as int, j as int));
                if j > i && s@[j - 1] == '\r' {
                    assert(strip_cr(piece) =~= s@.subrange(i as int, end as int));
                } else {
                    assert(strip_cr(piece) =~= s@.subrange(i as int, end as int));
                }
                assert(rest.skip(j - i + 1) =~= s@.skip(j + 1));
                assert(lines(rest) == seq![strip_cr(piece)] + lines(s@.skip(j + 1)));
            }
            r.push(line);
            proof {
                acc = acc.push(s@.subrange(i as int, end as int));
                assert(acc + lines(s@.skip(j + 1)) =~= lines(s@));
            }
            i = j + 1;
        }
    }
    proof {
        assert(s@.skip(i as int) =~= Seq::<char>::empty());
        assert(acc =~= lines(s@));
    }
    r
}

pub open spec fn not_char(c: char) -> spec_fn(char) -> bool {
    |x: char| x != c
}

pub open spec fn is_char(c: char) -> spec_fn(char) -> bool {
    |x: char| x == c
}

/// `str::split(c)`: the fields between occurrences of `c`, empty ones
/// included.
pub open spec fn split_char(s: Seq<char>, c: char) -> Seq<Seq<char>>
    decreases s.len(),
{
    let k = prefix_while(s, not_char(c));
    proof {
        lemma_prefix_while_bound(s, not_char(c));
    }
    if k >= s.len() {
        seq![s]
    } else {
        seq![s.take(k as int)] + split_char(s.skip(k + 1 as int), c)
    }
}

pub open spec fn char_views(v: Seq<Vec<char>>) -> Seq<Seq<char>> {
    v.map_values(|x: Vec<char>| x@)
}

pub fn split_fields(s: &Vec<char>, c: char) -> (r: Vec<Vec<char>>)
    ensures
        char_views(r@) == split_char(s@, c),
{
    let mut out: Vec<Vec<char>> = Vec::new();
    let mut i: usize = 0;
    assert(char_views(out@) =~= Seq::<Seq<char>>::empty());
    assert(s@.skip(0) =~= s@);
    loop
        invariant
            i <= s@.len(),
            char_views(out@) + split_char(s@.skip(i as int), c) == split_char(s@, c),
        decreases s@.len() - i,
    {
        let ghost rest = s@.skip(i as int);
        let mut j = i;
        while j < s.len() && s[j] != c
            invariant
                i <= j <= s@.len(),
                forall|m: int| i <= m < j ==> s@[m] != c,
            decreases s.len() - j,
        {
            j = j + 1;
        }
        proof {
            assert forall|m: int| 0 <= m < j - i implies not_char(c)(#[trigger] rest[m]) by {
                assert(rest[m] == s@[i + m]);
            }
            if j < s.len() {
                assert(rest[j - i] == s@[j as int]);
            }
            lemma_prefix_while_unique(rest, not_char(c), j - i);
        }
        let seg = subvec(s, i, j);
        assert(seg@ =~= rest.take(j - i));
        let ghost before = char_views(out@);
        out.push(seg);
        assert(char_views(out@) =~= before.push(seg@));
        if j == s.len() {
            assert(rest.take(j - i) =~= rest);
            assert(split_char(rest, c) == seq![rest]);
            assert(char_views(out@) =~= before + split_char(rest, c));
            return out;
        }
        assert(rest.skip(j - i + 1) =~= s@.skip(j + 1));
        assert(split_char(rest, c) == seq![seg@] + split_char(s@.skip(j + 1), c));
        assert(before + split_char(rest, c) =~= before.push(seg@) + split_char(
            s@.skip(j + 1),
            c,
        ));
        i = j + 1;
    }
}

/// `str::trim_matches(c)`: every leading and trailing `c` removed.
pub open spec fn trim_char(s: Seq<char>, c: char) -> Seq<char> {
    let a = prefix_while(s, is_char(c));
    if a >= s.len() {
        Seq::empty()
    } else {
        let t = s.skip(a as int);
        t.take(t.len() - suffix_while(t, is_char(c)))
    }
}

pub fn trim_char_exec(s: &Vec<char>, c: char) -> (r: Vec<char>)
    ensures
        r@ == trim_char(s@, c),
{
    let mut a: usize = 0;
    while a < s.len() && s[a] == c
        invariant
            a <= s@.len(),
            forall|m: int| 0 <= m < a ==> s@[m] == c,
        decreases s.len() - a,
    {
        a = a + 1;
    }
    proof {
        assert forall|m: int| 0 <= m < a implies is_char(c)(#[trigger] s@[m]) by {}
        lemma_prefix_while_unique(s@, is_char(c), a as int);
    }
    if a == s.len() {
        return Vec::new();
    }
    let mut b: usize = s.len();
    while b > a && s[b - 1] == c
        invariant
            a < s@.len(),
            a <= b <= s@.len(),
            forall|m: int| b <= m < s@.len() ==> s@[m] == c,
        decreases b,
    {
        b = b - 1;
    }
    proof {
        let t = s@.skip(a as int);
        let k = s@.len() - b;
        assert forall|m: int| t.len() - k <= m < t.len() implies is_char(c)(#[trigger] t[m]) by {
            assert(t[m] == s@[a + m]);
        }
        if k < t.len() {
            assert(t[t.len() - k - 1] == s@[b - 1]);
        }
        lemma_suffix_while_unique(t, is_char(c), k);
        assert(t.take(t.len() - k) =~= s@.subrange(a as int, b as int));
    }
    subvec(s, a, b)
}

/// Appends the characters of `s`.
pub fn push_str(out: &mut Vec<char>, s: &str)
    ensures
        final(out)@ == old(out)@ + s@,
{
    let v = to_chars(s);
    push_chars(out, &v);
}

/// Appends the characters of `v`.
pub fn push_chars(out: &mut Vec<char>, v: &Vec<char>)
    ensures
        final(out)@ == old(out)@ + v@,
{
    let mut i: usize = 0;
    while i < v.len()
        invariant
            i <= v@.len(),
            out@ == old(out)@ + v@.take(i as int),
        decreases v.len() - i,
    {
        out.push(v[i]);
        assert(v@.take(i + 1) == v@.take(i as int).push(v@[i as int]));
        i = i + 1;
    }
    assert(v@.take(v@.len() as int) == v@);
}

/// Number of trailing characters of `s` that differ from `c`.
pub fn count_trailing_not(s: &Vec<char>, c: char) -> (r: usize)
    ensures
        r <= s@.len(),
        r == suffix_while(s@, not_char(c)),
{
    let n = s.len();
    let mut k: usize = 0;
    while k < n && s[n - k - 1] != c
        invariant
            k <= n == s@.len(),
            forall|j: int| n - k <= j < n ==> s@[j] != c,
        decreases n - k,
    {
        k = k + 1;
    }
    proof {
        assert forall|j: int| s@.len() - k <= j < s@.len() implies not_char(c)(#[trigger] s@[j]) by {}
        lemma_suffix_while_unique(s@, not_char(c), k as int);
    }
    k
}

/// `[T]::join(sep)` on strings.
pub open spec fn join(parts: Seq<Seq<char>>, sep: Seq<char>) -> Seq<char>
    decreases parts.len(),
{
    if parts.len() == 0 {
        Seq::empty()
    } else if parts.len() == 1 {
        parts[0]
    } else {
        join(parts.drop_last(), sep) + sep + parts.last()
    }
}

pub fn join_strings(parts: &[String], sep: &str) -> (r: String)
    ensures
        r@ == join(crate::order::views(parts@), sep@),
{
    let ghost pv = crate::order::views(parts@);
    let mut out: Vec<char> = Vec::new();
    let mut i: usize = 0;
    assert(pv.take(0) =~= Seq::<Seq<char>>::empty());
    while i < parts.len()
        invariant
            i <= parts@.len(),
            pv == crate::order::views(parts@),
            out@ == join(pv.take(i as int), sep@),
        decreases parts.len() - i,
    {
        assert(pv.take(i + 1).drop_last() =~= pv.take(i as int));
        assert(pv.take(i + 1).last() == parts@[i as int]@);
        if i > 0 {
            push_str(&mut out, sep);
        } else {
            assert(out@ =~= Seq::<char>::empty());
        }
        push_str(&mut out, parts[i].as_str());
        assert(pv.take(i + 1).len() == i + 1);
        if i == 0 {
            assert(pv.take(1)[0] == parts@[0]@);
            assert(out@ =~= join(pv.take(1), sep@));
        }
        i = i + 1;
    }
    assert(pv.take(i as int) =~= pv);
    from_chars(out.as_slice())
}

/// The parts before and after the first `=`, if there is one.
pub open spec fn split_at_eq(s: Seq<char>) -> Option<(Seq<char>, Seq<char>)> {
    let k = prefix_while(s, not_char('='));
    if k >= s.len() {
        None
    } else {
        Some((s.take(k as int), s.skip(k + 1 as int)))
    }
}

pub fn split_at_eq_exec(s: &Vec<char>) -> (r: Option<(Vec<char>, Vec<char>)>)
    ensures
        match r {
            Some(p) => split_at_eq(s@) == Some((p.0@, p.1@)),
            None => split_at_eq(s@) is None,
        },
{
    let mut k: usize = 0;
    while k < s.len() && s[k] != '='
        invariant
            k <= s@.len(),
            forall|m: int| 0 <= m < k ==> s@[m] != '=',
        decreases s.len() - k,
    {
        k = k + 1;
    }
    proof {
        assert forall|m: int| 0 <= m < k implies not_char('=')(#[trigger] s@[m]) by {}
        lemma_prefix_while_unique(s@, not_char('='), k as int);
    }
    if k == s.len() {
        return None;
    }
    let a = subvec(s, 0, k);
    let b = subvec(s, k + 1, s.len());
    assert(a@ =~= s@.take(k as int));
    assert(b@ =~= s@.skip(k + 1 as int));
    Some((a, b))
}

pub proof fn lemma_utf8_len_add(a: Seq<char>, b: Seq<char>)
    ensures
        utf8_len(a + b) == utf8_len(a) + utf8_len(b),
    decreases b.len(),
{
    if b.len() == 0 {
        assert(a + b =~= a);
    } else {
        lemma_utf8_len_add(a, b.drop_last());
        assert((a + b).drop_last() =~= a + b.drop_last());
        assert((a + b).last() == b.last());
    }
}

pub proof fn lemma_utf8_len_split(s: Seq<char>, n: int)
    requires
        0 <= n <= s.len(),
    ensures
        utf8_len(s) == utf8_len(s.take(n)) + utf8_len(s.skip(n)),
{
    assert(s =~= s.take(n) + s.skip(n));
    lemma_utf8_len_add(s.take(n), s.skip(n));
}

/// Every word of `s` is at most as long, in bytes, as `s`.
pub proof fn lemma_words_utf8_bound(s: Seq<char>)
    ensures
        forall|i: int| 0 <= i < words(s).len() ==> utf8_len(#[trigger] words(s)[i]) <= utf8_len(s),
    decreases s.len(),
{
    let t = trim_start(s);
    lemma_prefix_while_bound(s, ws_pred());
    let p = prefix_while(s, ws_pred()) as int;
    lemma_utf8_len_split(s, p);
    if t.len() > 0 {
        let k = prefix_while(t, non_ws_pred()) as int;
        lemma_prefix_while_bound(t, non_ws_pred());
        let w = t.take(k);
        if w.len() > 0 && w.len() <= t.len() {
            lemma_utf8_len_split(t, k);
            lemma_words_utf8_bound(t.skip(k));
            assert forall|i: int| 0 <= i < words(s).len() implies utf8_len(#[trigger] words(s)[i])
                <= utf8_len(s) by {
                if i > 0 {
                    assert(words(s)[i] == words(t.skip(k))[i - 1]);
                }
            }
        }
    }
}

} // verus!
