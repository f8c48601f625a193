//! Decimal rendering and parsing of integers, as `to_string`, `{:>N}` and
//! `str::parse` do them.
use vstd::prelude::*;

verus! {

pub open spec fn digit_char(d: nat) -> char {
    if d == 0 {
        '0'
    } else if d == 1 {
        '1'
    } else if d == 2 {
        '2'
    } else if d == 3 {
        '3'
    } else if d == 4 {
        '4'
    } else if d == 5 {
        '5'
    } else if d == 6 {
        '6'
    } else if d == 7 {
        '7'
    } else if d == 8 {
        '8'
    } else {
        '9'
    }
}

/// Decimal digits of a natural number, without leading zeros.
pub open spec fn decimal(n: nat) -> Seq<char>
    decreases n,
{
    if n < 10 {
        seq![digit_char(n)]
    } else {
        decimal(n / 10).push(digit_char(n % 10))
    }
}

/// Decimal form of an integer, with a leading `-` when negative.
pub open spec fn signed_decimal(n: int) -> Seq<char> {
    if n < 0 {
        seq!['-'] + decimal((-n) as nat)
    } else {
        decimal(n as nat)
    }
}

fn digit(d: u64) -> (c: char)
    requires
        d < 10,
    ensures
        c == digit_char(d as nat),
{
    if d == 0 {
        '0'
    } else if d == 1 {
        '1'
    } else if d == 2 {
        '2'
    } else if d == 3 {
        '3'
    } else if d == 4 {
        '4'
    } else if d == 5 {
        '5'
    } else if d == 6 {
        '6'
    } else if d == 7 {
        '7'
    } else if d == 8 {
        '8'
    } else {
        '9'
    }
}

/// Appends the decimal digits of `n`.
pub fn push_decimal(out: &mut Vec<char>, n: u64)
    ensures
        final(out)@ == old(out)@ + decimal(n as nat),
    decreases n,
{
    if n < 10 {
        out.push(digit(n));
        assert(old(out)@ + decimal(n as nat) == old(out)@.push(digit_char(n as nat)));
    } else {
        push_decimal(out, n / 10);
        out.push(digit(n % 10));
        assert(old(out)@ + decimal(n as nat) =~= old(out)@ + decimal((n / 10) as nat) + seq![
            digit_char((n % 10) as nat),
        ]);
    }
}

/// Appends the decimal form of a signed integer.
pub fn push_signed_decimal(out: &mut Vec<char>, n: i64)
    ensures
        final(out)@ == old(out)@ + signed_decimal(n as int),
{
    if n < 0 {
        out.push('-');
        let m: u64 = if n == i64::MIN {
            9223372036854775808u64
        } else {
            (-n) as u64
        };
        push_decimal(out, m);
        assert(old(out)@ + signed_decimal(n as int) =~= old(out)@.push('-') + decimal(m as nat));
    } else {
        push_decimal(out, n as u64);
    }
}

/// `to_string` of a signed number.
pub fn i64_to_string(n: i64) -> (s: String)
    ensures
        s@ == signed_decimal(n as int),
{
    let mut v: Vec<char> = Vec::new();
    push_signed_decimal(&mut v, n);
    assert(Seq::<char>::empty() + signed_decimal(n as int) == signed_decimal(n as int));
    crate::text::from_chars(v.as_slice())
}

/// `format!("{:>w}", s)`: `s` right-aligned in a field of `w` characters.
pub open spec fn pad_left(s: Seq<char>, w: nat) -> Seq<char> {
    if s.len() >= w {
        s
    } else {
        Seq::new((w - s.len()) as nat, |i: int| ' ') + s
    }
}

pub fn pad_left_chars(s: &Vec<char>, w: usize) -> (r: Vec<char>)
    ensures
        r@ == pad_left(s@, w as nat),
{
    let mut r: Vec<char> = Vec::new();
    let mut i: usize = s.len();
    while i < w
        invariant
            s@.len() <= i <= w || (i == s@.len() && i >= w),
            r@ == Seq::new((i - s@.len()) as nat, |k: int| ' '),
        decreases w - i,
    {
        r.push(' ');
        assert(r@ =~= Seq::new((i + 1 - s@.len()) as nat, |k: int| ' '));
        i = i + 1;
    }
    let mut j: usize = 0;
    let ghost pad = r@;
    while j < s.len()
        invariant
            j <= s@.len(),
            r@ == pad + s@.take(j as int),
        decreases s.len() - j,
    {
        r.push(s[j]);
        assert(s@.take(j + 1) == s@.take(j as int).push(s@[j as int]));
        j = j + 1;
    }
    assert(s@.take(s@.len() as int) == s@);
    if s.len() >= w {
        assert(pad =~= Seq::<char>::empty());
        assert(r@ =~= s@);
    }
    r
}

// ---------------------------------------------------------------------------
// Parsing
// ---------------------------------------------------------------------------

pub open spec fn is_digit(c: char) -> bool {
    '0' <= c && c <= '9'
}

pub open spec fn digit_value(c: char) -> int {
    (c as u32) - ('0' as u32)
}

pub open spec fn all_digits(d: Seq<char>) -> bool {
    forall|i: int| 0 <= i < d.len() ==> is_digit(#[trigger] d[i])
}

/// The number that a string of decimal digits denotes.
pub open spec fn digits_value(d: Seq<char>) -> int
    decreases d.len(),
{
    if d.len() == 0 {
        0
    } else {
        10 * digits_value(d.drop_last()) + digit_value(d.last())
    }
}

/// What `str::parse` returns for an integer type whose values are
/// `lo..=hi` (signed when `signed`): an optional sign (`-` only for signed
/// types), then one or more ASCII digits, the value within range.
pub open spec fn parse_integer(s: Seq<char>, signed: bool, lo: int, hi: int) -> Option<int> {
    if s.len() == 0 {
        None
    } else if (s[0] == '+' || s[0] == '-') && s.len() == 1 {
        None
    } else {
        let neg = s[0] == '-' && signed;
        let d = if s[0] == '+' || neg {
            s.drop_first()
        } else {
            s
        };
        if all_digits(d) {
            let v = if neg {
                -digits_value(d)
            } else {
                digits_value(d)
            };
            if lo <= v <= hi {
                Some(v)
            } else {
                None
            }
        } else {
            None
        }
    }
}

/// `str::parse::<i32>`.
pub open spec fn parse_i32(s: Seq<char>) -> Option<int> {
    parse_integer(s, true, i32::MIN as int, i32::MAX as int)
}

/// `str::parse::<u32>`.
pub open spec fn parse_u32(s: Seq<char>) -> Option<int> {
    parse_integer(s, false, 0, u32::MAX as int)
}

proof fn lemma_digits_value_nonneg(d: Seq<char>)
    requires
        all_digits(d),
    ensures
        digits_value(d) >= 0,
    decreases d.len(),
{
    if d.len() > 0 {
        assert(all_digits(d.drop_last())) by {
            assert forall|i: int| 0 <= i < d.drop_last().len() implies is_digit(
                #[trigger] d.drop_last()[i],
            ) by {
                assert(d.drop_last()[i] == d[i]);
            }
        }
        lemma_digits_value_nonneg(d.drop_last());
        assert(is_digit(d[d.len() - 1]));
    }
}

proof fn lemma_digits_value_prefix(d: Seq<char>, k: int)
    requires
        all_digits(d),
        0 <= k <= d.len(),
    ensures
        digits_value(d.take(k)) <= digits_value(d),
    decreases d.len() - k,
{
    if k < d.len() {
        let t = d.take(k + 1);
        assert(t.drop_last() == d.take(k));
        assert(all_digits(t)) by {
            assert forall|i: int| 0 <= i < t.len() implies is_digit(#[trigger] t[i]) by {
                assert(t[i] == d[i]);
            }
        }
        assert(all_digits(d.take(k))) by {
            assert forall|i: int| 0 <= i < k implies is_digit(#[trigger] d.take(k)[i]) by {
                assert(d.take(k)[i] == d[i]);
            }
        }
        lemma_digits_value_nonneg(d.take(k));
        assert(is_digit(d[k]));
        lemma_digits_value_prefix(d, k + 1);
    } else {
        assert(d.take(k) == d);
    }
}

/// Parses the digits `d[from..]`; `None` when one is not a digit or the
/// value exceeds `bound`.
fn parse_digits(d: &Vec<char>, from: usize, bound: u64) -> (r: Option<u64>)
    requires
        from <= d@.len(),
        bound <= 0x1_0000_0000,
    ensures
        r matches Some(v) ==> all_digits(d@.skip(from as int)) && v == digits_value(
            d@.skip(from as int),
        ) && v <= bound,
        r is None ==> !all_digits(d@.skip(from as int)) || digits_value(d@.skip(from as int))
            > bound,
{
    let ghost s = d@.skip(from as int);
    let mut i = from;
    let mut v: u64 = 0;
    assert(s.take(0) =~= Seq::<char>::empty());
    while i < d.len()
        invariant
            from <= i <= d@.len(),
            s == d@.skip(from as int),
            all_digits(s.take(i - from)),
            v == digits_value(s.take(i - from)),
            v <= bound,
            bound <= 0x1_0000_0000,
        decreases d.len() - i,
    {
        let c = d[i];
        assert(c == s[i - from]);
        if !('0' <= c && c <= '9') {
            assert(!all_digits(s)) by {
                assert(!is_digit(s[i - from]));
            }
            return None;
        }
        let dv = (c as u32 - '0' as u32) as u64;
        let ghost t = s.take(i - from + 1);
        assert(t.drop_last() == s.take(i - from));
        assert(all_digits(t)) by {
            assert forall|j: int| 0 <= j < t.len() implies is_digit(#[trigger] t[j]) by {
                if j < t.len() - 1 {
                    assert(t[j] == s.take(i - from)[j]);
                }
            }
        }
        let nv = v * 10 + dv;
        if nv > bound {
            proof {
                if all_digits(s) {
                    lemma_digits_value_prefix(s, i - from + 1);
                }
            }
            return None;
        }
        v = nv;
        i = i + 1;
    }
    assert(s.take(i - from) == s);
    Some(v)
}

/// `str::parse::<i32>` on a character vector.
pub fn parse_i32_chars(s: &Vec<char>) -> (r: Option<i32>)
    ensures
        r matches Some(v) ==> parse_i32(s@) == Some(v as int),
        r is None ==> parse_i32(s@) is None,
{
    if s.len() == 0 {
        return None;
    }
    if (s[0] == '+' || s[0] == '-') && s.len() == 1 {
        return None;
    }
    let neg = s[0] == '-';
    let from: usize = if s[0] == '+' || neg {
        1
    } else {
        0
    };
    assert(from == 1 ==> s@.skip(1) == s@.drop_first());
    assert(from == 0 ==> s@.skip(0) == s@);
    match parse_digits(s, from, 0x8000_0000) {
        None => {
            proof {
                if all_digits(s@.skip(from as int)) {
                    lemma_digits_value_nonneg(s@.skip(from as int));
                }
            }
            None
        },
        Some(v) => {
            if neg {
                Some((0 - v as i64) as i32)
            } else if v <= 0x7fff_ffff {
                Some(v as i32)
            } else {
                None
            }
        },
    }
}

/// `str::parse::<u32>` on a character vector.
pub fn parse_u32_chars(s: &Vec<char>) -> (r: Option<u32>)
    ensures
        r matches Some(v) ==> parse_u32(s@) == Some(v as int),
        r is None ==> parse_u32(s@) is None,
{
    if s.len() == 0 {
        return None;
    }
    if (s[0] == '+' || s[0] == '-') && s.len() == 1 {
        return None;
    }
    let from: usize = if s[0] == '+' {
        1
    } else {
        0
    };
    assert(from == 1 ==> s@.skip(1) == s@.drop_first());
    assert(from == 0 ==> s@.skip(0) == s@);
    match parse_digits(s, from, 0xffff_ffff) {
        None => {
            proof {
                if all_digits(s@.skip(from as int)) {
                    lemma_digits_value_nonneg(s@.skip(from as int));
                }
            }
            None
        },
        Some(v) => {
            proof {
                lemma_digits_value_nonneg(s@.skip(from as int));
            }
            Some(v as u32)
        },
    }
}

} // verus!
