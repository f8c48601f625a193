//! Lexicographic order on character sequences (the order of `String`'s
//! `Ord`: UTF-8 byte order and code-point order agree) and sorting.
use vstd::prelude::*;

verus! {

/// `a < b` in lexicographic order by code point.
pub open spec fn seq_lt(a: Seq<char>, b: Seq<char>) -> bool
    decreases a.len(),
{
    if b.len() == 0 {
        false
    } else if a.len() == 0 {
        true
    } else if a[0] != b[0] {
        a[0] < b[0]
    } else {
        seq_lt(a.drop_first(), b.drop_first())
    }
}

pub open spec fn seq_le(a: Seq<char>, b: Seq<char>) -> bool {
    a == b || seq_lt(a, b)
}

pub proof fn lemma_lt_irrefl(a: Seq<char>)
    ensures
        !seq_lt(a, a),
    decreases a.len(),
{
    if a.len() > 0 {
        lemma_lt_irrefl(a.drop_first());
    }
}

pub proof fn lemma_lt_trans(a: Seq<char>, b: Seq<char>, c: Seq<char>)
    requires
        seq_lt(a, b),
        seq_lt(b, c),
    ensures
        seq_lt(a, c),
    decreases a.len(),
{
    if a.len() > 0 && b.len() > 0 && c.len() > 0 {
        if a[0] == b[0] && b[0] == c[0] {
            lemma_lt_trans(a.drop_first(), b.drop_first(), c.drop_first());
        }
    }
}

pub proof fn lemma_lt_total(a: Seq<char>, b: Seq<char>)
    ensures
        a == b || seq_lt(a, b) || seq_lt(b, a),
    decreases a.len(),
{
    if a.len() > 0 && b.len() > 0 {
        if a[0] != b[0] {
        } else {
            lemma_lt_total(a.drop_first(), b.drop_first());
            if a.drop_first() == b.drop_first() {
                assert(a =~= seq![a[0]] + a.drop_first());
                assert(b =~= seq![b[0]] + b.drop_first());
            }
        }
    } else if a.len() == 0 && b.len() == 0 {
        assert(a =~= b);
    }
}

pub proof fn lemma_lt_asym(a: Seq<char>, b: Seq<char>)
    requires
        seq_lt(a, b),
    ensures
        !seq_lt(b, a),
{
    if seq_lt(b, a) {
        lemma_lt_trans(a, b, a);
        lemma_lt_irrefl(a);
    }
}

proof fn lemma_lt_skip(a: Seq<char>, b: Seq<char>, i: int)
    requires
        0 <= i <= a.len(),
        i <= b.len(),
        a.take(i) == b.take(i),
    ensures
        seq_lt(a, b) == seq_lt(a.skip(i), b.skip(i)),
    decreases i,
{
    if i > 0 {
        assert(a[0] == a.take(i)[0]);
        assert(b[0] == b.take(i)[0]);
        assert(a.drop_first().take(i - 1) =~= a.take(i).drop_first());
        assert(b.drop_first().take(i - 1) =~= b.take(i).drop_first());
        lemma_lt_skip(a.drop_first(), b.drop_first(), i - 1);
        assert(a.drop_first().skip(i - 1) =~= a.skip(i));
        assert(b.drop_first().skip(i - 1) =~= b.skip(i));
    } else {
        assert(a.skip(0) == a);
        assert(b.skip(0) == b);
    }
}

pub fn chars_lt(a: &[char], b: &[char]) -> (r: bool)
    ensures
        r == seq_lt(a@, b@),
{
    let mut i: usize = 0;
    while i < a.len() && i < b.len() && a[i] == b[i]
        invariant
            i <= a@.len(),
            i <= b@.len(),
            a@.take(i as int) == b@.take(i as int),
        decreases a.len() - i,
    {
        assert(a@.take(i + 1) =~= a@.take(i as int).push(a@[i as int]));
        assert(b@.take(i + 1) =~= b@.take(i as int).push(b@[i as int]));
        i = i + 1;
    }
    proof {
        lemma_lt_skip(a@, b@, i as int);
    }
    if i == b.len() {
        false
    } else if i == a.len() {
        true
    } else {
        assert(a@.skip(i as int)[0] == a@[i as int]);
        assert(b@.skip(i as int)[0] == b@[i as int]);
        a[i] < b[i]
    }
}

pub fn str_lt(a: &str, b: &str) -> (r: bool)
    ensures
        r == seq_lt(a@, b@),
{
    let x = crate::text::to_chars(a);
    let y = crate::text::to_chars(b);
    chars_lt(x.as_slice(), y.as_slice())
}

/// The views of a vector of strings.
pub open spec fn views(v: Seq<String>) -> Seq<Seq<char>> {
    v.map_values(|s: String| s@)
}

pub open spec fn sorted(s: Seq<Seq<char>>) -> bool {
    forall|i: int, j: int| 0 <= i < j < s.len() ==> seq_le(#[trigger] s[i], #[trigger] s[j])
}

/// Sorts strings into ascending order (`slice::sort` on `String`s).
pub fn sort_strings(v: Vec<String>) -> (r: Vec<String>)
    ensures
        sorted(views(r@)),
        views(r@).to_multiset() == views(v@).to_multiset(),
{
    let mut r: Vec<String> = Vec::new();
    let mut v = v;
    let ghost orig = views(v@);
    let ghost mut taken: Seq<Seq<char>> = Seq::empty();
    broadcast use vstd::seq_lib::group_to_multiset_ensures;

    assert(views(r@) =~= Seq::<Seq<char>>::empty());
    while v.len() > 0
        invariant
            sorted(views(r@)),
            views(r@).to_multiset() == taken.to_multiset(),
            taken + views(v@).reverse() == orig.reverse(),
        decreases v.len(),
    {
        let ghost before = views(v@);
        let x = v.pop().unwrap();
        proof {
            assert(before =~= views(v@).push(x@));
            assert(before.reverse() =~= seq![x@] + views(v@).reverse());
            assert(taken.push(x@) + views(v@).reverse() =~= taken + before.reverse());
            vstd::seq_lib::to_multiset_build(taken, x@);
            taken = taken.push(x@);
        }
        let mut p: usize = 0;
        while p < r.len() && !str_lt(x.as_str(), r[p].as_str())
            invariant
                p <= r@.len(),
                sorted(views(r@)),
                forall|k: int| 0 <= k < p ==> seq_le(#[trigger] views(r@)[k], x@),
            decreases r.len() - p,
        {
            proof {
                lemma_lt_total(x@, r@[p as int]@);
            }
            p = p + 1;
        }
        let ghost old_r = views(r@);
        r.insert(p, x);
        proof {
            assert(views(r@) =~= old_r.insert(p as int, x@));
            if p < old_r.len() {
                assert(seq_lt(x@, old_r[p as int]));
            }
            assert forall|i: int, j: int| 0 <= i < j < views(r@).len() implies seq_le(
                #[trigger] views(r@)[i],
                #[trigger] views(r@)[j],
            ) by {
                let s = views(r@);
                if j < p {
                    assert(s[i] == old_r[i] && s[j] == old_r[j]);
                } else if j == p {
                    assert(s[i] == old_r[i]);
                } else if i == p {
                    assert(s[j] == old_r[j - 1]);
                    if j - 1 > p {
                        assert(seq_le(old_r[p as int], old_r[j - 1]));
                    }
                    assert(seq_lt(x@, old_r[p as int]));
                    if old_r[p as int] != old_r[j - 1] {
                        lemma_lt_trans(x@, old_r[p as int], old_r[j - 1]);
                    }
                } else if i < p {
                    assert(s[i] == old_r[i] && s[j] == old_r[j - 1]);
                } else {
                    assert(s[i] == old_r[i - 1] && s[j] == old_r[j - 1]);
                }
            }
            let s = views(r@);
            assert(s.remove(p as int) =~= old_r);
            assert(s[p as int] == x@);
            vstd::seq_lib::to_multiset_remove(s, p as int);
            s.to_multiset_ensures();
            assert(s.contains(x@));
            assert(s.to_multiset().count(x@) > 0);
            assert(s.to_multiset() =~= old_r.to_multiset().insert(x@));
        }
    }
    proof {
        assert(views(v@).reverse() =~= Seq::<Seq<char>>::empty());
        assert(taken =~= orig.reverse());
        orig.lemma_reverse_to_multiset();
    }
    r
}

} // verus!
