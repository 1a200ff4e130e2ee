//! Text as bytes: splitting on a separator and reading decimal digits.

use vstd::prelude::*;

verus! {

/// The pieces of `s` between occurrences of `sep`, in order: `k`
/// separators give `k + 1` pieces, empty ones included.
pub open spec fn split_on(s: Seq<u8>, sep: u8) -> Seq<Seq<u8>>
    decreases s.len(),
{
    if s.len() == 0 {
        seq![Seq::empty()]
    } else {
        let p = split_on(s.drop_last(), sep);
        if s.last() == sep {
            p.push(Seq::empty())
        } else {
            p.update(p.len() - 1, p.last().push(s.last()))
        }
    }
}

pub open spec fn is_digit(c: u8) -> bool {
    48 <= c <= 57
}

pub open spec fn all_digits(g: Seq<u8>) -> bool {
    forall|i: int| 0 <= i < g.len() ==> is_digit(#[trigger] g[i])
}

/// The value of a group of decimal digits.
pub open spec fn decimal(g: Seq<u8>) -> int
    decreases g.len(),
{
    if g.len() == 0 {
        0
    } else {
        decimal(g.drop_last()) * 10 + (g.last() - 48)
    }
}

pub proof fn lemma_split_len(s: Seq<u8>, sep: u8)
    ensures
        split_on(s, sep).len() >= 1,
    decreases s.len(),
{
    if s.len() > 0 {
        lemma_split_len(s.drop_last(), sep);
    }
}

/// Reading more text never changes a finished piece and only extends the
/// piece being read.
pub proof fn lemma_split_extend(s: Seq<u8>, sep: u8, k: int)
    requires
        0 <= k <= s.len(),
    ensures
        ({
            let p = split_on(s.take(k), sep);
            let q = split_on(s, sep);
            &&& p.len() >= 1
            &&& q.len() >= p.len()
            &&& forall|j: int| 0 <= j < p.len() - 1 ==> #[trigger] q[j] == p[j]
            &&& q[p.len() - 1].len() >= p.last().len()
            &&& q[p.len() - 1].take(p.last().len() as int) == p.last()
        }),
    decreases s.len() - k,
{
    let p = split_on(s.take(k), sep);
    lemma_split_len(s.take(k), sep);
    lemma_split_len(s, sep);
    if k == s.len() {
        assert(s.take(k) =~= s);
        assert(p.last().take(p.last().len() as int) =~= p.last());
    } else {
        lemma_split_extend(s, sep, k + 1);
        let p1 = split_on(s.take(k + 1), sep);
        assert(s.take(k + 1).drop_last() =~= s.take(k));
        assert(s.take(k + 1).last() == s[k]);
        let q = split_on(s, sep);
        if s[k] == sep {
            assert(p1 == p.push(Seq::<u8>::empty()));
            assert(q[p.len() - 1] == p1[p.len() - 1]);
            assert(q[p.len() - 1].take(p.last().len() as int) =~= p.last());
        } else {
            let l = p.last().push(s[k]);
            assert(p1 == p.update(p.len() - 1, l));
            assert forall|j: int| 0 <= j < p.len() - 1 implies #[trigger] q[j] == p[j] by {
                assert(q[j] == p1[j]);
            }
            assert(q[p.len() - 1].take(l.len() as int) == l);
            assert(q[p.len() - 1].take(p.last().len() as int) =~= l.take(
                p.last().len() as int,
            ));
            assert(l.take(p.last().len() as int) =~= p.last());
        }
    }
}

/// A longer run of digits is worth at least as much as its prefix.
pub proof fn lemma_decimal_grows(g: Seq<u8>, h: Seq<u8>)
    requires
        g.len() <= h.len(),
        h.take(g.len() as int) == g,
        all_digits(h),
    ensures
        decimal(h) >= decimal(g),
        decimal(h) >= 0,
    decreases h.len(),
{
    if h.len() == 0 {
    } else if g.len() == h.len() {
        assert(h.take(g.len() as int) =~= h);
        lemma_decimal_nonneg(h);
    } else {
        let d = h.drop_last();
        assert(d.take(g.len() as int) =~= h.take(g.len() as int));
        assert forall|i: int| 0 <= i < d.len() implies is_digit(#[trigger] d[i]) by {
            assert(d[i] == h[i]);
        }
        assert(is_digit(h[h.len() - 1]));
        lemma_decimal_grows(g, d);
    }
}

pub proof fn lemma_decimal_nonneg(h: Seq<u8>)
    requires
        all_digits(h),
    ensures
        decimal(h) >= 0,
    decreases h.len(),
{
    if h.len() > 0 {
        let d = h.drop_last();
        assert forall|i: int| 0 <= i < d.len() implies is_digit(#[trigger] d[i]) by {
            assert(d[i] == h[i]);
        }
        assert(is_digit(h[h.len() - 1]));
        lemma_decimal_nonneg(d);
    }
}

} // verus!
