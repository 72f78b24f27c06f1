//! Decimal digits as bytes: their value, how a number is written, and the
//! scans that the parsers of this crate are built from.

use vstd::prelude::*;

verus! {

/// An ASCII decimal digit.
pub open spec fn is_digit(b: u8) -> bool {
    48 <= b <= 57
}

pub open spec fn all_digits(s: Seq<u8>) -> bool {
    forall|i: int| 0 <= i < s.len() ==> is_digit(#[trigger] s[i])
}

/// The number that a run of decimal digits denotes (0 for an empty run).
pub open spec fn digits_value(s: Seq<u8>) -> nat
    decreases s.len(),
{
    if s.len() == 0 {
        0
    } else {
        digits_value(s.drop_last()) * 10 + (s.last() - 48) as nat
    }
}

/// The shortest decimal writing of `n`: no leading zero, "0" for zero.
pub open spec fn nat_digits(n: nat) -> Seq<u8>
    decreases n,
{
    if n < 10 {
        seq![(n + 48) as u8]
    } else {
        nat_digits(n / 10).push((n % 10 + 48) as u8)
    }
}

/// `n` zero digits.
pub open spec fn zeros(n: nat) -> Seq<u8> {
    Seq::new(n, |i: int| 48u8)
}

/// How many bytes come before the first `c` in `s` (all of them if none is `c`).
pub open spec fn span_before(s: Seq<u8>, c: u8) -> nat
    decreases s.len(),
{
    if s.len() == 0 || s[0] == c {
        0
    } else {
        1 + span_before(s.drop_first(), c)
    }
}

/// The number that `s` writes in decimal, where it is one that fits a `u64`.
pub open spec fn parse_u64_spec(s: Seq<u8>) -> Option<u64> {
    if s.len() > 0 && all_digits(s) && digits_value(s) <= u64::MAX {
        Some(digits_value(s) as u64)
    } else {
        None
    }
}

/// ASCII white space: space, tab, line feed, vertical tab, form feed, carriage return.
pub open spec fn is_space(b: u8) -> bool {
    b == 32 || (9 <= b <= 13)
}

pub open spec fn trim_start(s: Seq<u8>) -> Seq<u8>
    decreases s.len(),
{
    if s.len() > 0 && is_space(s[0]) {
        trim_start(s.drop_first())
    } else {
        s
    }
}

pub open spec fn trim_end(s: Seq<u8>) -> Seq<u8>
    decreases s.len(),
{
    if s.len() > 0 && is_space(s.last()) {
        trim_end(s.drop_last())
    } else {
        s
    }
}

/// `s` without the white space at either end.
pub open spec fn trim(s: Seq<u8>) -> Seq<u8> {
    trim_end(trim_start(s))
}

pub proof fn lemma_value_push(s: Seq<u8>, b: u8)
    ensures
        digits_value(s.push(b)) == digits_value(s) * 10 + (b - 48) as nat,
{
    assert(s.push(b).drop_last() =~= s);
}

/// A digit run's value is at least that of each of its prefixes.
pub proof fn lemma_value_prefix(a: Seq<u8>, b: Seq<u8>)
    requires
        all_digits(a + b),
    ensures
        digits_value(a) <= digits_value(a + b),
    decreases b.len(),
{
    if b.len() > 0 {
        let ab = a + b;
        assert(ab.drop_last() =~= a + b.drop_last());
        assert(all_digits(a + b.drop_last())) by {
            assert forall|i: int| 0 <= i < (a + b.drop_last()).len() implies is_digit(
                #[trigger] (a + b.drop_last())[i],
            ) by {
                assert((a + b.drop_last())[i] == ab[i]);
            }
        }
        lemma_value_prefix(a, b.drop_last());
        assert(is_digit(ab[ab.len() - 1]));
    }
}

/// Leading zeros do not change a digit run's value.
pub proof fn lemma_value_leading_zeros(z: nat, s: Seq<u8>)
    ensures
        digits_value(zeros(z) + s) == digits_value(s),
    decreases s.len(),
{
    if s.len() == 0 {
        assert(zeros(z) + s =~= zeros(z));
        lemma_value_zeros(z);
    } else {
        assert((zeros(z) + s).drop_last() =~= zeros(z) + s.drop_last());
        lemma_value_leading_zeros(z, s.drop_last());
    }
}

proof fn lemma_value_zeros(z: nat)
    ensures
        digits_value(zeros(z)) == 0,
    decreases z,
{
    if z > 0 {
        assert(zeros(z).drop_last() =~= zeros((z - 1) as nat));
        lemma_value_zeros((z - 1) as nat);
    }
}

pub proof fn lemma_nat_digits(n: nat)
    ensures
        all_digits(nat_digits(n)),
        digits_value(nat_digits(n)) == n,
        1 <= nat_digits(n).len() <= n + 1,
    decreases n,
{
    if n < 10 {
        assert(seq![(n + 48) as u8].drop_last() =~= Seq::<u8>::empty());
        lemma_value_push(Seq::<u8>::empty(), (n + 48) as u8);
        assert(seq![(n + 48) as u8] =~= Seq::<u8>::empty().push((n + 48) as u8));
    } else {
        lemma_nat_digits(n / 10);
        lemma_value_push(nat_digits(n / 10), (n % 10 + 48) as u8);
        assert(n == (n / 10) * 10 + n % 10);
    }
}

/// The span before `c` ends at the first `c`, or at the end.
pub proof fn lemma_span_before(s: Seq<u8>, c: u8, k: int)
    requires
        0 <= k <= s.len(),
        forall|j: int| 0 <= j < k ==> s[j] != c,
        k == s.len() || s[k] == c,
    ensures
        span_before(s, c) == k,
    decreases k,
{
    if k > 0 {
        lemma_span_before(s.drop_first(), c, k - 1);
    }
}

/// Where the digits of `s[lo..hi]`, read after those of `pre`, give a number that
/// fits a `u64`, that number; else `None`.
pub(crate) fn fold_digits(s: &[u8], lo: usize, hi: usize, acc: u64, Ghost(pre): Ghost<Seq<u8>>) -> (r:
    Option<u64>)
    requires
        lo <= hi <= s@.len(),
        acc == digits_value(pre),
        all_digits(pre + s@.subrange(lo as int, hi as int)),
    ensures
        ({
            let v = digits_value(pre + s@.subrange(lo as int, hi as int));
            r == if v <= u64::MAX {
                Some(v as u64)
            } else {
                None::<u64>
            }
        }),
{
    let ghost whole = pre + s@.subrange(lo as int, hi as int);
    let mut acc = acc;
    let mut i = lo;
    while i < hi
        invariant
            lo <= i <= hi <= s@.len(),
            whole == pre + s@.subrange(lo as int, hi as int),
            all_digits(whole),
            acc == digits_value(pre + s@.subrange(lo as int, i as int)),
        decreases hi - i,
    {
        let ghost before = pre + s@.subrange(lo as int, i as int);
        let ghost after = pre + s@.subrange(lo as int, i + 1);
        assert(after =~= before.push(s@[i as int]));
        assert(whole =~= after + s@.subrange(i + 1, hi as int));
        assert(whole[before.len() as int] == s@[i as int]);
        proof {
            lemma_value_push(before, s[i as int]);
            lemma_value_prefix(after, s@.subrange(i + 1, hi as int));
        }
        let d = (s[i] - 48) as u64;
        if acc > (u64::MAX - d) / 10 {
            return None;
        }
        acc = acc * 10 + d;
        i = i + 1;
    }
    assert(pre + s@.subrange(lo as int, i as int) =~= whole);
    Some(acc)
}

/// Reads `s[lo..hi]` as a decimal number that fits a `u64`.
pub fn parse_u64(s: &[u8], lo: usize, hi: usize) -> (r: Option<u64>)
    requires
        lo <= hi <= s@.len(),
    ensures
        r == parse_u64_spec(s@.subrange(lo as int, hi as int)),
{
    let ghost t = s@.subrange(lo as int, hi as int);
    if lo == hi {
        return None;
    }
    if !digits_in(s, lo, hi) {
        return None;
    }
    assert(Seq::<u8>::empty() + t =~= t);
    fold_digits(s, lo, hi, 0, Ghost(Seq::empty()))
}

/// Whether every byte of `s[lo..hi]` is a digit.
pub fn digits_in(s: &[u8], lo: usize, hi: usize) -> (r: bool)
    requires
        lo <= hi <= s@.len(),
    ensures
        r == all_digits(s@.subrange(lo as int, hi as int)),
{
    let mut i = lo;
    while i < hi
        invariant
            lo <= i <= hi <= s@.len(),
            forall|j: int| lo <= j < i ==> is_digit(s@[j]),
        decreases hi - i,
    {
        if s[i] < 48 || s[i] > 57 {
            assert(s@.subrange(lo as int, hi as int)[i - lo] == s@[i as int]);
            return false;
        }
        i = i + 1;
    }
    assert forall|j: int| 0 <= j < (hi - lo) implies is_digit(
        #[trigger] s@.subrange(lo as int, hi as int)[j],
    ) by {
        assert(s@.subrange(lo as int, hi as int)[j] == s@[lo + j]);
    }
    true
}

/// The index of the first `c` in `s[lo..hi]`, or `hi` if there is none.
pub fn find_byte(s: &[u8], lo: usize, hi: usize, c: u8) -> (r: usize)
    requires
        lo <= hi <= s@.len(),
    ensures
        lo <= r <= hi,
        r - lo == span_before(s@.subrange(lo as int, hi as int), c),
{
    let mut i = lo;
    while i < hi && s[i] != c
        invariant
            lo <= i <= hi <= s@.len(),
            forall|j: int| lo <= j < i ==> s@[j] != c,
        decreases hi - i,
    {
        i = i + 1;
    }
    let ghost t = s@.subrange(lo as int, hi as int);
    proof {
        lemma_span_before(t, c, i - lo);
    }
    i
}

/// The bounds of `s` without the white space at either end.
pub fn trim_bounds(s: &[u8]) -> (r: (usize, usize))
    ensures
        r.0 <= r.1 <= s@.len(),
        s@.subrange(r.0 as int, r.1 as int) == trim(s@),
{
    let n = s.len();
    let mut lo: usize = 0;
    assert(s@.subrange(0, n as int) =~= s@);
    while lo < n && (s[lo] == 32 || (9 <= s[lo] && s[lo] <= 13))
        invariant
            lo <= n == s@.len(),
            trim_start(s@) == trim_start(s@.subrange(lo as int, n as int)),
        decreases n - lo,
    {
        assert(s@.subrange(lo as int, n as int).drop_first() =~= s@.subrange(lo + 1, n as int));
        lo = lo + 1;
    }
    let mut hi: usize = n;
    while hi > lo && (s[hi - 1] == 32 || (9 <= s[hi - 1] && s[hi - 1] <= 13))
        invariant
            lo <= hi <= n == s@.len(),
            trim_start(s@) == s@.subrange(lo as int, n as int),
            trim(s@) == trim_end(s@.subrange(lo as int, hi as int)),
        decreases hi,
    {
        assert(s@.subrange(lo as int, hi as int).drop_last() =~= s@.subrange(lo as int, hi - 1));
        hi = hi - 1;
    }
    (lo, hi)
}

/// Appends the shortest decimal writing of `n`.
pub fn write_u64(n: u64, out: &mut Vec<u8>)
    ensures
        final(out)@ == old(out)@ + nat_digits(n as nat),
    decreases n,
{
    if n >= 10 {
        write_u64(n / 10, out);
    }
    out.push((n % 10 + 48) as u8);
    assert(final(out)@ =~= old(out)@ + nat_digits(n as nat));
}

} // verus!
