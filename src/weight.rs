//! A weight as an exact decimal, one timestamped measurement of it, and the
//! decimal text that both are read from and written as.

use vstd::prelude::*;
use crate::digits::{
    all_digits, digits_in, digits_value, find_byte, fold_digits, is_digit, lemma_nat_digits,
    lemma_span_before, lemma_value_leading_zeros, lemma_value_prefix, nat_digits, span_before, write_u64, zeros,
};

verus! {

/// A non-negative decimal number: `mantissa / 10^scale`, kept as it was written
/// (`70.50` has mantissa 7050 and scale 2).
#[derive(Clone, Copy, Debug, PartialEq, Eq, Structural)]
pub struct Weight {
    pub mantissa: u64,
    pub scale: u32,
}

/// One measurement: a weight and the second (since the Unix epoch) at which it was
/// taken.
#[derive(Clone, Copy, Debug, PartialEq, Eq, Structural)]
pub struct WeightEntry {
    pub value: Weight,
    pub timestamp: u64,
}

pub const DOT: u8 = 46;

pub open spec fn is_positive(w: Weight) -> bool {
    w.mantissa > 0
}

/// The digits after the point, with the point, or nothing when there are none.
pub open spec fn fraction_text(f: Seq<u8>) -> Seq<u8> {
    if f.len() == 0 {
        Seq::empty()
    } else {
        seq![DOT] + f
    }
}

/// How a weight is written: the integer digits (at least one, no extra leading
/// zero), then, where the scale is not zero, a point and exactly `scale` digits.
pub open spec fn weight_text(w: Weight) -> Seq<u8> {
    let d = nat_digits(w.mantissa as nat);
    let sc = w.scale as nat;
    if d.len() > sc {
        d.subrange(0, d.len() - sc) + fraction_text(d.subrange(d.len() - sc, d.len() as int))
    } else {
        seq![48u8] + fraction_text(zeros((sc - d.len()) as nat) + d)
    }
}

/// The weight that `s` writes: decimal digits with at most one point among them and
/// at least one digit in all (`70`, `70.5`, `.5`, `70.`). The digits, read without
/// the point, give the mantissa and must fit a `u64`; those after the point count
/// as the scale.
pub open spec fn parse_weight_spec(s: Seq<u8>) -> Option<Weight> {
    let k = span_before(s, DOT) as int;
    let whole = s.subrange(0, k);
    let frac = if k < s.len() {
        s.subrange(k + 1, s.len() as int)
    } else {
        Seq::empty()
    };
    let digits = whole + frac;
    if digits.len() > 0 && all_digits(digits) && digits_value(digits) <= u64::MAX && frac.len()
        <= u32::MAX {
        Some(Weight { mantissa: digits_value(digits) as u64, scale: frac.len() as u32 })
    } else {
        None
    }
}

proof fn lemma_all_digits_concat(a: Seq<u8>, b: Seq<u8>)
    ensures
        all_digits(a + b) <==> all_digits(a) && all_digits(b),
{
    if all_digits(a + b) {
        assert forall|i: int| 0 <= i < a.len() implies is_digit(#[trigger] a[i]) by {
            assert((a + b)[i] == a[i]);
        }
        assert forall|i: int| 0 <= i < b.len() implies is_digit(#[trigger] b[i]) by {
            assert((a + b)[a.len() + i] == b[i]);
        }
    }
    if all_digits(a) && all_digits(b) {
        assert forall|i: int| 0 <= i < (a + b).len() implies is_digit(#[trigger] (a + b)[i]) by {
            if i >= a.len() {
                assert((a + b)[i] == b[i - a.len()]);
            }
        }
    }
}

/// Appends `src[lo..hi]`.
fn copy_range(src: &Vec<u8>, lo: usize, hi: usize, out: &mut Vec<u8>)
    requires
        lo <= hi <= src@.len(),
    ensures
        final(out)@ == old(out)@ + src@.subrange(lo as int, hi as int),
{
    let mut i = lo;
    while i < hi
        invariant
            lo <= i <= hi <= src@.len(),
            out@ == old(out)@ + src@.subrange(lo as int, i as int),
        decreases hi - i,
    {
        out.push(src[i]);
        assert(src@.subrange(lo as int, i + 1) =~= src@.subrange(lo as int, i as int).push(
            src@[i as int],
        ));
        assert(out@ =~= old(out)@ + src@.subrange(lo as int, i as int + 1));
        i = i + 1;
    }
}

/// Appends `n` zero digits.
fn push_zeros(n: usize, out: &mut Vec<u8>)
    ensures
        final(out)@ == old(out)@ + zeros(n as nat),
{
    let mut i: usize = 0;
    while i < n
        invariant
            i <= n,
            out@ == old(out)@ + zeros(i as nat),
        decreases n - i,
    {
        out.push(48);
        assert(out@ =~= old(out)@ + zeros((i + 1) as nat));
        i = i + 1;
    }
}

/// Every byte of a weight's writing is a digit or the point, and there is at least
/// one.
pub proof fn lemma_weight_text_bytes(w: Weight)
    ensures
        weight_text(w).len() > 0,
        forall|i: int|
            0 <= i < weight_text(w).len() ==> is_digit(#[trigger] weight_text(w)[i])
                || weight_text(w)[i] == DOT,
{
    let d = nat_digits(w.mantissa as nat);
    lemma_nat_digits(w.mantissa as nat);
    let sc = w.scale as nat;
    if d.len() > sc {
        let a = d.subrange(0, d.len() - sc);
        let b = d.subrange(d.len() - sc, d.len() as int);
        assert forall|i: int| 0 <= i < weight_text(w).len() implies is_digit(
            #[trigger] weight_text(w)[i],
        ) || weight_text(w)[i] == DOT by {
            if i < a.len() {
                assert(weight_text(w)[i] == d[i]);
            } else if i > a.len() {
                assert(weight_text(w)[i] == d[i - 1]);
            }
        }
    } else {
        let f = zeros((sc - d.len()) as nat) + d;
        assert forall|i: int| 0 <= i < weight_text(w).len() implies is_digit(
            #[trigger] weight_text(w)[i],
        ) || weight_text(w)[i] == DOT by {
            if i >= 2 {
                assert(weight_text(w)[i] == f[i - 2]);
                if i - 2 >= sc - d.len() {
                    assert(f[i - 2] == d[i - 2 - (sc - d.len())]);
                }
            }
        }
    }
}

/// Reading a weight's writing gives that weight back.
pub proof fn lemma_parse_weight_text(w: Weight)
    ensures
        parse_weight_spec(weight_text(w)) == Some(w),
{
    let t = weight_text(w);
    let d = nat_digits(w.mantissa as nat);
    lemma_nat_digits(w.mantissa as nat);
    let n = d.len();
    let sc = w.scale as nat;
    assert forall|j: int| 0 <= j < n implies d[j] != DOT by {
        assert(is_digit(d[j]));
    }
    if n > sc {
        let a = d.subrange(0, n - sc);
        let b = d.subrange(n - sc, n as int);
        if sc == 0 {
            assert(t =~= d);
            lemma_span_before(t, DOT, n as int);
            assert(t.subrange(0, n as int) + Seq::<u8>::empty() =~= d);
        } else {
            assert(t =~= a + (seq![DOT] + b));
            lemma_span_before(t, DOT, a.len() as int);
            assert(t.subrange(0, a.len() as int) =~= a);
            assert(t.subrange(a.len() as int + 1, t.len() as int) =~= b);
            assert(a + b =~= d);
        }
    } else {
        let z = zeros((sc - n) as nat);
        let f = z + d;
        assert(t =~= seq![48u8] + (seq![DOT] + f));
        lemma_span_before(t, DOT, 1);
        assert(t.subrange(0, 1) =~= seq![48u8]);
        assert(t.subrange(2, t.len() as int) =~= f);
        assert(seq![48u8] + f =~= zeros((sc - n + 1) as nat) + d);
        lemma_value_leading_zeros((sc - n + 1) as nat, d);
        assert forall|i: int| 0 <= i < (seq![48u8] + f).len() implies is_digit(
            #[trigger] (seq![48u8] + f)[i],
        ) by {
            if i >= 1 + z.len() {
                assert((seq![48u8] + f)[i] == d[i - 1 - z.len()]);
            }
        }
    }
}

impl Weight {
    /// Reads `s[lo..hi]` as a weight.
    pub fn parse_range(s: &[u8], lo: usize, hi: usize) -> (r: Option<Weight>)
        requires
            lo <= hi <= s@.len(),
        ensures
            r == parse_weight_spec(s@.subrange(lo as int, hi as int)),
    {
        let ghost t = s@.subrange(lo as int, hi as int);
        let k = find_byte(s, lo, hi, DOT);
        let ghost kk = k - lo;
        let ghost whole = t.subrange(0, kk);
        assert(whole =~= s@.subrange(lo as int, k as int));
        if k == hi {
            assert(whole + Seq::<u8>::empty() =~= t);
            if lo == hi || !digits_in(s, lo, hi) {
                return None;
            }
            assert(Seq::<u8>::empty() + t =~= t);
            match fold_digits(s, lo, hi, 0, Ghost(Seq::empty())) {
                Some(m) => Some(Weight { mantissa: m, scale: 0 }),
                None => None,
            }
        } else {
            let ghost frac = t.subrange(kk + 1, t.len() as int);
            assert(frac =~= s@.subrange(k + 1, hi as int));
            proof {
                lemma_all_digits_concat(whole, frac);
            }
            if (lo == k && k + 1 == hi) || !digits_in(s, lo, k) || !digits_in(s, k + 1, hi) {
                return None;
            }
            if hi - (k + 1) > u32::MAX as usize {
                return None;
            }
            assert(Seq::<u8>::empty() + whole =~= whole);
            match fold_digits(s, lo, k, 0, Ghost(Seq::empty())) {
                Some(w) => {
                    match fold_digits(s, k + 1, hi, w, Ghost(whole)) {
                        Some(m) => Some(Weight { mantissa: m, scale: (hi - (k + 1)) as u32 }),
                        None => None,
                    }
                },
                None => {
                    proof {
                        lemma_value_prefix(whole, frac);
                    }
                    None
                },
            }
        }
    }

    /// Reads the whole of `s` as a weight.
    pub fn parse(s: &[u8]) -> (r: Option<Weight>)
        ensures
            r == parse_weight_spec(s@),
    {
        assert(s@.subrange(0, s@.len() as int) =~= s@);
        Weight::parse_range(s, 0, s.len())
    }

    pub fn is_positive(&self) -> (r: bool)
        ensures
            r == is_positive(*self),
    {
        self.mantissa > 0
    }

    /// Appends the writing of this weight.
    pub fn write_to(&self, out: &mut Vec<u8>)
        ensures
            final(out)@ == old(out)@ + weight_text(*self),
    {
        let mut d: Vec<u8> = Vec::new();
        write_u64(self.mantissa, &mut d);
        assert(d@ =~= nat_digits(self.mantissa as nat));
        proof {
            lemma_nat_digits(self.mantissa as nat);
        }
        let n = d.len();
        let sc = self.scale as usize;
        if n > sc {
            copy_range(&d, 0, n - sc, out);
            if sc > 0 {
                out.push(DOT);
                copy_range(&d, n - sc, n, out);
            }
            assert(final(out)@ =~= old(out)@ + weight_text(*self));
        } else {
            out.push(48);
            out.push(DOT);
            push_zeros(sc - n, out);
            copy_range(&d, 0, n, out);
            assert(d@.subrange(0, n as int) =~= d@);
            assert(final(out)@ =~= old(out)@ + weight_text(*self));
        }
    }

    /// The writing of this weight, as ASCII bytes.
    pub fn to_text(&self) -> (r: Vec<u8>)
        ensures
            r@ == weight_text(*self),
    {
        let mut out: Vec<u8> = Vec::new();
        self.write_to(&mut out);
        assert(out@ =~= weight_text(*self));
        out
    }
}

} // verus!
