//! The text in which a store is kept: one line per entry, in order, each the
//! weight's decimal writing, a space, the timestamp in decimal, and a line feed.

use vstd::prelude::*;
use crate::digits::{
    find_byte, is_digit, lemma_nat_digits, lemma_span_before, nat_digits, parse_u64,
    parse_u64_spec, span_before, write_u64,
};
use crate::store::{all_positive, RecordStore, StoreError};
use crate::weight::{
    is_positive, lemma_parse_weight_text, lemma_weight_text_bytes, parse_weight_spec, weight_text,
    Weight, WeightEntry, DOT,
};

verus! {

pub const SPACE: u8 = 32;

pub const NEWLINE: u8 = 10;

/// The line that holds one entry, line feed included.
pub open spec fn record_line(e: WeightEntry) -> Seq<u8> {
    weight_text(e.value) + seq![SPACE] + nat_digits(e.timestamp as nat) + seq![NEWLINE]
}

/// The text that holds `s`: its lines in order.
pub open spec fn encode_records(s: Seq<WeightEntry>) -> Seq<u8>
    decreases s.len(),
{
    if s.len() == 0 {
        Seq::empty()
    } else {
        record_line(s[0]) + encode_records(s.drop_first())
    }
}

/// The entry that a line (without its line feed) holds: a weight above zero, one
/// space, and a timestamp that fits a `u64`.
pub open spec fn parse_record_spec(l: Seq<u8>) -> Option<WeightEntry> {
    let k = span_before(l, SPACE) as int;
    if k >= l.len() {
        None
    } else {
        match (parse_weight_spec(l.subrange(0, k)), parse_u64_spec(l.subrange(k + 1, l.len() as int))) {
            (Some(w), Some(ts)) => if is_positive(w) {
                Some(WeightEntry { value: w, timestamp: ts })
            } else {
                None
            },
            _ => None,
        }
    }
}

/// The entries that the text `t` holds, or `None` where some line does not hold an
/// entry or the last line has no line feed.
pub open spec fn decode_records(t: Seq<u8>) -> Option<Seq<WeightEntry>>
    decreases t.len(),
{
    if t.len() == 0 {
        Some(Seq::empty())
    } else {
        let k = span_before(t, NEWLINE) as int;
        if k >= t.len() {
            None
        } else {
            match parse_record_spec(t.subrange(0, k)) {
                None => None,
                Some(e) => match decode_records(t.subrange(k + 1, t.len() as int)) {
                    None => None,
                    Some(rest) => Some(seq![e] + rest),
                },
            }
        }
    }
}

/// `a` in front of what `r` holds, where it holds something.
pub open spec fn prepend(a: Seq<WeightEntry>, r: Option<Seq<WeightEntry>>) -> Option<
    Seq<WeightEntry>,
> {
    match r {
        Some(x) => Some(a + x),
        None => None,
    }
}

proof fn lemma_encode_push(s: Seq<WeightEntry>, e: WeightEntry)
    ensures
        encode_records(s.push(e)) == encode_records(s) + record_line(e),
    decreases s.len(),
{
    if s.len() == 0 {
        assert(s.push(e).drop_first() =~= Seq::<WeightEntry>::empty());
        assert(s.push(e)[0] == e);
        assert(encode_records(Seq::<WeightEntry>::empty()) == Seq::<u8>::empty());
        assert(encode_records(s.push(e)) =~= record_line(e));
        assert(encode_records(s) + record_line(e) =~= record_line(e));
    } else {
        assert(s.push(e).drop_first() =~= s.drop_first().push(e));
        assert(s.push(e)[0] == s[0]);
        lemma_encode_push(s.drop_first(), e);
        assert(encode_records(s.push(e)) =~= encode_records(s) + record_line(e));
    }
}

proof fn lemma_parse_record_line(e: WeightEntry)
    requires
        is_positive(e.value),
    ensures
        parse_record_spec(weight_text(e.value) + seq![SPACE] + nat_digits(e.timestamp as nat))
            == Some(e),
{
    let wt = weight_text(e.value);
    let nd = nat_digits(e.timestamp as nat);
    let l = wt + seq![SPACE] + nd;
    lemma_weight_text_bytes(e.value);
    lemma_nat_digits(e.timestamp as nat);
    lemma_parse_weight_text(e.value);
    assert forall|j: int| 0 <= j < wt.len() implies l[j] != SPACE by {
        assert(l[j] == wt[j]);
        assert(is_digit(wt[j]) || wt[j] == DOT);
    }
    lemma_span_before(l, SPACE, wt.len() as int);
    assert(l.subrange(0, wt.len() as int) =~= wt);
    assert(l.subrange(wt.len() as int + 1, l.len() as int) =~= nd);
}

/// Reading back the text that holds a list of entries above zero gives that list,
/// in the same order, with each weight and timestamp as it was.
pub proof fn lemma_round_trip(s: Seq<WeightEntry>)
    requires
        all_positive(s),
    ensures
        decode_records(encode_records(s)) == Some(s),
    decreases s.len(),
{
    if s.len() > 0 {
        let e = s[0];
        let rest = s.drop_first();
        let body = weight_text(e.value) + seq![SPACE] + nat_digits(e.timestamp as nat);
        let line = record_line(e);
        let t = encode_records(s);
        assert(line =~= body + seq![NEWLINE]);
        assert(t == line + encode_records(rest));
        lemma_weight_text_bytes(e.value);
        lemma_nat_digits(e.timestamp as nat);
        assert forall|j: int| 0 <= j < body.len() implies t[j] != NEWLINE by {
            assert(t[j] == body[j]);
            let wl = weight_text(e.value).len();
            if j < wl {
                assert(body[j] == weight_text(e.value)[j]);
                assert(is_digit(weight_text(e.value)[j]) || weight_text(e.value)[j] == DOT);
            } else if j > wl {
                assert(body[j] == nat_digits(e.timestamp as nat)[j - wl - 1]);
                assert(is_digit(nat_digits(e.timestamp as nat)[j - wl - 1]));
            }
        }
        assert(t[body.len() as int] == NEWLINE);
        lemma_span_before(t, NEWLINE, body.len() as int);
        assert(t.subrange(0, body.len() as int) =~= body);
        lemma_parse_record_line(e);
        assert(t.subrange(body.len() as int + 1, t.len() as int) =~= encode_records(rest));
        assert(all_positive(rest)) by {
            assert forall|i: int| 0 <= i < rest.len() implies is_positive(
                #[trigger] rest[i].value,
            ) by {
                assert(rest[i] == s[i + 1]);
            }
        }
        lemma_round_trip(rest);
        assert(seq![e] + rest =~= s);
    }
}

/// Reads the entry that `t[lo..hi]` holds.
fn parse_record(t: &[u8], lo: usize, hi: usize) -> (r: Option<WeightEntry>)
    requires
        lo <= hi <= t@.len(),
    ensures
        r == parse_record_spec(t@.subrange(lo as int, hi as int)),
{
    let ghost l = t@.subrange(lo as int, hi as int);
    let k = find_byte(t, lo, hi, SPACE);
    if k == hi {
        return None;
    }
    assert(l.subrange(0, k - lo) =~= t@.subrange(lo as int, k as int));
    assert(l.subrange(k - lo + 1, l.len() as int) =~= t@.subrange(k + 1, hi as int));
    let w = Weight::parse_range(t, lo, k);
    let ts = parse_u64(t, k + 1, hi);
    match (w, ts) {
        (Some(w), Some(ts)) => if w.is_positive() {
            Some(WeightEntry { value: w, timestamp: ts })
        } else {
            None
        },
        _ => None,
    }
}

impl RecordStore {
    /// The text that holds this store's entries.
    pub fn to_bytes(&self) -> (r: Vec<u8>)
        ensures
            r@ == encode_records(self@),
    {
        let mut out: Vec<u8> = Vec::new();
        let n = self.len();
        let mut i: usize = 0;
        assert(self@.subrange(0, 0) =~= Seq::<WeightEntry>::empty());
        while i < n
            invariant
                i <= n == self@.len(),
                out@ == encode_records(self@.subrange(0, i as int)),
            decreases n - i,
        {
            let e = self.get(i);
            e.value.write_to(&mut out);
            out.push(SPACE);
            write_u64(e.timestamp, &mut out);
            out.push(NEWLINE);
            proof {
                lemma_encode_push(self@.subrange(0, i as int), e);
                assert(self@.subrange(0, i + 1) =~= self@.subrange(0, i as int).push(e));
            }
            assert(out@ =~= encode_records(self@.subrange(0, i + 1)));
            i = i + 1;
        }
        assert(self@.subrange(0, n as int) =~= self@);
        out
    }

    /// The store that the text `bytes` holds; `CorruptData` where it holds no list
    /// of entries.
    pub fn from_bytes(bytes: &[u8]) -> (r: Result<RecordStore, StoreError>)
        ensures
            match r {
                Ok(st) => decode_records(bytes@) == Some(st@) && st.wf(),
                Err(e) => e == StoreError::CorruptData && decode_records(bytes@) is None,
            },
    {
        let n = bytes.len();
        let mut acc: Vec<WeightEntry> = Vec::new();
        let mut pos: usize = 0;
        assert(bytes@.subrange(0, n as int) =~= bytes@);
        assert(Seq::<WeightEntry>::empty() + Seq::<WeightEntry>::empty() =~= Seq::<WeightEntry>::empty());
        while pos < n
            invariant
                pos <= n == bytes@.len(),
                all_positive(acc@),
                decode_records(bytes@) == prepend(acc@, decode_records(bytes@.subrange(pos as int, n as int))),
            decreases n - pos,
        {
            let ghost rest = bytes@.subrange(pos as int, n as int);
            let e = find_byte(bytes, pos, n, NEWLINE);
            if e == n {
                return Err(StoreError::CorruptData);
            }
            assert(rest.subrange(0, e - pos) =~= bytes@.subrange(pos as int, e as int));
            assert(rest.subrange(e - pos + 1, rest.len() as int) =~= bytes@.subrange(e + 1, n as int));
            match parse_record(bytes, pos, e) {
                None => {
                    return Err(StoreError::CorruptData);
                },
                Some(entry) => {
                    let ghost old_acc = acc@;
                    acc.push(entry);
                    proof {
                        let tail = decode_records(bytes@.subrange(e + 1, n as int));
                        if let Some(x) = tail {
                            assert(old_acc + (seq![entry] + x) =~= acc@ + x);
                        }
                        assert(forall|i: int| 0 <= i < old_acc.len() ==> #[trigger] acc@[i] == old_acc[i]);
                    }
                    pos = e + 1;
                },
            }
        }
        assert(acc@ + Seq::<WeightEntry>::empty() =~= acc@);
        Ok(RecordStore::from_entries(acc))
    }

    /// The store to start from: an empty one where nothing was kept yet, else the
    /// one that the kept text holds.
    pub fn load(kept: Option<&[u8]>) -> (r: Result<RecordStore, StoreError>)
        ensures
            match kept {
                None => r matches Ok(st) && st@ == Seq::<WeightEntry>::empty() && st.wf(),
                Some(bytes) => match r {
                    Ok(st) => decode_records(bytes@) == Some(st@) && st.wf(),
                    Err(e) => e == StoreError::CorruptData && decode_records(bytes@) is None,
                },
            },
    {
        match kept {
            None => Ok(RecordStore::new()),
            Some(bytes) => RecordStore::from_bytes(bytes),
        }
    }
}

} // verus!
