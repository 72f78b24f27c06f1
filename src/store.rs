//! The record store: an append-only, ordered list of measurements whose weights
//! are all above zero.

use vstd::prelude::*;
use vstd::string::StringSliceAdditionalSpecFns;
use crate::digits::{trim, trim_bounds};
use crate::weight::{is_positive, parse_weight_spec, Weight, WeightEntry};

verus! {

/// Why an operation of the store failed.
#[derive(Clone, Copy, Debug, PartialEq, Eq, Structural)]
pub enum StoreError {
    /// A weight that is not a number, or not above zero.
    InvalidValue,
    /// Stored text that does not have the shape of a list of records.
    CorruptData,
}

/// The measurements, in the order in which they were added.
pub struct RecordStore {
    entries: Vec<WeightEntry>,
}

/// Every weight in `s` is above zero.
pub open spec fn all_positive(s: Seq<WeightEntry>) -> bool {
    forall|i: int| 0 <= i < s.len() ==> is_positive(#[trigger] s[i].value)
}

/// The entry that `add` stores.
pub open spec fn new_entry(w: Weight, timestamp: u64) -> WeightEntry {
    WeightEntry { value: w, timestamp }
}

/// The entries after adding `w` at `timestamp`: one more at the end where `w` is
/// above zero, the same ones otherwise.
pub open spec fn after_add(s: Seq<WeightEntry>, w: Weight, timestamp: u64) -> Seq<WeightEntry> {
    if is_positive(w) {
        s.push(new_entry(w, timestamp))
    } else {
        s
    }
}

/// The weight that a line typed by the user gives, white space around it aside.
pub open spec fn typed_weight(input: Seq<u8>) -> Option<Weight> {
    parse_weight_spec(trim(input))
}

/// The entries after the user typed `input` as a weight: it is added where it reads
/// as a weight above zero; otherwise nothing changes.
pub open spec fn after_typed(s: Seq<WeightEntry>, input: Seq<u8>, timestamp: u64) -> Seq<
    WeightEntry,
> {
    match typed_weight(input) {
        Some(w) => after_add(s, w, timestamp),
        None => s,
    }
}

/// What adding `w` returns: the new entry, or `InvalidValue` where `w` is not above
/// zero.
pub open spec fn add_result(w: Weight, timestamp: u64) -> Result<WeightEntry, StoreError> {
    if is_positive(w) {
        Ok(new_entry(w, timestamp))
    } else {
        Err(StoreError::InvalidValue)
    }
}

/// What recording the typed `input` returns.
pub open spec fn typed_result(input: Seq<u8>, timestamp: u64) -> Result<WeightEntry, StoreError> {
    match typed_weight(input) {
        Some(w) => add_result(w, timestamp),
        None => Err(StoreError::InvalidValue),
    }
}

/// Adding a weight above zero puts it last, after the entries that were there.
pub proof fn lemma_add_then_list(s: Seq<WeightEntry>, w: Weight, timestamp: u64)
    requires
        is_positive(w),
    ensures
        after_add(s, w, timestamp).len() == s.len() + 1,
        after_add(s, w, timestamp).last().value == w,
        after_add(s, w, timestamp).subrange(0, s.len() as int) == s,
        add_result(w, timestamp) == Ok::<WeightEntry, StoreError>(after_add(s, w, timestamp).last()),
{
    assert(after_add(s, w, timestamp).subrange(0, s.len() as int) =~= s);
}

/// A weight that is not above zero is refused with `InvalidValue` and leaves the
/// entries as they were.
pub proof fn lemma_rejected_add_keeps(s: Seq<WeightEntry>, w: Weight, timestamp: u64)
    requires
        !is_positive(w),
    ensures
        after_add(s, w, timestamp) == s,
        add_result(w, timestamp) == Err::<WeightEntry, StoreError>(StoreError::InvalidValue),
{
}

/// Typed text that is not a number, or is not above zero, is refused with
/// `InvalidValue` and leaves the entries as they were.
pub proof fn lemma_rejected_typed_keeps(s: Seq<WeightEntry>, input: Seq<u8>, timestamp: u64)
    requires
        match typed_weight(input) {
            Some(w) => !is_positive(w),
            None => true,
        },
    ensures
        after_typed(s, input, timestamp) == s,
        typed_result(input, timestamp) == Err::<WeightEntry, StoreError>(StoreError::InvalidValue),
{
}

impl View for RecordStore {
    type V = Seq<WeightEntry>;

    closed spec fn view(&self) -> Seq<WeightEntry> {
        self.entries@
    }
}

impl RecordStore {
    /// The store never holds a weight that is not above zero.
    pub open spec fn wf(&self) -> bool {
        all_positive(self@)
    }

    /// Wraps entries that are known to be above zero.
    pub(crate) fn from_entries(entries: Vec<WeightEntry>) -> (r: RecordStore)
        requires
            all_positive(entries@),
        ensures
            r@ == entries@,
            r.wf(),
    {
        RecordStore { entries }
    }

    /// An empty store.
    pub fn new() -> (r: RecordStore)
        ensures
            r@ == Seq::<WeightEntry>::empty(),
            r.wf(),
    {
        RecordStore { entries: Vec::new() }
    }

    /// Appends a measurement of `value` taken at `timestamp`, and returns it; fails
    /// with `InvalidValue`, leaving the store as it was, where `value` is zero.
    pub fn add(&mut self, value: Weight, timestamp: u64) -> (r: Result<WeightEntry, StoreError>)
        requires
            old(self).wf(),
        ensures
            final(self).wf(),
            final(self)@ == after_add(old(self)@, value, timestamp),
            r == add_result(value, timestamp),
    {
        if !value.is_positive() {
            return Err(StoreError::InvalidValue);
        }
        let e = WeightEntry { value, timestamp };
        self.entries.push(e);
        assert(forall|i: int|
            0 <= i < old(self)@.len() ==> #[trigger] self@[i] == old(self)@[i]);
        Ok(e)
    }

    /// Every entry, in the order in which they were added.
    pub fn list(&self) -> (r: Vec<WeightEntry>)
        ensures
            r@ == self@,
    {
        let mut out: Vec<WeightEntry> = Vec::new();
        let mut i: usize = 0;
        while i < self.entries.len()
            invariant
                i <= self.entries@.len(),
                out@ == self.entries@.subrange(0, i as int),
            decreases self.entries@.len() - i,
        {
            out.push(self.entries[i]);
            assert(out@ =~= self.entries@.subrange(0, i + 1));
            i = i + 1;
        }
        assert(out@ =~= self.entries@);
        out
    }

    /// The number of entries.
    pub fn len(&self) -> (r: usize)
        ensures
            r == self@.len(),
    {
        self.entries.len()
    }

    /// The entry at `i`, in the order of adding.
    pub fn get(&self, i: usize) -> (r: WeightEntry)
        requires
            i < self@.len(),
        ensures
            r == self@[i as int],
    {
        self.entries[i]
    }
}

/// Records the weight that the user typed as `input` (white space around it is
/// ignored), taken at `timestamp`. Where `input` is not a decimal number above zero
/// the store stays as it was and `InvalidValue` comes back.
pub fn record_new_weight(store: &mut RecordStore, input: &str, timestamp: u64) -> (r: Result<
    WeightEntry,
    StoreError,
>)
    requires
        old(store).wf(),
    ensures
        final(store).wf(),
        final(store)@ == after_typed(old(store)@, input.spec_bytes(), timestamp),
        r == typed_result(input.spec_bytes(), timestamp),
{
    let bytes = input.as_bytes();
    let (lo, hi) = trim_bounds(bytes);
    match Weight::parse_range(bytes, lo, hi) {
        Some(w) => store.add(w, timestamp),
        None => Err(StoreError::InvalidValue),
    }
}

} // verus!
