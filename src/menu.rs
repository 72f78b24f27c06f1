//! The menu: which choice a typed line makes, how the records are shown, and the
//! step from one state of the menu to the next.

use vstd::prelude::*;
use vstd::string::StringSliceAdditionalSpecFns;
use crate::digits::{nat_digits, trim, trim_bounds, write_u64};
use crate::store::{after_typed, all_positive, record_new_weight, typed_result, RecordStore};
use crate::weight::{weight_text, WeightEntry};

verus! {

/// What a line typed at the menu asks for.
#[derive(Clone, Copy, Debug, PartialEq, Eq, Structural)]
pub enum MenuChoice {
    RecordWeight,
    ShowRecords,
    Exit,
}

/// Where the menu stands: waiting for a choice, waiting for a weight, or done.
#[derive(Clone, Copy, Debug, PartialEq, Eq, Structural)]
pub enum Mode {
    Menu,
    AwaitingWeight,
    Done,
}

/// What the caller does after a step: ask for a weight, show the given text, report
/// the entry just recorded, report input that is not a weight above zero, or end
/// the program with the given exit code.
#[derive(Debug, PartialEq, Eq)]
pub enum Action {
    PromptWeight,
    ShowRecords(Vec<u8>),
    Recorded(WeightEntry),
    InvalidInput,
    Exit(i32),
}

/// "1" records a weight, "2" shows the records, anything else ends the menu; white
/// space around the choice is ignored.
pub open spec fn choice_of(line: Seq<u8>) -> MenuChoice {
    if trim(line) == seq![49u8] {
        MenuChoice::RecordWeight
    } else if trim(line) == seq![50u8] {
        MenuChoice::ShowRecords
    } else {
        MenuChoice::Exit
    }
}

/// " kg at "
pub open spec fn kg_at() -> Seq<u8> {
    seq![32u8, 107, 103, 32, 97, 116, 32]
}

/// "No records yet.\n"
pub open spec fn no_records() -> Seq<u8> {
    seq![78u8, 111, 32, 114, 101, 99, 111, 114, 100, 115, 32, 121, 101, 116, 46, 10]
}

/// How one entry is shown: its weight, " kg at ", its timestamp, a line feed.
pub open spec fn listing_line(e: WeightEntry) -> Seq<u8> {
    weight_text(e.value) + kg_at() + nat_digits(e.timestamp as nat) + seq![10u8]
}

pub open spec fn listing_lines(s: Seq<WeightEntry>) -> Seq<u8>
    decreases s.len(),
{
    if s.len() == 0 {
        Seq::empty()
    } else {
        listing_lines(s.drop_last()) + listing_line(s.last())
    }
}

/// How the records are shown: a line per entry in order, or a note that there are
/// none.
pub open spec fn listing(s: Seq<WeightEntry>) -> Seq<u8> {
    if s.len() == 0 {
        no_records()
    } else {
        listing_lines(s)
    }
}

/// The choice that a typed line makes.
pub fn parse_choice(line: &str) -> (r: MenuChoice)
    ensures
        r == choice_of(line.spec_bytes()),
{
    let bytes = line.as_bytes();
    let (lo, hi) = trim_bounds(bytes);
    let ghost t = bytes@.subrange(lo as int, hi as int);
    if hi - lo == 1 && bytes[lo] == 49 {
        assert(t =~= seq![49u8]);
        MenuChoice::RecordWeight
    } else if hi - lo == 1 && bytes[lo] == 50 {
        assert(t =~= seq![50u8]);
        MenuChoice::ShowRecords
    } else {
        assert(t != seq![49u8]) by {
            if t.len() == 1 {
                assert(t[0] == bytes@[lo as int]);
            }
        }
        assert(t != seq![50u8]) by {
            if t.len() == 1 {
                assert(t[0] == bytes@[lo as int]);
            }
        }
        MenuChoice::Exit
    }
}

/// Appends how `e` is shown.
fn write_listing_line(e: WeightEntry, out: &mut Vec<u8>)
    ensures
        final(out)@ == old(out)@ + listing_line(e),
{
    e.value.write_to(out);
    let ghost a = out@;
    out.push(32);
    out.push(107);
    out.push(103);
    out.push(32);
    out.push(97);
    out.push(116);
    out.push(32);
    assert(out@ =~= a + kg_at());
    let ghost b = out@;
    write_u64(e.timestamp, out);
    out.push(10);
    assert(out@ =~= b + nat_digits(e.timestamp as nat) + seq![10u8]);
    assert(out@ =~= old(out)@ + listing_line(e));
}

/// The text that shows every record of `store`, in order.
pub fn show_all_records(store: &RecordStore) -> (r: Vec<u8>)
    ensures
        r@ == listing(store@),
{
    let mut out: Vec<u8> = Vec::new();
    let n = store.len();
    if n == 0 {
        out.push(78);
        out.push(111);
        out.push(32);
        out.push(114);
        out.push(101);
        out.push(99);
        out.push(111);
        out.push(114);
        out.push(100);
        out.push(115);
        out.push(32);
        out.push(121);
        out.push(101);
        out.push(116);
        out.push(46);
        out.push(10);
        assert(out@ =~= no_records());
        return out;
    }
    let mut i: usize = 0;
    assert(store@.subrange(0, 0) =~= Seq::<WeightEntry>::empty());
    while i < n
        invariant
            i <= n == store@.len(),
            out@ == listing_lines(store@.subrange(0, i as int)),
        decreases n - i,
    {
        let e = store.get(i);
        write_listing_line(e, &mut out);
        let ghost next = store@.subrange(0, i + 1);
        assert(next.drop_last() =~= store@.subrange(0, i as int));
        i = i + 1;
    }
    assert(store@.subrange(0, n as int) =~= store@);
    out
}

/// The menu and the store that it records into.
pub struct Controller {
    mode: Mode,
    store: RecordStore,
}

impl View for Controller {
    type V = (Mode, Seq<WeightEntry>);

    closed spec fn view(&self) -> (Mode, Seq<WeightEntry>) {
        (self.mode, self.store@)
    }
}

impl Controller {
    pub open spec fn wf(&self) -> bool {
        all_positive(self@.1)
    }

    /// A menu that waits for a choice, over `store`.
    pub fn new(store: RecordStore) -> (r: Controller)
        requires
            store.wf(),
        ensures
            r@ == (Mode::Menu, store@),
            r.wf(),
    {
        Controller { mode: Mode::Menu, store }
    }

    pub fn mode(&self) -> (r: Mode)
        ensures
            r == self@.0,
    {
        self.mode
    }

    pub fn store(&self) -> (r: &RecordStore)
        ensures
            r@ == self@.1,
            r.wf() == self.wf(),
    {
        &self.store
    }

    /// Takes one typed line, read at second `now`, and says what to do next.
    ///
    /// At the menu, "1" asks for a weight, "2" shows the records and stays, and
    /// anything else ends with exit code 0; none of these changes the store. A
    /// line typed as a weight is recorded where it is a number above zero, and is
    /// reported as invalid, with the store unchanged, otherwise; either way the
    /// menu comes back. Once done, the menu stays done.
    pub fn handle(&mut self, line: &str, now: u64) -> (r: Action)
        requires
            old(self).wf(),
        ensures
            final(self).wf(),
            match old(self)@.0 {
                Mode::Menu => match choice_of(line.spec_bytes()) {
                    MenuChoice::RecordWeight => final(self)@ == (Mode::AwaitingWeight, old(self)@.1)
                        && r == Action::PromptWeight,
                    MenuChoice::ShowRecords => final(self)@ == old(self)@
                        && (r matches Action::ShowRecords(t) && t@ == listing(old(self)@.1)),
                    MenuChoice::Exit => final(self)@ == (Mode::Done, old(self)@.1)
                        && r == Action::Exit(0),
                },
                Mode::AwaitingWeight => final(self)@ == (
                    Mode::Menu,
                    after_typed(old(self)@.1, line.spec_bytes(), now),
                ) && r == match typed_result(line.spec_bytes(), now) {
                    Ok(e) => Action::Recorded(e),
                    Err(_) => Action::InvalidInput,
                },
                Mode::Done => final(self)@ == old(self)@ && r == Action::Exit(0),
            },
    {
        match self.mode {
            Mode::Menu => match parse_choice(line) {
                MenuChoice::RecordWeight => {
                    self.mode = Mode::AwaitingWeight;
                    Action::PromptWeight
                },
                MenuChoice::ShowRecords => Action::ShowRecords(show_all_records(&self.store)),
                MenuChoice::Exit => {
                    self.mode = Mode::Done;
                    Action::Exit(0)
                },
            },
            Mode::AwaitingWeight => {
                self.mode = Mode::Menu;
                match record_new_weight(&mut self.store, line, now) {
                    Ok(e) => Action::Recorded(e),
                    Err(_) => Action::InvalidInput,
                }
            },
            Mode::Done => Action::Exit(0),
        }
    }
}

} // verus!
