use weight_tracker::menu::{parse_choice, show_all_records, Action, Controller, MenuChoice, Mode};
use weight_tracker::store::RecordStore;
use weight_tracker::weight::{Weight, WeightEntry};

fn w(mantissa: u64, scale: u32) -> Weight {
    Weight { mantissa, scale }
}

#[test]
fn choices() {
    assert_eq!(parse_choice("1"), MenuChoice::RecordWeight);
    assert_eq!(parse_choice(" 1\n"), MenuChoice::RecordWeight);
    assert_eq!(parse_choice("2\r\n"), MenuChoice::ShowRecords);
    assert_eq!(parse_choice("3"), MenuChoice::Exit);
    assert_eq!(parse_choice("0"), MenuChoice::Exit);
    assert_eq!(parse_choice(""), MenuChoice::Exit);
    assert_eq!(parse_choice("12"), MenuChoice::Exit);
}

#[test]
fn listing_text() {
    let mut store = RecordStore::new();
    assert_eq!(show_all_records(&store), b"No records yet.\n".to_vec());
    store.add(w(705, 1), 100).unwrap();
    store.add(w(712, 1), 200).unwrap();
    assert_eq!(show_all_records(&store), b"70.5 kg at 100\n71.2 kg at 200\n".to_vec());
}

#[test]
fn menu_three_exits_with_zero() {
    let mut store = RecordStore::new();
    store.add(w(705, 1), 1).unwrap();
    let mut c = Controller::new(store);
    assert_eq!(c.handle("3\n", 9), Action::Exit(0));
    assert_eq!(c.mode(), Mode::Done);
    assert_eq!(c.store().list(), vec![WeightEntry { value: w(705, 1), timestamp: 1 }]);
    assert_eq!(c.handle("1\n", 10), Action::Exit(0));
    assert_eq!(c.store().len(), 1);
}

#[test]
fn invalid_weight_returns_to_menu() {
    let mut c = Controller::new(RecordStore::new());
    assert_eq!(c.handle("1\n", 1), Action::PromptWeight);
    assert_eq!(c.mode(), Mode::AwaitingWeight);
    assert_eq!(c.handle("abc\n", 2), Action::InvalidInput);
    assert_eq!(c.mode(), Mode::Menu);
    assert!(c.store().list().is_empty());
}

#[test]
fn record_then_show() {
    let mut c = Controller::new(RecordStore::new());
    assert_eq!(c.handle("1", 1), Action::PromptWeight);
    assert_eq!(
        c.handle("70.5\n", 50),
        Action::Recorded(WeightEntry { value: w(705, 1), timestamp: 50 })
    );
    assert_eq!(c.mode(), Mode::Menu);
    assert_eq!(c.handle("2\n", 60), Action::ShowRecords(b"70.5 kg at 50\n".to_vec()));
    assert_eq!(c.mode(), Mode::Menu);
    assert_eq!(c.store().len(), 1);
}
