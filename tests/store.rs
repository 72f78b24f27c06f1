use weight_tracker::store::{record_new_weight, RecordStore, StoreError};
use weight_tracker::weight::{Weight, WeightEntry};

fn w(mantissa: u64, scale: u32) -> Weight {
    Weight { mantissa, scale }
}

fn values(store: &RecordStore) -> Vec<Weight> {
    store.list().iter().map(|e| e.value).collect()
}

#[test]
fn add_then_list_ends_with_value() {
    let mut store = RecordStore::new();
    store.add(w(800, 1), 10).unwrap();
    let e = store.add(w(705, 1), 20).unwrap();
    assert_eq!(e, WeightEntry { value: w(705, 1), timestamp: 20 });
    let list = store.list();
    assert_eq!(list.len(), 2);
    assert_eq!(list[1].value, w(705, 1));
    assert_eq!(list[1].timestamp, 20);
}

#[test]
fn add_zero_is_invalid_and_keeps_store() {
    let mut store = RecordStore::new();
    store.add(w(705, 1), 1).unwrap();
    assert_eq!(store.add(w(0, 0), 2), Err(StoreError::InvalidValue));
    assert_eq!(store.add(w(0, 3), 3), Err(StoreError::InvalidValue));
    assert_eq!(values(&store), vec![w(705, 1)]);
}

#[test]
fn typed_non_numbers_are_invalid() {
    let mut store = RecordStore::new();
    for input in ["abc", "", "  ", "-5", "0", "0.000", "1.2.3", "7e1", ".", "12a", "18446744073709551616"] {
        assert_eq!(record_new_weight(&mut store, input, 5), Err(StoreError::InvalidValue), "{}", input);
    }
    assert!(store.list().is_empty());
}

#[test]
fn typed_weights_are_read_exactly() {
    let mut store = RecordStore::new();
    assert_eq!(record_new_weight(&mut store, "70.5\n", 1).unwrap().value, w(705, 1));
    assert_eq!(record_new_weight(&mut store, "  70.50 ", 2).unwrap().value, w(7050, 2));
    assert_eq!(record_new_weight(&mut store, ".5", 3).unwrap().value, w(5, 1));
    assert_eq!(record_new_weight(&mut store, "80.", 4).unwrap().value, w(80, 0));
    assert_eq!(record_new_weight(&mut store, "0072", 5).unwrap().value, w(72, 0));
    assert_eq!(
        record_new_weight(&mut store, "18446744073709551615", 6).unwrap().value,
        w(u64::MAX, 0)
    );
    assert_eq!(store.len(), 6);
}

#[test]
fn two_adds_listed_in_order() {
    let mut store = RecordStore::new();
    record_new_weight(&mut store, "70.5", 100).unwrap();
    record_new_weight(&mut store, "71.2", 200).unwrap();
    assert_eq!(
        store.list(),
        vec![
            WeightEntry { value: w(705, 1), timestamp: 100 },
            WeightEntry { value: w(712, 1), timestamp: 200 },
        ]
    );
}

#[test]
fn fresh_store_lists_nothing() {
    assert!(RecordStore::new().list().is_empty());
    assert!(RecordStore::load(None).unwrap().list().is_empty());
    assert!(RecordStore::from_bytes(b"").unwrap().list().is_empty());
}
