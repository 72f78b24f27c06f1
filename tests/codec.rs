use weight_tracker::store::{RecordStore, StoreError};
use weight_tracker::weight::{Weight, WeightEntry};

fn w(mantissa: u64, scale: u32) -> Weight {
    Weight { mantissa, scale }
}

#[test]
fn weight_text_is_exact() {
    assert_eq!(w(705, 1).to_text(), b"70.5".to_vec());
    assert_eq!(w(7050, 2).to_text(), b"70.50".to_vec());
    assert_eq!(w(5, 3).to_text(), b"0.005".to_vec());
    assert_eq!(w(72, 0).to_text(), b"72".to_vec());
    assert_eq!(w(0, 0).to_text(), b"0".to_vec());
    assert_eq!(w(12, 2).to_text(), b"0.12".to_vec());
}

#[test]
fn weight_parse() {
    assert_eq!(Weight::parse(b"70.5"), Some(w(705, 1)));
    assert_eq!(Weight::parse(b"0.005"), Some(w(5, 3)));
    assert_eq!(Weight::parse(b"70.5 "), None);
    assert_eq!(Weight::parse(b""), None);
}

#[test]
fn store_round_trips_through_bytes() {
    let mut store = RecordStore::new();
    store.add(w(705, 1), 1700000000).unwrap();
    store.add(w(712, 1), 1700000060).unwrap();
    store.add(w(5, 3), 0).unwrap();
    store.add(w(u64::MAX, 7), u64::MAX).unwrap();
    let bytes = store.to_bytes();
    let back = RecordStore::from_bytes(&bytes).unwrap();
    assert_eq!(back.list(), store.list());
    assert_eq!(RecordStore::load(Some(&bytes)).unwrap().list(), store.list());
}

#[test]
fn store_bytes_layout() {
    let mut store = RecordStore::new();
    store.add(w(705, 1), 1700000000).unwrap();
    store.add(w(5, 3), 7).unwrap();
    assert_eq!(store.to_bytes(), b"70.5 1700000000\n0.005 7\n".to_vec());
    assert_eq!(RecordStore::new().to_bytes(), Vec::<u8>::new());
}

#[test]
fn reads_kept_text() {
    let store = RecordStore::from_bytes(b"70.5 100\n71.2 200\n").unwrap();
    assert_eq!(
        store.list(),
        vec![
            WeightEntry { value: w(705, 1), timestamp: 100 },
            WeightEntry { value: w(712, 1), timestamp: 200 },
        ]
    );
}

#[test]
fn corrupt_text_is_refused() {
    for text in [
        &b"70.5 100"[..],
        b"70.5\n",
        b"abc 1\n",
        b"0 5\n",
        b"70.5 -1\n",
        b"70.5  1\n",
        b"70.5 1\n\n",
        b"70.5 18446744073709551616\n",
    ] {
        assert_eq!(RecordStore::from_bytes(text).err(), Some(StoreError::CorruptData));
    }
    assert_eq!(RecordStore::load(Some(b"x\n")).err(), Some(StoreError::CorruptData));
}
