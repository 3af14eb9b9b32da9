use microservice::{NotFound, RecordStore};

#[test]
fn insert_assigns_ascending_ids_from_zero() {
    let mut s: RecordStore<u32> = RecordStore::new();
    assert_eq!(s.insert(10), 0);
    assert_eq!(s.insert(11), 1);
    assert_eq!(s.insert(12), 2);
    assert_eq!(s.get(1), Some(&11));
}

#[test]
fn recycling_scenario_reuses_freed_slot() {
    let mut s: RecordStore<u32> = RecordStore::new();
    assert_eq!(s.insert(1), 0);
    assert_eq!(s.insert(2), 1);
    assert_eq!(s.remove(0), Ok(()));
    assert_eq!(s.insert(3), 0);
    assert_eq!(s.list_ids(), vec![0, 1]);
    assert_eq!(s.get(0), Some(&3));
}

#[test]
fn insert_takes_lowest_free_slot_not_latest_freed() {
    let mut s: RecordStore<u32> = RecordStore::new();
    for v in 0..4 {
        s.insert(v);
    }
    assert_eq!(s.remove(0), Ok(()));
    assert_eq!(s.remove(2), Ok(()));
    assert_eq!(s.insert(20), 0);
    assert_eq!(s.insert(21), 2);
    assert_eq!(s.insert(22), 4);
}

#[test]
fn removed_trailing_slot_is_reused() {
    let mut s: RecordStore<u32> = RecordStore::new();
    s.insert(1);
    s.insert(2);
    assert_eq!(s.remove(1), Ok(()));
    assert_eq!(s.insert(5), 1);
}

#[test]
fn operations_on_never_inserted_id_report_not_found() {
    let mut s: RecordStore<u32> = RecordStore::new();
    assert_eq!(s.get(0), None);
    assert_eq!(s.update(0, 1), Err(NotFound));
    assert_eq!(s.remove(0), Err(NotFound));
    s.insert(7);
    assert_eq!(s.get(5), None);
    assert_eq!(s.update(usize::MAX, 1), Err(NotFound));
    assert_eq!(s.remove(1), Err(NotFound));
    assert!(!s.contains(1));
}

#[test]
fn operations_on_removed_id_report_not_found() {
    let mut s: RecordStore<u32> = RecordStore::new();
    s.insert(7);
    s.insert(8);
    assert_eq!(s.remove(0), Ok(()));
    assert_eq!(s.get(0), None);
    assert_eq!(s.update(0, 9), Err(NotFound));
    assert_eq!(s.remove(0), Err(NotFound));
    assert_eq!(s.get(1), Some(&8));
}

#[test]
fn update_replaces_in_place() {
    let mut s: RecordStore<u32> = RecordStore::new();
    s.insert(7);
    s.insert(8);
    assert_eq!(s.update(1, 80), Ok(()));
    assert_eq!(s.get(1), Some(&80));
    assert_eq!(s.get(0), Some(&7));
    assert_eq!(s.list_ids(), vec![0, 1]);
}

#[test]
fn list_ids_is_ascending_after_churn() {
    let mut s: RecordStore<u32> = RecordStore::new();
    assert_eq!(s.list_ids(), Vec::<usize>::new());
    for v in 0..6 {
        s.insert(v);
    }
    s.remove(4).unwrap();
    s.remove(1).unwrap();
    s.remove(3).unwrap();
    assert_eq!(s.list_ids(), vec![0, 2, 5]);
    assert_eq!(s.insert(9), 1);
    assert_eq!(s.list_ids(), vec![0, 1, 2, 5]);
    assert!(s.contains(5));
}

#[test]
fn live_ids_stay_distinct_under_churn() {
    let mut s: RecordStore<u32> = RecordStore::new();
    let mut live: Vec<usize> = Vec::new();
    for round in 0..20u32 {
        let id = s.insert(round);
        assert!(!live.contains(&id));
        live.push(id);
        if round % 3 == 2 {
            let gone = live.remove(1);
            assert_eq!(s.remove(gone), Ok(()));
        }
    }
    live.sort();
    assert_eq!(s.list_ids(), live);
    for (i, w) in live.windows(2).enumerate() {
        assert!(w[0] < w[1], "at {}", i);
    }
}
