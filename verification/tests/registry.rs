use eocc_core::registry::{DifitProcessRegistry, HashCompareResult, DEFAULT_DIFIT_PORT};

#[test]
fn ports_count_up_from_the_base() {
    let mut r: DifitProcessRegistry<u32> = DifitProcessRegistry::new();
    assert_eq!(r.get_next_port(), DEFAULT_DIFIT_PORT);
    assert_eq!(r.get_next_port(), DEFAULT_DIFIT_PORT + 1);
    assert_eq!(r.get_next_port(), DEFAULT_DIFIT_PORT + 2);
}

#[test]
fn ports_wrap_back_to_the_base_not_into_low_ports() {
    let mut r: DifitProcessRegistry<u32> = DifitProcessRegistry::new();
    let mut last = 0u16;
    for _ in 0..=(u16::MAX - DEFAULT_DIFIT_PORT) {
        last = r.get_next_port();
    }
    assert_eq!(last, u16::MAX);
    assert_eq!(r.get_next_port(), DEFAULT_DIFIT_PORT);
}

#[test]
fn same_hash_twice_reuses_and_kills_nothing() {
    let mut r: DifitProcessRegistry<u32> = DifitProcessRegistry::new();
    let key = "difit-1".to_string();
    let (first, killed) = r.compare_and_update_hash(&key, 7);
    assert_eq!(first, HashCompareResult::NewEntry);
    assert!(killed.is_none());
    r.register(key.clone(), 42);
    let (second, killed) = r.compare_and_update_hash(&key, 7);
    assert_eq!(second, HashCompareResult::Unchanged);
    assert!(killed.is_none());
    // the process is still owned: a kill still returns it
    assert_eq!(r.kill(&key), Some(42));
}

#[test]
fn changed_hash_hands_the_process_back_exactly_once() {
    let mut r: DifitProcessRegistry<u32> = DifitProcessRegistry::new();
    let key = "difit-1".to_string();
    let (first, k1) = r.compare_and_update_hash(&key, 1);
    assert_eq!(first, HashCompareResult::NewEntry);
    assert!(k1.is_none());
    r.register(key.clone(), 42);
    let (second, k2) = r.compare_and_update_hash(&key, 2);
    assert_eq!(second, HashCompareResult::Changed);
    assert_eq!(k2, Some(42));
    // no double kill, no leak: the registry no longer owns it
    assert_eq!(r.kill(&key), None);
}

#[test]
fn kill_clears_hash_and_is_idempotent() {
    let mut r: DifitProcessRegistry<u32> = DifitProcessRegistry::new();
    let key = "difit-1".to_string();
    r.compare_and_update_hash(&key, 9);
    r.register(key.clone(), 5);
    assert_eq!(r.kill(&key), Some(5));
    assert_eq!(r.kill(&key), None);
    // the hash entry went with it: the next compare starts fresh
    let (again, _) = r.compare_and_update_hash(&key, 9);
    assert_eq!(again, HashCompareResult::NewEntry);
}

#[test]
fn kill_all_returns_every_owned_process() {
    let mut r: DifitProcessRegistry<u32> = DifitProcessRegistry::new();
    r.register("a".to_string(), 1);
    r.register("b".to_string(), 2);
    r.register("c".to_string(), 3);
    let mut got = r.kill_all();
    got.sort();
    assert_eq!(got, vec![1, 2, 3]);
    assert_eq!(r.kill(&"a".to_string()), None);
    assert_eq!(r.kill_all(), Vec::<u32>::new());
}

#[test]
fn register_replaces_the_mapping_for_a_key() {
    let mut r: DifitProcessRegistry<u32> = DifitProcessRegistry::new();
    r.register("a".to_string(), 1);
    r.register("a".to_string(), 2);
    assert_eq!(r.kill(&"a".to_string()), Some(2));
}

#[test]
fn set_diff_hash_records_for_later_compare() {
    let mut r: DifitProcessRegistry<u32> = DifitProcessRegistry::new();
    let key = "w".to_string();
    r.set_diff_hash(&key, 11);
    let (res, killed) = r.compare_and_update_hash(&key, 11);
    assert_eq!(res, HashCompareResult::Unchanged);
    assert!(killed.is_none());
    let (res, _) = r.compare_and_update_hash(&key, 12);
    assert_eq!(res, HashCompareResult::Changed);
}
