use hyveos::future_map::{FutureMap, OptionFuture};

#[test]
fn option_future_gives_its_value_once() {
    let mut f = OptionFuture::new(5);
    assert_eq!(f.take(), Some(5));
    assert_eq!(f.take(), None);
}

#[test]
fn insert_replaces_and_hands_back_the_old_task() {
    let mut m: FutureMap<&str> = FutureMap::new();
    assert_eq!(m.insert(1, "a"), None);
    assert_eq!(m.insert(2, "b"), None);
    assert_eq!(m.insert(1, "c"), Some("a"));
    let mut all: Vec<(u128, &str)> = m.iter().into_iter().map(|(k, v)| (k, *v)).collect();
    all.sort();
    assert_eq!(all, vec![(1, "c"), (2, "b")]);
}

#[test]
fn remove_gives_back_what_was_inserted() {
    let mut m: FutureMap<u32> = FutureMap::new();
    m.insert(7, 70);
    assert_eq!(m.remove(7), Some(70));
    assert_eq!(m.remove(7), None);
    assert!(m.iter().is_empty());
}

#[test]
fn take_futures_empties_the_map_in_slot_order() {
    let mut m: FutureMap<u32> = FutureMap::new();
    m.insert(1, 10);
    m.insert(2, 20);
    m.insert(3, 30);
    m.remove(2);
    m.insert(1, 11);
    assert_eq!(m.take_futures(), vec![30, 11]);
    assert!(m.iter().is_empty());
    assert_eq!(m.remove(3), None);
}
