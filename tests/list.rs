use fremkit::cache::{Cache, CACHE_SIZE};
use fremkit::list::List;

#[test]
fn list_test_list_basics() {
    let mut list = List::new(0);

    for i in 1..10 {
        list.append(i);
    }

    assert_eq!(list.len(), 10);

    for i in 0..10 {
        assert_eq!(list.get(i), Some(&i));
    }

    assert_eq!(list.get(100), None);
}

#[test]
fn list_test_list_iter() {
    let mut list = List::new(0);

    list.append(1);
    list.append(2);
    list.append(3);

    let mut iter = list.iter();
    for y in 0..4 {
        let x = iter.next().unwrap();
        assert_eq!(x, &y);
    }
    assert_eq!(iter.next(), None);
}

#[test]
fn list_tail_and_not_empty() {
    let mut list = List::new("a");

    assert_eq!(*list.tail(), "a");
    assert!(!list.is_empty());

    list.append("b");

    assert_eq!(*list.tail(), "b");
    assert_eq!(list.len(), 2);

    *list.tail_mut() = "c";

    assert_eq!(list.get(1), Some(&"c"));
    assert_eq!(list.get(0), Some(&"a"));
}

#[test]
fn list_get_past_cache_window() {
    let mut list = List::new(0usize);

    for i in 1..(CACHE_SIZE * 3) {
        list.append(i * 7);
    }

    for i in 0..(CACHE_SIZE * 3) {
        assert_eq!(list.get(i), Some(&(i * 7)));
    }
    assert_eq!(list.get(CACHE_SIZE * 3), None);
}

#[test]
fn test_cache_basics() {
    let mut cache = Cache::new(0);

    for i in 0..10 {
        cache.put(i, i);
    }

    for i in 0..10 {
        assert_eq!(cache.get(i), Some(i));
    }
}

#[test]
fn test_rollover_basics() {
    let mut cache = Cache::new(0);

    for i in 0..CACHE_SIZE {
        cache.put(i, i + 10);
    }

    assert_eq!(cache.get(0), Some(10));
    cache.put(666, 666);
    assert_eq!(cache.get(0), None);
    assert_eq!(cache.get(666), Some(666));
}

#[test]
fn test_rollover_complete() {
    let mut cache = Cache::new(0);

    for i in 0..(CACHE_SIZE * 2) {
        cache.put(i, i);
    }

    for i in 0..CACHE_SIZE {
        assert_eq!(cache.get(i), None);
    }

    for i in CACHE_SIZE..(CACHE_SIZE * 2) {
        assert_eq!(cache.get(i), Some(i));
    }
}
