use smexybot::namespace::Namespace;
use smexybot::record::{Counter, Record};
use smexybot::util::{divmod, duration_to_string, lock_mutex, merge};
use std::sync::Mutex;

#[test]
fn test_duration_to_string() {
    assert_eq!(duration_to_string(0, true), "0h 0m 0s");
    assert_eq!(duration_to_string(1, true), "0h 0m 1s");
    assert_eq!(duration_to_string(60, true), "0h 1m 0s");
    assert_eq!(duration_to_string(60 * 60, false), "1 hours 0 minutes 0 seconds");
    assert_eq!(duration_to_string(60 * 60 * 24, false), "1 days 0 hours 0 minutes 0 seconds");
    assert_eq!(
        duration_to_string(60 * 60 * 24 * 365, false),
        "365 days 0 hours 0 minutes 0 seconds"
    );
}

#[test]
fn divmod_splits_quotient_and_remainder() {
    assert_eq!(divmod(7, 3), (2, 1));
    assert_eq!(divmod(3661, 3600), (1, 61));
    assert_eq!(divmod(0, 60), (0, 0));
}

#[test]
fn merge_prefers_second_map() {
    let mut first = Namespace::new();
    first.insert_rec("a".to_string(), Record::Counter(Counter::new("a".to_string(), 1)));
    first.insert_rec("b".to_string(), Record::Counter(Counter::new("b".to_string(), 1)));
    let mut second = Namespace::new();
    second.insert_rec("b".to_string(), Record::Counter(Counter::new("b".to_string(), 2)));
    let merged = merge(first, second);
    let a = merged.get_rec(&"a".to_string()).unwrap();
    let b = merged.get_rec(&"b".to_string()).unwrap();
    match (a, b) {
        (Record::Counter(a), Record::Counter(b)) => {
            assert_eq!(a.owner_id, 1);
            assert_eq!(b.owner_id, 2);
        },
        _ => panic!("expected counters"),
    }
}

#[test]
fn lock_mutex_grants_access() {
    let m = Mutex::new(41i64);
    {
        let mut guard = lock_mutex(&m).unwrap();
        *guard += 1;
    }
    assert_eq!(*lock_mutex(&m).unwrap(), 42);
}
