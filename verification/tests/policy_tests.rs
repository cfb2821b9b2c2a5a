use smexybot::policy::{edit_check, owner_check};
use smexybot::record::{Counter, Record, Tag};
use smexybot::store::get_database_location;

#[test]
fn owner_check_compares_identities() {
    let counter = Counter::new("c".to_string(), 5);
    assert!(owner_check(5, &Record::Counter(counter)));
    let counter = Counter::new("c".to_string(), 5);
    assert!(!owner_check(6, &Record::Counter(counter)));
    let tag = Tag::new("t".to_string(), "body".to_string(), 9);
    assert!(owner_check(9, &Record::Tag(tag)));
}

#[test]
fn edit_check_rows() {
    // Public with empty lists: anyone may edit.
    let c = Counter::new("c".to_string(), 1);
    assert!(edit_check(2, &c));

    // Closed to public editing: owner only.
    let mut c = Counter::new("c".to_string(), 1);
    c.public_edit = false;
    assert!(edit_check(1, &c));
    assert!(!edit_check(2, &c));

    // Non-empty whitelist admits only its members.
    let mut c = Counter::new("c".to_string(), 1);
    c.whitelisted_users.push(3);
    assert!(edit_check(3, &c));
    assert!(!edit_check(2, &c));

    // The blacklist bars its members even with an empty whitelist.
    let mut c = Counter::new("c".to_string(), 1);
    c.blacklisted_users.push(4);
    assert!(!edit_check(4, &c));
    assert!(edit_check(5, &c));

    // Blacklisted even while whitelisted: still barred.
    let mut c = Counter::new("c".to_string(), 1);
    c.whitelisted_users.push(4);
    c.blacklisted_users.push(4);
    assert!(!edit_check(4, &c));
}

#[test]
fn location_keys() {
    assert_eq!(get_database_location(None), "generic");
    assert_eq!(get_database_location(Some(123)), "123");
    assert_eq!(get_database_location(Some(0)), "0");
    assert_eq!(get_database_location(Some(u64::MAX)), "18446744073709551615");
}
