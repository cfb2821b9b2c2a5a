use smexybot::counter::{CounterError, Counters, verify_counter_name};
use smexybot::record::Counter;
use smexybot::store::MemStore;

fn fresh() -> Counters<MemStore> {
    Counters::new(MemStore::new()).unwrap()
}

#[test]
fn merge_precedence_location_record_wins() {
    let mut counters = fresh();
    // A generic "x" owned by 1 and a location-specific "x" owned by 2.
    counters.create(1, None, "x").unwrap();
    counters.create(2, Some(77), "x").unwrap();
    let seen = counters.info(Some(77), "x").unwrap();
    assert_eq!(seen.owner_id, 2);
    // Without a location, the generic record is the one visible.
    let generic = counters.info(None, "x").unwrap();
    assert_eq!(generic.owner_id, 1);
}

#[test]
fn create_uniqueness_second_create_fails() {
    let mut counters = fresh();
    counters.create(1, Some(5), "foo").unwrap();
    let second = counters.create(2, Some(5), "foo");
    assert_eq!(second, Err(CounterError::AlreadyExists));
    // The stored record is still the first one.
    let seen = counters.info(Some(5), "foo").unwrap();
    assert_eq!(seen.owner_id, 1);
}

#[test]
fn case_insensitive_lookup() {
    let mut counters = fresh();
    let stored = counters.create(1, None, "Foo").unwrap();
    assert_eq!(stored, "foo");
    let seen = counters.info(None, "FOO").unwrap();
    assert_eq!(seen.name, "foo");
    // Surrounding whitespace is trimmed too.
    let seen = counters.info(None, "  foo ").unwrap();
    assert_eq!(seen.name, "foo");
}

#[test]
fn increment_then_decrement_restores_count() {
    let mut counters = fresh();
    counters.create(9, Some(3), "ctr").unwrap();
    counters.increment(9, Some(3), "ctr", false).unwrap();
    counters.increment(9, Some(3), "ctr", false).unwrap();
    assert_eq!(counters.lookup(Some(3), "ctr").unwrap(), 2);
    counters.increment(9, Some(3), "ctr", false).unwrap();
    counters.decrement(9, Some(3), "ctr", false).unwrap();
    assert_eq!(counters.lookup(Some(3), "ctr").unwrap(), 2);
}

#[test]
fn name_validation_limits() {
    let hundred = "a".repeat(100);
    let hundred_one = "a".repeat(101);
    assert!(verify_counter_name(&hundred).is_ok());
    assert_eq!(verify_counter_name(&hundred_one), Err(CounterError::NameTooLong));
    assert_eq!(verify_counter_name("hi @everyone"), Err(CounterError::BlockedWords));
    assert_eq!(verify_counter_name("hi @here"), Err(CounterError::BlockedWords));
    let mut counters = fresh();
    assert_eq!(counters.create(1, None, &hundred_one), Err(CounterError::NameTooLong));
    counters.create(1, None, &hundred).unwrap();
}

#[test]
fn edit_check_policy_table() {
    let owner = 10u64;
    let other = 20u64;
    let listed = 30u64;

    // A counter closed to public editing: only the owner may edit.
    let mut counters = fresh();
    counters.create(owner, None, "private").unwrap();
    let mut c = counters.info(None, "private").unwrap();
    c.public_edit = false;
    counters.put_counter(None, "private".to_string(), c);
    assert_eq!(
        counters.increment(other, None, "private", false),
        Err(CounterError::PermissionDenied)
    );
    counters.increment(owner, None, "private", false).unwrap();

    // Public, but a non-empty whitelist that leaves the actor out.
    let mut counters = fresh();
    counters.create(owner, None, "wl").unwrap();
    let mut c = counters.info(None, "wl").unwrap();
    c.whitelisted_users.push(listed);
    counters.put_counter(None, "wl".to_string(), c);
    assert_eq!(counters.increment(other, None, "wl", false), Err(CounterError::PermissionDenied));
    counters.increment(listed, None, "wl", false).unwrap();

    // Public with an empty whitelist, but the actor is blacklisted.
    let mut counters = fresh();
    counters.create(owner, None, "bl").unwrap();
    let mut c = counters.info(None, "bl").unwrap();
    c.blacklisted_users.push(other);
    counters.put_counter(None, "bl".to_string(), c);
    assert_eq!(counters.increment(other, None, "bl", false), Err(CounterError::PermissionDenied));
    counters.increment(listed, None, "bl", false).unwrap();
}

#[test]
fn serialized_increments_add_up() {
    let mut counters = fresh();
    counters.create(1, Some(4), "n").unwrap();
    for _ in 0..25 {
        counters.increment(1, Some(4), "n", false).unwrap();
    }
    assert_eq!(counters.lookup(Some(4), "n").unwrap(), 25);
}

#[test]
fn end_to_end_counter_scenario() {
    let a = 100u64;
    let b = 200u64;
    let guild = Some(42u64);
    let mut counters = fresh();

    counters.create(a, guild, "wins").unwrap();
    assert_eq!(counters.lookup(guild, "wins").unwrap(), 0);

    counters.increment(a, guild, "wins", false).unwrap();
    counters.increment(a, guild, "wins", false).unwrap();
    assert_eq!(counters.lookup(guild, "wins").unwrap(), 2);

    // B is not the owner, but editing is public and the lists are empty.
    counters.increment(b, guild, "wins", false).unwrap();
    assert_eq!(counters.lookup(guild, "wins").unwrap(), 3);

    // Close the counter to public editing: B is now refused.
    let mut c = counters.info(guild, "wins").unwrap();
    c.public_edit = false;
    counters.put_counter(guild, "wins".to_string(), c);
    assert_eq!(counters.increment(b, guild, "wins", false), Err(CounterError::PermissionDenied));
    assert_eq!(counters.lookup(guild, "wins").unwrap(), 3);

    // Only the owner may delete; afterwards the name is gone.
    assert_eq!(counters.delete(b, guild, "wins"), Err(CounterError::PermissionDenied));
    counters.delete(a, guild, "wins").unwrap();
    assert_eq!(counters.lookup(guild, "wins"), Err(CounterError::NotFound));
}

#[test]
fn extra_arguments_are_refused() {
    let mut counters = fresh();
    counters.create(1, None, "k").unwrap();
    assert_eq!(counters.increment(1, None, "k", true), Err(CounterError::ExtraArguments));
    assert_eq!(counters.lookup(None, "k").unwrap(), 0);
}

#[test]
fn list_is_sorted_and_merged() {
    let mut counters = fresh();
    counters.create(1, None, "pear").unwrap();
    counters.create(1, Some(7), "apple").unwrap();
    counters.create(1, Some(7), "mango").unwrap();
    let names = counters.list(Some(7));
    assert_eq!(names, vec!["apple".to_string(), "mango".to_string(), "pear".to_string()]);
    let generic_only = counters.list(None);
    assert_eq!(generic_only, vec!["pear".to_string()]);
}

#[test]
fn lookup_bumps_queries() {
    let mut counters = fresh();
    counters.create(1, None, "q").unwrap();
    counters.lookup(None, "q").unwrap();
    counters.lookup(None, "q").unwrap();
    let c = counters.info(None, "q").unwrap();
    assert_eq!(c.queries, 2);
}

#[test]
fn counter_record_operations() {
    let mut c = Counter::new("a".to_string(), 7);
    assert_eq!(c.count, 0);
    assert!(c.is_generic());
    c.increment();
    c.increment();
    assert_eq!(c.count, 2);
    c.decrement();
    assert_eq!(c.count, 1);
    c.location = Some("5".to_string());
    assert!(!c.is_generic());
}

#[test]
fn counter_error_messages() {
    assert_eq!(CounterError::BlockedWords.message(), "Counter contains blocked words");
    assert_eq!(CounterError::NameTooLong.message(), "Counter name limit is 100 characters");
    assert_eq!(CounterError::AlreadyExists.message(), "Counter already exists.");
    assert_eq!(CounterError::NotFound.message(), "Counter not found");
    assert_eq!(CounterError::PermissionDenied.message(), "You do not have permission to do that.");
    assert_eq!(CounterError::ExtraArguments.message(), "Unnecessary extra arguments provided");
}

#[test]
fn guild_lookup_of_generic_record_writes_a_shadow_copy() {
    // Invoking a generic record from a guild context writes the bumped
    // copy under the guild's own key; the generic record is untouched.
    let mut counters = fresh();
    counters.create(1, None, "shared").unwrap();
    counters.lookup(Some(6), "shared").unwrap();
    assert_eq!(counters.info(None, "shared").unwrap().queries, 0);
    assert_eq!(counters.info(Some(6), "shared").unwrap().queries, 1);
}
