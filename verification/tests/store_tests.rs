use smexybot::counter::Counters;
use smexybot::store::{JsonFileStore, Store};
use smexybot::tag::Tags;

fn file_counters(contents: Option<&str>) -> Counters<JsonFileStore> {
    let store = JsonFileStore::new("counters.json".to_string(), contents).unwrap();
    Counters::new(store).unwrap()
}

#[test]
fn empty_store_encodes_to_empty_object() {
    let store = JsonFileStore::new("counters.json".to_string(), None).unwrap();
    assert_eq!(store.encoded(), "{}");
}

#[test]
fn encoded_document_is_exact() {
    let mut counters = file_counters(None);
    counters.create(7, None, "a").unwrap();
    let mut c = counters.info(None, "a").unwrap();
    c.created_at = 1000;
    counters.put_counter(None, "a".to_string(), c);
    let expected = "{\"generic\":{\"a\":{\"name\":\"a\",\"count\":0,\"owner_id\":7,\"public_edit\":true,\"queries\":0,\"location\":\"generic\",\"created_at\":1000,\"blacklisted_users\":[],\"whitelisted_users\":[]}}}";
    assert_eq!(counters.store.encoded(), expected);
}

#[test]
fn atomic_persistence_round_trip() {
    let mut counters = file_counters(None);
    counters.create(1, None, "alpha").unwrap();
    counters.create(2, Some(9), "beta").unwrap();
    counters.increment(2, Some(9), "beta", false).unwrap();
    counters.delete(1, None, "alpha").unwrap();
    let saved = counters.store.encoded();

    let reloaded = JsonFileStore::new("counters.json".to_string(), Some(&saved)).unwrap();
    assert_eq!(reloaded.encoded(), saved);
    let mut reloaded = Counters::new(reloaded).unwrap();
    assert_eq!(reloaded.lookup(Some(9), "beta").unwrap(), 1);
    let b = reloaded.info(Some(9), "beta").unwrap();
    assert_eq!(b.owner_id, 2);
    assert_eq!(b.location.as_deref(), Some("9"));
}

#[test]
fn tag_contents_survive_escaping() {
    let store = JsonFileStore::new("tags.json".to_string(), None).unwrap();
    let mut tags = Tags::new(store).unwrap();
    let body = "line1\nline2 \"quoted\" back\\slash\tend";
    tags.create(3, None, "tricky", Some(body.to_string())).unwrap();
    let saved = tags.store.encoded();

    let reloaded = JsonFileStore::new("tags.json".to_string(), Some(&saved)).unwrap();
    let mut reloaded = Tags::new(reloaded).unwrap();
    assert_eq!(reloaded.lookup(None, "tricky").unwrap(), body);
}

#[test]
fn unreadable_store_is_refused() {
    assert!(JsonFileStore::new("s".to_string(), Some("not json")).is_err());
    assert!(JsonFileStore::new("s".to_string(), Some("{}trailing")).is_err());
    assert!(JsonFileStore::new("s".to_string(), Some("{\"a\":{},\"a\":{}}")).is_err());
    assert!(JsonFileStore::new("s".to_string(), Some("{}")).is_ok());
}

#[test]
fn kind_mismatch_is_refused_at_wrap() {
    let store = JsonFileStore::new("tags.json".to_string(), None).unwrap();
    let mut tags = Tags::new(store).unwrap();
    tags.create(1, None, "t", Some("body".to_string())).unwrap();
    let saved = tags.store.encoded();
    // A file of tags cannot back the counter collection.
    let as_counters = JsonFileStore::new("counters.json".to_string(), Some(&saved)).unwrap();
    assert!(Counters::new(as_counters).is_err());
}

#[test]
fn temp_names_are_unique_per_save() {
    let store = JsonFileStore::new("counters.json".to_string(), None).unwrap();
    let t1 = store.temp_name();
    let t2 = store.temp_name();
    assert!(t1.ends_with("-counters.json.tmp"));
    assert!(t2.ends_with("-counters.json.tmp"));
    assert_ne!(t1, t2);
}

#[test]
fn store_get_insert_remove() {
    let mut store = JsonFileStore::new("counters.json".to_string(), None).unwrap();
    assert!(store.get(&"generic".to_string()).is_none());
    let ns = smexybot::namespace::Namespace::new();
    store.insert("generic".to_string(), ns);
    assert!(store.get(&"generic".to_string()).is_some());
    // Removing an absent key changes nothing and reports the absence.
    assert!(store.remove(&"other".to_string()).is_none());
    assert!(store.remove(&"generic".to_string()).is_some());
    assert_eq!(store.encoded(), "{}");
}

#[test]
fn delete_of_absent_name_still_writes_the_namespace() {
    let mut counters = file_counters(None);
    counters.delete_counter(Some(5), "nope".to_string());
    assert_eq!(counters.store.encoded(), "{\"5\":{}}");
}

#[test]
fn counter_without_access_fields_parses_with_defaults() {
    // The access-control fields were added to the counter schema later;
    // an older record without them still loads.
    let old = "{\"generic\":{\"a\":{\"name\":\"a\",\"count\":2,\"owner_id\":7,\"queries\":1,\"location\":null,\"created_at\":5}}}";
    let store = JsonFileStore::new("counters.json".to_string(), Some(old)).unwrap();
    let counters = Counters::new(store).unwrap();
    let c = counters.info(None, "a").unwrap();
    assert_eq!(c.count, 2);
    assert!(c.public_edit);
    assert!(c.blacklisted_users.is_empty());
    assert!(c.whitelisted_users.is_empty());
    assert!(c.location.is_none());
}
