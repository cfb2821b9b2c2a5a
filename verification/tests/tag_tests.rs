use smexybot::store::MemStore;
use smexybot::tag::{TagError, Tags, verify_tag_name};

fn fresh() -> Tags<MemStore> {
    Tags::new(MemStore::new()).unwrap()
}

#[test]
fn tag_create_and_lookup() {
    let mut tags = fresh();
    let name = tags.create(1, Some(5), "Greeting", Some("hello there".to_string())).unwrap();
    assert_eq!(name, "greeting");
    assert_eq!(tags.lookup(Some(5), "GREETING").unwrap(), "hello there");
}

#[test]
fn tag_create_requires_content() {
    let mut tags = fresh();
    assert_eq!(tags.create(1, None, "empty", None), Err(TagError::MissingContent));
    assert_eq!(tags.lookup(None, "empty"), Err(TagError::NotFound));
}

#[test]
fn tag_duplicate_create_fails_and_keeps_first() {
    let mut tags = fresh();
    tags.create(1, None, "foo", Some("one".to_string())).unwrap();
    assert_eq!(
        tags.create(2, None, "foo", Some("two".to_string())),
        Err(TagError::AlreadyExists)
    );
    assert_eq!(tags.lookup(None, "foo").unwrap(), "one");
}

#[test]
fn tag_edit_is_owner_only() {
    let mut tags = fresh();
    tags.create(1, None, "doc", Some("v1".to_string())).unwrap();
    assert_eq!(
        tags.edit(2, None, "doc", Some("v2".to_string())),
        Err(TagError::PermissionDenied)
    );
    assert_eq!(tags.edit(1, None, "doc", None), Err(TagError::MissingContent));
    tags.edit(1, None, "doc", Some("v2".to_string())).unwrap();
    assert_eq!(tags.lookup(None, "doc").unwrap(), "v2");
}

#[test]
fn tag_delete_is_owner_only() {
    let mut tags = fresh();
    tags.create(1, Some(9), "bye", Some("later".to_string())).unwrap();
    assert_eq!(tags.delete(2, Some(9), "bye"), Err(TagError::PermissionDenied));
    tags.delete(1, Some(9), "bye").unwrap();
    assert_eq!(tags.lookup(Some(9), "bye"), Err(TagError::NotFound));
}

#[test]
fn tag_name_validation() {
    assert_eq!(verify_tag_name("@everyone hi"), Err(TagError::BlockedWords));
    assert_eq!(verify_tag_name("@here hi"), Err(TagError::BlockedWords));
    let long = "x".repeat(101);
    assert_eq!(verify_tag_name(&long), Err(TagError::NameTooLong));
    assert!(verify_tag_name(&"x".repeat(100)).is_ok());
}

#[test]
fn tag_lookup_bumps_uses() {
    let mut tags = fresh();
    tags.create(1, None, "used", Some("body".to_string())).unwrap();
    tags.lookup(None, "used").unwrap();
    tags.lookup(None, "used").unwrap();
    tags.lookup(None, "used").unwrap();
    let t = tags.info(None, "used").unwrap();
    assert_eq!(t.uses, 3);
}

#[test]
fn tag_merge_precedence() {
    let mut tags = fresh();
    tags.create(1, None, "motd", Some("generic body".to_string())).unwrap();
    tags.create(2, Some(8), "motd", Some("local body".to_string())).unwrap();
    assert_eq!(tags.lookup(Some(8), "motd").unwrap(), "local body");
    assert_eq!(tags.lookup(None, "motd").unwrap(), "generic body");
}

#[test]
fn tag_list_is_sorted() {
    let mut tags = fresh();
    tags.create(1, None, "zeta", Some("z".to_string())).unwrap();
    tags.create(1, None, "alpha", Some("a".to_string())).unwrap();
    assert_eq!(tags.list(None), vec!["alpha".to_string(), "zeta".to_string()]);
}

#[test]
fn tag_error_messages() {
    assert_eq!(TagError::BlockedWords.message(), "Tag contains blocked words");
    assert_eq!(TagError::NameTooLong.message(), "Tag name limit is 100 characters");
    assert_eq!(TagError::AlreadyExists.message(), "Tag already exists.");
    assert_eq!(TagError::NotFound.message(), "Tag not found");
    assert_eq!(TagError::PermissionDenied.message(), "You do not have permission to do that.");
    assert_eq!(TagError::MissingContent.message(), "Please specify some content for the tag.");
}
