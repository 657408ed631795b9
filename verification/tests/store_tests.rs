use channels::channel::ChannelId;
use channels::store::{ChannelError, ChannelStore};

#[test]
fn create_with_valid_name_succeeds() {
    let mut store = ChannelStore::new();
    let rep = store.create("general".to_string()).unwrap();
    assert_eq!(rep.name, "general");
    assert!(rep.is_active);
    assert_eq!(store.len(), 1);
}

#[test]
fn create_returns_name_exactly() {
    let mut store = ChannelStore::new();
    for name in ["abc", "exactly-twenty-chars", "with-dash_and_under", "チャンネル名"] {
        let rep = store.create(name.to_string()).unwrap();
        assert_eq!(rep.name, name);
        assert!(rep.is_active);
    }
}

#[test]
fn create_rejects_short_name() {
    let mut store = ChannelStore::new();
    let err = store.create("ab".to_string()).unwrap_err();
    match err {
        ChannelError::Validation(m) => {
            assert_eq!(m, "Channel name must be between 3 and 20 characters")
        }
        ChannelError::NotFound => panic!("expected a validation error"),
    }
    assert_eq!(store.len(), 0);
}

#[test]
fn create_rejects_long_name() {
    let mut store = ChannelStore::new();
    let err = store
        .create("this-name-is-way-too-long-for-the-rule".to_string())
        .unwrap_err();
    assert!(matches!(
        err,
        ChannelError::Validation("Channel name must be between 3 and 20 characters")
    ));
    assert_eq!(store.len(), 0);
}

#[test]
fn create_rejects_name_with_space() {
    let mut store = ChannelStore::new();
    let err = store.create("has space".to_string()).unwrap_err();
    assert!(matches!(
        err,
        ChannelError::Validation("Channel name cannot contain spaces")
    ));
    assert_eq!(store.len(), 0);
}

#[test]
fn create_rejects_name_with_other_whitespace() {
    let mut store = ChannelStore::new();
    for name in ["has\ttab", "has\nnewline", "has\rreturn"] {
        let err = store.create(name.to_string()).unwrap_err();
        assert!(matches!(
            err,
            ChannelError::Validation("Channel name cannot contain spaces")
        ));
    }
    assert_eq!(store.len(), 0);
}

#[test]
fn get_by_absent_id_is_not_found() {
    let store = ChannelStore::new();
    assert!(matches!(
        store.get_by_id(ChannelId(42)),
        Err(ChannelError::NotFound)
    ));
}

#[test]
fn update_by_absent_id_is_not_found() {
    let mut store = ChannelStore::new();
    store.create("kept".to_string()).unwrap();
    let rep = store.list_all().remove(0);
    let absent = ChannelId(rep.id.0.wrapping_add(1));
    assert!(matches!(
        store.update_by_id(absent, "other".to_string()),
        Err(ChannelError::NotFound)
    ));
}

#[test]
fn delete_by_absent_id_is_not_found() {
    let mut store = ChannelStore::new();
    assert!(matches!(
        store.delete_by_id(ChannelId(7)),
        Err(ChannelError::NotFound)
    ));
}

#[test]
fn create_then_get_round_trip() {
    let mut store = ChannelStore::new();
    let created = store.create("roundtrip".to_string()).unwrap();
    let fetched = store.get_by_id(created.id).unwrap();
    assert_eq!(fetched.id, created.id);
    assert_eq!(fetched.name, created.name);
    assert_eq!(fetched.is_active, created.is_active);
}

#[test]
fn delete_twice_succeeds_then_not_found() {
    let mut store = ChannelStore::new();
    let rep = store.create("ephemeral".to_string()).unwrap();
    assert!(store.delete_by_id(rep.id).is_ok());
    assert!(matches!(
        store.delete_by_id(rep.id),
        Err(ChannelError::NotFound)
    ));
    assert_eq!(store.len(), 0);
}

#[test]
fn many_creates_yield_distinct_ids_and_all_names() {
    let mut store = ChannelStore::new();
    let names: Vec<String> = (0..20).map(|i| format!("channel-{}", i)).collect();
    for name in &names {
        store.create(name.clone()).unwrap();
    }
    let reps = store.list_all();
    assert_eq!(reps.len(), names.len());
    let mut seen: Vec<ChannelId> = Vec::new();
    for rep in &reps {
        assert!(!seen.contains(&rep.id), "ids must be pairwise distinct");
        seen.push(rep.id);
    }
    let mut listed: Vec<String> = reps.iter().map(|r| r.name.clone()).collect();
    let mut expected = names.clone();
    listed.sort();
    expected.sort();
    assert_eq!(listed, expected);
}

#[test]
fn list_all_keeps_insertion_order() {
    let mut store = ChannelStore::new();
    store.create("first".to_string()).unwrap();
    store.create("second".to_string()).unwrap();
    store.create("third".to_string()).unwrap();
    let names: Vec<String> = store.list_all().into_iter().map(|r| r.name).collect();
    assert_eq!(names, vec!["first", "second", "third"]);
}

#[test]
fn update_renames_in_place() {
    let mut store = ChannelStore::new();
    let rep = store.create("before".to_string()).unwrap();
    let updated = store.update_by_id(rep.id, "after".to_string()).unwrap();
    assert_eq!(updated.id, rep.id);
    assert_eq!(updated.name, "after");
    assert_eq!(updated.is_active, rep.is_active);
    let fetched = store.get_by_id(rep.id).unwrap();
    assert_eq!(fetched.name, "after");
    assert_eq!(store.len(), 1);
}

#[test]
fn invalid_update_leaves_entity_unchanged() {
    let mut store = ChannelStore::new();
    let rep = store.create("stable".to_string()).unwrap();
    let err = store.update_by_id(rep.id, "no".to_string()).unwrap_err();
    assert!(matches!(
        err,
        ChannelError::Validation("Channel name must be between 3 and 20 characters")
    ));
    let err = store.update_by_id(rep.id, "a space".to_string()).unwrap_err();
    assert!(matches!(
        err,
        ChannelError::Validation("Channel name cannot contain spaces")
    ));
    let fetched = store.get_by_id(rep.id).unwrap();
    assert_eq!(fetched.name, "stable");
}

#[test]
fn delete_removes_only_the_addressed_channel() {
    let mut store = ChannelStore::new();
    let a = store.create("alpha".to_string()).unwrap();
    let b = store.create("beta".to_string()).unwrap();
    let c = store.create("gamma".to_string()).unwrap();
    store.delete_by_id(b.id).unwrap();
    let names: Vec<String> = store.list_all().into_iter().map(|r| r.name).collect();
    assert_eq!(names, vec!["alpha", "gamma"]);
    assert!(store.get_by_id(a.id).is_ok());
    assert!(matches!(store.get_by_id(b.id), Err(ChannelError::NotFound)));
    assert!(store.get_by_id(c.id).is_ok());
}
