//! Tests for the object-store model: single-shot puts, prefix listing and
//! deletion, and the multipart session rules.

use media::api::Part;
use media::objects::{MultipartError, ObjectStore};

fn s(v: &str) -> String {
    v.to_owned()
}

#[test]
fn put_replaces_in_place() {
    let mut store = ObjectStore::new();
    store.put(&s("a/b"), &s("image/png"), &vec![1, 2]);
    store.put(&s("a/b"), &s("image/jpeg"), &vec![3]);
    assert_eq!(store.objects.len(), 1);
    let o = store.get(&s("a/b")).expect("object present");
    assert_eq!(o.content_type, "image/jpeg");
    assert_eq!(o.data, vec![3]);
}

#[test]
fn delete_is_idempotent() {
    let mut store = ObjectStore::new();
    store.put(&s("a/b"), &s("image/png"), &vec![1]);
    store.delete(&s("a/b"));
    store.delete(&s("a/b"));
    assert!(store.get(&s("a/b")).is_none());
}

#[test]
fn list_prefix_scopes_to_the_prefix() {
    let mut store = ObjectStore::new();
    store.put(&s("m1/x"), &s("t"), &vec![1]);
    store.put(&s("m1/y"), &s("t"), &vec![2]);
    store.put(&s("m2/z"), &s("t"), &vec![3]);
    let keys = store.list_prefix(&s("m1/"));
    assert_eq!(keys, vec![s("m1/x"), s("m1/y")]);
    store.delete_prefix(&s("m1/"));
    assert!(store.list_prefix(&s("m1/")).is_empty());
    assert_eq!(store.list_prefix(&s("m2/")), vec![s("m2/z")]);
}

#[test]
fn put_part_replaces_same_number() {
    let mut store = ObjectStore::new();
    store.initiate_multipart(&s("k"), &s("video/mp4"), &s("up"));
    assert!(store.put_part(&s("k"), &s("up"), 1, &vec![1, 1], &s("e1")));
    assert!(store.put_part(&s("k"), &s("up"), 1, &vec![2, 2], &s("e1b")));
    assert!(store.put_part(&s("k"), &s("up"), 2, &vec![3], &s("e2")));
    store
        .complete_multipart(
            &s("k"),
            &s("up"),
            &vec![
                Part { part_number: 1, etag: s("e1b") },
                Part { part_number: 2, etag: s("e2") },
            ],
        )
        .expect("complete succeeds");
    let o = store.get(&s("k")).expect("assembled object");
    assert_eq!(o.data, vec![2, 2, 3]);
    assert!(store.sessions.is_empty());
}

#[test]
fn put_part_without_session_reports_it() {
    let mut store = ObjectStore::new();
    assert!(!store.put_part(&s("k"), &s("up"), 1, &vec![1], &s("e1")));
}

#[test]
fn complete_rejects_wrong_etag_or_upload() {
    let mut store = ObjectStore::new();
    store.initiate_multipart(&s("k"), &s("video/mp4"), &s("up"));
    assert!(store.put_part(&s("k"), &s("up"), 1, &vec![1], &s("e1")));
    let e = store
        .complete_multipart(&s("k"), &s("ghost"), &vec![Part { part_number: 1, etag: s("e1") }])
        .unwrap_err();
    assert_eq!(e, MultipartError::UnknownUpload);
    let e = store
        .complete_multipart(&s("k"), &s("up"), &vec![Part { part_number: 1, etag: s("bad") }])
        .unwrap_err();
    assert_eq!(e, MultipartError::PartMismatch);
    // the session survives failed completions
    assert_eq!(store.sessions.len(), 1);
}

#[test]
fn reinitiate_starts_the_session_over() {
    let mut store = ObjectStore::new();
    store.initiate_multipart(&s("k"), &s("video/mp4"), &s("up"));
    assert!(store.put_part(&s("k"), &s("up"), 1, &vec![1], &s("e1")));
    store.initiate_multipart(&s("k"), &s("video/mp4"), &s("up"));
    let e = store
        .complete_multipart(&s("k"), &s("up"), &vec![Part { part_number: 1, etag: s("e1") }])
        .unwrap_err();
    assert_eq!(e, MultipartError::PartMismatch);
}
