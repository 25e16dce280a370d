//! End-to-end exercises of the note service through its public surface:
//! listing, creating, reading, updating, deleting and sharing, always as a
//! concrete user against a seeded store.
use notes_core::model::{NoteError, Params};
use notes_core::store::Store;

/// A store with users 3 and 4 registered and three notes owned by user 3
/// (ids 1, 2 and 3), mirroring a freshly seeded deployment.
fn seeded() -> Store {
    let mut st = Store::new();
    assert!(st.add_user(3));
    assert!(st.add_user(4));
    for k in 0..3 {
        let title = Some(format!("note {}", k + 1));
        let content = Some(format!("content {}", k + 1));
        let n = st.create(3, title, content).expect("seeding create");
        assert_eq!(n.user_id, 3);
    }
    st
}

#[test]
fn can_get_notes() {
    let st = seeded();
    let notes = st.list_visible(3);
    assert_eq!(notes.len(), 3);
    let ids: Vec<i32> = notes.iter().map(|n| n.id).collect();
    assert_eq!(ids, vec![1, 2, 3]);
    // the other user owns nothing and holds no share
    assert_eq!(st.list_visible(4).len(), 0);
}

#[test]
fn can_add_note() {
    let mut st = seeded();
    let n = st
        .create(3, Some("loco".to_string()), Some("loco note test".to_string()))
        .expect("create");
    assert_eq!(n.id, 4);
    assert_eq!(n.title, Some("loco".to_string()));
    assert_eq!(n.content, Some("loco note test".to_string()));
    assert_eq!(st.list_visible(3).len(), 4);
}

#[test]
fn can_get_note() {
    let st = seeded();
    let n = st.get(3, 3).expect("get");
    assert_eq!(n.id, 3);
    assert_eq!(n.user_id, 3);
    assert_eq!(n.title, Some("note 3".to_string()));
}

#[test]
fn can_delete_note() {
    let mut st = seeded();
    let count_before_delete = st.list_visible(3).len();
    st.delete(3, 3).expect("delete");
    let count_after_delete = st.list_visible(3).len();
    assert_eq!(count_after_delete, count_before_delete - 1);
    assert_eq!(st.get(3, 3), Err(NoteError::NotFound));
}

#[test]
fn can_share_note() {
    let mut st = seeded();
    let note_id = 3;
    let share = st.share_note(3, note_id, 4).expect("share");
    assert_eq!(share.note_id, note_id);
    assert_eq!(share.shared_with_user_id, 4);
    // the share row now exists: the target sees the note
    assert!(st.get(4, note_id).is_ok());
}

#[test]
fn can_share_all_notes() {
    let mut st = seeded();
    let count = st.share_all_notes(3, 4).expect("share all");
    let user_notes = st.list_visible(3);
    let shared_notes = st.list_shared_with_me(4);
    assert_eq!(count, user_notes.len());
    assert_eq!(shared_notes.len(), user_notes.len());
}

#[test]
fn can_get_shared_notes() {
    let mut st = seeded();
    assert!(st.add_user(2));
    let first = st.list_visible(3)[0].id;
    st.share_note(3, first, 2).expect("share");
    let shared = st.list_shared_with_me(2);
    assert_eq!(shared.len(), 1);
    assert_eq!(shared[0].id, first);
}

#[test]
fn can_update_shared_note() {
    let mut st = seeded();
    let note = st.get(3, 1).expect("get");
    st.share_note(3, note.id, 4).expect("share");
    // the owner updates their note even though it carries a share
    let params = Params {
        title: Some("Updated Shared Note".to_string()),
        content: Some("This note has been updated".to_string()),
    };
    let updated = st.update(3, note.id, &params).expect("update");
    assert_eq!(updated.title, Some("Updated Shared Note".to_string()));
    let fetched = st.get(3, note.id).expect("get after update");
    assert_eq!(fetched.title, Some("Updated Shared Note".to_string()));
    assert_eq!(fetched.content, Some("This note has been updated".to_string()));
}
