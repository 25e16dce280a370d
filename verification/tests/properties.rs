//! Concrete instances of the library's stated properties: ownership and
//! visibility of reads, read-only shares, cascade on delete, exact bulk
//! sharing, and the error each rejected input produces.
use notes_core::model::{NoteError, Params, ShareNoteParams, SharedNoteResponse};
use notes_core::store::Store;

fn two_users() -> Store {
    let mut st = Store::new();
    assert!(st.add_user(1));
    assert!(st.add_user(2));
    st
}

#[test]
fn owner_reads_note_stranger_does_not() {
    let mut st = two_users();
    let n = st.create(1, Some("mine".to_string()), None).expect("create");
    let got = st.get(1, n.id).expect("owner get");
    assert_eq!(got, n);
    assert_eq!(st.get(2, n.id), Err(NoteError::NotFound));
}

#[test]
fn nonowner_update_and_delete_fail_even_with_share() {
    let mut st = two_users();
    let n = st.create(1, Some("mine".to_string()), None).expect("create");
    st.share_note(1, n.id, 2).expect("share");
    assert!(st.get(2, n.id).is_ok());
    let params = Params { title: Some("theirs".to_string()), content: None };
    assert_eq!(st.update(2, n.id, &params), Err(NoteError::NotFound));
    assert_eq!(st.delete(2, n.id), Err(NoteError::NotFound));
    // the note is untouched
    assert_eq!(st.get(1, n.id).expect("get").title, Some("mine".to_string()));
}

#[test]
fn share_grants_visibility() {
    let mut st = two_users();
    let n = st.create(1, Some("shared".to_string()), None).expect("create");
    assert_eq!(st.get(2, n.id), Err(NoteError::NotFound));
    st.share_note(1, n.id, 2).expect("share");
    let got = st.get(2, n.id).expect("get after share");
    assert_eq!(got.id, n.id);
    assert_eq!(got.title, Some("shared".to_string()));
}

#[test]
fn share_all_lists_exactly_owned_notes() {
    let mut st = two_users();
    for k in 0..3 {
        st.create(1, Some(format!("n{k}")), None).expect("create");
    }
    let count = st.share_all_notes(1, 2).expect("share all");
    assert_eq!(count, 3);
    let owned: Vec<i32> = st.list_visible(1).iter().map(|n| n.id).collect();
    let granted: Vec<i32> = st.list_shared_with_me(2).iter().map(|n| n.id).collect();
    assert_eq!(granted, owned);
}

#[test]
fn delete_cascades_to_shares() {
    let mut st = two_users();
    let n = st.create(1, None, None).expect("create");
    st.share_note(1, n.id, 2).expect("share");
    assert!(st.get(2, n.id).is_ok());
    st.delete(1, n.id).expect("delete");
    assert_eq!(st.get(2, n.id), Err(NoteError::NotFound));
    assert_eq!(st.get(1, n.id), Err(NoteError::NotFound));
    assert_eq!(st.list_shared_with_me(2).len(), 0);
    assert_eq!(st.list_shared_by_me(1).len(), 0);
}

#[test]
fn three_notes_shared_then_one_deleted() {
    // user A owns three notes; after a bulk share, B lists all three;
    // deleting the middle one leaves B with the other two
    let mut st = Store::new();
    assert!(st.add_user(10));
    assert!(st.add_user(20));
    let a = st.create(10, Some("one".to_string()), None).expect("create").id;
    let b = st.create(10, Some("two".to_string()), None).expect("create").id;
    let c = st.create(10, Some("three".to_string()), None).expect("create").id;
    st.share_all_notes(10, 20).expect("share all");
    let before: Vec<i32> = st.list_shared_with_me(20).iter().map(|n| n.id).collect();
    assert_eq!(before, vec![a, b, c]);
    st.delete(10, b).expect("delete");
    let after: Vec<i32> = st.list_shared_with_me(20).iter().map(|n| n.id).collect();
    assert_eq!(after, vec![a, c]);
}

#[test]
fn create_then_get_returns_identical_fields() {
    let mut st = two_users();
    let n = st
        .create(1, Some("loco".to_string()), Some("loco note test".to_string()))
        .expect("create");
    assert_eq!(n.id, 1);
    let got = st.get(1, n.id).expect("get");
    assert_eq!(got.title, Some("loco".to_string()));
    assert_eq!(got.content, Some("loco note test".to_string()));
    assert_eq!(got, n);
}

#[test]
fn list_visible_is_repeatable_without_mutation() {
    let mut st = two_users();
    st.create(1, Some("a".to_string()), None).expect("create");
    st.create(2, Some("b".to_string()), None).expect("create");
    st.share_note(2, 2, 1).expect("share");
    let first = st.list_visible(1);
    let second = st.list_visible(1);
    assert_eq!(first, second);
}

#[test]
fn update_with_absent_fields_clears_them() {
    let mut st = two_users();
    let n = st
        .create(1, Some("t".to_string()), Some("c".to_string()))
        .expect("create");
    let params = Params { title: None, content: None };
    let updated = st.update(1, n.id, &params).expect("update");
    assert_eq!(updated.title, None);
    assert_eq!(updated.content, None);
    let got = st.get(1, n.id).expect("get");
    assert_eq!(got.title, None);
    assert_eq!(got.content, None);
}

#[test]
fn create_for_unknown_user_violates_constraint() {
    let mut st = two_users();
    assert_eq!(st.create(99, None, None), Err(NoteError::ConstraintViolation));
}

#[test]
fn share_to_unknown_user_violates_constraint() {
    let mut st = two_users();
    let n = st.create(1, None, None).expect("create");
    assert_eq!(st.share_note(1, n.id, 99), Err(NoteError::ConstraintViolation));
}

#[test]
fn share_unknown_note_is_not_found() {
    let mut st = two_users();
    assert_eq!(st.share_note(1, 42, 2), Err(NoteError::NotFound));
}

#[test]
fn share_all_with_no_notes_reports_zero_even_for_unknown_target() {
    let mut st = two_users();
    // the loop body never runs, so the foreign key is never touched
    assert_eq!(st.share_all_notes(1, 99), Ok(0));
}

#[test]
fn share_all_to_unknown_target_violates_constraint() {
    let mut st = two_users();
    st.create(1, None, None).expect("create");
    assert_eq!(st.share_all_notes(1, 99), Err(NoteError::ConstraintViolation));
    assert_eq!(st.list_shared_with_me(99).len(), 0);
}

#[test]
fn duplicate_shares_collapse_in_listing() {
    let mut st = two_users();
    let n = st.create(1, None, None).expect("create");
    let s1 = st.share_note(1, n.id, 2).expect("share once");
    let s2 = st.share_note(1, n.id, 2).expect("share twice");
    assert_ne!(s1.id, s2.id);
    assert_eq!(st.list_shared_with_me(2).len(), 1);
}

#[test]
fn share_holder_may_share_onward() {
    // visibility, not ownership, authorizes sharing: a user holding only a
    // share may pass the note to a third user
    let mut st = two_users();
    assert!(st.add_user(3));
    let n = st.create(1, None, None).expect("create");
    st.share_note(1, n.id, 2).expect("share to second");
    st.share_note(2, n.id, 3).expect("reshare by share holder");
    assert!(st.get(3, n.id).is_ok());
}

#[test]
fn self_share_is_not_prevented() {
    let mut st = two_users();
    let n = st.create(1, None, None).expect("create");
    st.share_note(1, n.id, 1).expect("share with oneself");
    assert_eq!(st.list_shared_with_me(1).len(), 1);
}

#[test]
fn shared_by_me_lists_only_notes_with_shares() {
    let mut st = two_users();
    let a = st.create(1, Some("kept".to_string()), None).expect("create").id;
    let _b = st.create(1, Some("private".to_string()), None).expect("create").id;
    st.share_note(1, a, 2).expect("share");
    let out = st.list_shared_by_me(1);
    assert_eq!(out.len(), 1);
    assert_eq!(out[0].id, a);
    assert_eq!(st.list_shared_by_me(2).len(), 0);
}

#[test]
fn duplicate_user_registration_is_rejected() {
    let mut st = Store::new();
    assert!(st.add_user(7));
    assert!(!st.add_user(7));
}

#[test]
fn shared_note_response_carries_the_owner() {
    let mut st = two_users();
    let n = st.create(1, Some("t".to_string()), Some("c".to_string())).expect("create");
    let r = SharedNoteResponse::from_note(&n);
    assert_eq!(r.id, n.id);
    assert_eq!(r.title, n.title);
    assert_eq!(r.content, n.content);
    assert_eq!(r.shared_by_user_id, 1);
}

#[test]
fn error_kinds_are_distinct() {
    // ValidationError is produced by the boundary layer for malformed
    // payloads; the core's own failures never conflate with it
    let params = ShareNoteParams { shared_with_user_id: 2 };
    assert_eq!(params.shared_with_user_id, 2);
    assert_ne!(NoteError::ValidationError, NoteError::NotFound);
    assert_ne!(NoteError::ValidationError, NoteError::ConstraintViolation);
    assert_ne!(NoteError::NotFound, NoteError::ConstraintViolation);
}

#[test]
fn resolvers_disagree_exactly_on_shared_notes() {
    let mut st = two_users();
    let n = st.create(1, None, None).expect("create");
    st.share_note(1, n.id, 2).expect("share");
    assert!(st.resolve_visible(2, n.id).is_ok());
    assert_eq!(st.resolve_owned(2, n.id), Err(NoteError::NotFound));
    assert!(st.resolve_owned(1, n.id).is_ok());
}
