//! Mathematical semantics of the services: for every operation a spec
//! function gives the exact result and, for mutators, the exact successor
//! state. The executable services ensure equality with these functions,
//! and the access-control laws are proved about them.
use vstd::prelude::*;

use crate::model::{Note, NoteError, NoteShare, Params};
use crate::store::{
    has_note_id, has_share, has_user, note_index, note_with_id, owns, shared_at_all, visible, wf,
    StoreView,
};

verus! {

/// Result of looking a note up under the visibility policy: the unique note
/// row with id `nid` when `uid` owns it or holds a share for it, and
/// `NotFound` otherwise — deliberately the same answer for "absent" and
/// "not authorized".
pub open spec fn spec_resolve_visible(s: StoreView, uid: i32, nid: i32) -> Result<Note, NoteError> {
    if visible(s, uid, nid) {
        Ok(note_with_id(s, nid))
    } else {
        Err(NoteError::NotFound)
    }
}

/// Result of looking a note up under the ownership policy: shares grant
/// nothing here.
pub open spec fn spec_resolve_owned(s: StoreView, uid: i32, nid: i32) -> Result<Note, NoteError> {
    if owns(s, uid, nid) {
        Ok(note_with_id(s, nid))
    } else {
        Err(NoteError::NotFound)
    }
}

/// The notes visible to `uid`, in table order: the ones they own together
/// with the ones some share row grants them.
pub open spec fn spec_list_visible(s: StoreView, uid: i32) -> Seq<Note> {
    s.notes.filter(visible_to(s, uid))
}

/// Predicate picking the notes visible to `uid`: owned or granted.
pub open spec fn visible_to(s: StoreView, uid: i32) -> spec_fn(Note) -> bool {
    |n: Note| n.user_id == uid || has_share(s, uid, n.id)
}

/// The notes granted to `uid` by at least one share row, in table order.
/// Note ids are unique in the table, so several shares of one note still
/// yield one row.
pub open spec fn spec_list_shared_with_me(s: StoreView, uid: i32) -> Seq<Note> {
    s.notes.filter(granted_to(s, uid))
}

/// Predicate picking the notes some share row grants to `uid`.
pub open spec fn granted_to(s: StoreView, uid: i32) -> spec_fn(Note) -> bool {
    |n: Note| has_share(s, uid, n.id)
}

/// The notes `uid` owns that have been shared at least once, to anyone,
/// in table order.
pub open spec fn spec_list_shared_by_me(s: StoreView, uid: i32) -> Seq<Note> {
    s.notes.filter(shared_owned_by(s, uid))
}

/// Predicate picking the notes `uid` owns that carry at least one share.
pub open spec fn shared_owned_by(s: StoreView, uid: i32) -> spec_fn(Note) -> bool {
    |n: Note| n.user_id == uid && shared_at_all(s, n.id)
}

/// The notes owned by `uid`, in table order.
pub open spec fn owned_notes(s: StoreView, uid: i32) -> Seq<Note> {
    s.notes.filter(owned_by(uid))
}

/// Predicate picking the notes owned by `uid`.
pub open spec fn owned_by(uid: i32) -> spec_fn(Note) -> bool {
    |n: Note| n.user_id == uid
}

/// State and result of `create`: a fresh note owned by `uid` is appended
/// and the id counter advances. Fails only on a foreign-key violation — an
/// unregistered `uid` — or on exhaustion of the id space.
pub open spec fn spec_create(
    s: StoreView,
    uid: i32,
    title: Option<String>,
    content: Option<String>,
) -> (StoreView, Result<Note, NoteError>) {
    if !has_user(s, uid) || s.next_note_id == i32::MAX {
        (s, Err(NoteError::ConstraintViolation))
    } else {
        let n = Note { id: s.next_note_id, title, content, user_id: uid };
        (
            StoreView {
                notes: s.notes.push(n),
                next_note_id: (s.next_note_id + 1) as i32,
                ..s
            },
            Ok(n),
        )
    }
}

/// Creating a note preserves well-formedness: the fresh id is above every
/// existing one, and the new row's owner was checked against the users
/// table.
pub proof fn lemma_create_preserves_wf(
    s: StoreView,
    uid: i32,
    title: Option<String>,
    content: Option<String>,
)
    requires
        wf(s),
    ensures
        wf(spec_create(s, uid, title, content).0),
{
    let s1 = spec_create(s, uid, title, content).0;
    if has_user(s, uid) && s.next_note_id != i32::MAX {
        assert forall|i: int, j: int| 0 <= i < j < s1.notes.len() implies (
        #[trigger] s1.notes[i]).id < (#[trigger] s1.notes[j]).id by {
            if j == s1.notes.len() - 1 {
                assert(s1.notes[i] == s.notes[i]);
            } else {
                assert(s1.notes[i] == s.notes[i] && s1.notes[j] == s.notes[j]);
            }
        }
        assert forall|i: int|
            0 <= i < s1.shares.len() implies has_note_id(
            s1.notes,
            (#[trigger] s1.shares[i]).note_id,
        ) by {
            assert(has_note_id(s.notes, s.shares[i].note_id));
            let k = choose|k: int|
                0 <= k < s.notes.len() && (#[trigger] s.notes[k]).id == s.shares[i].note_id;
            assert(s1.notes[k].id == s.shares[i].note_id);
        }
        assert forall|i: int| 0 <= i < s1.notes.len() implies has_user(
            s1,
            (#[trigger] s1.notes[i]).user_id,
        ) by {
            if i < s1.notes.len() - 1 {
                assert(s1.notes[i] == s.notes[i]);
            }
        }
    }
}

/// State and result of `update`: succeeds exactly when `uid` owns the note
/// (a share grants no write access), and then replaces title and content in
/// full — an absent field clears the stored one.
pub open spec fn spec_update(s: StoreView, uid: i32, nid: i32, p: Params) -> (
    StoreView,
    Result<Note, NoteError>,
) {
    if owns(s, uid, nid) {
        let n0 = note_with_id(s, nid);
        let n1 = Note { id: n0.id, title: p.title, content: p.content, user_id: n0.user_id };
        (StoreView { notes: s.notes.update(note_index(s, nid), n1), ..s }, Ok(n1))
    } else {
        (s, Err(NoteError::NotFound))
    }
}

/// Predicate keeping the note rows a `delete` of note `nid` leaves behind.
pub open spec fn keep_note(nid: i32) -> spec_fn(Note) -> bool {
    |n: Note| n.id != nid
}

/// Predicate keeping the share rows a `delete` of note `nid` leaves behind.
pub open spec fn keep_share(nid: i32) -> spec_fn(NoteShare) -> bool {
    |sh: NoteShare| sh.note_id != nid
}

/// State and result of `delete`: succeeds exactly when `uid` owns the note;
/// the note row goes away and every share row referencing it is cascaded
/// away with it.
pub open spec fn spec_delete(s: StoreView, uid: i32, nid: i32) -> (
    StoreView,
    Result<(), NoteError>,
) {
    if owns(s, uid, nid) {
        (
            StoreView {
                notes: s.notes.filter(keep_note(nid)),
                shares: s.shares.filter(keep_share(nid)),
                ..s
            },
            Ok(()),
        )
    } else {
        (s, Err(NoteError::NotFound))
    }
}

/// Updating a note preserves well-formedness: row ids and owners are
/// untouched pointwise, only title and content change.
pub proof fn lemma_update_preserves_wf(s: StoreView, uid: i32, nid: i32, p: Params)
    requires
        wf(s),
    ensures
        wf(spec_update(s, uid, nid, p).0),
{
    let s1 = spec_update(s, uid, nid, p).0;
    if owns(s, uid, nid) {
        assert(forall|k: int|
            0 <= k < s1.notes.len() ==> (#[trigger] s1.notes[k]).id == s.notes[k].id
                && s1.notes[k].user_id == s.notes[k].user_id);
        assert forall|i: int|
            0 <= i < s1.shares.len() implies has_note_id(
            s1.notes,
            (#[trigger] s1.shares[i]).note_id,
        ) by {
            assert(has_note_id(s.notes, s.shares[i].note_id));
            let k = choose|k: int|
                0 <= k < s.notes.len() && (#[trigger] s.notes[k]).id == s.shares[i].note_id;
            assert(s1.notes[k].id == s.shares[i].note_id);
        }
    }
}

/// Deleting a note preserves well-formedness: both tables shrink to
/// subsequences, and a surviving share row references a surviving note.
pub proof fn lemma_delete_preserves_wf(s: StoreView, uid: i32, nid: i32)
    requires
        wf(s),
    ensures
        wf(spec_delete(s, uid, nid).0),
{
    let s1 = spec_delete(s, uid, nid).0;
    if owns(s, uid, nid) {
        crate::seq_facts::lemma_filter_ascending_by(s.notes, keep_note(nid), |n: Note| n.id);
        crate::seq_facts::lemma_filter_ascending_by(s.shares, keep_share(nid), |sh: NoteShare| sh.id);
        crate::seq_facts::lemma_filter_elems(s.notes, keep_note(nid));
        crate::seq_facts::lemma_filter_elems(s.shares, keep_share(nid));
        assert forall|i: int| 0 <= i < s1.notes.len() implies has_user(
            s1,
            (#[trigger] s1.notes[i]).user_id,
        ) && s1.notes[i].id < s1.next_note_id by {
            let k = choose|k: int| 0 <= k < s.notes.len() && s.notes[k] == s1.notes[i];
            assert(has_user(s, s.notes[k].user_id));
        }
        assert forall|i: int|
            0 <= i < s1.shares.len() implies has_note_id(
            s1.notes,
            (#[trigger] s1.shares[i]).note_id,
        ) && has_user(s1, s1.shares[i].shared_with_user_id) && s1.shares[i].id
            < s1.next_share_id by {
            let k = choose|k: int| 0 <= k < s.shares.len() && s.shares[k] == s1.shares[i];
            assert(has_user(s, s.shares[k].shared_with_user_id));
            assert(s.shares[k].id < s.next_share_id);
            // the note this share references is not the deleted one, so its
            // row survives the filter
            assert(keep_share(nid)(s1.shares[i]));
            assert(has_note_id(s.notes, s.shares[k].note_id));
            let m = choose|m: int|
                0 <= m < s.notes.len() && (#[trigger] s.notes[m]).id == s.shares[k].note_id;
            assert(keep_note(nid)(s.notes[m]));
            s.notes.lemma_filter_contains(keep_note(nid), m);
            crate::store::lemma_contains_has_note_id(s1.notes, s.notes[m]);
        }
    }
}

/// State and result of `share_note`. The sharer needs only visibility, not
/// ownership — a user holding a share may pass the note on; this mirrors
/// the recorded behaviour and is flagged in the documentation as a
/// deliberate policy choice. The grant is appended unconditionally: no
/// duplicate-share or self-share prevention. An unregistered target user
/// violates the foreign key.
pub open spec fn spec_share_note(s: StoreView, uid: i32, nid: i32, target: i32) -> (
    StoreView,
    Result<NoteShare, NoteError>,
) {
    if !visible(s, uid, nid) {
        (s, Err(NoteError::NotFound))
    } else if !has_user(s, target) || s.next_share_id == i32::MAX {
        (s, Err(NoteError::ConstraintViolation))
    } else {
        let sh = NoteShare {
            id: s.next_share_id,
            note_id: nid,
            shared_with_user_id: target,
        };
        (
            StoreView {
                shares: s.shares.push(sh),
                next_share_id: (s.next_share_id + 1) as i32,
                ..s
            },
            Ok(sh),
        )
    }
}

/// Under [`wf`], a visible note exists in the notes table: the owner case
/// holds a row directly, and the share case references one through the
/// foreign key.
pub proof fn lemma_visible_has_note(s: StoreView, uid: i32, nid: i32)
    requires
        wf(s),
        visible(s, uid, nid),
    ensures
        has_note_id(s.notes, nid),
{
    if owns(s, uid, nid) {
        let i = choose|i: int|
            0 <= i < s.notes.len() && (#[trigger] s.notes[i]).id == nid && s.notes[i].user_id
                == uid;
        assert(s.notes[i].id == nid);
    } else {
        let k = choose|k: int|
            0 <= k < s.shares.len() && (#[trigger] s.shares[k]).note_id == nid
                && s.shares[k].shared_with_user_id == uid;
        assert(has_note_id(s.notes, s.shares[k].note_id));
    }
}

/// Sharing a note preserves well-formedness: the fresh grant carries a
/// fresh id, references a note that visibility guarantees to exist, and
/// names a target checked against the users table.
pub proof fn lemma_share_note_preserves_wf(s: StoreView, uid: i32, nid: i32, target: i32)
    requires
        wf(s),
    ensures
        wf(spec_share_note(s, uid, nid, target).0),
{
    let s1 = spec_share_note(s, uid, nid, target).0;
    if visible(s, uid, nid) && has_user(s, target) && s.next_share_id != i32::MAX {
        lemma_visible_has_note(s, uid, nid);
        assert forall|i: int, j: int| 0 <= i < j < s1.shares.len() implies (
        #[trigger] s1.shares[i]).id < (#[trigger] s1.shares[j]).id by {
            if j == s1.shares.len() - 1 {
                assert(s1.shares[i] == s.shares[i]);
            } else {
                assert(s1.shares[i] == s.shares[i] && s1.shares[j] == s.shares[j]);
            }
        }
        assert forall|i: int|
            0 <= i < s1.shares.len() implies has_note_id(
            s1.notes,
            (#[trigger] s1.shares[i]).note_id,
        ) && has_user(s1, s1.shares[i].shared_with_user_id) && s1.shares[i].id
            < s1.next_share_id by {
            if i < s1.shares.len() - 1 {
                assert(s1.shares[i] == s.shares[i]);
            }
        }
    }
}

/// Sharing every owned note preserves well-formedness: the appended grants
/// carry fresh consecutive ids, reference owned rows of the notes table,
/// and name a target checked against the users table.
pub proof fn lemma_share_all_preserves_wf(s: StoreView, uid: i32, target: i32)
    requires
        wf(s),
    ensures
        wf(spec_share_all(s, uid, target).0),
{
    let s1 = spec_share_all(s, uid, target).0;
    let owned = owned_notes(s, uid);
    if owned.len() > 0 && has_user(s, target) && s.next_share_id + owned.len() <= i32::MAX {
        let fresh = new_shares(s, uid, target);
        crate::seq_facts::lemma_filter_elems(s.notes, owned_by(uid));
        assert(forall|k: int|
            0 <= k < fresh.len() ==> (#[trigger] fresh[k]).id == s.next_share_id + k);
        assert forall|i: int, j: int| 0 <= i < j < s1.shares.len() implies (
        #[trigger] s1.shares[i]).id < (#[trigger] s1.shares[j]).id by {
            let old_len = s.shares.len() as int;
            if j < old_len {
                assert(s1.shares[i] == s.shares[i] && s1.shares[j] == s.shares[j]);
            } else if i < old_len {
                assert(s1.shares[i] == s.shares[i]);
                assert(s1.shares[j] == fresh[j - old_len]);
            } else {
                assert(s1.shares[i] == fresh[i - old_len] && s1.shares[j] == fresh[j - old_len]);
            }
        }
        assert forall|i: int|
            0 <= i < s1.shares.len() implies has_note_id(
            s1.notes,
            (#[trigger] s1.shares[i]).note_id,
        ) && has_user(s1, s1.shares[i].shared_with_user_id) && s1.shares[i].id
            < s1.next_share_id by {
            let old_len = s.shares.len() as int;
            if i < old_len {
                assert(s1.shares[i] == s.shares[i]);
                assert(has_note_id(s.notes, s.shares[i].note_id));
            } else {
                assert(s1.shares[i] == fresh[i - old_len]);
                assert(s.notes.contains(owned[i - old_len]));
                crate::store::lemma_contains_has_note_id(s.notes, owned[i - old_len]);
            }
        }
    }
}

/// The share rows appended by a successful `share_all_notes(uid, target)`:
/// one per note owned by `uid`, in table order, with consecutive ids.
pub open spec fn new_shares(s: StoreView, uid: i32, target: i32) -> Seq<NoteShare> {
    Seq::new(
        owned_notes(s, uid).len(),
        |k: int|
            NoteShare {
                id: (s.next_share_id + k) as i32,
                note_id: owned_notes(s, uid)[k].id,
                shared_with_user_id: target,
            },
    )
}

/// State and result of `share_all_notes`: one grant per owned note, and the
/// count of grants made. With no owned notes nothing touches the foreign
/// key, so even an unregistered target yields a count of zero; otherwise an
/// unregistered target (or an exhausted id space) violates the constraint
/// before any grant is recorded.
pub open spec fn spec_share_all(s: StoreView, uid: i32, target: i32) -> (
    StoreView,
    Result<usize, NoteError>,
) {
    let owned = owned_notes(s, uid);
    if owned.len() == 0 {
        (s, Ok(0))
    } else if !has_user(s, target) || s.next_share_id + owned.len() > i32::MAX {
        (s, Err(NoteError::ConstraintViolation))
    } else {
        (
            StoreView {
                shares: s.shares + new_shares(s, uid, target),
                next_share_id: (s.next_share_id + owned.len()) as i32,
                ..s
            },
            Ok(owned.len() as usize),
        )
    }
}

} // verus!
