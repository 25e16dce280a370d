//! The access-control laws of the notes core, proved once and for all over
//! the operation semantics: what owners can do, what shares do and do not
//! grant, and what a delete cascades away.
use vstd::prelude::*;

use crate::model::{Note, NoteError, Params};
use crate::notes::{lemma_no_note_no_share, lemma_owner_is_row_owner};
use crate::semantics::{
    granted_to, keep_note, lemma_delete_preserves_wf, new_shares, owned_by, owned_notes,
    shared_owned_by, spec_delete, spec_list_shared_by_me, spec_list_shared_with_me,
    spec_list_visible, spec_resolve_visible, spec_share_all, spec_share_note, spec_update,
    visible_to,
};
use crate::seq_facts::{lemma_filter_ascending_by, lemma_filter_congruence, lemma_filter_elems};
use crate::store::{
    has_note_id, has_share, lemma_note_with_id_is, note_with_id, owns, wf, StoreView,
};

verus! {

/// An owner always reads their own note back: for every note row `n` held
/// by a well-formed store, a `get` by `n`'s owner for `n`'s id succeeds and
/// returns `n` itself.
pub proof fn lemma_owner_gets_own_note(s: StoreView, n: Note)
    requires
        wf(s),
        s.notes.contains(n),
    ensures
        spec_resolve_visible(s, n.user_id, n.id) == Ok::<Note, NoteError>(n),
{
    let i = choose|i: int| 0 <= i < s.notes.len() && s.notes[i] == n;
    assert(s.notes[i].id == n.id && s.notes[i].user_id == n.user_id);
    lemma_note_with_id_is(s, i);
}

/// A stranger never reads someone else's note: a `get` by a user who is
/// not the owner and holds no share for the note fails with `NotFound`.
pub proof fn lemma_get_hidden_without_share(s: StoreView, uid: i32, n: Note)
    requires
        wf(s),
        s.notes.contains(n),
        uid != n.user_id,
        !has_share(s, uid, n.id),
    ensures
        spec_resolve_visible(s, uid, n.id) == Err::<Note, NoteError>(NoteError::NotFound),
{
    let i = choose|i: int| 0 <= i < s.notes.len() && s.notes[i] == n;
    if owns(s, uid, n.id) {
        lemma_owner_is_row_owner(s, uid, i);
    }
}

/// Shares grant read access only: an `update` or `delete` by any non-owner
/// — including a user who holds a share for the note — fails with
/// `NotFound` and leaves the store untouched.
pub proof fn lemma_nonowner_cannot_write(s: StoreView, uid: i32, nid: i32, p: Params)
    requires
        !owns(s, uid, nid),
    ensures
        spec_update(s, uid, nid, p) == (s, Err::<Note, NoteError>(NoteError::NotFound)),
        spec_delete(s, uid, nid) == (s, Err::<(), NoteError>(NoteError::NotFound)),
{
}

/// Sharing grants visibility: after a successful `share_note` for
/// `target`, a `get` by `target` succeeds and returns the shared note.
pub proof fn lemma_share_grants_visibility(s: StoreView, sharer: i32, nid: i32, target: i32)
    requires
        wf(s),
        (spec_share_note(s, sharer, nid, target).1 matches Ok(_)),
    ensures
        spec_resolve_visible(spec_share_note(s, sharer, nid, target).0, target, nid) == Ok::<
            Note,
            NoteError,
        >(note_with_id(s, nid)),
{
    let s1 = spec_share_note(s, sharer, nid, target).0;
    let old_len = s.shares.len() as int;
    assert(s1.shares[old_len].note_id == nid && s1.shares[old_len].shared_with_user_id == target);
    assert(has_share(s1, target, nid));
}

/// `share_all_notes` shares exactly the owned notes: when no share for
/// `target` pre-exists and the bulk share succeeds, the notes listed as
/// shared with `target` afterwards are exactly the notes `owner` owned,
/// in table order, and the reported count is their number.
pub proof fn lemma_share_all_lists_exactly_owned(s: StoreView, owner: i32, target: i32)
    requires
        wf(s),
        (spec_share_all(s, owner, target).1 matches Ok(_)),
        forall|k: int|
            0 <= k < s.shares.len() ==> (#[trigger] s.shares[k]).shared_with_user_id != target,
    ensures
        spec_list_shared_with_me(spec_share_all(s, owner, target).0, target) == owned_notes(
            s,
            owner,
        ),
        spec_share_all(s, owner, target).1 == Ok::<usize, NoteError>(
            owned_notes(s, owner).len() as usize,
        ),
{
    let s1 = spec_share_all(s, owner, target).0;
    let owned = owned_notes(s, owner);
    lemma_filter_elems(s.notes, owned_by(owner));
    assert forall|i: int|
        0 <= i < s.notes.len() implies (granted_to(s1, target)(#[trigger] s.notes[i])
        <==> owned_by(owner)(s.notes[i])) by {
        let n = s.notes[i];
        if has_share(s1, target, n.id) {
            // with no pre-existing share for the target, the grant sits
            // among the freshly appended rows, which name exactly the ids
            // of the owned notes
            let k = choose|k: int|
                0 <= k < s1.shares.len() && (#[trigger] s1.shares[k]).note_id == n.id
                    && s1.shares[k].shared_with_user_id == target;
            let old_len = s.shares.len() as int;
            if owned.len() > 0 {
                assert(k >= old_len);
                let m = k - old_len;
                assert(owned[m].id == n.id);
                let j = choose|j: int| 0 <= j < s.notes.len() && s.notes[j] == owned[m];
                if i != j {
                    if i < j {
                        assert(s.notes[i].id != s.notes[j].id);
                    } else {
                        assert(s.notes[j].id != s.notes[i].id);
                    }
                }
                s.notes.lemma_filter_pred(owned_by(owner), m);
            } else {
                assert(s1.shares == s.shares);
                assert(false);
            }
        }
        if n.user_id == owner {
            s.notes.lemma_filter_contains(owned_by(owner), i);
            let m = choose|m: int| 0 <= m < owned.len() && owned[m] == n;
            if owned.len() > 0 {
                let old_len = s.shares.len() as int;
                assert(s1.shares[old_len + m] == new_shares(s, owner, target)[m]);
                assert(s1.shares[old_len + m].note_id == n.id);
                assert(has_share(s1, target, n.id));
            }
        }
    }
    lemma_filter_congruence(s.notes, granted_to(s1, target), owned_by(owner));
}

/// A delete cascades: after a successful `delete` of note `nid`, a `get`
/// for `nid` fails with `NotFound` for every user — owner and
/// previously-granted readers alike — and no share row referencing `nid`
/// remains.
pub proof fn lemma_delete_cascades(s: StoreView, owner: i32, nid: i32, uid: i32)
    requires
        wf(s),
        (spec_delete(s, owner, nid).1 matches Ok(_)),
    ensures
        spec_resolve_visible(spec_delete(s, owner, nid).0, uid, nid) == Err::<Note, NoteError>(
            NoteError::NotFound,
        ),
        forall|k: int|
            0 <= k < spec_delete(s, owner, nid).0.shares.len() ==> (#[trigger] spec_delete(
                s,
                owner,
                nid,
            ).0.shares[k]).note_id != nid,
{
    let s1 = spec_delete(s, owner, nid).0;
    lemma_delete_preserves_wf(s, owner, nid);
    assert forall|k: int| 0 <= k < s1.shares.len() implies (#[trigger] s1.shares[k]).note_id
        != nid by {
        s.shares.lemma_filter_pred(crate::semantics::keep_share(nid), k);
    }
    if has_note_id(s1.notes, nid) {
        let i = choose|i: int| 0 <= i < s1.notes.len() && (#[trigger] s1.notes[i]).id == nid;
        s.notes.lemma_filter_pred(keep_note(nid), i);
    }
    lemma_no_note_no_share(s1, uid, nid);
}

/// Every listing comes out in ascending id order: ids are assigned by a
/// monotone counter, so table order is id order, and filtering preserves
/// it. This is the stable deterministic order the listings promise.
pub proof fn lemma_listings_ascend_by_id(s: StoreView, uid: i32)
    requires
        wf(s),
    ensures
        forall|i: int, j: int|
            0 <= i < j < spec_list_visible(s, uid).len() ==> (#[trigger] spec_list_visible(
                s,
                uid,
            )[i]).id < (#[trigger] spec_list_visible(s, uid)[j]).id,
        forall|i: int, j: int|
            0 <= i < j < spec_list_shared_with_me(s, uid).len() ==> (
            #[trigger] spec_list_shared_with_me(s, uid)[i]).id < (
            #[trigger] spec_list_shared_with_me(s, uid)[j]).id,
        forall|i: int, j: int|
            0 <= i < j < spec_list_shared_by_me(s, uid).len() ==> (
            #[trigger] spec_list_shared_by_me(s, uid)[i]).id < (
            #[trigger] spec_list_shared_by_me(s, uid)[j]).id,
{
    lemma_filter_ascending_by(s.notes, visible_to(s, uid), |n: Note| n.id);
    lemma_filter_ascending_by(s.notes, granted_to(s, uid), |n: Note| n.id);
    lemma_filter_ascending_by(s.notes, shared_owned_by(s, uid), |n: Note| n.id);
}

/// Listing is read-only and deterministic: any two results of
/// `list_visible` computed against the same store state — i.e. with no
/// mutation between the calls — are equal, order included.
pub proof fn lemma_list_visible_repeatable(s: StoreView, uid: i32, r1: Seq<Note>, r2: Seq<Note>)
    requires
        r1 == spec_list_visible(s, uid),
        r2 == spec_list_visible(s, uid),
    ensures
        r1 == r2,
{
}

} // verus!
