//! The sharing service: creating share grants — singly or for every owned
//! note at once — and enumerating the notes shared with or by a user.
use vstd::prelude::*;

use crate::model::{Note, NoteError, NoteShare};
use crate::semantics::{
    granted_to, lemma_share_all_preserves_wf, lemma_share_note_preserves_wf, new_shares,
    owned_by, owned_notes, shared_owned_by, spec_list_shared_by_me, spec_list_shared_with_me,
    spec_share_all, spec_share_note,
};
use crate::seq_facts::{lemma_filter_push, lemma_map_values_push};
use crate::store::{wf, Store};

verus! {

impl Store {
    /// Records a grant making note `note_id` visible to `target_user_id`.
    /// Visibility — not ownership — authorizes the caller, so a user who
    /// only holds a share may pass the note on; duplicate grants and grants
    /// to the owner are not prevented. An unregistered target violates the
    /// foreign key.
    pub fn share_note(&mut self, user_id: i32, note_id: i32, target_user_id: i32) -> (r: Result<
        NoteShare,
        NoteError,
    >)
        requires
            wf(old(self)@),
        ensures
            wf(final(self)@),
            final(self)@ == spec_share_note(old(self)@, user_id, note_id, target_user_id).0,
            r == spec_share_note(old(self)@, user_id, note_id, target_user_id).1,
    {
        proof {
            lemma_share_note_preserves_wf(old(self)@, user_id, note_id, target_user_id);
        }
        match self.resolve_visible(user_id, note_id) {
            Err(_) => Err(NoteError::NotFound),
            Ok(_note) => {
                if !self.contains_user(target_user_id) || self.next_share_id == i32::MAX {
                    return Err(NoteError::ConstraintViolation);
                }
                let sh = NoteShare {
                    id: self.next_share_id,
                    note_id,
                    shared_with_user_id: target_user_id,
                };
                self.shares.push(sh);
                self.next_share_id = self.next_share_id + 1;
                proof {
                    assert(self@ =~= spec_share_note(
                        old(self)@,
                        user_id,
                        note_id,
                        target_user_id,
                    ).0);
                }
                Ok(sh)
            },
        }
    }

    /// Records one grant per note owned by `user_id`, all for
    /// `target_user_id`, and reports how many were made. With no owned
    /// notes the foreign key is never touched, so the count is zero even
    /// for an unregistered target; otherwise an unregistered target fails
    /// the constraint before any grant is recorded.
    #[verifier::loop_isolation(false)]
    pub fn share_all_notes(&mut self, user_id: i32, target_user_id: i32) -> (r: Result<
        usize,
        NoteError,
    >)
        requires
            wf(old(self)@),
        ensures
            wf(final(self)@),
            final(self)@ == spec_share_all(old(self)@, user_id, target_user_id).0,
            r == spec_share_all(old(self)@, user_id, target_user_id).1,
    {
        proof {
            lemma_share_all_preserves_wf(old(self)@, user_id, target_user_id);
        }
        let ghost owned = owned_notes(old(self)@, user_id);
        let n = self.notes.len();
        let mut ids: Vec<i32> = Vec::new();
        let mut k: usize = 0;
        while k < n
            invariant
                k <= n,
                ids@ == old(self)@.notes.take(k as int).filter(owned_by(user_id)).map_values(
                    |nn: Note| nn.id,
                ),
            decreases n - k,
        {
            proof {
                assert(old(self)@.notes.take(k + 1) =~= old(self)@.notes.take(k as int).push(
                    old(self)@.notes[k as int],
                ));
                lemma_filter_push(
                    old(self)@.notes.take(k as int),
                    old(self)@.notes[k as int],
                    owned_by(user_id),
                );
                lemma_map_values_push(
                    old(self)@.notes.take(k as int).filter(owned_by(user_id)),
                    old(self)@.notes[k as int],
                    |nn: Note| nn.id,
                );
            }
            if self.notes[k].user_id == user_id {
                ids.push(self.notes[k].id);
            }
            k = k + 1;
        }
        proof {
            assert(old(self)@.notes.take(n as int) =~= old(self)@.notes);
        }
        let count = ids.len();
        if count == 0 {
            return Ok(0);
        }
        if !self.contains_user(target_user_id) {
            return Err(NoteError::ConstraintViolation);
        }
        if count > (i32::MAX - self.next_share_id) as usize {
            return Err(NoteError::ConstraintViolation);
        }
        let ghost fresh = new_shares(old(self)@, user_id, target_user_id);
        let mut c: usize = 0;
        while c < count
            invariant
                c <= count,
                self@.users == old(self)@.users,
                self@.notes == old(self)@.notes,
                self@.next_note_id == old(self)@.next_note_id,
                self@.next_share_id as int == old(self)@.next_share_id + c,
                self@.shares == old(self)@.shares + fresh.take(c as int),
            decreases count - c,
        {
            let sh = NoteShare {
                id: self.next_share_id,
                note_id: ids[c],
                shared_with_user_id: target_user_id,
            };
            self.shares.push(sh);
            self.next_share_id = self.next_share_id + 1;
            proof {
                assert(sh == fresh[c as int]);
                assert(fresh.take(c + 1) =~= fresh.take(c as int).push(fresh[c as int]));
                assert(self@.shares =~= old(self)@.shares + fresh.take(c + 1));
            }
            c = c + 1;
        }
        proof {
            assert(fresh.take(count as int) =~= fresh);
            assert(self@ =~= spec_share_all(old(self)@, user_id, target_user_id).0);
        }
        Ok(count)
    }

    /// Lists the notes some share row grants to `user_id`, in table order.
    /// Note ids are unique in the table, so several shares of one note
    /// still yield the note once.
    #[verifier::loop_isolation(false)]
    pub fn list_shared_with_me(&self, user_id: i32) -> (r: Vec<Note>)
        ensures
            r@ == spec_list_shared_with_me(self@, user_id),
    {
        let n = self.notes.len();
        let mut out: Vec<Note> = Vec::new();
        let mut k: usize = 0;
        while k < n
            invariant
                k <= n,
                out@ == self@.notes.take(k as int).filter(granted_to(self@, user_id)),
            decreases n - k,
        {
            proof {
                assert(self@.notes.take(k + 1) =~= self@.notes.take(k as int).push(
                    self@.notes[k as int],
                ));
                lemma_filter_push(
                    self@.notes.take(k as int),
                    self@.notes[k as int],
                    granted_to(self@, user_id),
                );
            }
            if self.is_shared_with(user_id, self.notes[k].id) {
                out.push(self.notes[k].clone());
            }
            k = k + 1;
        }
        proof {
            assert(self@.notes.take(n as int) =~= self@.notes);
        }
        out
    }

    /// Lists the notes `user_id` owns that have been shared at least once,
    /// to anyone, in table order: the owner's view of what they have
    /// handed out.
    #[verifier::loop_isolation(false)]
    pub fn list_shared_by_me(&self, user_id: i32) -> (r: Vec<Note>)
        ensures
            r@ == spec_list_shared_by_me(self@, user_id),
    {
        let n = self.notes.len();
        let mut out: Vec<Note> = Vec::new();
        let mut k: usize = 0;
        while k < n
            invariant
                k <= n,
                out@ == self@.notes.take(k as int).filter(shared_owned_by(self@, user_id)),
            decreases n - k,
        {
            proof {
                assert(self@.notes.take(k + 1) =~= self@.notes.take(k as int).push(
                    self@.notes[k as int],
                ));
                lemma_filter_push(
                    self@.notes.take(k as int),
                    self@.notes[k as int],
                    shared_owned_by(self@, user_id),
                );
            }
            let owner_match = self.notes[k].user_id == user_id;
            if owner_match && self.has_any_share(self.notes[k].id) {
                out.push(self.notes[k].clone());
            }
            k = k + 1;
        }
        proof {
            assert(self@.notes.take(n as int) =~= self@.notes);
        }
        out
    }
}

} // verus!
