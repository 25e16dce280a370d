//! The note service: CRUD over the notes table, every operation scoped to
//! the requesting user and proved equal to its mathematical semantics.
use vstd::prelude::*;

use crate::model::{Note, NoteError, NoteShare, Params};
use crate::semantics::{
    keep_note, keep_share, lemma_create_preserves_wf, lemma_delete_preserves_wf,
    lemma_update_preserves_wf, spec_create, spec_delete, spec_resolve_owned, spec_resolve_visible,
    spec_list_visible, spec_update, visible_to,
};
use crate::seq_facts::lemma_filter_push;
use crate::store::{
    has_note_id, has_share, lemma_note_with_id_is, owns, visible, wf, Store, StoreView,
};

verus! {

/// Under [`wf`], a share row can only reference an existing note, so a note
/// id absent from the notes table is granted to nobody.
pub proof fn lemma_no_note_no_share(s: StoreView, uid: i32, nid: i32)
    requires
        wf(s),
        !has_note_id(s.notes, nid),
    ensures
        !has_share(s, uid, nid),
        !visible(s, uid, nid),
{
    if has_share(s, uid, nid) {
        let k = choose|k: int|
            0 <= k < s.shares.len() && (#[trigger] s.shares[k]).note_id == nid
                && s.shares[k].shared_with_user_id == uid;
        assert(has_note_id(s.notes, s.shares[k].note_id));
    }
    if owns(s, uid, nid) {
        let i = choose|i: int|
            0 <= i < s.notes.len() && (#[trigger] s.notes[i]).id == nid && s.notes[i].user_id
                == uid;
        assert(s.notes[i].id == nid);
    }
}

/// Under [`wf`], ownership of note `nid` pins the owner down to the user
/// field of the unique row carrying that id.
pub proof fn lemma_owner_is_row_owner(s: StoreView, uid: i32, i: int)
    requires
        wf(s),
        0 <= i < s.notes.len(),
        owns(s, uid, s.notes[i].id),
    ensures
        s.notes[i].user_id == uid,
{
    let nid = s.notes[i].id;
    let j = choose|j: int|
        0 <= j < s.notes.len() && (#[trigger] s.notes[j]).id == nid && s.notes[j].user_id == uid;
    if i != j {
        if i < j {
            assert(s.notes[i].id != s.notes[j].id);
        } else {
            assert(s.notes[j].id != s.notes[i].id);
        }
    }
}

impl Store {
    /// Looks a note up under the visibility policy: the owner and every
    /// user holding a share for it see the note; everyone else — and every
    /// caller naming an absent id — gets `NotFound`.
    pub fn resolve_visible(&self, user_id: i32, note_id: i32) -> (r: Result<Note, NoteError>)
        requires
            wf(self@),
        ensures
            r == spec_resolve_visible(self@, user_id, note_id),
    {
        match self.find_note(note_id) {
            None => {
                proof {
                    lemma_no_note_no_share(self@, user_id, note_id);
                }
                Err(NoteError::NotFound)
            },
            Some(i) => {
                let is_owner = self.notes[i].user_id == user_id;
                if is_owner || self.is_shared_with(user_id, note_id) {
                    proof {
                        lemma_note_with_id_is(self@, i as int);
                        if is_owner {
                            assert(0 <= i < self@.notes.len() && self@.notes[i as int].id
                                == note_id && self@.notes[i as int].user_id == user_id);
                        }
                    }
                    Ok(self.notes[i].clone())
                } else {
                    proof {
                        if owns(self@, user_id, note_id) {
                            lemma_owner_is_row_owner(self@, user_id, i as int);
                        }
                    }
                    Err(NoteError::NotFound)
                }
            },
        }
    }

    /// Looks a note up under the ownership policy: the stricter check used
    /// before a write. A share grants nothing here.
    pub fn resolve_owned(&self, user_id: i32, note_id: i32) -> (r: Result<Note, NoteError>)
        requires
            wf(self@),
        ensures
            r == spec_resolve_owned(self@, user_id, note_id),
    {
        match self.find_note(note_id) {
            None => Err(NoteError::NotFound),
            Some(i) => {
                if self.notes[i].user_id == user_id {
                    proof {
                        lemma_note_with_id_is(self@, i as int);
                        assert(0 <= i < self@.notes.len() && self@.notes[i as int].id == note_id
                            && self@.notes[i as int].user_id == user_id);
                    }
                    Ok(self.notes[i].clone())
                } else {
                    proof {
                        if owns(self@, user_id, note_id) {
                            lemma_owner_is_row_owner(self@, user_id, i as int);
                        }
                    }
                    Err(NoteError::NotFound)
                }
            },
        }
    }

    /// Creates a note owned by `user_id`; `title` and `content` default to
    /// absent. Succeeds whenever `user_id` is registered (and the id space
    /// is not exhausted); an unregistered owner violates the foreign key.
    pub fn create(&mut self, user_id: i32, title: Option<String>, content: Option<String>) -> (r:
        Result<Note, NoteError>)
        requires
            wf(old(self)@),
        ensures
            wf(final(self)@),
            final(self)@ == spec_create(old(self)@, user_id, title, content).0,
            r == spec_create(old(self)@, user_id, title, content).1,
    {
        proof {
            lemma_create_preserves_wf(old(self)@, user_id, title, content);
        }
        if !self.contains_user(user_id) || self.next_note_id == i32::MAX {
            return Err(NoteError::ConstraintViolation);
        }
        let n = Note { id: self.next_note_id, title, content, user_id };
        let out = n.clone();
        let ghost gn = n;
        self.notes.push(n);
        self.next_note_id = self.next_note_id + 1;
        proof {
            assert(self@ =~= spec_create(old(self)@, user_id, gn.title, gn.content).0);
        }
        Ok(out)
    }

    /// Rewrites a note's title and content in full — an absent field clears
    /// the stored one. Succeeds exactly when `user_id` owns the note: a
    /// share grants read access only.
    pub fn update(&mut self, user_id: i32, note_id: i32, params: &Params) -> (r: Result<
        Note,
        NoteError,
    >)
        requires
            wf(old(self)@),
        ensures
            wf(final(self)@),
            final(self)@ == spec_update(old(self)@, user_id, note_id, *params).0,
            r == spec_update(old(self)@, user_id, note_id, *params).1,
    {
        proof {
            lemma_update_preserves_wf(old(self)@, user_id, note_id, *params);
        }
        match self.find_note(note_id) {
            None => Err(NoteError::NotFound),
            Some(i) => {
                if self.notes[i].user_id == user_id {
                    proof {
                        assert(0 <= i < self@.notes.len() && self@.notes[i as int].id == note_id
                            && self@.notes[i as int].user_id == user_id);
                        lemma_note_with_id_is(self@, i as int);
                    }
                    let mut n = self.notes[i].clone();
                    params.update(&mut n);
                    let out = n.clone();
                    let ghost gn = n;
                    self.notes.remove(i);
                    self.notes.insert(i, n);
                    proof {
                        assert(self@.notes =~= old(self)@.notes.update(i as int, gn));
                        assert(self@ =~= spec_update(old(self)@, user_id, note_id, *params).0);
                    }
                    Ok(out)
                } else {
                    proof {
                        if owns(self@, user_id, note_id) {
                            lemma_owner_is_row_owner(self@, user_id, i as int);
                        }
                    }
                    Err(NoteError::NotFound)
                }
            },
        }
    }

    /// Removes a note; success exactly when `user_id` owns it. Every share
    /// row referencing the note is cascaded away with it.
    #[verifier::loop_isolation(false)]
    pub fn delete(&mut self, user_id: i32, note_id: i32) -> (r: Result<(), NoteError>)
        requires
            wf(old(self)@),
        ensures
            wf(final(self)@),
            final(self)@ == spec_delete(old(self)@, user_id, note_id).0,
            r == spec_delete(old(self)@, user_id, note_id).1,
    {
        proof {
            lemma_delete_preserves_wf(old(self)@, user_id, note_id);
        }
        match self.find_note(note_id) {
            None => Err(NoteError::NotFound),
            Some(i) => {
                if self.notes[i].user_id == user_id {
                    proof {
                        assert(0 <= i < self@.notes.len() && self@.notes[i as int].id == note_id
                            && self@.notes[i as int].user_id == user_id);
                    }
                    let n = self.notes.len();
                    let mut kept_notes: Vec<Note> = Vec::new();
                    let mut k: usize = 0;
                    while k < n
                        invariant
                            k <= n,
                            kept_notes@ == old(self)@.notes.take(k as int).filter(
                                keep_note(note_id),
                            ),
                        decreases n - k,
                    {
                        proof {
                            assert(old(self)@.notes.take(k + 1) =~= old(self)@.notes.take(
                                k as int,
                            ).push(old(self)@.notes[k as int]));
                            lemma_filter_push(
                                old(self)@.notes.take(k as int),
                                old(self)@.notes[k as int],
                                keep_note(note_id),
                            );
                        }
                        if self.notes[k].id != note_id {
                            kept_notes.push(self.notes[k].clone());
                        }
                        k = k + 1;
                    }
                    let m = self.shares.len();
                    let mut kept_shares: Vec<NoteShare> = Vec::new();
                    let mut j: usize = 0;
                    while j < m
                        invariant
                            j <= m,
                            kept_shares@ == old(self)@.shares.take(j as int).filter(
                                keep_share(note_id),
                            ),
                        decreases m - j,
                    {
                        proof {
                            assert(old(self)@.shares.take(j + 1) =~= old(self)@.shares.take(
                                j as int,
                            ).push(old(self)@.shares[j as int]));
                            lemma_filter_push(
                                old(self)@.shares.take(j as int),
                                old(self)@.shares[j as int],
                                keep_share(note_id),
                            );
                        }
                        if self.shares[j].note_id != note_id {
                            kept_shares.push(self.shares[j]);
                        }
                        j = j + 1;
                    }
                    self.notes = kept_notes;
                    self.shares = kept_shares;
                    proof {
                        assert(old(self)@.notes.take(old(self)@.notes.len() as int) =~= old(
                            self,
                        )@.notes);
                        assert(old(self)@.shares.take(old(self)@.shares.len() as int) =~= old(
                            self,
                        )@.shares);
                        assert(self@ =~= spec_delete(old(self)@, user_id, note_id).0);
                    }
                    Ok(())
                } else {
                    proof {
                        if owns(self@, user_id, note_id) {
                            lemma_owner_is_row_owner(self@, user_id, i as int);
                        }
                    }
                    Err(NoteError::NotFound)
                }
            },
        }
    }

    /// Lists every note visible to `user_id` — owned or granted by a share
    /// — in table order, which is ascending id order of insertion. The
    /// result is a function of the store's state alone, so repeated calls
    /// without an intervening mutation return the same sequence.
    #[verifier::loop_isolation(false)]
    pub fn list_visible(&self, user_id: i32) -> (r: Vec<Note>)
        ensures
            r@ == spec_list_visible(self@, user_id),
    {
        let n = self.notes.len();
        let mut out: Vec<Note> = Vec::new();
        let mut k: usize = 0;
        while k < n
            invariant
                k <= n,
                out@ == self@.notes.take(k as int).filter(visible_to(self@, user_id)),
            decreases n - k,
        {
            proof {
                assert(self@.notes.take(k + 1) =~= self@.notes.take(k as int).push(
                    self@.notes[k as int],
                ));
                lemma_filter_push(
                    self@.notes.take(k as int),
                    self@.notes[k as int],
                    visible_to(self@, user_id),
                );
            }
            let owner_match = self.notes[k].user_id == user_id;
            if owner_match || self.is_shared_with(user_id, self.notes[k].id) {
                out.push(self.notes[k].clone());
            }
            k = k + 1;
        }
        proof {
            assert(self@.notes.take(n as int) =~= self@.notes);
        }
        out
    }

    /// Reads a single note; success exactly on visibility.
    pub fn get(&self, user_id: i32, note_id: i32) -> (r: Result<Note, NoteError>)
        requires
            wf(self@),
        ensures
            r == spec_resolve_visible(self@, user_id, note_id),
    {
        self.resolve_visible(user_id, note_id)
    }
}

} // verus!
