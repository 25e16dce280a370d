//! The flat relational state: a users table, a notes table and a share
//! table, together with the access predicates (ownership, shares,
//! visibility) and the well-formedness invariant that every operation
//! preserves.
use vstd::prelude::*;

use crate::model::{Note, NoteShare};

verus! {

/// Mathematical model of a [`Store`]: the three tables as sequences plus the
/// two id counters.
#[verifier::ext_equal]
pub ghost struct StoreView {
    pub users: Seq<i32>,
    pub notes: Seq<Note>,
    pub shares: Seq<NoteShare>,
    pub next_note_id: i32,
    pub next_share_id: i32,
}

/// In-memory datastore holding the three tables. Note ids and share ids are
/// assigned from monotonically increasing counters, so table order is also
/// id order of insertion.
pub struct Store {
    pub users: Vec<i32>,
    pub notes: Vec<Note>,
    pub shares: Vec<NoteShare>,
    pub next_note_id: i32,
    pub next_share_id: i32,
}

impl View for Store {
    type V = StoreView;

    open spec fn view(&self) -> StoreView {
        StoreView {
            users: self.users@,
            notes: self.notes@,
            shares: self.shares@,
            next_note_id: self.next_note_id,
            next_share_id: self.next_share_id,
        }
    }
}

/// The user with id `uid` is registered.
pub open spec fn has_user(s: StoreView, uid: i32) -> bool {
    s.users.contains(uid)
}

/// Some note row carries id `nid`.
pub open spec fn has_note_id(notes: Seq<Note>, nid: i32) -> bool {
    exists|i: int| 0 <= i < notes.len() && (#[trigger] notes[i]).id == nid
}

/// User `uid` owns the note with id `nid`.
pub open spec fn owns(s: StoreView, uid: i32, nid: i32) -> bool {
    exists|i: int|
        0 <= i < s.notes.len() && (#[trigger] s.notes[i]).id == nid && s.notes[i].user_id == uid
}

/// A share row grants user `uid` visibility of the note with id `nid`.
pub open spec fn has_share(s: StoreView, uid: i32, nid: i32) -> bool {
    exists|i: int|
        0 <= i < s.shares.len() && (#[trigger] s.shares[i]).note_id == nid
            && s.shares[i].shared_with_user_id == uid
}

/// Some share row references the note with id `nid`, whoever it names.
pub open spec fn shared_at_all(s: StoreView, nid: i32) -> bool {
    exists|i: int| 0 <= i < s.shares.len() && (#[trigger] s.shares[i]).note_id == nid
}

/// The note with id `nid` is visible to user `uid`: owned by them, or
/// granted to them by at least one share row.
pub open spec fn visible(s: StoreView, uid: i32, nid: i32) -> bool {
    owns(s, uid, nid) || has_share(s, uid, nid)
}

/// Index of the note row carrying id `nid`; meaningful only under
/// [`has_note_id`] (and unique under [`wf`]).
pub open spec fn note_index(s: StoreView, nid: i32) -> int {
    choose|i: int| 0 <= i < s.notes.len() && (#[trigger] s.notes[i]).id == nid
}

/// The note row carrying id `nid`; meaningful only under [`has_note_id`].
pub open spec fn note_with_id(s: StoreView, nid: i32) -> Note {
    s.notes[note_index(s, nid)]
}

/// Well-formedness of the state, mirroring the relational schema and the
/// monotone id counters: primary keys ascend with table position (so they
/// are unique) and stay below their counter, and every foreign key (note
/// owner, share target user, shared note) references an existing row.
pub open spec fn wf(s: StoreView) -> bool {
    &&& forall|i: int, j: int| 0 <= i < j < s.users.len() ==> s.users[i] != s.users[j]
    &&& forall|i: int, j: int|
        0 <= i < j < s.notes.len() ==> (#[trigger] s.notes[i]).id < (#[trigger] s.notes[j]).id
    &&& forall|i: int, j: int|
        0 <= i < j < s.shares.len() ==> (#[trigger] s.shares[i]).id < (#[trigger] s.shares[j]).id
    &&& forall|i: int| 0 <= i < s.notes.len() ==> has_user(s, (#[trigger] s.notes[i]).user_id)
    &&& forall|i: int| 0 <= i < s.notes.len() ==> (#[trigger] s.notes[i]).id < s.next_note_id
    &&& forall|i: int| 0 <= i < s.shares.len() ==> (#[trigger] s.shares[i]).id < s.next_share_id
    &&& forall|i: int|
        0 <= i < s.shares.len() ==> has_note_id(s.notes, (#[trigger] s.shares[i]).note_id)
    &&& forall|i: int|
        0 <= i < s.shares.len() ==> has_user(s, (#[trigger] s.shares[i]).shared_with_user_id)
    &&& 1 <= s.next_note_id
    &&& 1 <= s.next_share_id
}

/// Under [`wf`], a note row is the unique row carrying its id, so
/// [`note_with_id`] picks exactly that row.
pub proof fn lemma_note_with_id_is(s: StoreView, i: int)
    requires
        wf(s),
        0 <= i < s.notes.len(),
    ensures
        note_index(s, s.notes[i].id) == i,
        note_with_id(s, s.notes[i].id) == s.notes[i],
{
    let nid = s.notes[i].id;
    assert(0 <= i < s.notes.len() && s.notes[i].id == nid);
    let j = note_index(s, nid);
    if i != j {
        if i < j {
            assert(s.notes[i].id != s.notes[j].id);
        } else {
            assert(s.notes[j].id != s.notes[i].id);
        }
    }
}

/// A note row held by the table makes its id present in the table.
pub proof fn lemma_contains_has_note_id(notes: Seq<Note>, n: Note)
    requires
        notes.contains(n),
    ensures
        has_note_id(notes, n.id),
{
    let i = choose|i: int| 0 <= i < notes.len() && notes[i] == n;
    assert(notes[i].id == n.id);
}

impl Store {
    /// An empty store: no users, no notes, no shares.
    pub fn new() -> (r: Store)
        ensures
            wf(r@),
            r@.users =~= Seq::<i32>::empty(),
            r@.notes =~= Seq::<Note>::empty(),
            r@.shares =~= Seq::<NoteShare>::empty(),
            r@.next_note_id == 1,
            r@.next_share_id == 1,
    {
        Store {
            users: Vec::new(),
            notes: Vec::new(),
            shares: Vec::new(),
            next_note_id: 1,
            next_share_id: 1,
        }
    }

    /// Registers a user id (registration itself is the identity provider's
    /// concern; the core only records which ids exist). Returns whether the
    /// id was new; an already-registered id leaves the store unchanged.
    pub fn add_user(&mut self, user_id: i32) -> (r: bool)
        requires
            wf(old(self)@),
        ensures
            wf(final(self)@),
            r == !has_user(old(self)@, user_id),
            r ==> final(self)@ =~= (StoreView { users: old(self)@.users.push(user_id), ..old(self)@ }),
            !r ==> final(self)@ =~= old(self)@,
    {
        if self.contains_user(user_id) {
            false
        } else {
            self.users.push(user_id);
            proof {
                let s0 = old(self)@;
                let s1 = self@;
                assert forall|uid: i32| has_user(s0, uid) implies has_user(s1, uid) by {
                    let k = choose|k: int| 0 <= k < s0.users.len() && s0.users[k] == uid;
                    assert(s1.users[k] == uid);
                }
            }
            true
        }
    }

    /// Whether `user_id` is registered.
    pub fn contains_user(&self, user_id: i32) -> (r: bool)
        ensures
            r == has_user(self@, user_id),
    {
        let n = self.users.len();
        let mut i: usize = 0;
        while i < n
            invariant
                i <= n,
                n == self.users@.len(),
                forall|j: int| 0 <= j < i ==> self.users@[j] != user_id,
            decreases n - i,
        {
            if self.users[i] == user_id {
                return true;
            }
            i = i + 1;
        }
        false
    }

    /// Index of the note row with id `note_id`, if any.
    pub fn find_note(&self, note_id: i32) -> (r: Option<usize>)
        ensures
            match r {
                Some(i) => i < self.notes@.len() && self.notes@[i as int].id == note_id,
                None => !has_note_id(self@.notes, note_id),
            },
    {
        let n = self.notes.len();
        let mut i: usize = 0;
        while i < n
            invariant
                i <= n,
                n == self.notes@.len(),
                forall|j: int| 0 <= j < i ==> (#[trigger] self.notes@[j]).id != note_id,
            decreases n - i,
        {
            if self.notes[i].id == note_id {
                return Some(i);
            }
            i = i + 1;
        }
        None
    }

    /// Whether a share row grants `user_id` visibility of note `note_id`.
    pub fn is_shared_with(&self, user_id: i32, note_id: i32) -> (r: bool)
        ensures
            r == has_share(self@, user_id, note_id),
    {
        let n = self.shares.len();
        let mut i: usize = 0;
        while i < n
            invariant
                i <= n,
                n == self.shares@.len(),
                forall|j: int|
                    0 <= j < i ==> !((#[trigger] self.shares@[j]).note_id == note_id
                        && self.shares@[j].shared_with_user_id == user_id),
            decreases n - i,
        {
            if self.shares[i].note_id == note_id && self.shares[i].shared_with_user_id == user_id {
                assert(0 <= i < self@.shares.len() && self@.shares[i as int].note_id == note_id
                    && self@.shares[i as int].shared_with_user_id == user_id);
                return true;
            }
            i = i + 1;
        }
        false
    }

    /// Whether any share row references note `note_id`.
    pub fn has_any_share(&self, note_id: i32) -> (r: bool)
        ensures
            r == shared_at_all(self@, note_id),
    {
        let n = self.shares.len();
        let mut i: usize = 0;
        while i < n
            invariant
                i <= n,
                n == self.shares@.len(),
                forall|j: int| 0 <= j < i ==> (#[trigger] self.shares@[j]).note_id != note_id,
            decreases n - i,
        {
            if self.shares[i].note_id == note_id {
                assert(0 <= i < self@.shares.len() && self@.shares[i as int].note_id == note_id);
                return true;
            }
            i = i + 1;
        }
        false
    }
}

} // verus!
