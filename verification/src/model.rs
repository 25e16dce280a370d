//! Record types of the notes core: notes, share grants, request payloads,
//! and the error taxonomy shared by every service operation.
use vstd::prelude::*;

verus! {

/// Copies an optional text field; the copy carries the same value.
pub fn clone_opt_text(o: &Option<String>) -> (r: Option<String>)
    ensures
        r == *o,
{
    match o {
        Some(t) => Some(t.clone()),
        None => None,
    }
}

/// A note row: owned by exactly one user (`user_id`); `title` and `content`
/// are both optional and absent by default.
#[derive(Debug, PartialEq, Eq)]
pub struct Note {
    pub id: i32,
    pub title: Option<String>,
    pub content: Option<String>,
    pub user_id: i32,
}

impl Clone for Note {
    fn clone(&self) -> (r: Self)
        ensures
            r == *self,
    {
        Note {
            id: self.id,
            title: clone_opt_text(&self.title),
            content: clone_opt_text(&self.content),
            user_id: self.user_id,
        }
    }
}

/// A share row: a grant making note `note_id` visible (read-only) to user
/// `shared_with_user_id`. Duplicate grants for the same pair are permitted.
#[derive(Clone, Copy, Debug, PartialEq, Eq, Structural)]
pub struct NoteShare {
    pub id: i32,
    pub note_id: i32,
    pub shared_with_user_id: i32,
}

/// Payload of a create or update request. Updates replace both fields
/// unconditionally: an absent field clears the stored value.
#[derive(Debug, PartialEq, Eq)]
pub struct Params {
    pub title: Option<String>,
    pub content: Option<String>,
}

impl Params {
    /// Writes this payload into a note, replacing title and content in full.
    pub fn update(&self, item: &mut Note)
        ensures
            final(item).id == old(item).id,
            final(item).user_id == old(item).user_id,
            final(item).title == self.title,
            final(item).content == self.content,
    {
        item.title = clone_opt_text(&self.title);
        item.content = clone_opt_text(&self.content);
    }
}

impl Clone for Params {
    fn clone(&self) -> (r: Self)
        ensures
            r == *self,
    {
        Params { title: clone_opt_text(&self.title), content: clone_opt_text(&self.content) }
    }
}

/// Payload of a share request: the user the note is to be shared with.
#[derive(Clone, Copy, Debug, PartialEq, Eq, Structural)]
pub struct ShareNoteParams {
    pub shared_with_user_id: i32,
}

/// A shared note as reported to a reader, carrying the sharing owner's id.
#[derive(Debug, PartialEq, Eq)]
pub struct SharedNoteResponse {
    pub id: i32,
    pub title: Option<String>,
    pub content: Option<String>,
    pub shared_by_user_id: i32,
}

impl SharedNoteResponse {
    /// Builds the response view of a note; the sharer is the note's owner.
    pub fn from_note(note: &Note) -> (r: Self)
        ensures
            r.id == note.id,
            r.title == note.title,
            r.content == note.content,
            r.shared_by_user_id == note.user_id,
    {
        SharedNoteResponse {
            id: note.id,
            title: clone_opt_text(&note.title),
            content: clone_opt_text(&note.content),
            shared_by_user_id: note.user_id,
        }
    }
}

/// Failure taxonomy of the core operations.
///
/// `NotFound` deliberately conflates "no such note" with "not visible to this
/// user", so existence of a note is never leaked to an unauthorized caller.
/// `ValidationError` is reserved for malformed payloads rejected by the
/// boundary layer before a typed request reaches the core.
/// `ConstraintViolation` mirrors a datastore foreign-key failure, e.g. a
/// share naming a user that does not exist.
#[derive(Clone, Copy, Debug, PartialEq, Eq, Structural)]
pub enum NoteError {
    NotFound,
    ValidationError,
    ConstraintViolation,
}

} // verus!
