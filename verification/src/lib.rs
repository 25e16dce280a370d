//! A notes-management core: users own notes, may share them with other
//! users, and every read or write is checked against an access policy
//! (owners may read and write; users holding a share may only read).
//!
//! The datastore is modelled as flat relational tables held in a [`store::Store`];
//! the surrounding process is expected to supply an authenticated user id and
//! to persist the store's contents.
pub mod laws;
pub mod model;
pub mod notes;
pub mod semantics;
pub mod seq_facts;
pub mod sharing;
pub mod store;
