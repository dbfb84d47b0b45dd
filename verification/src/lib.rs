//! Core of a small multi-tenant event-and-user service backed by a
//! wide-column store accessed through pooled sessions.
//!
//! The store itself is remote I/O; this crate verifies everything that can be
//! decided without the wire: the session pool's lifecycle state machine, the
//! email validation grammar, and the repositories' row-level protocols
//! (in particular the manually maintained email index, whose partial-failure
//! windows are explicit, named states).

pub mod auth;
pub mod collab;
pub mod email;
pub mod errors;
pub mod events;
pub mod pool;
pub mod table;
pub mod users;
