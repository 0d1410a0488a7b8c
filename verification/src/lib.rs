//! An interactive-fiction resolution engine.
//!
//! A [`book::Questbook`] is an immutable, author-written content graph of
//! chapters, scenes, decisions, consequences and triggers. An
//! [`adventure::Adventure`] is the mutable play state of one session over such
//! a graph: which ids the player has collected, the current chapter and scene,
//! and an append-only event log. Every state change is specified exactly by
//! the transition functions in [`play`].

pub mod adventure;
pub mod book;
pub mod msg;
pub mod play;
