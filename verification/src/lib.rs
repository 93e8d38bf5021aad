//! Core logic of a small to-do list manager.
//!
//! A to-do list is a `Collection` of `Task`s; the full application state is an
//! ordered list of collections, an optional active collection, and a filter
//! preference that selects which tasks are visible.  Collections persist as a
//! JSON document; the codec module serializes and parses that document and is
//! proved to round-trip.

pub mod task;
pub mod collection;
pub mod filter;
pub mod codec;
pub mod state;
