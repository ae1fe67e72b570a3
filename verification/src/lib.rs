//! A viewer and editor core for binary-tagged tree documents, the kind game
//! save files hold.
//!
//! The crate models an open-ended, recursively nested tagged value as one
//! uniform type ([`model`]), sniffs a byte stream's compression envelope on
//! ingest ([`ingest`]), walks a tree once per frame handing every node a
//! stable, path-derived identity while emitting abstract render
//! instructions ([`walker`]), keeps each document's transient interaction
//! state in a side table keyed by those identities ([`state`]), and manages
//! the set of open documents, their tabs and the active view ([`docs`]).
//! The shell around the crate owns all rendering, file access and decoding;
//! everything here is pure logic with proved contracts.

pub mod docs;
pub mod ingest;
pub mod model;
pub mod order;
pub mod state;
pub mod walker;
