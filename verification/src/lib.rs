//! Incremental semantic indexing of a screenshot corpus: the decisions behind
//! scanning, batching, persisting and searching, stated as contracts over
//! plain values.
//!
//! The library performs no input or output. Whoever embeds it reads
//! directories, runs the embedding models and talks to the vector store, and
//! reports what happened; the library decides what is done next and what the
//! caller is told.
//!
//! * [`run`] is the indexing run as a state machine over mathematical
//!   values, with what holds of every run; [`indexer`] is the same machine
//!   in executable form.
//! * [`corpus`] walks the directory tree and diffs it against the index;
//!   [`batch`] pairs files, vectors and metadata into rows.
//! * [`search`] turns the store's ranked candidates into results.
//! * [`store`] and [`columns`] hold the decisions around the vector store's
//!   table and read its columns.
//! * [`config`], [`events`], [`paths`] and [`text`] are the values and
//!   helpers that the rest is built on.
//! * [`settings`], [`convert`], [`organizer`], [`tray`] and [`hotkey`] hold
//!   the few rules of the surrounding application that are plain
//!   computation.

pub mod batch;
pub mod columns;
pub mod config;
pub mod convert;
pub mod corpus;
pub mod events;
pub mod hotkey;
pub mod indexer;
pub mod organizer;
pub mod paths;
pub mod run;
pub mod search;
pub mod settings;
pub mod store;
pub mod text;
pub mod tray;
