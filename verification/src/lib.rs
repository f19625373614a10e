//! Core library of a session monitor for an AI coding assistant.
//!
//! The assistant's lifecycle events arrive as a line-delimited JSON log
//! appended by an out-of-process hook script.  This crate holds the verified
//! core: the JSON grammar of that log, the event-queue drain pipeline, the
//! session state machine and its store, and the diff-viewer process registry.
//! File and process I/O live outside the library; every function here is
//! pure computation over plain values, with its behaviour stated in
//! `requires`/`ensures` clauses.

pub mod assoc;
pub mod difit;
pub mod drain;
pub mod event;
pub mod git;
pub mod jsonl;
pub mod machine;
pub mod menu;
pub mod parse;
pub mod paths;
pub mod registry;
pub mod setup;
pub mod store;
pub mod strutil;
pub mod tmux;
