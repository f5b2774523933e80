//! Finds heavyweight dependency directories below a root, lists them for
//! selection and tracks their removal.
//!
//! This crate holds the state machine: the list and selection model, the
//! bookkeeping of removals in flight, and the transition functions that apply
//! scanner, deletion and keyboard events to that state. Walking the file system,
//! removing directories and drawing the terminal are left to the caller.

pub mod text;

pub mod counters;

pub mod actions;

pub mod event;

pub mod app;

pub mod list;

pub mod list_model;

pub mod dir_entry_item;

pub mod model;

pub mod event_handling;

pub mod laws;

pub mod effects;

pub mod ui;
