//! The events that reach the application: from the scanner, from the deletion
//! workers, from the keyboard and from the clock.

use vstd::prelude::*;

verus! {

/// What the scanner reports.
#[derive(Debug)]
pub enum DirSearch {
    /// The scan has begun.
    Started,
    /// The scan has ended: entries visited, directories found.
    Finished(u64, u64),
    /// A directory was found: its path and its size in bytes.
    Found(String, u64),
    /// The scan goes on: entries visited so far.
    Progress(u64),
}

/// What a deletion worker reports about one directory: its path, its size in
/// bytes and, for a failure, the reason.
#[derive(Debug)]
pub enum DirDelete {
    /// The removal has begun.
    Deleting(String, u64),
    /// The directory is gone.
    Deleted(String, u64),
    /// The removal did not succeed.
    Failed(String, u64, String),
}

/// The keys that the application tells apart.
#[derive(Debug, Clone, Copy, PartialEq, Eq, Structural)]
pub enum KeyCode {
    Backspace,
    Enter,
    Left,
    Right,
    Up,
    Down,
    Tab,
    Esc,
    Char(char),
    /// Any other key.
    Other,
}

/// A key press.
#[derive(Debug, Clone, Copy, PartialEq, Eq, Structural)]
pub struct KeyEvent {
    /// The key.
    pub code: KeyCode,
    /// Whether Control, and no other modifier, was held.
    pub control: bool,
}

/// Everything that can reach the application.
#[derive(Debug)]
pub enum Event {
    /// The clock has ticked.
    Tick,
    /// A key was pressed.
    Key(KeyEvent),
    /// The mouse was used.
    Mouse,
    /// The terminal has a new size: columns and rows.
    Resize(u16, u16),
    /// A deletion worker reports.
    Delete(DirDelete),
    /// The scanner reports.
    Search(DirSearch),
}

} // verus!
