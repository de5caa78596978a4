//! The decisions of the terminal interface: what a key press or a resize does
//! to the state of a view. Drawing and reading the terminal are left to the
//! program around the library.
use vstd::prelude::*;

pub mod dashboard;
pub mod diff_table;
pub mod diff_view;
pub mod modification;
pub mod progress;
pub mod report;
pub mod subcommands;
pub mod resolver;

verus! {

/// The keys the views react to.
#[derive(Debug, Clone, Copy, PartialEq, Eq, Structural)]
pub enum KeyCode {
    Char(char),
    Esc,
    Enter,
    Up,
    Down,
    Left,
    Right,
    PageUp,
    PageDown,
    Home,
    End,
    Tab,
    Backspace,
    Delete,
    Other,
}

/// A key press (or release) with the modifiers that were held.
#[derive(Debug, Clone, Copy, PartialEq, Eq, Structural)]
pub struct KeyEvent {
    pub code: KeyCode,
    pub shift: bool,
    pub control: bool,
    pub release: bool,
}

/// What the terminal reports.
#[derive(Debug, Clone, Copy, PartialEq, Eq, Structural)]
pub enum Event {
    Key(KeyEvent),
    Resize,
    FocusLost,
    FocusGained,
    Other,
}

/// Whether the user is looking at the terminal.
#[derive(Debug, Clone, Copy, PartialEq, Eq, Structural)]
pub enum FocusState {
    Normal,
    Away,
    Returned,
}

/// The output format of a crawl.
#[derive(Debug, Clone, Copy, PartialEq, Eq, Structural)]
pub enum StructFormat {
    /// JavaScript Object Notation (JSON) format
    Json,
    /// Binary format encoded in Base64
    Binary,
}

} // verus!
