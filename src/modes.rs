//! The editor's modes, as the status line and the key handlers see them.

use vstd::prelude::*;

verus! {

/// Direction of a search (`/` forward, `?` backward).
#[derive(Clone, Copy, Debug, PartialEq, Eq, Structural)]
pub enum SearchDirection {
    Forward,
    Backward,
}

/// The modal state of the application.
#[derive(Clone, Copy, Debug, PartialEq, Eq, Structural)]
pub enum Mode {
    /// Moving between cells.
    Normal,
    /// Inside a cell, moving and operating on text.
    CellNormal,
    /// Inside a cell, typing.
    CellInsert,
    /// Inside a cell, selecting.
    CellVisual,
    /// Typing a command line.
    Command,
    /// Typing a search pattern.
    Search,
}

/// What a key in insert mode asks the caller to do.
#[derive(Clone, Copy, Debug, PartialEq, Eq, Structural)]
pub enum CellInsertAction {
    NoAction,
    ExecuteAndExit,
    RequestCompletion,
}

impl Mode {
    /// Whether a cell's editor is active in this mode.
    pub fn is_in_cell(&self) -> (r: bool)
        ensures
            r <==> (*self == Mode::CellNormal || *self == Mode::CellInsert || *self
                == Mode::CellVisual),
    {
        match self {
            Mode::CellNormal | Mode::CellInsert | Mode::CellVisual => true,
            _ => false,
        }
    }

    /// The name the status line shows for this mode.
    pub fn label(&self) -> (r: String)
        ensures
            r@ == mode_label(*self),
    {
        match self {
            Mode::Normal => String::from_str("NORMAL"),
            Mode::CellNormal => String::from_str("CELL:NORMAL"),
            Mode::CellInsert => String::from_str("CELL:INSERT"),
            Mode::CellVisual => String::from_str("CELL:VISUAL"),
            Mode::Command => String::from_str("COMMAND"),
            Mode::Search => String::from_str("SEARCH"),
        }
    }
}

pub open spec fn mode_label(m: Mode) -> Seq<char> {
    match m {
        Mode::Normal => "NORMAL"@,
        Mode::CellNormal => "CELL:NORMAL"@,
        Mode::CellInsert => "CELL:INSERT"@,
        Mode::CellVisual => "CELL:VISUAL"@,
        Mode::Command => "COMMAND"@,
        Mode::Search => "SEARCH"@,
    }
}

} // verus!
