//! Vim-style editing modes of the note editor.

use vstd::prelude::*;

verus! {

/// The editing modes the editor can be in.
#[derive(Debug, Clone, Copy, PartialEq, Eq, Structural)]
pub enum EditorMode {
    /// Navigation and movement commands.
    Normal,
    /// Free text editing.
    Insert,
    /// Command entry prefixed with ':'.
    Command,
    /// Text selection.
    Visual,
}

impl EditorMode {
    /// The name of the mode as shown in the user interface.
    pub fn name(&self) -> (r: &'static str)
        ensures
            r@ == self.spec_name(),
    {
        proof {
            reveal_strlit("NORMAL");
            reveal_strlit("INSERT");
            reveal_strlit("COMMAND");
            reveal_strlit("VISUAL");
        }
        match self {
            EditorMode::Normal => "NORMAL",
            EditorMode::Insert => "INSERT",
            EditorMode::Command => "COMMAND",
            EditorMode::Visual => "VISUAL",
        }
    }

    /// The name of each mode, as a sequence of characters.
    pub open spec fn spec_name(self) -> Seq<char> {
        match self {
            EditorMode::Normal => "NORMAL"@,
            EditorMode::Insert => "INSERT"@,
            EditorMode::Command => "COMMAND"@,
            EditorMode::Visual => "VISUAL"@,
        }
    }

    /// Whether the mode allows direct text editing.
    pub fn is_editable(&self) -> (r: bool)
        ensures
            r == (self is Insert),
    {
        matches!(self, EditorMode::Insert)
    }
}

impl Default for EditorMode {
    /// The editor starts in normal mode.
    fn default() -> (r: Self)
        ensures
            r is Normal,
    {
        EditorMode::Normal
    }
}

} // verus!
