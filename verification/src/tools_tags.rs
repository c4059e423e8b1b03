//! Tag and note-management tools of the agent layer: adding and removing
//! tags, duplicating and merging notes.
//!
//! Running a tool reads and writes note files, which the surrounding
//! application does.

use vstd::prelude::*;

verus! {

/// Arguments of the add-tag tool.
pub struct AddTagArgs {
    /// The name of the note.
    pub name: String,
    /// The tag to add, without the leading `#`.
    pub tag: String,
}

/// Adds a tag to a note's frontmatter.
pub struct AddTag {
    /// The note database the tool works against.
    pub db_path: std::path::PathBuf,
}

impl AddTag {
    /// An add-tag tool over the given note database.
    pub fn new(db_path: std::path::PathBuf) -> (r: Self)
        ensures
            r.db_path == db_path,
    {
        AddTag { db_path }
    }
}

/// Arguments of the remove-tag tool.
pub struct RemoveTagArgs {
    /// The name of the note.
    pub name: String,
    /// The tag to remove, without the leading `#`.
    pub tag: String,
}

/// Removes a tag from a note's frontmatter.
pub struct RemoveTag {
    /// The note database the tool works against.
    pub db_path: std::path::PathBuf,
}

impl RemoveTag {
    /// A remove-tag tool over the given note database.
    pub fn new(db_path: std::path::PathBuf) -> (r: Self)
        ensures
            r.db_path == db_path,
    {
        RemoveTag { db_path }
    }
}

/// Arguments of the duplicate-note tool.
pub struct DuplicateNoteArgs {
    /// The name of the note to duplicate.
    pub name: String,
    /// The name of the copy.
    pub new_name: String,
}

/// Creates a copy of an existing note under a new name.
pub struct DuplicateNote {
    /// The note database the tool works against.
    pub db_path: std::path::PathBuf,
}

impl DuplicateNote {
    /// A duplicate-note tool over the given note database.
    pub fn new(db_path: std::path::PathBuf) -> (r: Self)
        ensures
            r.db_path == db_path,
    {
        DuplicateNote { db_path }
    }
}

/// Arguments of the merge-notes tool.
pub struct MergeNotesArgs {
    /// The notes to merge, in order.
    pub names: Vec<String>,
    /// The name of the merged note.
    pub target_name: String,
}

/// Merges several notes into one; the sources are preserved.
pub struct MergeNotes {
    /// The note database the tool works against.
    pub db_path: std::path::PathBuf,
}

impl MergeNotes {
    /// A merge-notes tool over the given note database.
    pub fn new(db_path: std::path::PathBuf) -> (r: Self)
        ensures
            r.db_path == db_path,
    {
        MergeNotes { db_path }
    }
}

} // verus!
