//! General utility tools of the agent layer: find and replace, the daily
//! note, and small informational queries.
//!
//! Running a tool reads and writes note files and consults the clock, which
//! the surrounding application does.

use vstd::prelude::*;

verus! {

/// Arguments of the find-and-replace tool.
pub struct FindAndReplaceArgs {
    /// The name of the note.
    pub name: String,
    /// The text to find.
    pub find: String,
    /// The replacement text.
    pub replace: String,
}

/// Replaces every occurrence of a text in a note.
pub struct FindAndReplace {
    /// The note database the tool works against.
    pub db_path: std::path::PathBuf,
}

impl FindAndReplace {
    /// A find-and-replace tool over the given note database.
    pub fn new(db_path: std::path::PathBuf) -> (r: Self)
        ensures
            r.db_path == db_path,
    {
        FindAndReplace { db_path }
    }
}

/// Arguments of the daily-note tool.
pub struct CreateDailyNoteArgs {
    /// An optional folder for the daily note.
    pub folder: Option<String>,
}

/// Creates today's daily note from a fixed template.
pub struct CreateDailyNote {
    /// The note database the tool works against.
    pub db_path: std::path::PathBuf,
    /// The directory the notes live in.
    pub notes_dir: std::path::PathBuf,
}

impl CreateDailyNote {
    /// A daily-note tool over the given note database and notes directory.
    pub fn new(db_path: std::path::PathBuf, notes_dir: std::path::PathBuf) -> (r: Self)
        ensures
            r.db_path == db_path,
            r.notes_dir == notes_dir,
    {
        CreateDailyNote { db_path, notes_dir }
    }
}

/// Arguments of the date-and-time tool.
pub struct GetSystemDateTimeArgs {}

/// Reports the current date and time in several formats.
pub struct GetSystemDateTime {}

impl GetSystemDateTime {
    /// A date-and-time tool.
    pub fn new() -> (r: Self) {
        GetSystemDateTime {  }
    }
}

/// Arguments of the application-information tool.
pub struct GetAppInfoArgs {}

/// Reports version and feature information about the application.
pub struct GetAppInfo {
    /// The directory the notes live in.
    pub notes_dir: std::path::PathBuf,
}

impl GetAppInfo {
    /// An application-information tool over the given notes directory.
    pub fn new(notes_dir: std::path::PathBuf) -> (r: Self)
        ensures
            r.notes_dir == notes_dir,
    {
        GetAppInfo { notes_dir }
    }
}

/// Arguments of the workspace-path tool.
pub struct GetWorkspacePathArgs {}

/// Reports the absolute path of the notes workspace.
pub struct GetWorkspacePath {
    /// The directory the notes live in.
    pub notes_dir: std::path::PathBuf,
}

impl GetWorkspacePath {
    /// A workspace-path tool over the given notes directory.
    pub fn new(notes_dir: std::path::PathBuf) -> (r: Self)
        ensures
            r.notes_dir == notes_dir,
    {
        GetWorkspacePath { notes_dir }
    }
}

} // verus!
