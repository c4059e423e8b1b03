//! Reminder tools of the agent layer: creating, deleting and modifying
//! reminder lines inside notes.
//!
//! Running a tool reads and writes note files and consults the clock, which
//! the surrounding application does.

use vstd::prelude::*;

verus! {

/// Arguments of the create-reminder tool.
pub struct CreateReminderArgs {
    /// The note the reminder is appended to.
    pub note_name: String,
    /// The reminder text.
    pub text: String,
    /// The due date, absolute or relative ("tomorrow 09:00").
    pub date: String,
    /// An optional priority: "low", "medium", "high" or "urgent".
    pub priority: Option<String>,
    /// An optional repeat pattern: "daily", "weekly" or "monthly".
    pub repeat: Option<String>,
}

/// Appends a reminder line to a note.
pub struct CreateReminder {
    /// The note database the tool works against.
    pub db_path: std::path::PathBuf,
}

impl CreateReminder {
    /// A create-reminder tool over the given note database.
    pub fn new(db_path: std::path::PathBuf) -> (r: Self)
        ensures
            r.db_path == db_path,
    {
        CreateReminder { db_path }
    }
}

/// Arguments of the delete-reminder tool.
pub struct DeleteReminderArgs {
    /// The note holding the reminder.
    pub note_name: String,
    /// Text identifying the reminder to delete.
    pub text_match: String,
}

/// Deletes reminder lines matching a text from a note.
pub struct DeleteReminder {
    /// The note database the tool works against.
    pub db_path: std::path::PathBuf,
}

impl DeleteReminder {
    /// A delete-reminder tool over the given note database.
    pub fn new(db_path: std::path::PathBuf) -> (r: Self)
        ensures
            r.db_path == db_path,
    {
        DeleteReminder { db_path }
    }
}

/// Arguments of the modify-reminder tool.
pub struct ModifyReminderArgs {
    /// The note holding the reminder.
    pub note_name: String,
    /// Text identifying the reminder to modify.
    pub original_text_match: String,
    /// The new due date.
    pub new_date: String,
    /// The new reminder text.
    pub new_text: String,
    /// An optional new priority.
    pub new_priority: Option<String>,
    /// An optional new repeat pattern.
    pub new_repeat: Option<String>,
}

/// Replaces the first reminder line matching a text in a note.
pub struct ModifyReminder {
    /// The note database the tool works against.
    pub db_path: std::path::PathBuf,
}

impl ModifyReminder {
    /// A modify-reminder tool over the given note database.
    pub fn new(db_path: std::path::PathBuf) -> (r: Self)
        ensures
            r.db_path == db_path,
    {
        ModifyReminder { db_path }
    }
}

} // verus!
