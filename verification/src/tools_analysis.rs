//! Note-analysis tools of the agent layer: statistics, table of contents,
//! code-block extraction, structure analysis and fuzzy name search.
//!
//! Each tool names the note database it works against; running a tool reads
//! note files and talks to the agent runtime, which the surrounding
//! application does.

use vstd::prelude::*;

verus! {

/// The declared shape of `std::path::PathBuf`: paths are carried through
/// this crate as opaque values.
#[verifier::external_type_specification]
#[verifier::external_body]
pub struct ExPathBuf(std::path::PathBuf);

/// Arguments of the word-count tool.
pub struct GetWordCountArgs {
    /// The name of the note.
    pub name: String,
}

/// Reports word, line and character counts of a note.
pub struct GetWordCount {
    /// The note database the tool works against.
    pub db_path: std::path::PathBuf,
}

impl GetWordCount {
    /// A word-count tool over the given note database.
    pub fn new(db_path: std::path::PathBuf) -> (r: Self)
        ensures
            r.db_path == db_path,
    {
        GetWordCount { db_path }
    }
}

/// Arguments of the table-of-contents tool.
pub struct GenerateTocArgs {
    /// The name of the note.
    pub name: String,
}

/// Builds a table of contents from the headings of a note.
pub struct GenerateToc {
    /// The note database the tool works against.
    pub db_path: std::path::PathBuf,
}

impl GenerateToc {
    /// A table-of-contents tool over the given note database.
    pub fn new(db_path: std::path::PathBuf) -> (r: Self)
        ensures
            r.db_path == db_path,
    {
        GenerateToc { db_path }
    }
}

/// Arguments of the code-block extraction tool.
pub struct ExtractCodeBlocksArgs {
    /// The name of the note.
    pub name: String,
}

/// Extracts fenced code blocks from a note, with their languages.
pub struct ExtractCodeBlocks {
    /// The note database the tool works against.
    pub db_path: std::path::PathBuf,
}

impl ExtractCodeBlocks {
    /// A code-block extraction tool over the given note database.
    pub fn new(db_path: std::path::PathBuf) -> (r: Self)
        ensures
            r.db_path == db_path,
    {
        ExtractCodeBlocks { db_path }
    }
}

/// Arguments of the structure-analysis tool.
pub struct AnalyzeNoteStructureArgs {
    /// The name of the note.
    pub name: String,
}

/// Counts headings, links, tags, list items and code blocks of a note.
pub struct AnalyzeNoteStructure {
    /// The note database the tool works against.
    pub db_path: std::path::PathBuf,
}

impl AnalyzeNoteStructure {
    /// A structure-analysis tool over the given note database.
    pub fn new(db_path: std::path::PathBuf) -> (r: Self)
        ensures
            r.db_path == db_path,
    {
        AnalyzeNoteStructure { db_path }
    }
}

/// Arguments of the fuzzy name search.
pub struct FuzzySearchArgs {
    /// The query, possibly partial or misspelt.
    pub query: String,
}

/// Finds notes whose names approximately match a query.
pub struct FuzzySearch {
    /// The note database the tool works against.
    pub db_path: std::path::PathBuf,
}

impl FuzzySearch {
    /// A fuzzy name search over the given note database.
    pub fn new(db_path: std::path::PathBuf) -> (r: Self)
        ensures
            r.db_path == db_path,
    {
        FuzzySearch { db_path }
    }
}

} // verus!
