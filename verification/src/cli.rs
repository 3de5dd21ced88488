//! One invocation's configuration, as plain data.  The surrounding
//! program fills it from the command line it parsed; the library only
//! reads it.

use vstd::prelude::*;

verus! {

/// The settings of one invocation.
pub struct Cli {
    /// JSON input given directly as a string, instead of files or the
    /// standard input.
    pub json_string: Option<String>,
    /// The search path, written `fieldPath.fieldName`.
    pub search_path: String,
    /// The search term: a regular expression, or in numeric mode a
    /// numeric comparison.
    pub search_term: String,
    /// Files to search; when none are given, the string input or the
    /// standard input is searched.
    pub json_files: Vec<String>,
    /// Report only the first match per document.
    pub single: bool,
    /// Print the file path instead of the result path.
    pub path_output: bool,
    /// The separator for the field path, on input and on output.
    pub field_path_separator: String,
    /// Do not print the values found.
    pub hide_value: bool,
    /// Read the search term as a numeric comparison.
    pub numeric_search: bool,
}

} // verus!
