//! Extraction of call trees, source locations, variables and types from the
//! debug entries of a compiled binary.

use vstd::prelude::*;

pub mod compilation_unit_parser;
pub mod debug_entry;
pub mod die_extensions;
pub mod report;
pub mod text;
pub mod type_parser;
pub mod types;
pub mod worklist;

verus! {

/// What a run extracts and where the report goes.
#[derive(Debug, Default)]
pub struct ParsingOptions {
    /// Whether method names are demangled.
    pub demangle: bool,
    /// Where the report is written; standard output where there is none.
    pub output_file_path: Option<String>,
    /// Whether variables and their types are extracted.
    pub extract_variables: bool,
}

} // verus!
