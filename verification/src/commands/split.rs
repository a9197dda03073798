//! Hunks of a commit's diff, as `gg split` offers them for selection.
use vstd::prelude::*;

verus! {

/// One line of a hunk: its origin marker (`' '`, `'+'` or `'-'`) and text.
#[derive(Debug, Clone)]
pub struct DiffLine {
    pub origin: char,
    pub content: String,
}

/// A hunk of a file's diff.
#[derive(Debug, Clone)]
pub struct DiffHunk {
    pub file_path: String,
    pub header: String,
    pub lines: Vec<DiffLine>,
    pub old_start: u32,
    pub old_lines: u32,
    pub new_start: u32,
    pub new_lines: u32,
}

} // verus!
