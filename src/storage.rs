//! What loading the task file amounts to, decided from what the file holds.
use crate::text::{trim, trim_text};
use vstd::prelude::*;

verus! {

/// The name of the task file in the user's home directory.
pub const DB_FILE: &'static str = ".todos";

/// What a missing task file is created with: an empty list.
pub const EMPTY_STORE: &'static str = "[]";

/// How to load the task file.
#[derive(Clone, Copy, Debug, PartialEq, Eq, Structural)]
pub enum LoadPlan {
    /// No file: start empty and write `EMPTY_STORE` to it.
    CreateEmpty,
    /// Only whitespace in the file: start empty and leave the file as it is.
    Empty,
    /// Read the tasks from the file's text.
    Parse,
}

/// How to load the task file, given whether it exists and what it holds.
pub fn load_plan(file_exists: bool, contents: &str) -> (r: LoadPlan)
    ensures
        !file_exists ==> r == LoadPlan::CreateEmpty,
        file_exists && trim(contents@).len() == 0 ==> r == LoadPlan::Empty,
        file_exists && trim(contents@).len() > 0 ==> r == LoadPlan::Parse,
{
    if !file_exists {
        LoadPlan::CreateEmpty
    } else if trim_text(contents).unicode_len() == 0 {
        LoadPlan::Empty
    } else {
        LoadPlan::Parse
    }
}

} // verus!
