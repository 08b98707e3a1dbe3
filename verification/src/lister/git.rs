//! The search for the Git repository a path lies in: from the path's
//! directory up through its parents until one holds `.git`. The caller
//! looks at the file system; the decisions are here.
use vstd::prelude::*;
use crate::collect::{parent_of, path_parent};

verus! {

/// What to do after looking for `.git` in a directory.
#[derive(Debug, PartialEq, Eq)]
pub enum GitStep {
    /// The directory holds `.git`: the path is in a repository.
    Found(String),
    /// Look in this directory next: the parent.
    Next(String),
    /// There is no parent left: the path is in no repository.
    NotFound,
}

/// The first directory to look in: the path itself when it is a directory,
/// else its parent (none when it has no parent).
pub fn git_search_start(path: &String, is_dir: bool) -> (dir: Option<String>)
    ensures
        is_dir ==> (dir matches Some(d) && d@ == path@),
        !is_dir ==> match dir {
            Some(d) => path_parent(path@) == Some(d@),
            None => path_parent(path@) is None,
        },
{
    if is_dir {
        Some(crate::text::clone_string(path))
    } else {
        parent_of(path.as_str())
    }
}

/// The next step of the search after looking in `dir`: found when it holds
/// `.git`, else on to its parent, which is shorter, so the search ends.
pub fn git_search_step(dir: &String, has_git: bool) -> (step: GitStep)
    ensures
        has_git ==> (step matches GitStep::Found(d) && d@ == dir@),
        !has_git ==> match step {
            GitStep::Next(p) => path_parent(dir@) == Some(p@) && p@.len() < dir@.len(),
            GitStep::NotFound => path_parent(dir@) is None,
            GitStep::Found(_) => false,
        },
{
    if has_git {
        return GitStep::Found(crate::text::clone_string(dir));
    }
    match parent_of(dir.as_str()) {
        Some(p) => GitStep::Next(p),
        None => GitStep::NotFound,
    }
}

/// The Git column of an entry: `-` inside a repository, nothing elsewhere.
pub fn git_state_text(in_repository: bool) -> (s: Option<String>)
    ensures
        in_repository ==> (s matches Some(t) && t@ == "-"@),
        !in_repository ==> s is None,
{
    if in_repository {
        Some(String::from_str("-"))
    } else {
        None
    }
}

} // verus!
