use vstd::prelude::*;
use vstd::string::StringExecFns;
use crate::errors::Error;
use crate::fsmodel::FileTree;
use crate::paths::{parent_dir, path_join, spec_join, spec_parent};

verus! {

/// The project root an ancestor walk from `dir` finds: the first
/// directory, from `dir` upward, whose marker file `Shuffle.toml` exists
/// in `tree`.
pub open spec fn spec_project_root(tree: FileTree, dir: Seq<char>) -> Option<Seq<char>>
    decreases dir.len(),
{
    if tree.file_at(spec_join(dir, "Shuffle.toml"@)) is Some {
        Some(dir)
    } else {
        match spec_parent(dir) {
            Option::None => None,
            Option::Some(p) => if p.len() < dir.len() {
                spec_project_root(tree, p)
            } else {
                None
            },
        }
    }
}

/// Checks `cwd`, and then its ancestors in turn, for the project marker
/// file `Shuffle.toml`: the first directory holding one is the base
/// project directory; running out of ancestors is a not-found error.
pub fn get_shuffle_project_path(tree: &FileTree, cwd: &str) -> (r: Result<String, Error>)
    ensures
        (r is Ok) == (spec_project_root(*tree, cwd@) is Some),
        r matches Ok(p) ==> spec_project_root(*tree, cwd@) == Some(p@),
        r is Err ==> r == Err::<String, Error>(Error::NotFound),
    decreases cwd@.len(),
{
    let candidate = path_join(cwd, "Shuffle.toml");
    if tree.is_file(candidate.as_str()) {
        Ok(String::from_str(cwd))
    } else {
        match parent_dir(cwd) {
            None => Err(Error::NotFound),
            Some(p) => get_shuffle_project_path(tree, p.as_str()),
        }
    }
}

} // verus!
