use vstd::prelude::*;
use crate::paths::{path_join, spec_join};

verus! {

/// One project's configuration record, as its `Shuffle.toml` marker file
/// declares it.
pub struct Config {
    pub blockchain: String,
}

impl Config {
    pub fn new(blockchain: String) -> (c: Config)
        ensures
            c.blockchain@ == blockchain@,
    {
        Config { blockchain }
    }
}

/// Where a project keeps its configuration: the marker file itself.
pub fn config_file_path(project_path: &str) -> (r: String)
    ensures
        r@ == spec_join(project_path@, "Shuffle.toml"@),
{
    path_join(project_path, "Shuffle.toml")
}

} // verus!
