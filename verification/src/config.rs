//! What the user configures.

use vstd::prelude::*;

verus! {

/// The configuration of a run.
#[derive(Debug)]
pub struct Config {
    /// Base address of the list the ratings are read from.
    pub letterboxd: String,
    /// The release-group tags that are recognised in a file name, in order of preference.
    pub enc_list: Vec<String>,
}

impl Config {
    /// The tags as texts.
    pub open spec fn tags(&self) -> Seq<Seq<char>> {
        Seq::new(self.enc_list@.len(), |i: int| self.enc_list@[i]@)
    }
}

} // verus!
