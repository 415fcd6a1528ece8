//! The settings that a scan reads.

use vstd::prelude::*;

verus! {

/// Where the attribute dump lies and whose ratings to track. Names are
/// compared without regard to case; a name given twice is tracked twice.
#[derive(Clone, Debug, PartialEq, Eq)]
pub struct Config {
    pub file_path: String,
    pub player_names: Vec<String>,
}

/// The characters of each string, in order.
pub open spec fn strings_view(s: Seq<String>) -> Seq<Seq<char>> {
    s.map_values(|x: String| x@)
}

impl Config {
    /// The player names, as text.
    pub open spec fn names(&self) -> Seq<Seq<char>> {
        strings_view(self.player_names@)
    }
}

} // verus!
