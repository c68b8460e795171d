//! A terminal that can be attached to.
use vstd::prelude::*;

verus! {

/// One attachable terminal: its preferred URL, other URLs that reach it, a
/// stable id URL, the command it runs and when it was created.
pub struct Target {
    pub url: String,
    pub aliases: Vec<String>,
    pub id: String,
    pub command: String,
    pub created: String,
}

/// The texts of a sequence of strings.
pub open spec fn string_views(v: Seq<String>) -> Seq<Seq<char>> {
    v.map_values(|s: String| s@)
}

} // verus!
