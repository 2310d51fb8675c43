//! Glob descriptors: a pattern, a base directory and a depth limit,
//! carried opaquely through the protocol and resolved to a path list only
//! at the point of use, by a resolver outside this crate.

use vstd::prelude::*;

verus! {

/// The depth limit used when a request names none.
pub const DEFAULT_MAX_DEPTH: u64 = 2;

/// A pattern to resolve against a base directory, descending at most
/// `max_depth` levels.
#[derive(Clone, Debug)]
pub struct Glob {
    pub pattern: String,
    pub base_dir: String,
    pub max_depth: u64,
}

impl Glob {
    /// A descriptor for this pattern under this base directory; the
    /// default depth stands in when none is given.
    pub fn new(pattern: String, base_dir: String, max_depth: Option<u64>) -> (g: Glob)
        ensures
            g.pattern@ == pattern@,
            g.base_dir@ == base_dir@,
            g.max_depth == match max_depth {
                Some(d) => d,
                None => DEFAULT_MAX_DEPTH,
            },
    {
        let depth = match max_depth {
            Some(d) => d,
            None => DEFAULT_MAX_DEPTH,
        };
        Glob { pattern, base_dir, max_depth: depth }
    }
}

} // verus!
