//! The configuration values the front end reads from its configuration
//! file. Loading and deserializing the file happens outside this crate;
//! resolving the configured colors into a palette is checked here.

use vstd::prelude::*;
use crate::color::Color;
use crate::color::parse_color;
use crate::color::spec_parse_color;
use crate::color::default_colors;
use crate::error::Error;

verus! {

/// What a configuration file can set.
#[derive(Clone, Debug)]
pub struct Config {
    pub max_depth: Option<u64>,
    pub colors: Option<Vec<String>>,
    pub pretty_output: bool,
}

impl Config {
    /// The palette the configuration asks for: every configured color
    /// parsed, or the default palette when none are configured; one
    /// invalid color rejects the configuration.
    pub fn resolve_colors(&self) -> (r: Result<Vec<Color>, Error>)
        ensures
            self.colors is None ==> r is Ok,
            r matches Ok(v) ==> match self.colors {
                Some(cs) => v@.len() == cs@.len() && forall|k: int|
                    0 <= k < v@.len() ==> Some(#[trigger] v@[k]) == spec_parse_color(cs@[k]@),
                None => v@.len() == 13,
            },
            r matches Err(e) ==> match self.colors {
                Some(cs) => e is InvalidColor && exists|k: int|
                    0 <= k < cs@.len() && spec_parse_color((#[trigger] cs@[k])@) is None
                        && e->InvalidColor_0@ == cs@[k]@,
                None => false,
            },
    {
        match &self.colors {
            None => Ok(default_colors()),
            Some(cs) => {
                let n = cs.len();
                let mut v: Vec<Color> = Vec::new();
                let mut k: usize = 0;
                while k < n
                    invariant
                        self.colors matches Some(cc) && cc@ == cs@,
                        n == cs@.len(),
                        k <= n,
                        v@.len() == k,
                        forall|q: int|
                            0 <= q < k ==> Some(#[trigger] v@[q]) == spec_parse_color(cs@[q]@),
                    decreases n - k,
                {
                    match parse_color(cs[k].as_str()) {
                        Ok(c) => v.push(c),
                        Err(e) => {
                            proof {
                                assert(spec_parse_color(cs@[k as int]@) is None);
                            }
                            return Err(e);
                        },
                    }
                    k = k + 1;
                }
                Ok(v)
            },
        }
    }
}

} // verus!
