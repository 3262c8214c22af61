//! Configuration: the precedence order in which sources are consulted.
//! Loading an order from a configuration file is a caller's concern; the
//! default is the registry's declaration order.

use vstd::prelude::*;

use crate::sources::{default_precedence, spec_registry, SourceType};

verus! {

/// The configuration of a lookup: which sources to consult, in order.
pub struct Config {
    pub precedence: Vec<SourceType>,
}

impl Default for Config {
    /// The default configuration consults every registered source in
    /// declaration order.
    fn default() -> (r: Config)
        ensures
            r.precedence@ == spec_registry(),
    {
        Config { precedence: default_precedence() }
    }
}

} // verus!
