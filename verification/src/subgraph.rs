//! Sub-graph expansion: inlining of sub-graph instances within a parent
//! graph. Expansion proper is supplied by the embedding application; this
//! expander leaves the graph unchanged.

use vstd::prelude::*;

use crate::graph::GraphDescription;
use crate::GraphyError;

verus! {

/// Expands sub-graph instances in place. This implementation performs no
/// expansion: it accepts every graph and leaves it untouched.
pub struct SubGraphExpander {}

impl SubGraphExpander {
    /// Creates an expander.
    pub fn new() -> (r: SubGraphExpander) {
        SubGraphExpander {  }
    }

    /// Expands all sub-graph instances; the graph is left unchanged and
    /// the operation always succeeds.
    pub fn expand_all(&self, graph: &mut GraphDescription) -> (r: Result<(), GraphyError>)
        ensures
            *final(graph) == *old(graph),
            r is Ok,
    {
        Ok(())
    }
}

impl Default for SubGraphExpander {
    fn default() -> (r: SubGraphExpander) {
        SubGraphExpander::new()
    }
}

} // verus!
