//! Parallel execution support: configuration for the worker pool and the
//! pooled variants of the resolver's data-parallel phases.
//!
//! Each pooled phase hands a verified per-element function to a parallel
//! map; the contracts state that the collected vector holds exactly the
//! per-element results in order, which is what an indexed parallel map
//! guarantees. Everything that consumes these vectors is verified.

use vstd::prelude::*;

use rayon::iter::{IntoParallelRefIterator, ParallelIterator};

use crate::connection::Connection;
use crate::data_flow::{
    connection_entry, node_default_candidates, opt_entry_view, source_entries_view,
    spec_connection_entry, spec_node_candidates, var_name_seq, variable_entry, DataSource,
};
use crate::node::NodeInstance;

verus! {

/// Configuration for the worker pool used by the pooled resolver build.
#[derive(Debug, Clone)]
pub struct ThreadPoolConfig {
    /// Number of worker threads; `None` selects the host's available
    /// parallelism.
    pub num_threads: Option<usize>,
    /// Stack size per thread in bytes.
    pub stack_size: Option<usize>,
    /// Thread name prefix.
    pub thread_name: String,
    /// Whether to use breadth-first work stealing.
    pub breadth_first: bool,
}

impl ThreadPoolConfig {
    /// The default configuration: automatic thread count, 2 MiB stacks,
    /// last-in-first-out work stealing.
    pub fn new() -> (r: ThreadPoolConfig)
        ensures
            r.num_threads is None,
            r.stack_size == Some(2097152usize),
            r.thread_name@ == "graphy-worker"@,
            !r.breadth_first,
    {
        ThreadPoolConfig {
            num_threads: None,
            stack_size: Some(2 * 1024 * 1024),
            thread_name: String::from_str("graphy-worker"),
            breadth_first: false,
        }
    }

    /// Sets the number of threads.
    #[must_use]
    pub fn with_num_threads(self, num: usize) -> (r: ThreadPoolConfig)
        ensures
            r == (ThreadPoolConfig { num_threads: Some(num), ..self }),
    {
        ThreadPoolConfig { num_threads: Some(num), ..self }
    }

    /// Sets the stack size per thread.
    #[must_use]
    pub fn with_stack_size(self, size: usize) -> (r: ThreadPoolConfig)
        ensures
            r == (ThreadPoolConfig { stack_size: Some(size), ..self }),
    {
        ThreadPoolConfig { stack_size: Some(size), ..self }
    }

    /// Enables breadth-first work stealing.
    #[must_use]
    pub fn with_breadth_first(self, enabled: bool) -> (r: ThreadPoolConfig)
        ensures
            r == (ThreadPoolConfig { breadth_first: enabled, ..self }),
    {
        ThreadPoolConfig { breadth_first: enabled, ..self }
    }

    /// The number of threads the pool will use, given the host's available
    /// parallelism (a fallback of 4 is used when the host reports none).
    pub fn get_num_threads(&self, available_parallelism: usize) -> (r: usize)
        ensures
            r == match self.num_threads {
                Some(n) => n,
                None => if available_parallelism > 0 {
                    available_parallelism
                } else {
                    4usize
                },
            },
    {
        match self.num_threads {
            Some(n) => n,
            None => if available_parallelism > 0 {
                available_parallelism
            } else {
                4
            },
        }
    }
}

impl Default for ThreadPoolConfig {
    fn default() -> (r: ThreadPoolConfig)
        ensures
            r.num_threads is None,
            r.stack_size == Some(2097152usize),
            r.thread_name@ == "graphy-worker"@,
            !r.breadth_first,
    {
        ThreadPoolConfig::new()
    }
}

/// Relies on rayon's par_iter, map and collect: an indexed parallel map
/// collected into a Vec holds exactly the per-element results of the
/// mapped function, in the input's order.
#[verifier::external_body]
pub(crate) fn par_connection_entries(conns: &Vec<Connection>) -> (r: Vec<
    Option<((String, String), DataSource)>>)
    ensures
        r@.len() == conns@.len(),
        forall|i: int|
            0 <= i < r@.len() ==> opt_entry_view(r@[i]) == spec_connection_entry(conns@[i]),
{
    conns.par_iter().map(connection_entry).collect()
}

/// Relies on rayon's par_iter, map and collect: an indexed parallel map
/// collected into a Vec holds exactly the per-element results of the
/// mapped function, in the input's order.
#[verifier::external_body]
pub(crate) fn par_default_candidates(nodes: &Vec<NodeInstance>) -> (r: Vec<
    Vec<((String, String), DataSource)>>)
    ensures
        r@.len() == nodes@.len(),
        forall|i: int|
            0 <= i < r@.len() ==> source_entries_view(r@[i]@) == spec_node_candidates(nodes@[i]),
{
    nodes.par_iter().map(node_default_candidates).collect()
}

/// Relies on rayon's par_iter, map and collect: an indexed parallel map
/// collected into a Vec holds exactly the per-element results of the
/// mapped function, in the input's order.
#[verifier::external_body]
pub(crate) fn par_variable_entries(nodes: &Vec<NodeInstance>) -> (r: Vec<(String, String)>)
    ensures
        r@.len() == nodes@.len(),
        forall|i: int|
            0 <= i < r@.len() ==> r@[i].0@ == nodes@[i].id@ && r@[i].1@ == var_name_seq(
                nodes@[i].id@,
            ),
{
    nodes.par_iter().map(variable_entry).collect()
}

} // verus!
