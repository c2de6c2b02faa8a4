//! Shared context for code generation: the analyses' results, visited-node
//! tracking, and the current indentation level.

use vstd::prelude::*;

use crate::data_flow::DataResolver;
use crate::exec_flow::ExecutionRouting;
use crate::graph::GraphDescription;
use crate::metadata::NodeMetadataProvider;
use crate::text::{chars_to_string, contains_string, string_views};

verus! {

/// The indentation text for a nesting level: four spaces per level.
pub open spec fn indent_seq(level: nat) -> Seq<char>
    decreases level,
{
    if level == 0 {
        Seq::<char>::empty()
    } else {
        indent_seq((level - 1) as nat) + "    "@
    }
}

/// Context for code generation: read-only access to the graph, registry
/// and both analyses, plus the generator's own bookkeeping.
pub struct CodeGeneratorContext<'a, P: NodeMetadataProvider> {
    /// The graph being compiled.
    pub graph: &'a GraphDescription,
    /// The node metadata registry.
    pub metadata_provider: &'a P,
    /// The data flow resolver.
    pub data_resolver: &'a DataResolver,
    /// The execution routing table.
    pub exec_routing: &'a ExecutionRouting,
    /// The nodes already visited during generation.
    pub visited: Vec<String>,
    /// The current indentation level.
    pub indent_level: usize,
}

impl<'a, P: NodeMetadataProvider> CodeGeneratorContext<'a, P> {
    /// The ids marked visited.
    pub open spec fn visited_ids(&self) -> Seq<Seq<char>> {
        string_views(self.visited@)
    }

    /// Creates a context over the graph and its analyses, with nothing
    /// visited and no indentation.
    pub fn new(
        graph: &'a GraphDescription,
        metadata_provider: &'a P,
        data_resolver: &'a DataResolver,
        exec_routing: &'a ExecutionRouting,
    ) -> (r: CodeGeneratorContext<'a, P>)
        ensures
            r.graph == graph,
            r.metadata_provider == metadata_provider,
            r.data_resolver == data_resolver,
            r.exec_routing == exec_routing,
            r.visited_ids() =~= Seq::<Seq<char>>::empty(),
            r.indent_level == 0,
    {
        let r = CodeGeneratorContext {
            graph,
            metadata_provider,
            data_resolver,
            exec_routing,
            visited: Vec::new(),
            indent_level: 0,
        };
        proof {
            assert(string_views(r.visited@) =~= Seq::<Seq<char>>::empty());
        }
        r
    }

    /// The current indentation text: four spaces per level.
    pub fn indent(&self) -> (r: String)
        ensures
            r@ == indent_seq(self.indent_level as nat),
    {
        let n = self.indent_level;
        let mut out: Vec<char> = Vec::new();
        let mut i: usize = 0;
        proof {
            assert(out@ =~= indent_seq(0));
        }
        while i < n
            invariant
                0 <= i <= n,
                out@ =~= indent_seq(i as nat),
            decreases n - i,
        {
            out.push(' ');
            out.push(' ');
            out.push(' ');
            out.push(' ');
            proof {
                reveal_strlit("    ");
                assert(out@ =~= indent_seq((i + 1) as nat));
            }
            i = i + 1;
        }
        chars_to_string(&out)
    }

    /// Increases the indentation level.
    pub fn push_indent(&mut self)
        requires
            old(self).indent_level < usize::MAX,
        ensures
            final(self).indent_level == old(self).indent_level + 1,
            final(self).visited == old(self).visited,
            final(self).graph == old(self).graph,
            final(self).metadata_provider == old(self).metadata_provider,
            final(self).data_resolver == old(self).data_resolver,
            final(self).exec_routing == old(self).exec_routing,
    {
        self.indent_level = self.indent_level + 1;
    }

    /// Decreases the indentation level, stopping at zero.
    pub fn pop_indent(&mut self)
        ensures
            final(self).indent_level == (if old(self).indent_level > 0 {
                old(self).indent_level - 1
            } else {
                0int
            }),
            final(self).visited == old(self).visited,
            final(self).graph == old(self).graph,
            final(self).metadata_provider == old(self).metadata_provider,
            final(self).data_resolver == old(self).data_resolver,
            final(self).exec_routing == old(self).exec_routing,
    {
        if self.indent_level > 0 {
            self.indent_level = self.indent_level - 1;
        }
    }

    /// Marks a node as visited.
    pub fn mark_visited(&mut self, node_id: &str)
        ensures
            final(self).visited_ids() =~= old(self).visited_ids().push(node_id@),
            final(self).indent_level == old(self).indent_level,
            final(self).graph == old(self).graph,
            final(self).metadata_provider == old(self).metadata_provider,
            final(self).data_resolver == old(self).data_resolver,
            final(self).exec_routing == old(self).exec_routing,
    {
        let ghost pre = string_views(self.visited@);
        self.visited.push(node_id.to_owned());
        proof {
            assert(string_views(self.visited@) =~= pre.push(node_id@));
        }
    }

    /// Whether a node has been visited.
    pub fn is_visited(&self, node_id: &str) -> (r: bool)
        ensures
            r == self.visited_ids().contains(node_id@),
    {
        let key = node_id.to_owned();
        contains_string(&self.visited, &key)
    }

    /// Clears the visited set.
    pub fn reset_visited(&mut self)
        ensures
            final(self).visited_ids() =~= Seq::<Seq<char>>::empty(),
            final(self).indent_level == old(self).indent_level,
            final(self).graph == old(self).graph,
            final(self).metadata_provider == old(self).metadata_provider,
            final(self).data_resolver == old(self).data_resolver,
            final(self).exec_routing == old(self).exec_routing,
    {
        self.visited = Vec::new();
        proof {
            assert(string_views(self.visited@) =~= Seq::<Seq<char>>::empty());
        }
    }
}

} // verus!
