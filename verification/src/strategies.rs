//! Code generation strategies: the interface a target-language generator
//! implements, and argument collection for node calls.

use vstd::prelude::*;

use crate::metadata::NodeMetadata;
use crate::node::NodeInstance;
use crate::text::string_views;
use crate::types::property_text;
use crate::variable_gen::spec_default_value;
use crate::GraphyError;

verus! {

/// Interface for code generation strategies: one generator per target
/// language or platform, producing code text per node kind.
pub trait CodeGenerator {
    /// Generates code for a pure node as an inline expression.
    fn generate_pure_node(&self, node: &NodeInstance, metadata: &NodeMetadata) -> Result<
        String,
        GraphyError,
    >;

    /// Generates code for a function node as a statement with side
    /// effects.
    fn generate_function_node(&self, node: &NodeInstance, metadata: &NodeMetadata) -> Result<
        String,
        GraphyError,
    >;

    /// Generates code for a control flow node with branching.
    fn generate_control_flow_node(&self, node: &NodeInstance, metadata: &NodeMetadata) -> Result<
        String,
        GraphyError,
    >;

    /// Generates code for an event node, an entry point.
    fn generate_event_node(&self, node: &NodeInstance, metadata: &NodeMetadata) -> Result<
        String,
        GraphyError,
    >;

    /// Generates the complete program from the graph.
    fn generate_program(&self) -> Result<String, GraphyError>;
}

/// The argument texts of a node call: per declared parameter, the node's
/// same-named property canonicalized, or the parameter type's default
/// value expression.
pub open spec fn spec_node_arguments(node: NodeInstance, metadata: NodeMetadata) -> Seq<
    Seq<char>,
> {
    metadata.params@.map(
        |i: int, p: crate::metadata::ParamInfo|
            if node.props_map().contains_key(p.name@) {
                property_text(node.props_map()[p.name@])
            } else {
                spec_default_value(p.param_type@)
            },
    )
}

/// Collects the argument texts for a node call, one per declared
/// parameter.
pub fn collect_node_arguments(node: &NodeInstance, metadata: &NodeMetadata) -> (r: Result<
    Vec<String>,
    GraphyError,
>)
    ensures
        r is Ok,
        string_views(r->Ok_0@) == spec_node_arguments(*node, *metadata),
{
    let n = metadata.params.len();
    let mut args: Vec<String> = Vec::new();
    let mut i: usize = 0;
    proof {
        assert(string_views(args@) =~= spec_node_arguments(*node, *metadata).take(0));
    }
    while i < n
        invariant
            n == metadata.params@.len(),
            0 <= i <= n,
            string_views(args@) =~= spec_node_arguments(*node, *metadata).take(i as int),
        decreases n - i,
    {
        let param = &metadata.params[i];
        let text = match node.get_property(param.name.as_str()) {
            Some(value) => crate::types::property_value_to_string(value),
            None => crate::variable_gen::get_default_value_for_type(param.param_type.as_str()),
        };
        proof {
            assert(metadata.params@[i as int] == *param);
            assert(spec_node_arguments(*node, *metadata)[i as int] == text@);
        }
        let ghost pre = string_views(args@);
        args.push(text);
        proof {
            assert(string_views(args@) =~= pre.push(string_views(args@).last()));
            assert(string_views(args@) =~= spec_node_arguments(*node, *metadata).take(
                i + 1 as int,
            ));
        }
        i = i + 1;
    }
    proof {
        assert(spec_node_arguments(*node, *metadata).take(n as int) =~= spec_node_arguments(
            *node,
            *metadata,
        ));
    }
    Ok(args)
}

} // verus!
