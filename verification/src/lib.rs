//! Compiles visual node-and-wire graphs into dependency-ordered, executable
//! code fragments.
//!
//! The library has three verified subsystems:
//! - a data-flow resolver that determines where every node input gets its
//!   value, assigns result-variable names, and topologically orders pure
//!   nodes (failing on cycles);
//! - an execution-flow router that builds control-flow successor tables from
//!   execution-tagged wires;
//! - a source-fragment transformer that splices continuation code into
//!   labeled placeholder markers and substitutes parameter identifiers.

pub mod assoc;
pub mod connection;
pub mod context;
pub mod data_flow;
pub mod exec_flow;
pub mod fragment;
pub mod graph;
pub mod metadata;
pub mod node;
pub mod parallel;
pub mod strategies;
pub mod subgraph;
pub mod text;
pub mod token;
pub mod types;
pub mod variable_gen;

pub use connection::{Connection, ConnectionType};
pub use context::CodeGeneratorContext;
pub use data_flow::{DataResolver, DataSource};
pub use exec_flow::ExecutionRouting;
pub use fragment::{extract_exec_output_labels, extract_function_body, inline_control_flow_function};
pub use graph::{GraphComment, GraphDescription, GraphMetadata};
pub use metadata::{MetadataRegistry, NodeMetadata, NodeMetadataProvider, ParamInfo};
pub use node::{NodeInstance, Pin, PinInstance, PinType};
pub use parallel::ThreadPoolConfig;
pub use strategies::{collect_node_arguments, CodeGenerator};
pub use subgraph::SubGraphExpander;
pub use text::sanitize_name;
pub use types::{
    DataType, NodeTypes, NumberValue, Position, PropertyValue, TypeInfo,
    property_value_to_string,
};
pub use variable_gen::{get_default_value_for_type, VariableNameGenerator};

use vstd::prelude::*;

verus! {

/// Error kinds reported by the library's entry points.
#[derive(Debug, Clone)]
pub enum GraphyError {
    /// A node id was looked up but does not exist.
    NodeNotFound(String),
    /// A pin was looked up on a node but does not exist.
    PinNotFound { node: String, pin: String },
    /// Two connected pins carry incompatible types.
    TypeMismatch { expected: String, actual: String },
    /// The pure-node subgraph is not acyclic.
    CyclicDependency,
    /// A connection refers to something that does not exist or is malformed.
    InvalidConnection(String),
    /// Code generation failed.
    CodeGeneration(String),
    /// A source fragment (or a replacement) does not conform to the grammar.
    AstParsing(String),
    /// Sub-graph expansion failed.
    GraphExpansion(String),
    /// Any other error.
    Custom(String),
}

impl GraphyError {
    /// Human-readable description of the error.
    pub fn message(&self) -> (r: String)
        ensures
            r@ == self.spec_message(),
    {
        match self {
            GraphyError::NodeNotFound(id) => {
                String::from_str("Node not found: ").concat(id.as_str())
            },
            GraphyError::PinNotFound { node, pin } => {
                String::from_str("Pin not found: ").concat(node.as_str()).concat(".").concat(
                    pin.as_str(),
                )
            },
            GraphyError::TypeMismatch { expected, actual } => {
                String::from_str("Type mismatch: expected ").concat(expected.as_str()).concat(
                    ", got ",
                ).concat(actual.as_str())
            },
            GraphyError::CyclicDependency => {
                String::from_str("Cyclic dependency detected, check your graph for looping code")
            },
            GraphyError::InvalidConnection(s) => {
                String::from_str("Invalid connection: ").concat(s.as_str())
            },
            GraphyError::CodeGeneration(s) => {
                String::from_str("Code generation error: ").concat(s.as_str())
            },
            GraphyError::AstParsing(s) => {
                String::from_str("AST parsing error: ").concat(s.as_str())
            },
            GraphyError::GraphExpansion(s) => {
                String::from_str("Graph expansion error: ").concat(s.as_str())
            },
            GraphyError::Custom(s) => { s.clone() },
        }
    }

    /// What `message` returns, as a sequence of characters.
    pub open spec fn spec_message(&self) -> Seq<char> {
        match self {
            GraphyError::NodeNotFound(id) => "Node not found: "@ + id@,
            GraphyError::PinNotFound { node, pin } => "Pin not found: "@ + node@ + "."@ + pin@,
            GraphyError::TypeMismatch { expected, actual } => "Type mismatch: expected "@
                + expected@ + ", got "@ + actual@,
            GraphyError::CyclicDependency => "Cyclic dependency detected, check your graph for looping code"@,
            GraphyError::InvalidConnection(s) => "Invalid connection: "@ + s@,
            GraphyError::CodeGeneration(s) => "Code generation error: "@ + s@,
            GraphyError::AstParsing(s) => "AST parsing error: "@ + s@,
            GraphyError::GraphExpansion(s) => "Graph expansion error: "@ + s@,
            GraphyError::Custom(s) => s@,
        }
    }
}

} // verus!
