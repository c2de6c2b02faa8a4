//! Connections between node pins, carrying either data values or execution
//! (control) flow.

use vstd::prelude::*;

verus! {

/// Type of connection between nodes.
#[derive(Debug, Clone, Copy, PartialEq, Eq, Structural)]
pub enum ConnectionType {
    /// Data connection that passes values between nodes.
    Data,
    /// Execution connection that determines control flow.
    Execution,
}

/// A connection from an output pin on a source node to an input pin on a
/// target node.
#[derive(Debug, Clone)]
pub struct Connection {
    /// Id of the source node.
    pub source_node: String,
    /// Id of the output pin on the source node.
    pub source_pin: String,
    /// Id of the target node.
    pub target_node: String,
    /// Id of the input pin on the target node.
    pub target_pin: String,
    /// Whether the connection carries data or execution flow.
    pub connection_type: ConnectionType,
}

impl Connection {
    /// Creates a new connection with the given type.
    pub fn new(
        source_node: &str,
        source_pin: &str,
        target_node: &str,
        target_pin: &str,
        connection_type: ConnectionType,
    ) -> (r: Connection)
        ensures
            r.source_node@ == source_node@,
            r.source_pin@ == source_pin@,
            r.target_node@ == target_node@,
            r.target_pin@ == target_pin@,
            r.connection_type == connection_type,
    {
        Connection {
            source_node: source_node.to_owned(),
            source_pin: source_pin.to_owned(),
            target_node: target_node.to_owned(),
            target_pin: target_pin.to_owned(),
            connection_type,
        }
    }

    /// Creates a data connection.
    pub fn data(source_node: &str, source_pin: &str, target_node: &str, target_pin: &str) -> (r:
        Connection)
        ensures
            r.source_node@ == source_node@,
            r.source_pin@ == source_pin@,
            r.target_node@ == target_node@,
            r.target_pin@ == target_pin@,
            r.connection_type == ConnectionType::Data,
    {
        Connection::new(source_node, source_pin, target_node, target_pin, ConnectionType::Data)
    }

    /// Creates an execution connection.
    pub fn execution(
        source_node: &str,
        source_pin: &str,
        target_node: &str,
        target_pin: &str,
    ) -> (r: Connection)
        ensures
            r.source_node@ == source_node@,
            r.source_pin@ == source_pin@,
            r.target_node@ == target_node@,
            r.target_pin@ == target_pin@,
            r.connection_type == ConnectionType::Execution,
    {
        Connection::new(source_node, source_pin, target_node, target_pin, ConnectionType::Execution)
    }
}

} // verus!
