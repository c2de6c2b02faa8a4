//! Nodes and their pins: the computational units of a graph, each with
//! input/output pins and constant property values.

use vstd::prelude::*;

use crate::assoc::{
    lemma_pairs_map_absent, lemma_pairs_map_get, lemma_pairs_map_push, lemma_pairs_map_update,
    string_pairs_map, unique_string_keys,
};
use crate::types::{DataType, Position, PropertyValue};

verus! {

/// Direction of data flow for a pin.
#[derive(Debug, Clone, Copy, PartialEq, Eq, Structural)]
pub enum PinType {
    /// Input pin (receives data).
    Input,
    /// Output pin (produces data).
    Output,
}

/// A pin definition: a connection point on a node.
#[derive(Debug, Clone)]
pub struct Pin {
    /// Unique identifier for this pin.
    pub id: String,
    /// Human-readable display name.
    pub name: String,
    /// Type of data this pin accepts or produces.
    pub data_type: DataType,
    /// Whether this is an input or output pin.
    pub pin_type: PinType,
}

impl Pin {
    /// Creates a new pin.
    pub fn new(id: &str, name: &str, data_type: DataType, pin_type: PinType) -> (r: Pin)
        ensures
            r.id@ == id@,
            r.name@ == name@,
            r.data_type == data_type,
            r.pin_type == pin_type,
    {
        Pin { id: id.to_owned(), name: name.to_owned(), data_type, pin_type }
    }
}

/// A pin instance on a specific node.
#[derive(Debug, Clone)]
pub struct PinInstance {
    /// Instance-specific id (may differ from the pin template id).
    pub id: String,
    /// The pin template.
    pub pin: Pin,
}

impl PinInstance {
    /// Creates a new pin instance.
    pub fn new(id: &str, pin: Pin) -> (r: PinInstance)
        ensures
            r.id@ == id@,
            r.pin == pin,
    {
        PinInstance { id: id.to_owned(), pin }
    }
}

/// A node instance in the graph: an instantiation of a node type with
/// specific pins and property values, identified by a unique id.
#[derive(Debug, Clone)]
pub struct NodeInstance {
    /// Unique identifier for this node instance within the graph.
    pub id: String,
    /// Type identifier, used to look up node metadata from the provider.
    pub node_type: String,
    /// Position in the visual editor.
    pub position: Position,
    /// Input pins.
    pub inputs: Vec<PinInstance>,
    /// Output pins.
    pub outputs: Vec<PinInstance>,
    /// Constant property values, in insertion order with distinct names.
    pub properties: Vec<(String, PropertyValue)>,
}

impl NodeInstance {
    /// The node's properties as a map from property name to value.
    pub open spec fn props_map(&self) -> Map<Seq<char>, PropertyValue> {
        string_pairs_map(self.properties@)
    }

    /// Whether the property names are pairwise distinct; `set_property`
    /// preserves this.
    pub open spec fn props_unique(&self) -> bool {
        unique_string_keys(self.properties@)
    }

    /// Creates a new node instance with no pins or properties.
    pub fn new(id: &str, node_type: &str, position: Position) -> (r: NodeInstance)
        ensures
            r.id@ == id@,
            r.node_type@ == node_type@,
            r.position == position,
            r.inputs@.len() == 0,
            r.outputs@.len() == 0,
            r.properties@.len() == 0,
            r.props_unique(),
    {
        NodeInstance {
            id: id.to_owned(),
            node_type: node_type.to_owned(),
            position,
            inputs: Vec::new(),
            outputs: Vec::new(),
            properties: Vec::new(),
        }
    }

    /// Adds an input pin whose id and display name are both `id`.
    pub fn add_input_pin(&mut self, id: &str, data_type: DataType)
        ensures
            final(self).inputs@.len() == old(self).inputs@.len() + 1,
            final(self).inputs@ =~= old(self).inputs@.push(final(self).inputs@.last()),
            final(self).inputs@.last().id@ == id@,
            final(self).inputs@.last().pin.id@ == id@,
            final(self).inputs@.last().pin.name@ == id@,
            final(self).inputs@.last().pin.data_type == data_type,
            final(self).inputs@.last().pin.pin_type == PinType::Input,
            final(self).outputs == old(self).outputs,
            final(self).properties == old(self).properties,
            final(self).id == old(self).id,
            final(self).node_type == old(self).node_type,
            final(self).position == old(self).position,
    {
        let pin = Pin::new(id, id, data_type, PinType::Input);
        let inst = PinInstance::new(id, pin);
        self.inputs.push(inst);
    }

    /// Adds an output pin whose id and display name are both `id`.
    pub fn add_output_pin(&mut self, id: &str, data_type: DataType)
        ensures
            final(self).outputs@.len() == old(self).outputs@.len() + 1,
            final(self).outputs@ =~= old(self).outputs@.push(final(self).outputs@.last()),
            final(self).outputs@.last().id@ == id@,
            final(self).outputs@.last().pin.id@ == id@,
            final(self).outputs@.last().pin.name@ == id@,
            final(self).outputs@.last().pin.data_type == data_type,
            final(self).outputs@.last().pin.pin_type == PinType::Output,
            final(self).inputs == old(self).inputs,
            final(self).properties == old(self).properties,
            final(self).id == old(self).id,
            final(self).node_type == old(self).node_type,
            final(self).position == old(self).position,
    {
        let pin = Pin::new(id, id, data_type, PinType::Output);
        let inst = PinInstance::new(id, pin);
        self.outputs.push(inst);
    }

    /// Sets a property value, replacing any existing value for the key.
    pub fn set_property(&mut self, key: &str, value: PropertyValue)
        requires
            old(self).props_unique(),
        ensures
            final(self).props_unique(),
            final(self).props_map() == old(self).props_map().insert(key@, value),
            final(self).inputs == old(self).inputs,
            final(self).outputs == old(self).outputs,
            final(self).id == old(self).id,
            final(self).node_type == old(self).node_type,
            final(self).position == old(self).position,
    {
        let n = self.properties.len();
        let key_string = key.to_owned();
        let mut i: usize = 0;
        while i < n
            invariant
                *self == *old(self),
                old(self).props_unique(),
                n == self.properties@.len(),
                0 <= i <= n,
                key_string@ == key@,
                forall|j: int| 0 <= j < i ==> self.properties@[j].0@ != key@,
            decreases n - i,
        {
            if self.properties[i].0 == key_string {
                proof {
                    assert forall|j: int|
                        0 <= j < self.properties@.len() && j != i implies self.properties@[j].0@
                        != key_string@ by {
                        if j < i {
                        } else {
                            assert(unique_string_keys(self.properties@));
                            assert(self.properties@[i as int].0@ != self.properties@[j].0@);
                        }
                    }
                    lemma_pairs_map_update(self.properties@, i as int, (key_string, value));
                    assert(forall|a: int|
                        0 <= a < self.properties@.len() ==> self.properties@.update(
                            i as int,
                            (key_string, value),
                        )[a].0@ == self.properties@[a].0@);
                }
                self.properties.set(i, (key_string, value));
                return ;
            }
            i = i + 1;
        }
        proof {
            lemma_pairs_map_push(self.properties@, (key_string, value));
            let t = self.properties@.push((key_string, value));
            assert(forall|a: int| 0 <= a < self.properties@.len() ==> t[a] == self.properties@[a]);
            assert(t[t.len() - 1] == (key_string, value));
            assert forall|a: int, b: int| 0 <= a < b < t.len() implies t[a].0@ != t[b].0@ by {
                if b == t.len() - 1 {
                    assert(t[a].0@ != key@);
                } else {
                    assert(unique_string_keys(self.properties@));
                }
            }
        }
        self.properties.push((key_string, value));
    }

    /// Gets a property value by key; `None` if the property does not exist.
    pub fn get_property(&self, key: &str) -> (r: Option<&PropertyValue>)
        ensures
            match r {
                Some(v) => self.props_map().contains_key(key@) && *v == self.props_map()[key@],
                None => !self.props_map().contains_key(key@),
            },
    {
        let n = self.properties.len();
        let key_string = key.to_owned();
        let mut i: usize = n;
        while i > 0
            invariant
                n == self.properties@.len(),
                0 <= i <= n,
                key_string@ == key@,
                forall|j: int| i <= j < n ==> self.properties@[j].0@ != key@,
            decreases i,
        {
            i = i - 1;
            if self.properties[i].0 == key_string {
                proof {
                    lemma_pairs_map_get(self.properties@, key@, i as int);
                }
                return Some(&self.properties[i].1);
            }
        }
        proof {
            lemma_pairs_map_absent(self.properties@, key@);
        }
        None
    }
}

} // verus!
