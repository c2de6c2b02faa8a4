//! The graph itself: metadata, nodes indexed by unique id, connections in
//! declaration order, and visual comments.

use vstd::prelude::*;

use crate::connection::Connection;
use crate::node::NodeInstance;
use crate::types::Position;

verus! {

/// Descriptive metadata about a graph.
#[derive(Debug, Clone)]
pub struct GraphMetadata {
    /// Human-readable name of the graph.
    pub name: String,
    /// Optional description of the graph's purpose.
    pub description: String,
    /// Semantic version string.
    pub version: String,
    /// Timestamp of creation.
    pub created_at: String,
    /// Timestamp of last modification.
    pub modified_at: String,
}

impl GraphMetadata {
    /// Creates new graph metadata: version "1.0.0", empty description and
    /// timestamps.
    pub fn new(name: &str) -> (r: GraphMetadata)
        ensures
            r.name@ == name@,
            r.description@ == Seq::<char>::empty(),
            r.version@ == "1.0.0"@,
            r.created_at@ == Seq::<char>::empty(),
            r.modified_at@ == Seq::<char>::empty(),
    {
        GraphMetadata {
            name: name.to_owned(),
            description: String::new(),
            version: String::from_str("1.0.0"),
            created_at: String::new(),
            modified_at: String::new(),
        }
    }
}

/// A visual comment in the graph; preserved for editors, ignored by all
/// analyses.
#[derive(Debug, Clone)]
pub struct GraphComment {
    /// The comment text.
    pub text: String,
    /// Position in the visual editor.
    pub position: Position,
    /// Width of the comment box in editor units.
    pub width: i64,
    /// Height of the comment box in editor units.
    pub height: i64,
}

/// The first node in the sequence with the given id, if any.
pub open spec fn seq_get_node(nodes: Seq<NodeInstance>, id: Seq<char>) -> Option<NodeInstance>
    decreases nodes.len(),
{
    if nodes.len() == 0 {
        None
    } else if nodes[0].id@ == id {
        Some(nodes[0])
    } else {
        seq_get_node(nodes.drop_first(), id)
    }
}

/// The node found at the first index whose id matches is the one returned.
pub proof fn lemma_seq_get_node_present(nodes: Seq<NodeInstance>, id: Seq<char>, i: int)
    requires
        0 <= i < nodes.len(),
        nodes[i].id@ == id,
        forall|j: int| 0 <= j < i ==> nodes[j].id@ != id,
    ensures
        seq_get_node(nodes, id) == Some(nodes[i]),
    decreases nodes.len(),
{
    if i == 0 {
    } else {
        assert(nodes.drop_first()[i - 1] == nodes[i]);
        lemma_seq_get_node_present(nodes.drop_first(), id, i - 1);
    }
}

/// When no node has the id, the lookup yields nothing.
pub proof fn lemma_seq_get_node_absent(nodes: Seq<NodeInstance>, id: Seq<char>)
    requires
        forall|j: int| 0 <= j < nodes.len() ==> nodes[j].id@ != id,
    ensures
        seq_get_node(nodes, id) is None,
    decreases nodes.len(),
{
    if nodes.len() == 0 {
    } else {
        lemma_seq_get_node_absent(nodes.drop_first(), id);
    }
}

/// Replacing the first node holding an id changes only that id's lookup.
pub proof fn lemma_seq_get_node_update(nodes: Seq<NodeInstance>, i: int, node: NodeInstance)
    requires
        0 <= i < nodes.len(),
        nodes[i].id@ == node.id@,
        forall|j: int| 0 <= j < i ==> nodes[j].id@ != node.id@,
    ensures
        seq_get_node(nodes.update(i, node), node.id@) == Some(node),
        forall|id: Seq<char>|
            id != node.id@ ==> seq_get_node(nodes.update(i, node), id) == seq_get_node(nodes, id),
    decreases nodes.len(),
{
    let t = nodes.update(i, node);
    if i == 0 {
        assert(t[0] == node);
        assert forall|id: Seq<char>| id != node.id@ implies seq_get_node(t, id) == seq_get_node(
            nodes,
            id,
        ) by {
            assert(t.drop_first() =~= nodes.drop_first());
            assert(seq_get_node(t, id) == seq_get_node(t.drop_first(), id));
            assert(seq_get_node(nodes, id) == seq_get_node(nodes.drop_first(), id));
        }
    } else {
        assert(t[0] == nodes[0]);
        assert(t.drop_first() =~= nodes.drop_first().update(i - 1, node));
        assert(nodes.drop_first()[i - 1] == nodes[i]);
        assert(forall|j: int| 0 <= j < i - 1 ==> nodes.drop_first()[j].id@ != node.id@);
        lemma_seq_get_node_update(nodes.drop_first(), i - 1, node);
        assert(t[0].id@ != node.id@);
        assert(seq_get_node(t, node.id@) == seq_get_node(t.drop_first(), node.id@));
        assert forall|id: Seq<char>| id != node.id@ implies seq_get_node(t, id) == seq_get_node(
            nodes,
            id,
        ) by {
            if nodes[0].id@ == id {
                assert(seq_get_node(t, id) == Some(t[0]));
                assert(seq_get_node(nodes, id) == Some(nodes[0]));
            } else {
                assert(seq_get_node(t, id) == seq_get_node(t.drop_first(), id));
                assert(seq_get_node(nodes, id) == seq_get_node(nodes.drop_first(), id));
            }
        }
    }
}

/// Appending a node adds its id's lookup and keeps every other lookup,
/// provided the id was absent.
pub proof fn lemma_seq_get_node_push(nodes: Seq<NodeInstance>, node: NodeInstance)
    requires
        forall|j: int| 0 <= j < nodes.len() ==> nodes[j].id@ != node.id@,
    ensures
        seq_get_node(nodes.push(node), node.id@) == Some(node),
        forall|id: Seq<char>|
            id != node.id@ ==> seq_get_node(nodes.push(node), id) == seq_get_node(nodes, id),
    decreases nodes.len(),
{
    let t = nodes.push(node);
    if nodes.len() == 0 {
        assert(t[0] == node);
        assert forall|id: Seq<char>| id != node.id@ implies seq_get_node(t, id) == seq_get_node(
            nodes,
            id,
        ) by {
            assert(t.drop_first() =~= Seq::<NodeInstance>::empty());
            assert(seq_get_node(t, id) == seq_get_node(t.drop_first(), id));
            assert(seq_get_node(t.drop_first(), id) is None);
            assert(seq_get_node(nodes, id) is None);
        }
    } else {
        assert(t[0] == nodes[0]);
        assert(t.drop_first() =~= nodes.drop_first().push(node));
        lemma_seq_get_node_push(nodes.drop_first(), node);
        assert(t[0].id@ != node.id@);
        assert(seq_get_node(t, node.id@) == seq_get_node(t.drop_first(), node.id@));
        assert forall|id: Seq<char>| id != node.id@ implies seq_get_node(t, id) == seq_get_node(
            nodes,
            id,
        ) by {
            if nodes[0].id@ == id {
                assert(seq_get_node(t, id) == Some(t[0]));
                assert(seq_get_node(nodes, id) == Some(nodes[0]));
            } else {
                assert(seq_get_node(t, id) == seq_get_node(t.drop_first(), id));
                assert(seq_get_node(nodes, id) == seq_get_node(nodes.drop_first(), id));
            }
        }
    }
}

/// Complete graph description: metadata, nodes, connections, and comments.
#[derive(Debug, Clone)]
pub struct GraphDescription {
    /// Metadata about the graph.
    pub metadata: GraphMetadata,
    /// All nodes of the graph; ids are unique while nodes are added through
    /// `add_node`.
    pub nodes: Vec<NodeInstance>,
    /// All connections between nodes, in declaration order.
    pub connections: Vec<Connection>,
    /// Visual comments.
    pub comments: Vec<GraphComment>,
}

impl GraphDescription {
    /// Whether node ids are pairwise distinct. Graphs built through
    /// `add_node` always are; the analyses require it.
    pub open spec fn wf(&self) -> bool {
        forall|i: int, j: int|
            0 <= i < j < self.nodes@.len() ==> self.nodes@[i].id@ != self.nodes@[j].id@
    }

    /// The first node with the given id, if any. Under `wf` it is the only
    /// one.
    pub open spec fn spec_get_node(&self, id: Seq<char>) -> Option<NodeInstance> {
        seq_get_node(self.nodes@, id)
    }

    /// Whether some node has the given id.
    pub open spec fn has_node(&self, id: Seq<char>) -> bool {
        exists|i: int| 0 <= i < self.nodes@.len() && self.nodes@[i].id@ == id
    }

    /// Creates a new empty graph with the given name.
    pub fn new(name: &str) -> (r: GraphDescription)
        ensures
            r.metadata.name@ == name@,
            r.nodes@.len() == 0,
            r.connections@.len() == 0,
            r.comments@.len() == 0,
            r.wf(),
    {
        GraphDescription {
            metadata: GraphMetadata::new(name),
            nodes: Vec::new(),
            connections: Vec::new(),
            comments: Vec::new(),
        }
    }

    /// Adds a node; a node with the same id is replaced in place.
    pub fn add_node(&mut self, node: NodeInstance)
        requires
            old(self).wf(),
        ensures
            final(self).wf(),
            final(self).metadata == old(self).metadata,
            final(self).connections == old(self).connections,
            final(self).comments == old(self).comments,
            final(self).spec_get_node(node.id@) == Some(node),
            forall|id: Seq<char>|
                id != node.id@ ==> final(self).spec_get_node(id) == old(self).spec_get_node(id),
    {
        let n = self.nodes.len();
        let mut i: usize = 0;
        while i < n
            invariant
                *self == *old(self),
                old(self).wf(),
                n == self.nodes@.len(),
                0 <= i <= n,
                forall|j: int| 0 <= j < i ==> self.nodes@[j].id@ != node.id@,
            decreases n - i,
        {
            if self.nodes[i].id == node.id {
                proof {
                    lemma_seq_get_node_update(self.nodes@, i as int, node);
                    let t = self.nodes@.update(i as int, node);
                    assert(forall|a: int| 0 <= a < t.len() && a != i ==> t[a] == self.nodes@[a]);
                    assert(t[i as int].id@ == self.nodes@[i as int].id@);
                    assert forall|a: int, b: int| 0 <= a < b < t.len() implies t[a].id@
                        != t[b].id@ by {
                        assert(self.nodes@[a].id@ != self.nodes@[b].id@);
                        assert(t[a].id@ == self.nodes@[a].id@);
                        assert(t[b].id@ == self.nodes@[b].id@);
                    }
                }
                self.nodes.set(i, node);
                return ;
            }
            i = i + 1;
        }
        proof {
            lemma_seq_get_node_push(self.nodes@, node);
            let t = self.nodes@.push(node);
            assert(forall|a: int| 0 <= a < self.nodes@.len() ==> t[a] == self.nodes@[a]);
            assert(t[t.len() - 1] == node);
            assert forall|a: int, b: int| 0 <= a < b < t.len() implies t[a].id@ != t[b].id@ by {
                if b == t.len() - 1 {
                    assert(t[a].id@ != node.id@);
                } else {
                    assert(self.nodes@[a].id@ != self.nodes@[b].id@);
                }
            }
        }
        self.nodes.push(node);
    }

    /// Appends a connection. Connections are validated during analysis, not
    /// at insertion time.
    pub fn add_connection(&mut self, connection: Connection)
        ensures
            final(self).connections@ =~= old(self).connections@.push(connection),
            final(self).metadata == old(self).metadata,
            final(self).nodes == old(self).nodes,
            final(self).comments == old(self).comments,
    {
        self.connections.push(connection);
    }

    /// Gets a mutable reference to a node by id; `None` if it does not
    /// exist.
    pub fn get_node_mut(&mut self, id: &str) -> (r: Option<&mut NodeInstance>)
        ensures
            match r {
                Some(node) => exists|k: int|
                    0 <= k < old(self).nodes@.len() && old(self).nodes@[k].id@ == id@ && *node
                        == old(self).nodes@[k] && final(self).nodes@ == old(self).nodes@.update(
                        k,
                        *final(node),
                    ),
                None => old(self).spec_get_node(id@) is None && *final(self) == *old(self),
            },
    {
        let n = self.nodes.len();
        let id_string = id.to_owned();
        let mut i: usize = 0;
        while i < n
            invariant
                *self == *old(self),
                n == self.nodes@.len(),
                0 <= i <= n,
                id_string@ == id@,
                forall|j: int| 0 <= j < i ==> self.nodes@[j].id@ != id@,
            decreases n - i,
        {
            if self.nodes[i].id == id_string {
                proof {
                    lemma_seq_get_node_present(self.nodes@, id@, i as int);
                }
                return Some(&mut self.nodes[i]);
            }
            i = i + 1;
        }
        proof {
            lemma_seq_get_node_absent(self.nodes@, id@);
        }
        None
    }

    /// Gets a node by id; `None` if it does not exist.
    pub fn get_node(&self, id: &str) -> (r: Option<&NodeInstance>)
        ensures
            match r {
                Some(node) => self.spec_get_node(id@) == Some(*node),
                None => self.spec_get_node(id@) is None,
            },
    {
        let n = self.nodes.len();
        let id_string = id.to_owned();
        let mut i: usize = 0;
        while i < n
            invariant
                n == self.nodes@.len(),
                0 <= i <= n,
                id_string@ == id@,
                forall|j: int| 0 <= j < i ==> self.nodes@[j].id@ != id@,
            decreases n - i,
        {
            if self.nodes[i].id == id_string {
                proof {
                    lemma_seq_get_node_present(self.nodes@, id@, i as int);
                }
                return Some(&self.nodes[i]);
            }
            i = i + 1;
        }
        proof {
            lemma_seq_get_node_absent(self.nodes@, id@);
        }
        None
    }
}

} // verus!
