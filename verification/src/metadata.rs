//! Node type metadata: the interface and behavior of each node type, and the
//! registry that the analyses consult to classify nodes and obtain source
//! bodies.

use vstd::prelude::*;

use crate::assoc::{
    lemma_pairs_map_absent, lemma_pairs_map_get, lemma_pairs_map_push, lemma_pairs_map_update,
    string_pairs_map, unique_string_keys,
};
use crate::types::{NodeTypes, TypeInfo};

verus! {

/// Parameter definition for a node input.
#[derive(Debug, Clone)]
pub struct ParamInfo {
    /// Parameter name, used as a variable name in generated code.
    pub name: String,
    /// The parameter's type name in the target language.
    pub param_type: String,
}

impl ParamInfo {
    /// Creates a new parameter definition.
    pub fn new(name: &str, param_type: &str) -> (r: ParamInfo)
        ensures
            r.name@ == name@,
            r.param_type@ == param_type@,
    {
        ParamInfo { name: name.to_owned(), param_type: param_type.to_owned() }
    }
}

/// Complete metadata for a node type: classification, parameters, return
/// type, execution branches, and the source body used for inlining.
#[derive(Debug, Clone)]
pub struct NodeMetadata {
    /// Node type name (e.g. "add", "print", "branch").
    pub name: String,
    /// Node classification.
    pub node_type: NodeTypes,
    /// Category for organization.
    pub category: String,
    /// Input parameters with types.
    pub params: Vec<ParamInfo>,
    /// Return type, for nodes that produce a value.
    pub return_type: Option<TypeInfo>,
    /// Execution output pin names, one per outgoing branch.
    pub exec_outputs: Vec<String>,
    /// Imports required by the generated code.
    pub imports: Vec<String>,
    /// Source text of the node's behavior, with one placeholder statement
    /// per declared execution branch.
    pub function_source: String,
}

impl NodeMetadata {
    /// Creates new node metadata with no parameters, return type, branches,
    /// imports or source.
    pub fn new(name: &str, node_type: NodeTypes, category: &str) -> (r: NodeMetadata)
        ensures
            r.name@ == name@,
            r.node_type == node_type,
            r.category@ == category@,
            r.params@.len() == 0,
            r.return_type is None,
            r.exec_outputs@.len() == 0,
            r.imports@.len() == 0,
            r.function_source@ == Seq::<char>::empty(),
    {
        NodeMetadata {
            name: name.to_owned(),
            node_type,
            category: category.to_owned(),
            params: Vec::new(),
            return_type: None,
            exec_outputs: Vec::new(),
            imports: Vec::new(),
            function_source: String::new(),
        }
    }

    /// Sets the input parameters.
    #[must_use]
    pub fn with_params(self, params: Vec<ParamInfo>) -> (r: NodeMetadata)
        ensures
            r == (NodeMetadata { params, ..self }),
    {
        NodeMetadata { params, ..self }
    }

    /// Sets the return type.
    #[must_use]
    pub fn with_return_type(self, return_type: TypeInfo) -> (r: NodeMetadata)
        ensures
            r == (NodeMetadata { return_type: Some(return_type), ..self }),
    {
        NodeMetadata { return_type: Some(return_type), ..self }
    }

    /// Sets the execution output pin names.
    #[must_use]
    pub fn with_exec_outputs(self, exec_outputs: Vec<String>) -> (r: NodeMetadata)
        ensures
            r == (NodeMetadata { exec_outputs, ..self }),
    {
        NodeMetadata { exec_outputs, ..self }
    }

    /// Sets the required imports.
    #[must_use]
    pub fn with_imports(self, imports: Vec<String>) -> (r: NodeMetadata)
        ensures
            r == (NodeMetadata { imports, ..self }),
    {
        NodeMetadata { imports, ..self }
    }

    /// Sets the source text of the node's behavior.
    #[must_use]
    pub fn with_source(self, source: &str) -> (r: NodeMetadata)
        ensures
            r.function_source@ == source@,
            r.name == self.name,
            r.node_type == self.node_type,
            r.category == self.category,
            r.params == self.params,
            r.return_type == self.return_type,
            r.exec_outputs == self.exec_outputs,
            r.imports == self.imports,
    {
        NodeMetadata { function_source: source.to_owned(), ..self }
    }
}

/// The values behind a sequence of metadata references.
pub open spec fn metas_view(s: Seq<&NodeMetadata>) -> Seq<NodeMetadata> {
    s.map(|i: int, m: &NodeMetadata| *m)
}

/// Registry of node type metadata, consulted read-only by the analyses.
pub trait NodeMetadataProvider {
    /// The metadata the provider associates with a node type name.
    spec fn spec_metadata(&self, node_type: Seq<char>) -> Option<NodeMetadata>;

    /// All entries the provider holds, in its own order.
    spec fn spec_all(&self) -> Seq<NodeMetadata>;

    /// Retrieves metadata for a node type; `None` if the type is unknown.
    fn get_node_metadata(&self, node_type: &str) -> (r: Option<&NodeMetadata>)
        ensures
            match r {
                Some(m) => self.spec_metadata(node_type@) == Some(*m),
                None => self.spec_metadata(node_type@) is None,
            },
    ;

    /// Returns all registered node types.
    fn get_all_nodes(&self) -> (r: Vec<&NodeMetadata>)
        ensures
            metas_view(r@) == self.spec_all(),
    ;

    /// Returns all node types in a category.
    fn get_nodes_by_category(&self, category: &str) -> (r: Vec<&NodeMetadata>)
        ensures
            metas_view(r@) == self.spec_all().filter(
                |m: NodeMetadata| m.category@ == category@,
            ),
    ;
}

/// A concrete, in-memory metadata registry keyed by node type name.
#[derive(Debug, Clone)]
pub struct MetadataRegistry {
    /// The registered entries, with pairwise distinct names.
    pub entries: Vec<NodeMetadata>,
}

impl MetadataRegistry {
    /// The registry's entries viewed as (name, metadata) pairs.
    pub open spec fn pairs(&self) -> Seq<(String, NodeMetadata)> {
        self.entries@.map(|i: int, m: NodeMetadata| (m.name, m))
    }

    /// Whether entry names are pairwise distinct; `add` preserves this.
    pub open spec fn names_unique(&self) -> bool {
        unique_string_keys(self.pairs())
    }

    /// The registered entries, in insertion order.
    pub open spec fn spec_entries(&self) -> Seq<NodeMetadata> {
        self.entries@
    }

    /// Creates an empty registry.
    pub fn new() -> (r: MetadataRegistry)
        ensures
            r.spec_entries().len() == 0,
            r.names_unique(),
    {
        MetadataRegistry { entries: Vec::new() }
    }

    /// Registers metadata under its name, replacing an entry with the same
    /// name.
    pub fn add(&mut self, meta: NodeMetadata)
        requires
            old(self).names_unique(),
        ensures
            final(self).names_unique(),
            final(self).spec_metadata(meta.name@) == Some(meta),
            forall|t: Seq<char>|
                t != meta.name@ ==> final(self).spec_metadata(t) == old(self).spec_metadata(t),
    {
        let n = self.entries.len();
        let mut i: usize = 0;
        while i < n
            invariant
                *self == *old(self),
                old(self).names_unique(),
                n == self.entries@.len(),
                0 <= i <= n,
                forall|j: int| 0 <= j < i ==> self.entries@[j].name@ != meta.name@,
            decreases n - i,
        {
            if self.entries[i].name == meta.name {
                proof {
                    let s = self.pairs();
                    assert(s[i as int].0@ == meta.name@);
                    assert forall|j: int| 0 <= j < s.len() && j != i implies s[j].0@
                        != meta.name@ by {
                        if j < i {
                        } else {
                            assert(unique_string_keys(s));
                            assert(s[i as int].0@ != s[j].0@);
                        }
                    }
                    lemma_pairs_map_update(s, i as int, (meta.name, meta));
                    let t = self.entries@.update(i as int, meta);
                    assert(t.map(|k: int, m: NodeMetadata| (m.name, m)) =~= s.update(
                        i as int,
                        (meta.name, meta),
                    ));
                }
                self.entries.set(i, meta);
                return ;
            }
            i = i + 1;
        }
        proof {
            let s = self.pairs();
            lemma_pairs_map_push(s, (meta.name, meta));
            let t = self.entries@.push(meta);
            let sp = s.push((meta.name, meta));
            assert(t.map(|k: int, m: NodeMetadata| (m.name, m)) =~= sp);
            assert forall|a: int, b: int| 0 <= a < b < sp.len() implies sp[a].0@ != sp[b].0@ by {
                if b == sp.len() - 1 {
                    assert(sp[a] == s[a]);
                    assert(s[a].0@ != meta.name@);
                } else {
                    assert(unique_string_keys(s));
                    assert(sp[a] == s[a] && sp[b] == s[b]);
                }
            }
            assert(unique_string_keys(sp));
        }
        self.entries.push(meta);
    }
}

impl NodeMetadataProvider for MetadataRegistry {
    open spec fn spec_metadata(&self, node_type: Seq<char>) -> Option<NodeMetadata> {
        if string_pairs_map(self.pairs()).contains_key(node_type) {
            Some(string_pairs_map(self.pairs())[node_type])
        } else {
            None
        }
    }

    open spec fn spec_all(&self) -> Seq<NodeMetadata> {
        self.entries@
    }

    fn get_node_metadata(&self, node_type: &str) -> (r: Option<&NodeMetadata>) {
        let n = self.entries.len();
        let key = node_type.to_owned();
        let mut i: usize = n;
        while i > 0
            invariant
                n == self.entries@.len(),
                0 <= i <= n,
                key@ == node_type@,
                forall|j: int| i <= j < n ==> self.entries@[j].name@ != node_type@,
            decreases i,
        {
            i = i - 1;
            if self.entries[i].name == key {
                proof {
                    let s = self.pairs();
                    assert(s[i as int].0@ == node_type@);
                    assert(forall|j: int| i < j < s.len() ==> s[j].0@ != node_type@);
                    lemma_pairs_map_get(s, node_type@, i as int);
                    assert(s[i as int].1 == self.entries@[i as int]);
                }
                return Some(&self.entries[i]);
            }
        }
        proof {
            lemma_pairs_map_absent(self.pairs(), node_type@);
        }
        None
    }

    fn get_all_nodes(&self) -> (r: Vec<&NodeMetadata>) {
        let n = self.entries.len();
        let mut out: Vec<&NodeMetadata> = Vec::new();
        let mut i: usize = 0;
        while i < n
            invariant
                n == self.entries@.len(),
                0 <= i <= n,
                metas_view(out@) =~= self.entries@.subrange(0, i as int),
            decreases n - i,
        {
            let entry_ref = &self.entries[i];
            proof {
                assert(*entry_ref == self.entries@[i as int]);
            }
            let ghost pre = out@;
            out.push(entry_ref);
            proof {
                assert(out@.len() == pre.len() + 1);
                assert(metas_view(pre).len() == pre.len());
                assert(metas_view(out@).len() == out@.len());
                assert(pre.len() == i);
                assert forall|j: int|
                    0 <= j < i + 1 implies metas_view(out@)[j] == self.entries@.subrange(
                    0,
                    i + 1 as int,
                )[j] by {
                    assert(metas_view(out@)[j] == *out@[j]);
                    if j < i {
                        assert(out@[j] == pre[j]);
                        assert(metas_view(pre)[j] == *pre[j]);
                        assert(metas_view(pre)[j] == self.entries@.subrange(0, i as int)[j]);
                    } else {
                        assert(out@[j] == entry_ref);
                    }
                }
                assert(metas_view(out@) =~= self.entries@.subrange(0, i + 1 as int));
            }
            i = i + 1;
        }
        proof {
            assert(self.entries@.subrange(0, n as int) =~= self.entries@);
        }
        out
    }

    fn get_nodes_by_category(&self, category: &str) -> (r: Vec<&NodeMetadata>) {
        let n = self.entries.len();
        let key = category.to_owned();
        let mut out: Vec<&NodeMetadata> = Vec::new();
        let mut i: usize = 0;
        proof {
            assert(self.entries@.subrange(0, 0).filter(
                |m: NodeMetadata| m.category@ == category@,
            ) =~= Seq::<NodeMetadata>::empty());
        }
        while i < n
            invariant
                n == self.entries@.len(),
                0 <= i <= n,
                key@ == category@,
                metas_view(out@) =~= self.entries@.subrange(0, i as int).filter(
                    |m: NodeMetadata| m.category@ == category@,
                ),
            decreases n - i,
        {
            proof {
                let pre = self.entries@.subrange(0, i as int);
                let cur = self.entries@.subrange(0, i + 1 as int);
                assert(cur.drop_last() =~= pre);
                assert(cur.last() == self.entries@[i as int]);
                reveal_with_fuel(Seq::filter, 2);
            }
            if self.entries[i].category == key {
                out.push(&self.entries[i]);
                proof {
                    assert(metas_view(out@) =~= self.entries@.subrange(0, i + 1 as int).filter(
                        |m: NodeMetadata| m.category@ == category@,
                    ));
                }
            } else {
                proof {
                    assert(metas_view(out@) =~= self.entries@.subrange(0, i + 1 as int).filter(
                        |m: NodeMetadata| m.category@ == category@,
                    ));
                }
            }
            i = i + 1;
        }
        proof {
            assert(self.entries@.subrange(0, n as int) =~= self.entries@);
        }
        out
    }
}

} // verus!
