//! Data-flow resolution: determines where every node input gets its value,
//! assigns deterministic result-variable names, and orders pure nodes so
//! that dependencies are evaluated before dependents, failing on cycles.
//!
//! The resolver is specified by three mathematical maps over the immutable
//! graph snapshot: [`spec_sources`], [`spec_vars`] and [`spec_eval_order`].
//! The sequential and pooled builds both meet [`build_post`], which pins all
//! three outputs exactly; their observational equality is
//! [`lemma_builds_agree`].

use vstd::prelude::*;

use crate::assoc::{
    lemma_gpairs_map_absent, lemma_gpairs_map_domain, lemma_gpairs_map_get, lemma_gpairs_map_push,
    lemma_gpairs_map_update, pairs_map, pairs_unique,
};
use crate::connection::{Connection, ConnectionType};
use crate::graph::{seq_get_node, GraphDescription};
use crate::metadata::NodeMetadataProvider;
use crate::node::NodeInstance;
use crate::text::{contains_string, sanitize_name, sanitize_seq, string_views};
use crate::types::{property_text, property_value_to_string, NodeTypes};
use crate::GraphyError;

verus! {

/// The resolved origin of an input pin's value, as a mathematical value.
pub ghost enum Provenance {
    /// The input is wired to another node's output pin.
    Connected {
        /// Id of the source node.
        source_node: Seq<char>,
        /// Id of the output pin on the source node.
        source_pin: Seq<char>,
    },
    /// The input takes a canonicalized constant from a node property.
    Constant(Seq<char>),
    /// Nothing supplies the input; code generation inserts the type's zero
    /// value.
    Default,
}

/// Data source for a node input.
#[derive(Debug, Clone)]
pub enum DataSource {
    /// Connected to another node's output pin.
    Connection {
        /// Id of the source node.
        source_node_id: String,
        /// Id of the output pin on the source node.
        source_pin: String,
    },
    /// Constant value from node properties, as canonical literal text.
    Constant(String),
    /// Use the default value for the input's type.
    Default,
}

impl View for DataSource {
    type V = Provenance;

    open spec fn view(&self) -> Provenance {
        match self {
            DataSource::Connection { source_node_id, source_pin } => Provenance::Connected {
                source_node: source_node_id@,
                source_pin: source_pin@,
            },
            DataSource::Constant(s) => Provenance::Constant(s@),
            DataSource::Default => Provenance::Default,
        }
    }
}

/// The input-map key of a connection: its target node and pin.
pub open spec fn connection_key(c: Connection) -> (Seq<char>, Seq<char>) {
    (c.target_node@, c.target_pin@)
}

/// The provenance a data connection induces on its target.
pub open spec fn connection_provenance(c: Connection) -> Provenance {
    Provenance::Connected { source_node: c.source_node@, source_pin: c.source_pin@ }
}

/// The input sources contributed by the data connections, processed in
/// declaration order; a later connection to the same input wins.
pub open spec fn connection_sources(conns: Seq<Connection>) -> Map<
    (Seq<char>, Seq<char>),
    Provenance,
>
    decreases conns.len(),
{
    if conns.len() == 0 {
        Map::<(Seq<char>, Seq<char>), Provenance>::empty()
    } else {
        let m = connection_sources(conns.drop_last());
        let c = conns.last();
        if c.connection_type == ConnectionType::Data {
            m.insert(connection_key(c), connection_provenance(c))
        } else {
            m
        }
    }
}

/// The provenance of an unconnected input pin: a canonicalized constant if a
/// same-named property exists, the type default otherwise.
pub open spec fn default_provenance(node: NodeInstance, pin: Seq<char>) -> Provenance {
    if node.props_map().contains_key(pin) {
        Provenance::Constant(property_text(node.props_map()[pin]))
    } else {
        Provenance::Default
    }
}

/// Adds the defaults of the first `k` input pins of `node` to `m`;
/// connections already present always win.
pub open spec fn node_defaults(
    m: Map<(Seq<char>, Seq<char>), Provenance>,
    node: NodeInstance,
    k: int,
) -> Map<(Seq<char>, Seq<char>), Provenance>
    decreases k,
{
    if k <= 0 {
        m
    } else {
        let m2 = node_defaults(m, node, k - 1);
        let pin = node.inputs@[k - 1].id@;
        if m2.contains_key((node.id@, pin)) {
            m2
        } else {
            m2.insert((node.id@, pin), default_provenance(node, pin))
        }
    }
}

/// Adds the defaults of every input pin of the first `k` nodes to `m`.
pub open spec fn graph_defaults(
    m: Map<(Seq<char>, Seq<char>), Provenance>,
    nodes: Seq<NodeInstance>,
    k: int,
) -> Map<(Seq<char>, Seq<char>), Provenance>
    decreases k,
{
    if k <= 0 {
        m
    } else {
        node_defaults(graph_defaults(m, nodes, k - 1), nodes[k - 1], nodes[k - 1].inputs@.len() as int)
    }
}

/// The complete input-provenance map of a graph: every data connection's
/// target, then a constant or default for every other declared input pin.
pub open spec fn spec_sources(g: GraphDescription) -> Map<(Seq<char>, Seq<char>), Provenance> {
    graph_defaults(connection_sources(g.connections@), g.nodes@, g.nodes@.len() as int)
}

/// The result variable derived from a node id: `node_<sanitized>_result`.
pub open spec fn var_name_seq(id: Seq<char>) -> Seq<char> {
    "node_"@ + sanitize_seq(id) + "_result"@
}

/// The result-variable map: one derived name per node id.
pub open spec fn spec_vars(nodes: Seq<NodeInstance>) -> Map<Seq<char>, Seq<char>>
    decreases nodes.len(),
{
    if nodes.len() == 0 {
        Map::<Seq<char>, Seq<char>>::empty()
    } else {
        spec_vars(nodes.drop_last()).insert(
            nodes.last().id@,
            var_name_seq(nodes.last().id@),
        )
    }
}

/// Whether the registry classifies the node with this id as pure and
/// value-producing; such nodes alone enter the evaluation order.
pub open spec fn is_pure_node<P: NodeMetadataProvider>(
    g: GraphDescription,
    p: &P,
    id: Seq<char>,
) -> bool {
    match seq_get_node(g.nodes@, id) {
        Some(n) => match p.spec_metadata(n.node_type@) {
            Some(m) => m.node_type == NodeTypes::pure && m.return_type is Some,
            None => false,
        },
        None => false,
    }
}

/// Whether connection `j` poses no obstacle to emitting `id`: either it is
/// not a data dependency of `id` on a pure node, or its source was emitted.
pub open spec fn dep_satisfied<P: NodeMetadataProvider>(
    g: GraphDescription,
    p: &P,
    done: Seq<Seq<char>>,
    id: Seq<char>,
    j: int,
) -> bool {
    let c = g.connections@[j];
    (c.connection_type == ConnectionType::Data && c.target_node@ == id && is_pure_node(
        g,
        p,
        c.source_node@,
    )) ==> done.contains(c.source_node@)
}

/// Whether every pure data dependency of `id` has been emitted.
pub open spec fn deps_emitted<P: NodeMetadataProvider>(
    g: GraphDescription,
    p: &P,
    done: Seq<Seq<char>>,
    id: Seq<char>,
) -> bool {
    forall|j: int| 0 <= j < g.connections@.len() ==> dep_satisfied(g, p, done, id, j)
}

/// Whether `id` can be emitted next: pure, not yet emitted, and all of its
/// pure data dependencies emitted.
pub open spec fn node_ready<P: NodeMetadataProvider>(
    g: GraphDescription,
    p: &P,
    done: Seq<Seq<char>>,
    id: Seq<char>,
) -> bool {
    is_pure_node(g, p, id) && !done.contains(id) && deps_emitted(g, p, done, id)
}

/// The id of the first node at index `k` or later that is ready; the
/// deterministic tie-break is the node declaration order.
pub open spec fn first_ready_from<P: NodeMetadataProvider>(
    g: GraphDescription,
    p: &P,
    done: Seq<Seq<char>>,
    k: int,
) -> Option<Seq<char>>
    decreases g.nodes@.len() - k,
{
    if k < 0 || k >= g.nodes@.len() {
        None
    } else if node_ready(g, p, done, g.nodes@[k].id@) {
        Some(g.nodes@[k].id@)
    } else {
        first_ready_from(g, p, done, k + 1)
    }
}

/// Emits ready nodes one at a time until none is ready or the fuel runs
/// out.
pub open spec fn eval_order_rec<P: NodeMetadataProvider>(
    g: GraphDescription,
    p: &P,
    done: Seq<Seq<char>>,
    fuel: nat,
) -> Seq<Seq<char>>
    decreases fuel,
{
    if fuel == 0 {
        done
    } else {
        match first_ready_from(g, p, done, 0) {
            None => done,
            Some(id) => eval_order_rec(g, p, done.push(id), (fuel - 1) as nat),
        }
    }
}

/// The pure evaluation order of a graph.
pub open spec fn spec_eval_order<P: NodeMetadataProvider>(g: GraphDescription, p: &P) -> Seq<
    Seq<char>,
> {
    eval_order_rec(g, p, Seq::<Seq<char>>::empty(), g.nodes@.len() as nat)
}

/// Whether connection `j` keeps `id` inside the blocked set `s`.
pub open spec fn blocking_edge<P: NodeMetadataProvider>(
    g: GraphDescription,
    p: &P,
    s: Set<Seq<char>>,
    id: Seq<char>,
    j: int,
) -> bool {
    let c = g.connections@[j];
    c.connection_type == ConnectionType::Data && c.target_node@ == id && is_pure_node(
        g,
        p,
        c.source_node@,
    ) && s.contains(c.source_node@)
}

/// A nonempty set of pure nodes each of which data-depends on a member of
/// the set; exactly the sets on which a topological sort can never make
/// progress.
pub open spec fn blocked_set<P: NodeMetadataProvider>(
    g: GraphDescription,
    p: &P,
    s: Set<Seq<char>>,
) -> bool {
    &&& s.finite()
    &&& s.len() > 0
    &&& forall|id: Seq<char>| s.contains(id) ==> is_pure_node(g, p, id)
    &&& forall|id: Seq<char>| #[trigger]
        s.contains(id) ==> exists|j: int| 0 <= j < g.connections@.len() && blocking_edge(g, p, s, id, j)
}

/// Whether the pure-node subgraph contains a cycle.
pub open spec fn has_pure_cycle<P: NodeMetadataProvider>(g: GraphDescription, p: &P) -> bool {
    exists|s: Set<Seq<char>>| blocked_set(g, p, s)
}

/// Whether `x` appears strictly before `y` in the order.
pub open spec fn precedes(order: Seq<Seq<char>>, x: Seq<char>, y: Seq<char>) -> bool {
    exists|a: int, b: int| 0 <= a < b < order.len() && order[a] == x && order[b] == y
}

/// Whether the order evaluates connection `j`'s source before its target,
/// whenever both endpoints are pure.
pub open spec fn edge_respected<P: NodeMetadataProvider>(
    g: GraphDescription,
    p: &P,
    order: Seq<Seq<char>>,
    j: int,
) -> bool {
    let c = g.connections@[j];
    (c.connection_type == ConnectionType::Data && is_pure_node(g, p, c.source_node@)
        && is_pure_node(g, p, c.target_node@)) ==> precedes(order, c.source_node@, c.target_node@)
}

/// What both resolver builds guarantee: on success the three outputs equal
/// their mathematical definitions, the order covers exactly the pure nodes
/// without duplicates and respects every pure data edge, and no cycle
/// exists; on failure the error is `CyclicDependency` and a cycle exists.
pub open spec fn build_post<P: NodeMetadataProvider>(
    g: GraphDescription,
    p: &P,
    r: Result<DataResolver, GraphyError>,
) -> bool {
    match r {
        Ok(res) => {
            &&& res.sources_map() == spec_sources(g)
            &&& res.vars_map() == spec_vars(g.nodes@)
            &&& res.order() == spec_eval_order(g, p)
            &&& res.order().no_duplicates()
            &&& forall|id: Seq<char>| #[trigger] res.order().contains(id) <==> is_pure_node(g, p, id)
            &&& forall|j: int| 0 <= j < g.connections@.len() ==> edge_respected(g, p, res.order(), j)
            &&& !has_pure_cycle(g, p)
        },
        Err(e) => e is CyclicDependency && has_pure_cycle(g, p),
    }
}

/// The view of the stored input-source entries as key/provenance pairs.
pub open spec fn source_entries_view(s: Seq<((String, String), DataSource)>) -> Seq<
    ((Seq<char>, Seq<char>), Provenance),
> {
    s.map(|i: int, e: ((String, String), DataSource)| ((e.0.0@, e.0.1@), e.1@))
}

/// The view of the stored result-variable entries as key/name pairs.
pub open spec fn var_entries_view(s: Seq<(String, String)>) -> Seq<(Seq<char>, Seq<char>)> {
    s.map(|i: int, e: (String, String)| (e.0@, e.1@))
}

/// Data flow resolver: input provenance, result-variable names, and the
/// pure evaluation order, built once per compilation from an immutable
/// graph snapshot.
pub struct DataResolver {
    /// (node id, input pin) to data source.
    input_sources: Vec<((String, String), DataSource)>,
    /// Node id to the variable name holding its result.
    result_variables: Vec<(String, String)>,
    /// Topologically sorted pure node ids.
    pure_evaluation_order: Vec<String>,
}

impl DataResolver {
    /// The input-provenance map.
    pub closed spec fn sources_map(&self) -> Map<(Seq<char>, Seq<char>), Provenance> {
        pairs_map(source_entries_view(self.input_sources@))
    }

    /// The result-variable map.
    pub closed spec fn vars_map(&self) -> Map<Seq<char>, Seq<char>> {
        pairs_map(var_entries_view(self.result_variables@))
    }

    /// The pure evaluation order.
    pub closed spec fn order(&self) -> Seq<Seq<char>> {
        string_views(self.pure_evaluation_order@)
    }

    /// Retrieves the data source for a node input; `None` if the input was
    /// not analyzed.
    pub fn get_input_source(&self, node_id: &str, pin_name: &str) -> (r: Option<&DataSource>)
        ensures
            match r {
                Some(ds) => self.sources_map().contains_key((node_id@, pin_name@)) && ds@
                    == self.sources_map()[(node_id@, pin_name@)],
                None => !self.sources_map().contains_key((node_id@, pin_name@)),
            },
    {
        let n = self.input_sources.len();
        let node_key = node_id.to_owned();
        let pin_key = pin_name.to_owned();
        let mut i: usize = n;
        while i > 0
            invariant
                n == self.input_sources@.len(),
                0 <= i <= n,
                node_key@ == node_id@,
                pin_key@ == pin_name@,
                forall|j: int|
                    i <= j < n ==> source_entries_view(self.input_sources@)[j].0 != (
                    node_id@,
                    pin_name@,
                ),
            decreases i,
        {
            i = i - 1;
            let entry = &self.input_sources[i];
            if entry.0.0 == node_key && entry.0.1 == pin_key {
                proof {
                    let s = source_entries_view(self.input_sources@);
                    assert(s[i as int].0 == (node_id@, pin_name@));
                    lemma_gpairs_map_get(s, (node_id@, pin_name@), i as int);
                }
                return Some(&self.input_sources[i].1);
            }
            proof {
                assert(source_entries_view(self.input_sources@)[i as int].0 == (
                    self.input_sources@[i as int].0.0@,
                    self.input_sources@[i as int].0.1@,
                ));
            }
        }
        proof {
            lemma_gpairs_map_absent(source_entries_view(self.input_sources@), (node_id@, pin_name@));
        }
        None
    }

    /// Retrieves the generated variable name for a node's result; `None` if
    /// the node was not analyzed.
    pub fn get_result_variable(&self, node_id: &str) -> (r: Option<&String>)
        ensures
            match r {
                Some(name) => self.vars_map().contains_key(node_id@) && name@
                    == self.vars_map().index(node_id@),
                None => !self.vars_map().contains_key(node_id@),
            },
    {
        let n = self.result_variables.len();
        let key = node_id.to_owned();
        let mut i: usize = n;
        while i > 0
            invariant
                n == self.result_variables@.len(),
                0 <= i <= n,
                key@ == node_id@,
                forall|j: int| i <= j < n ==> var_entries_view(self.result_variables@)[j].0 != node_id@,
            decreases i,
        {
            i = i - 1;
            if self.result_variables[i].0 == key {
                proof {
                    let s = var_entries_view(self.result_variables@);
                    assert(s[i as int].0 == node_id@);
                    lemma_gpairs_map_get(s, node_id@, i as int);
                }
                return Some(&self.result_variables[i].1);
            }
            proof {
                assert(var_entries_view(self.result_variables@)[i as int].0
                    == self.result_variables@[i as int].0@);
            }
        }
        proof {
            lemma_gpairs_map_absent(var_entries_view(self.result_variables@), node_id@);
        }
        None
    }

    /// The evaluation order for pure nodes: dependencies come before
    /// dependents.
    pub fn get_pure_evaluation_order(&self) -> (r: &Vec<String>)
        ensures
            string_views(r@) == self.order(),
    {
        &self.pure_evaluation_order
    }

    /// Builds a data resolver from a graph, sequentially.
    ///
    /// Returns `CyclicDependency` exactly when the pure-node subgraph has a
    /// cycle; otherwise the three outputs equal their specifications (see
    /// [`build_post`]).
    pub fn build<P: NodeMetadataProvider>(graph: &GraphDescription, metadata_provider: &P) -> (r:
        Result<DataResolver, GraphyError>)
        requires
            graph.wf(),
        ensures
            build_post(*graph, metadata_provider, r),
    {
        let input_sources = map_sources(graph);
        let result_variables = name_variables(graph);
        match compute_order(graph, metadata_provider) {
            Ok(order) => Ok(
                DataResolver { input_sources, result_variables, pure_evaluation_order: order },
            ),
            Err(e) => Err(e),
        }
    }

    /// Builds a data resolver using the worker pool for the data-parallel
    /// connection-mapping and variable-naming phases.
    ///
    /// Produces exactly the same resolver as [`DataResolver::build`] for the
    /// same graph: both meet [`build_post`], which pins every output (see
    /// [`lemma_builds_agree`]). The topological sort itself is sequential.
    pub fn build_parallel<P: NodeMetadataProvider + Sync>(
        graph: &GraphDescription,
        metadata_provider: &P,
    ) -> (r: Result<DataResolver, GraphyError>)
        requires
            graph.wf(),
        ensures
            build_post(*graph, metadata_provider, r),
    {
        let input_sources = map_sources_pooled(graph);
        let result_variables = name_variables_pooled(graph);
        match compute_order(graph, metadata_provider) {
            Ok(order) => Ok(
                DataResolver { input_sources, result_variables, pure_evaluation_order: order },
            ),
            Err(e) => Err(e),
        }
    }
}

/// Builds the input-source table from per-connection entries computed on
/// the worker pool, merged in declaration order.
fn map_sources_pooled(graph: &GraphDescription) -> (r: Vec<((String, String), DataSource)>)
    ensures
        pairs_unique(source_entries_view(r@)),
        pairs_map(source_entries_view(r@)) == spec_sources(*graph),
{
    let mut entries: Vec<((String, String), DataSource)> = Vec::new();
    let conn_entries = crate::parallel::par_connection_entries(&graph.connections);
    let cn = conn_entries.len();
    let mut i: usize = 0;
    while i < cn
        invariant
            cn == conn_entries@.len(),
            cn == graph.connections@.len(),
            forall|x: int|
                0 <= x < cn ==> opt_entry_view(conn_entries@[x]) == spec_connection_entry(
                    graph.connections@[x],
                ),
            0 <= i <= cn,
            pairs_unique(source_entries_view(entries@)),
            pairs_map(source_entries_view(entries@)) == connection_sources(
                graph.connections@.take(i as int),
            ),
        decreases cn - i,
    {
        proof {
            assert(graph.connections@.take(i + 1 as int).drop_last() =~= graph.connections@.take(
                i as int,
            ));
            assert(graph.connections@.take(i + 1 as int).last() == graph.connections@[i as int]);
            assert(opt_entry_view(conn_entries@[i as int]) == spec_connection_entry(
                graph.connections@[i as int],
            ));
        }
        match &conn_entries[i] {
            Some(e) => {
                let key = (e.0.0.clone(), e.0.1.clone());
                let value = clone_data_source(&e.1);
                upsert_source(&mut entries, key, value);
            },
            None => {},
        }
        i = i + 1;
    }
    proof {
        assert(graph.connections@.take(cn as int) =~= graph.connections@);
    }
    let candidate_lists = crate::parallel::par_default_candidates(&graph.nodes);
    let nn = candidate_lists.len();
    let ghost base = pairs_map(source_entries_view(entries@));
    let mut k: usize = 0;
    while k < nn
        invariant
            nn == candidate_lists@.len(),
            nn == graph.nodes@.len(),
            forall|x: int|
                0 <= x < nn ==> source_entries_view(candidate_lists@[x]@) == spec_node_candidates(
                    graph.nodes@[x],
                ),
            0 <= k <= nn,
            pairs_unique(source_entries_view(entries@)),
            base == connection_sources(graph.connections@),
            pairs_map(source_entries_view(entries@)) == graph_defaults(
                base,
                graph.nodes@,
                k as int,
            ),
        decreases nn - k,
    {
        apply_node_candidates(&mut entries, &candidate_lists[k], &graph.nodes[k]);
        k = k + 1;
    }
    entries
}

/// Builds the result-variable table from per-node entries computed on the
/// worker pool, merged in declaration order.
fn name_variables_pooled(graph: &GraphDescription) -> (r: Vec<(String, String)>)
    ensures
        pairs_map(var_entries_view(r@)) == spec_vars(graph.nodes@),
{
    let ventries = crate::parallel::par_variable_entries(&graph.nodes);
    let nn = ventries.len();
    let mut out: Vec<(String, String)> = Vec::new();
    let mut i: usize = 0;
    while i < nn
        invariant
            nn == ventries@.len(),
            nn == graph.nodes@.len(),
            forall|x: int|
                0 <= x < nn ==> ventries@[x].0@ == graph.nodes@[x].id@ && ventries@[x].1@
                    == var_name_seq(graph.nodes@[x].id@),
            0 <= i <= nn,
            pairs_map(var_entries_view(out@)) == spec_vars(graph.nodes@.take(i as int)),
        decreases nn - i,
    {
        let e = (ventries[i].0.clone(), ventries[i].1.clone());
        proof {
            let s = var_entries_view(out@);
            lemma_gpairs_map_push(s, (e.0@, e.1@));
            assert(var_entries_view(out@.push(e)) =~= s.push((e.0@, e.1@)));
            assert(graph.nodes@.take(i + 1 as int).drop_last() =~= graph.nodes@.take(i as int));
            assert(graph.nodes@.take(i + 1 as int).last() == graph.nodes@[i as int]);
        }
        out.push(e);
        i = i + 1;
    }
    proof {
        assert(graph.nodes@.take(nn as int) =~= graph.nodes@);
    }
    out
}

/// The view of one optional input-source entry.
pub open spec fn opt_entry_view(o: Option<((String, String), DataSource)>) -> Option<
    ((Seq<char>, Seq<char>), Provenance),
> {
    match o {
        Some(e) => Some(((e.0.0@, e.0.1@), e.1@)),
        None => None,
    }
}

/// The input-source entry a single connection contributes: its target key
/// and source provenance for a data connection, nothing for an execution
/// connection.
pub open spec fn spec_connection_entry(c: Connection) -> Option<
    ((Seq<char>, Seq<char>), Provenance),
> {
    if c.connection_type == ConnectionType::Data {
        Some((connection_key(c), connection_provenance(c)))
    } else {
        None
    }
}

/// Computes the input-source entry of one connection.
pub(crate) fn connection_entry(c: &Connection) -> (r: Option<((String, String), DataSource)>)
    ensures
        opt_entry_view(r) == spec_connection_entry(*c),
{
    match c.connection_type {
        ConnectionType::Data => Some(
            (
                (c.target_node.clone(), c.target_pin.clone()),
                DataSource::Connection {
                    source_node_id: c.source_node.clone(),
                    source_pin: c.source_pin.clone(),
                },
            ),
        ),
        ConnectionType::Execution => None,
    }
}

/// The default-provenance candidates of a node, one per input pin in
/// declaration order.
pub open spec fn spec_node_candidates(node: NodeInstance) -> Seq<
    ((Seq<char>, Seq<char>), Provenance),
> {
    node.inputs@.map(
        |i: int, pin: crate::node::PinInstance| ((node.id@, pin.id@), default_provenance(node, pin.id@)),
    )
}

/// Computes the default-provenance candidates of a node: for each input
/// pin, a canonicalized constant if a same-named property exists, the type
/// default otherwise.
pub(crate) fn node_default_candidates(node: &NodeInstance) -> (r: Vec<
    ((String, String), DataSource)>)
    ensures
        source_entries_view(r@) == spec_node_candidates(*node),
{
    let n = node.inputs.len();
    let mut out: Vec<((String, String), DataSource)> = Vec::new();
    let mut i: usize = 0;
    while i < n
        invariant
            n == node.inputs@.len(),
            0 <= i <= n,
            source_entries_view(out@) =~= spec_node_candidates(*node).take(i as int),
        decreases n - i,
    {
        let pin_id = node.inputs[i].id.clone();
        let source = match node.get_property(pin_id.as_str()) {
            Some(value) => DataSource::Constant(property_value_to_string(value)),
            None => DataSource::Default,
        };
        let entry = ((node.id.clone(), pin_id), source);
        proof {
            assert(entry.0.1@ == node.inputs@[i as int].id@);
            assert(entry.1@ == default_provenance(*node, node.inputs@[i as int].id@));
            assert(spec_node_candidates(*node)[i as int] == (
                (node.id@, node.inputs@[i as int].id@),
                default_provenance(*node, node.inputs@[i as int].id@),
            ));
            assert(source_entries_view(out@).len() == out@.len());
            assert(out@.len() == i);
            assert(out@.push(entry)[i as int] == entry);
            assert(source_entries_view(out@.push(entry))[i as int] == (
                (entry.0.0@, entry.0.1@),
                entry.1@,
            ));
            assert(source_entries_view(out@.push(entry)) =~= spec_node_candidates(*node).take(
                i + 1 as int,
            ));
        }
        out.push(entry);
        i = i + 1;
    }
    proof {
        assert(spec_node_candidates(*node).take(n as int) =~= spec_node_candidates(*node));
    }
    out
}

/// The result-variable entry of a node.
pub(crate) fn variable_entry(node: &NodeInstance) -> (r: (String, String))
    ensures
        r.0@ == node.id@,
        r.1@ == var_name_seq(node.id@),
{
    let sanitized = sanitize_name(node.id.as_str());
    let name = String::from_str("node_").concat(sanitized.as_str()).concat("_result");
    proof {
        assert(name@ =~= var_name_seq(node.id@));
    }
    (node.id.clone(), name)
}

/// Whether the stored entries already hold an input key.
fn source_contains(
    entries: &Vec<((String, String), DataSource)>,
    node_id: &String,
    pin_id: &String,
) -> (r: bool)
    ensures
        r == pairs_map(source_entries_view(entries@)).contains_key((node_id@, pin_id@)),
{
    let n = entries.len();
    let mut i: usize = 0;
    while i < n
        invariant
            n == entries@.len(),
            0 <= i <= n,
            forall|j: int| 0 <= j < i ==> source_entries_view(entries@)[j].0 != (node_id@, pin_id@),
        decreases n - i,
    {
        let e = &entries[i];
        if e.0.0 == *node_id && e.0.1 == *pin_id {
            proof {
                assert(source_entries_view(entries@)[i as int].0 == (node_id@, pin_id@));
                lemma_gpairs_map_domain(source_entries_view(entries@), (node_id@, pin_id@));
            }
            return true;
        }
        proof {
            assert(source_entries_view(entries@)[i as int].0 == (
                entries@[i as int].0.0@,
                entries@[i as int].0.1@,
            ));
        }
        i = i + 1;
    }
    proof {
        lemma_gpairs_map_absent(source_entries_view(entries@), (node_id@, pin_id@));
    }
    false
}

/// Inserts an input-source entry, replacing the entry with the same key if
/// one exists.
fn upsert_source(
    entries: &mut Vec<((String, String), DataSource)>,
    key: (String, String),
    value: DataSource,
)
    requires
        pairs_unique(source_entries_view(old(entries)@)),
    ensures
        pairs_unique(source_entries_view(final(entries)@)),
        pairs_map(source_entries_view(final(entries)@)) == pairs_map(
            source_entries_view(old(entries)@),
        ).insert((key.0@, key.1@), value@),
{
    let n = entries.len();
    let mut i: usize = 0;
    while i < n
        invariant
            *entries == *old(entries),
            pairs_unique(source_entries_view(entries@)),
            n == entries@.len(),
            0 <= i <= n,
            forall|j: int| 0 <= j < i ==> source_entries_view(entries@)[j].0 != (key.0@, key.1@),
        decreases n - i,
    {
        let e = &entries[i];
        if e.0.0 == key.0 && e.0.1 == key.1 {
            proof {
                let s = source_entries_view(entries@);
                assert(s[i as int].0 == (key.0@, key.1@));
                assert forall|j: int| 0 <= j < s.len() && j != i implies s[j].0 != (
                    key.0@,
                    key.1@,
                ) by {
                    if j < i {
                    } else {
                        assert(pairs_unique(s));
                        assert(s[i as int].0 != s[j].0);
                    }
                }
                lemma_gpairs_map_update(s, i as int, ((key.0@, key.1@), value@));
                assert(source_entries_view(entries@.update(i as int, (key, value))) =~= s.update(
                    i as int,
                    ((key.0@, key.1@), value@),
                ));
                assert forall|a: int, b: int|
                    0 <= a < b < s.len() implies s.update(i as int, ((key.0@, key.1@), value@))[a].0
                    != s.update(i as int, ((key.0@, key.1@), value@))[b].0 by {
                    assert(s[a].0 != s[b].0);
                }
            }
            entries.set(i, (key, value));
            return ;
        }
        proof {
            assert(source_entries_view(entries@)[i as int].0 == (
                entries@[i as int].0.0@,
                entries@[i as int].0.1@,
            ));
        }
        i = i + 1;
    }
    proof {
        let s = source_entries_view(entries@);
        lemma_gpairs_map_push(s, ((key.0@, key.1@), value@));
        assert(source_entries_view(entries@.push((key, value))) =~= s.push(
            ((key.0@, key.1@), value@),
        ));
        let sp = s.push(((key.0@, key.1@), value@));
        assert forall|a: int, b: int| 0 <= a < b < sp.len() implies sp[a].0 != sp[b].0 by {
            if b == sp.len() - 1 {
                assert(sp[a] == s[a]);
            } else {
                assert(pairs_unique(s));
                assert(sp[a] == s[a] && sp[b] == s[b]);
            }
        }
    }
    entries.push((key, value));
}

/// Builds the complete input-source table of a graph: data connections in
/// declaration order (a later connection to the same input wins), then a
/// constant or default for every input pin not already mapped.
fn map_sources(graph: &GraphDescription) -> (r: Vec<((String, String), DataSource)>)
    ensures
        pairs_unique(source_entries_view(r@)),
        pairs_map(source_entries_view(r@)) == spec_sources(*graph),
{
    let mut entries: Vec<((String, String), DataSource)> = Vec::new();
    let cn = graph.connections.len();
    let mut i: usize = 0;
    while i < cn
        invariant
            cn == graph.connections@.len(),
            0 <= i <= cn,
            pairs_unique(source_entries_view(entries@)),
            pairs_map(source_entries_view(entries@)) == connection_sources(
                graph.connections@.take(i as int),
            ),
        decreases cn - i,
    {
        let ghost pre = graph.connections@.take(i as int);
        proof {
            assert(graph.connections@.take(i + 1 as int).drop_last() =~= pre);
            assert(graph.connections@.take(i + 1 as int).last() == graph.connections@[i as int]);
        }
        match connection_entry(&graph.connections[i]) {
            Some(e) => {
                upsert_source(&mut entries, e.0, e.1);
            },
            None => {},
        }
        i = i + 1;
    }
    proof {
        assert(graph.connections@.take(cn as int) =~= graph.connections@);
    }
    apply_defaults(&mut entries, graph);
    entries
}

/// Adds the default-provenance candidates of every node, keeping entries
/// already present (connections win over properties and defaults).
fn apply_defaults(entries: &mut Vec<((String, String), DataSource)>, graph: &GraphDescription)
    requires
        pairs_unique(source_entries_view(old(entries)@)),
    ensures
        pairs_unique(source_entries_view(final(entries)@)),
        pairs_map(source_entries_view(final(entries)@)) == graph_defaults(
            pairs_map(source_entries_view(old(entries)@)),
            graph.nodes@,
            graph.nodes@.len() as int,
        ),
{
    let ghost base = pairs_map(source_entries_view(entries@));
    let nn = graph.nodes.len();
    let mut i: usize = 0;
    while i < nn
        invariant
            base == pairs_map(source_entries_view(old(entries)@)),
            nn == graph.nodes@.len(),
            0 <= i <= nn,
            pairs_unique(source_entries_view(entries@)),
            pairs_map(source_entries_view(entries@)) == graph_defaults(
                base,
                graph.nodes@,
                i as int,
            ),
        decreases nn - i,
    {
        let candidates = node_default_candidates(&graph.nodes[i]);
        apply_node_candidates(entries, &candidates, &graph.nodes[i]);
        i = i + 1;
    }
}

/// Inserts a node's candidates where the key is not yet mapped.
fn apply_node_candidates(
    entries: &mut Vec<((String, String), DataSource)>,
    candidates: &Vec<((String, String), DataSource)>,
    node: &NodeInstance,
)
    requires
        pairs_unique(source_entries_view(old(entries)@)),
        source_entries_view(candidates@) == spec_node_candidates(*node),
    ensures
        pairs_unique(source_entries_view(final(entries)@)),
        pairs_map(source_entries_view(final(entries)@)) == node_defaults(
            pairs_map(source_entries_view(old(entries)@)),
            *node,
            node.inputs@.len() as int,
        ),
{
    let ghost base = pairs_map(source_entries_view(entries@));
    let kn = candidates.len();
    proof {
        assert(source_entries_view(candidates@).len() == candidates@.len());
        assert(spec_node_candidates(*node).len() == node.inputs@.len());
        assert(kn == node.inputs@.len());
    }
    let mut k: usize = 0;
    while k < kn
        invariant
            base == pairs_map(source_entries_view(old(entries)@)),
            kn == candidates@.len(),
            kn == node.inputs@.len(),
            source_entries_view(candidates@) == spec_node_candidates(*node),
            0 <= k <= kn,
            pairs_unique(source_entries_view(entries@)),
            pairs_map(source_entries_view(entries@)) == node_defaults(base, *node, k as int),
        decreases kn - k,
    {
        let c = &candidates[k];
        proof {
            assert(source_entries_view(candidates@)[k as int] == spec_node_candidates(*node)[
                k as int
            ]);
            assert(c.0.0@ == node.id@);
            assert(c.0.1@ == node.inputs@[k as int].id@);
            assert(c.1@ == default_provenance(*node, node.inputs@[k as int].id@));
        }
        if !source_contains(entries, &c.0.0, &c.0.1) {
            let key = (c.0.0.clone(), c.0.1.clone());
            let value = clone_data_source(&c.1);
            proof {
                let s = source_entries_view(entries@);
                lemma_gpairs_map_domain(s, (key.0@, key.1@));
                lemma_gpairs_map_push(s, ((key.0@, key.1@), value@));
                assert(source_entries_view(entries@.push((key, value))) =~= s.push(
                    ((key.0@, key.1@), value@),
                ));
                let sp = s.push(((key.0@, key.1@), value@));
                assert forall|a: int, b: int| 0 <= a < b < sp.len() implies sp[a].0 != sp[b].0 by {
                    if b == sp.len() - 1 {
                        assert(sp[a] == s[a]);
                        assert(!(exists|x: int| 0 <= x < s.len() && s[x].0 == (key.0@, key.1@)));
                    } else {
                        assert(pairs_unique(s));
                        assert(sp[a] == s[a] && sp[b] == s[b]);
                    }
                }
            }
            entries.push((key, value));
        }
        k = k + 1;
    }
}

/// Clones a data source, preserving its provenance.
pub(crate) fn clone_data_source(d: &DataSource) -> (r: DataSource)
    ensures
        r@ == d@,
{
    match d {
        DataSource::Connection { source_node_id, source_pin } => DataSource::Connection {
            source_node_id: source_node_id.clone(),
            source_pin: source_pin.clone(),
        },
        DataSource::Constant(s) => DataSource::Constant(s.clone()),
        DataSource::Default => DataSource::Default,
    }
}

/// Whether the registry classifies this node as pure and value-producing.
fn is_pure_exec<P: NodeMetadataProvider>(
    graph: &GraphDescription,
    provider: &P,
    id: &String,
) -> (r: bool)
    ensures
        r == is_pure_node(*graph, provider, id@),
{
    match graph.get_node(id.as_str()) {
        None => false,
        Some(n) => match provider.get_node_metadata(n.node_type.as_str()) {
            None => false,
            Some(m) => m.node_type == NodeTypes::pure && m.return_type.is_some(),
        },
    }
}

/// Whether the node can be emitted next given the already-emitted ids.
fn node_ready_exec<P: NodeMetadataProvider>(
    graph: &GraphDescription,
    provider: &P,
    done: &Vec<String>,
    id: &String,
) -> (r: bool)
    ensures
        r == node_ready(*graph, provider, string_views(done@), id@),
{
    if !is_pure_exec(graph, provider, id) {
        return false;
    }
    if contains_string(done, id) {
        return false;
    }
    let m = graph.connections.len();
    let mut j: usize = 0;
    while j < m
        invariant
            m == graph.connections@.len(),
            0 <= j <= m,
            forall|j2: int|
                0 <= j2 < j ==> dep_satisfied(*graph, provider, string_views(done@), id@, j2),
        decreases m - j,
    {
        let c = &graph.connections[j];
        if c.connection_type == ConnectionType::Data && c.target_node == *id {
            if is_pure_exec(graph, provider, &c.source_node) {
                if !contains_string(done, &c.source_node) {
                    proof {
                        assert(!dep_satisfied(*graph, provider, string_views(done@), id@, j as int));
                    }
                    return false;
                }
            }
        }
        proof {
            assert(dep_satisfied(*graph, provider, string_views(done@), id@, j as int));
        }
        j = j + 1;
    }
    true
}

/// Skipping a node that is not ready does not change the first ready node.
proof fn lemma_first_ready_skip<P: NodeMetadataProvider>(
    g: GraphDescription,
    p: &P,
    done: Seq<Seq<char>>,
    k: int,
)
    requires
        0 <= k < g.nodes@.len(),
        !node_ready(g, p, done, g.nodes@[k].id@),
    ensures
        first_ready_from(g, p, done, k) == first_ready_from(g, p, done, k + 1),
{
}

/// When no node from `k` on is ready, none of them is ready individually.
proof fn lemma_first_ready_none<P: NodeMetadataProvider>(
    g: GraphDescription,
    p: &P,
    done: Seq<Seq<char>>,
    k: int,
)
    requires
        0 <= k <= g.nodes@.len(),
        first_ready_from(g, p, done, k) is None,
    ensures
        forall|k2: int| k <= k2 < g.nodes@.len() ==> !node_ready(g, p, done, g.nodes@[k2].id@),
    decreases g.nodes@.len() - k,
{
    if k < g.nodes@.len() {
        lemma_first_ready_none(g, p, done, k + 1);
    }
}

/// Finds the first ready node, by declaration order.
fn find_ready<P: NodeMetadataProvider>(
    graph: &GraphDescription,
    provider: &P,
    done: &Vec<String>,
) -> (r: Option<usize>)
    ensures
        match r {
            Some(k) => 0 <= k < graph.nodes@.len() && first_ready_from(
                *graph,
                provider,
                string_views(done@),
                0,
            ) == Some(graph.nodes@[k as int].id@) && node_ready(
                *graph,
                provider,
                string_views(done@),
                graph.nodes@[k as int].id@,
            ),
            None => first_ready_from(*graph, provider, string_views(done@), 0) is None,
        },
{
    let nn = graph.nodes.len();
    let mut k: usize = 0;
    while k < nn
        invariant
            nn == graph.nodes@.len(),
            0 <= k <= nn,
            first_ready_from(*graph, provider, string_views(done@), 0) == first_ready_from(
                *graph,
                provider,
                string_views(done@),
                k as int,
            ),
        decreases nn - k,
    {
        if node_ready_exec(graph, provider, done, &graph.nodes[k].id) {
            return Some(k);
        }
        proof {
            lemma_first_ready_skip(*graph, provider, string_views(done@), k as int);
        }
        k = k + 1;
    }
    None
}

/// Every index of a node found by id lookup.
proof fn lemma_get_node_index(nodes: Seq<NodeInstance>, id: Seq<char>)
    requires
        seq_get_node(nodes, id) is Some,
    ensures
        exists|k: int| 0 <= k < nodes.len() && nodes[k].id@ == id,
    decreases nodes.len(),
{
    if nodes.len() == 0 {
    } else if nodes[0].id@ == id {
    } else {
        lemma_get_node_index(nodes.drop_first(), id);
        let k = choose|k: int|
            0 <= k < nodes.drop_first().len() && nodes.drop_first()[k].id@ == id;
        assert(nodes[k + 1].id@ == id);
    }
}

/// An order that covers all pure nodes, has no duplicates, and respects
/// every pure data edge refutes every candidate blocked set.
proof fn lemma_no_member_at<P: NodeMetadataProvider>(
    g: GraphDescription,
    p: &P,
    s: Set<Seq<char>>,
    order: Seq<Seq<char>>,
    b: int,
)
    requires
        blocked_set(g, p, s),
        order.no_duplicates(),
        forall|id: Seq<char>| #[trigger] order.contains(id) <==> is_pure_node(g, p, id),
        forall|j: int| 0 <= j < g.connections@.len() ==> edge_respected(g, p, order, j),
        0 <= b < order.len(),
    ensures
        !s.contains(order[b]),
    decreases b,
{
    if s.contains(order[b]) {
        let j = choose|j: int| 0 <= j < g.connections@.len() && blocking_edge(g, p, s, order[b], j);
        let c = g.connections@[j];
        assert(is_pure_node(g, p, c.target_node@));
        assert(edge_respected(g, p, order, j));
        assert(precedes(order, c.source_node@, c.target_node@));
        let (a, b2) = choose|a: int, b2: int|
            0 <= a < b2 < order.len() && order[a] == c.source_node@ && order[b2] == c.target_node@;
        assert(order[b2] == order[b]);
        assert(b2 == b);
        lemma_no_member_at(g, p, s, order, a);
        assert(s.contains(c.source_node@));
    }
}

/// A complete, edge-respecting order shows the pure subgraph is acyclic.
proof fn lemma_complete_order_no_cycle<P: NodeMetadataProvider>(
    g: GraphDescription,
    p: &P,
    order: Seq<Seq<char>>,
)
    requires
        order.no_duplicates(),
        forall|id: Seq<char>| #[trigger] order.contains(id) <==> is_pure_node(g, p, id),
        forall|j: int| 0 <= j < g.connections@.len() ==> edge_respected(g, p, order, j),
    ensures
        !has_pure_cycle(g, p),
{
    if has_pure_cycle(g, p) {
        let s = choose|s: Set<Seq<char>>| blocked_set(g, p, s);
        assert(exists|x: Seq<char>| s.contains(x)) by {
            broadcast use vstd::set::group_set_axioms;

            if !(exists|x: Seq<char>| s.contains(x)) {
                assert(s =~= Set::<Seq<char>>::empty());
                assert(s.len() == 0);
            }
        }
        let x = choose|x: Seq<char>| s.contains(x);
        assert(s.contains(x));
        assert(is_pure_node(g, p, x));
        assert(order.contains(x));
        let b = choose|b: int| 0 <= b < order.len() && order[b] == x;
        lemma_no_member_at(g, p, s, order, b);
    }
}

/// What `compute_order` guarantees of a successful order.
pub open spec fn order_post<P: NodeMetadataProvider>(
    g: GraphDescription,
    p: &P,
    order: Seq<Seq<char>>,
) -> bool {
    &&& order == spec_eval_order(g, p)
    &&& order.no_duplicates()
    &&& forall|id: Seq<char>| #[trigger] order.contains(id) <==> is_pure_node(g, p, id)
    &&& forall|j: int| 0 <= j < g.connections@.len() ==> edge_respected(g, p, order, j)
    &&& !has_pure_cycle(g, p)
}

/// Orders the pure nodes so that every pure data dependency is evaluated
/// first; fails exactly when the pure subgraph has a cycle.
fn compute_order<P: NodeMetadataProvider>(graph: &GraphDescription, provider: &P) -> (r: Result<
    Vec<String>,
    GraphyError,
>)
    requires
        graph.wf(),
    ensures
        match r {
            Ok(order) => order_post(*graph, provider, string_views(order@)),
            Err(e) => e is CyclicDependency && has_pure_cycle(*graph, provider),
        },
{
    let nn = graph.nodes.len();
    let mut order: Vec<String> = Vec::new();
    let mut rounds: usize = 0;
    proof {
        assert(string_views(order@) =~= Seq::<Seq<char>>::empty());
    }
    while rounds < nn
        invariant
            nn == graph.nodes@.len(),
            graph.wf(),
            0 <= rounds <= nn,
            order@.len() == rounds,
            eval_order_rec(*graph, provider, string_views(order@), (nn - rounds) as nat)
                == spec_eval_order(*graph, provider),
            string_views(order@).no_duplicates(),
            forall|b: int|
                0 <= b < order@.len() ==> is_pure_node(*graph, provider, string_views(order@)[b]),
            forall|b: int|
                0 <= b < order@.len() ==> deps_emitted(
                    *graph,
                    provider,
                    string_views(order@).take(b),
                    string_views(order@)[b],
                ),
        decreases nn - rounds,
    {
        let ghost done = string_views(order@);
        match find_ready(graph, provider, &order) {
            None => {
                proof {
                    assert(eval_order_rec(*graph, provider, done, (nn - rounds) as nat) == done);
                }
                return finish_order(graph, provider, order);
            },
            Some(k) => {
                let id = graph.nodes[k].id.clone();
                proof {
                    let done2 = done.push(id@);
                    assert(string_views(order@.push(id)) =~= done2);
                    assert(eval_order_rec(*graph, provider, done, (nn - rounds) as nat)
                        == eval_order_rec(*graph, provider, done2, (nn - rounds - 1) as nat));
                    assert(done2.no_duplicates()) by {
                        assert(!done.contains(id@));
                        assert(forall|a: int| 0 <= a < done.len() ==> done2[a] == done[a]);
                    }
                    assert forall|b: int| 0 <= b < done2.len() implies deps_emitted(
                        *graph,
                        provider,
                        done2.take(b),
                        done2[b],
                    ) by {
                        if b < done.len() {
                            assert(done2.take(b) =~= done.take(b));
                            assert(done2[b] == done[b]);
                        } else {
                            assert(done2.take(b) =~= done);
                            assert(done2[b] == id@);
                        }
                    }
                    assert forall|b: int| 0 <= b < done2.len() implies is_pure_node(
                        *graph,
                        provider,
                        done2[b],
                    ) by {
                        if b < done.len() {
                            assert(done2[b] == done[b]);
                        } else {
                            assert(done2[b] == id@);
                        }
                    }
                }
                order.push(id);
                rounds = rounds + 1;
            },
        }
    }
    proof {
        assert(eval_order_rec(*graph, provider, string_views(order@), 0) == string_views(order@));
    }
    finish_order(graph, provider, order)
}

/// Decides the outcome once no further node can be emitted: success when
/// every pure node was emitted, the cyclic-dependency error otherwise.
fn finish_order<P: NodeMetadataProvider>(
    graph: &GraphDescription,
    provider: &P,
    order: Vec<String>,
) -> (r: Result<Vec<String>, GraphyError>)
    requires
        graph.wf(),
        string_views(order@) == spec_eval_order(*graph, provider),
        string_views(order@).no_duplicates(),
        forall|b: int|
            0 <= b < order@.len() ==> is_pure_node(*graph, provider, string_views(order@)[b]),
        forall|b: int|
            0 <= b < order@.len() ==> deps_emitted(
                *graph,
                provider,
                string_views(order@).take(b),
                string_views(order@)[b],
            ),
        order@.len() == graph.nodes@.len() || first_ready_from(
            *graph,
            provider,
            string_views(order@),
            0,
        ) is None,
    ensures
        match r {
            Ok(o) => order_post(*graph, provider, string_views(o@)),
            Err(e) => e is CyclicDependency && has_pure_cycle(*graph, provider),
        },
{
    let ghost done = string_views(order@);
    let nn = graph.nodes.len();
    let mut k: usize = 0;
    while k < nn
        invariant
            nn == graph.nodes@.len(),
            graph.wf(),
            0 <= k <= nn,
            done == string_views(order@),
            forall|k2: int|
                0 <= k2 < k ==> (is_pure_node(*graph, provider, graph.nodes@[k2].id@)
                    ==> done.contains(graph.nodes@[k2].id@)),
            order@.len() == nn || first_ready_from(*graph, provider, done, 0) is None,
            done == spec_eval_order(*graph, provider),
            done.no_duplicates(),
            forall|b: int| 0 <= b < done.len() ==> is_pure_node(*graph, provider, done[b]),
            forall|b: int|
                0 <= b < done.len() ==> deps_emitted(*graph, provider, done.take(b), done[b]),
        decreases nn - k,
    {
        if is_pure_exec(graph, provider, &graph.nodes[k].id) {
            if !contains_string(&order, &graph.nodes[k].id) {
                proof {
                    lemma_unreached_implies_cycle(*graph, provider, done, k as int, order@.len() as int);
                }
                return Err(GraphyError::CyclicDependency);
            }
        }
        k = k + 1;
    }
    proof {
        assert forall|id: Seq<char>| #[trigger] done.contains(id) implies is_pure_node(
            *graph,
            provider,
            id,
        ) by {
            let b = choose|b: int| 0 <= b < done.len() && done[b] == id;
        }
        assert forall|id: Seq<char>| is_pure_node(*graph, provider, id) implies done.contains(
            id,
        ) by {
            lemma_get_node_index(graph.nodes@, id);
            let k2 = choose|k2: int| 0 <= k2 < graph.nodes@.len() && graph.nodes@[k2].id@ == id;
        }
        assert forall|j: int| 0 <= j < graph.connections@.len() implies edge_respected(
            *graph,
            provider,
            done,
            j,
        ) by {
            let c = graph.connections@[j];
            if c.connection_type == ConnectionType::Data && is_pure_node(
                *graph,
                provider,
                c.source_node@,
            ) && is_pure_node(*graph, provider, c.target_node@) {
                assert(done.contains(c.target_node@));
                let b = choose|b: int| 0 <= b < done.len() && done[b] == c.target_node@;
                assert(deps_emitted(*graph, provider, done.take(b), done[b]));
                assert(dep_satisfied(*graph, provider, done.take(b), done[b], j));
                assert(done.take(b).contains(c.source_node@));
                let a = choose|a: int|
                    0 <= a < done.take(b).len() && done.take(b)[a] == c.source_node@;
                assert(done[a] == c.source_node@);
                assert(precedes(done, c.source_node@, c.target_node@));
            }
        }
        lemma_complete_order_no_cycle(*graph, provider, done);
    }
    Ok(order)
}

/// When a pure node was never emitted, the pure subgraph has a cycle: the
/// pure nodes left out of a maximal order form a blocked set.
proof fn lemma_unreached_implies_cycle<P: NodeMetadataProvider>(
    g: GraphDescription,
    p: &P,
    done: Seq<Seq<char>>,
    k: int,
    rounds: int,
)
    requires
        g.wf(),
        0 <= k < g.nodes@.len(),
        is_pure_node(g, p, g.nodes@[k].id@),
        !done.contains(g.nodes@[k].id@),
        done.len() == rounds,
        rounds == g.nodes@.len() || first_ready_from(g, p, done, 0) is None,
        done.no_duplicates(),
        forall|b: int| 0 <= b < done.len() ==> is_pure_node(g, p, done[b]),
    ensures
        has_pure_cycle(g, p),
{
    let node_ids = g.nodes@.map(|i: int, n: NodeInstance| n.id@);
    if rounds == g.nodes@.len() {
        // impossible: the order holds as many distinct node ids as there
        // are nodes, so every node id, including this pure one, was emitted
        assert forall|b: int| 0 <= b < done.len() implies node_ids.to_set().contains(
            done[b],
        ) by {
            lemma_get_node_index(g.nodes@, done[b]);
            let k2 = choose|k2: int| 0 <= k2 < g.nodes@.len() && g.nodes@[k2].id@ == done[b];
            assert(node_ids[k2] == done[b]);
            assert(node_ids.contains(done[b]));
            vstd::seq_lib::seq_to_set_is_finite::<Seq<char>>(node_ids);
            assert(node_ids.to_set().contains(done[b]));
        }
        assert(done.to_set().subset_of(node_ids.to_set())) by {
            assert forall|x: Seq<char>| done.to_set().contains(x) implies node_ids.to_set()
                .contains(x) by {
                assert(done.contains(x));
                let b = choose|b: int| 0 <= b < done.len() && done[b] == x;
            }
        }
        done.unique_seq_to_set();
        assert(node_ids.no_duplicates()) by {
            assert forall|a: int, b: int|
                0 <= a < b < node_ids.len() implies node_ids[a] != node_ids[b] by {
                assert(g.nodes@[a].id@ != g.nodes@[b].id@);
            }
        }
        node_ids.unique_seq_to_set();
        vstd::seq_lib::seq_to_set_is_finite::<Seq<char>>(node_ids);
        vstd::seq_lib::seq_to_set_is_finite::<Seq<char>>(done);
        vstd::set_lib::lemma_subset_equality(done.to_set(), node_ids.to_set());
        assert(node_ids[k] == g.nodes@[k].id@);
        assert(node_ids.contains(node_ids[k]));
        assert(node_ids.to_set().contains(g.nodes@[k].id@));
        assert(done.to_set().contains(g.nodes@[k].id@));
        assert(done.contains(g.nodes@[k].id@));
        assert(false);
    } else {
        let s = Set::<Seq<char>>::new(
            |id: Seq<char>| is_pure_node(g, p, id) && !done.contains(id),
        );
        assert(s.contains(g.nodes@[k].id@));
        // s is a subset of the finite set of node ids, so finite and, being
        // inhabited, nonempty
        assert(s.subset_of(node_ids.to_set())) by {
            assert forall|x: Seq<char>| s.contains(x) implies node_ids.to_set().contains(x) by {
                lemma_get_node_index(g.nodes@, x);
                let k2 = choose|k2: int| 0 <= k2 < g.nodes@.len() && g.nodes@[k2].id@ == x;
                assert(node_ids[k2] == x);
                assert(node_ids.contains(x));
            }
        }
        vstd::seq_lib::seq_to_set_is_finite::<Seq<char>>(node_ids);
        vstd::set_lib::lemma_len_subset(s, node_ids.to_set());
        if s.len() == 0 {
            s.lemma_len0_is_empty();
            assert(false);
        }
        lemma_first_ready_none(g, p, done, 0);
        assert forall|id: Seq<char>| #[trigger] s.contains(id) implies exists|j: int|
            0 <= j < g.connections@.len() && blocking_edge(g, p, s, id, j) by {
            assert(is_pure_node(g, p, id) && !done.contains(id));
            lemma_get_node_index(g.nodes@, id);
            let k2 = choose|k2: int| 0 <= k2 < g.nodes@.len() && g.nodes@[k2].id@ == id;
            assert(!node_ready(g, p, done, g.nodes@[k2].id@));
            assert(!deps_emitted(g, p, done, id));
            let j = choose|j: int|
                !(0 <= j < g.connections@.len() ==> dep_satisfied(g, p, done, id, j));
            assert(0 <= j < g.connections@.len());
            assert(!dep_satisfied(g, p, done, id, j));
            let c = g.connections@[j];
            assert(c.connection_type == ConnectionType::Data && c.target_node@ == id
                && is_pure_node(g, p, c.source_node@) && !done.contains(c.source_node@));
            assert(s.contains(c.source_node@));
            assert(blocking_edge(g, p, s, id, j));
        }
        assert(blocked_set(g, p, s));
    }
}

/// Builds the result-variable table: one entry per node in declaration
/// order.
fn name_variables(graph: &GraphDescription) -> (r: Vec<(String, String)>)
    ensures
        pairs_map(var_entries_view(r@)) == spec_vars(graph.nodes@),
{
    let nn = graph.nodes.len();
    let mut out: Vec<(String, String)> = Vec::new();
    let mut i: usize = 0;
    while i < nn
        invariant
            nn == graph.nodes@.len(),
            0 <= i <= nn,
            pairs_map(var_entries_view(out@)) == spec_vars(graph.nodes@.take(i as int)),
        decreases nn - i,
    {
        let e = variable_entry(&graph.nodes[i]);
        proof {
            let s = var_entries_view(out@);
            lemma_gpairs_map_push(s, (e.0@, e.1@));
            assert(var_entries_view(out@.push(e)) =~= s.push((e.0@, e.1@)));
            assert(graph.nodes@.take(i + 1 as int).drop_last() =~= graph.nodes@.take(i as int));
            assert(graph.nodes@.take(i + 1 as int).last() == graph.nodes@[i as int]);
        }
        out.push(e);
        i = i + 1;
    }
    proof {
        assert(graph.nodes@.take(nn as int) =~= graph.nodes@);
    }
    out
}

/// Any two resolver builds over the same graph and registry agree
/// observationally: they succeed or fail together, and on success their
/// input-provenance maps, result-variable maps and evaluation orders are
/// identical. In particular the sequential and pooled builds are
/// observationally equivalent.
pub proof fn lemma_builds_agree<P: NodeMetadataProvider>(
    g: GraphDescription,
    p: &P,
    r1: Result<DataResolver, GraphyError>,
    r2: Result<DataResolver, GraphyError>,
)
    requires
        build_post(g, p, r1),
        build_post(g, p, r2),
    ensures
        match (r1, r2) {
            (Ok(a), Ok(b)) => a.sources_map() == b.sources_map() && a.vars_map() == b.vars_map()
                && a.order() == b.order(),
            (Err(e1), Err(e2)) => e1 is CyclicDependency && e2 is CyclicDependency,
            _ => false,
        },
{
}

/// For an acyclic graph the evaluation order is exactly the set of pure
/// nodes: its length equals their count, and (by `build_post`) every pure
/// data edge's source precedes its target.
pub proof fn lemma_order_counts_pure<P: NodeMetadataProvider>(
    g: GraphDescription,
    p: &P,
    r: Result<DataResolver, GraphyError>,
)
    requires
        build_post(g, p, r),
        r is Ok,
    ensures
        r->Ok_0.order().to_set() == Set::new(|id: Seq<char>| is_pure_node(g, p, id)),
        r->Ok_0.order().len() == Set::new(|id: Seq<char>| is_pure_node(g, p, id)).len(),
{
    let order = r->Ok_0.order();
    broadcast use vstd::set::group_set_axioms;

    assert(order.to_set() =~= Set::new(|id: Seq<char>| is_pure_node(g, p, id))) by {
        assert forall|id: Seq<char>| #[trigger] order.to_set().contains(id) implies is_pure_node(
            g,
            p,
            id,
        ) by {
            assert(order.contains(id));
        }
        assert forall|id: Seq<char>| is_pure_node(g, p, id) implies order.to_set().contains(
            id,
        ) by {
            assert(order.contains(id));
        }
    }
    order.unique_seq_to_set();
}

/// Whether connection `j` is a data edge from `chain[i]` to `chain[i+1]`.
pub open spec fn chain_edge(g: GraphDescription, chain: Seq<Seq<char>>, i: int, j: int) -> bool {
    let c = g.connections@[j];
    c.connection_type == ConnectionType::Data && c.source_node@ == chain[i] && c.target_node@
        == chain[i + 1]
}

/// A closed chain of data connections through pure nodes: each link feeds
/// the next, and the last node is the first again.
pub open spec fn is_pure_dependency_cycle<P: NodeMetadataProvider>(
    g: GraphDescription,
    p: &P,
    chain: Seq<Seq<char>>,
) -> bool {
    &&& chain.len() >= 2
    &&& chain[0] == chain[chain.len() - 1]
    &&& forall|i: int| 0 <= i < chain.len() ==> is_pure_node(g, p, chain[i])
    &&& forall|i: int| #![trigger chain[i]]
        0 <= i < chain.len() - 1 ==> exists|j: int|
            0 <= j < g.connections@.len() && chain_edge(g, chain, i, j)
}

/// A closed chain of pure data dependencies is a cycle in the sense the
/// resolver detects.
pub proof fn lemma_cycle_chain_blocks<P: NodeMetadataProvider>(
    g: GraphDescription,
    p: &P,
    chain: Seq<Seq<char>>,
)
    requires
        is_pure_dependency_cycle(g, p, chain),
    ensures
        has_pure_cycle(g, p),
{
    let s = chain.to_set();
    vstd::seq_lib::seq_to_set_is_finite::<Seq<char>>(chain);
    assert(chain.contains(chain[0]));
    assert(s.contains(chain[0]));
    if s.len() == 0 {
        s.lemma_len0_is_empty();
        broadcast use vstd::set::group_set_axioms;

        assert(false);
    }
    assert forall|id: Seq<char>| s.contains(id) implies is_pure_node(g, p, id) by {
        assert(chain.contains(id));
        let i = choose|i: int| 0 <= i < chain.len() && chain[i] == id;
    }
    assert forall|id: Seq<char>| #[trigger] s.contains(id) implies exists|j: int|
        0 <= j < g.connections@.len() && blocking_edge(g, p, s, id, j) by {
        assert(chain.contains(id));
        let i0 = choose|i: int| 0 <= i < chain.len() && chain[i] == id;
        let i = if i0 == 0 {
            chain.len() - 1
        } else {
            i0
        };
        assert(chain[i] == id);
        assert(1 <= i < chain.len());
        let j = choose|j: int| 0 <= j < g.connections@.len() && #[trigger] chain_edge(
            g,
            chain,
            i - 1,
            j,
        );
        assert(chain.contains(chain[i - 1]));
        assert(s.contains(chain[i - 1]));
        assert(blocking_edge(g, p, s, id, j));
    }
    assert(blocked_set(g, p, s));
}

/// Resolution fails on any graph with a cycle among pure nodes, however
/// many acyclic nodes stand beside it.
pub proof fn lemma_cycle_chain_fails<P: NodeMetadataProvider>(
    g: GraphDescription,
    p: &P,
    chain: Seq<Seq<char>>,
    r: Result<DataResolver, GraphyError>,
)
    requires
        build_post(g, p, r),
        is_pure_dependency_cycle(g, p, chain),
    ensures
        r is Err,
{
    lemma_cycle_chain_blocks(g, p, chain);
}

/// Values already mapped survive a node's default pass untouched.
proof fn lemma_node_defaults_preserves(
    m: Map<(Seq<char>, Seq<char>), Provenance>,
    node: NodeInstance,
    k: int,
    key: (Seq<char>, Seq<char>),
)
    requires
        m.contains_key(key),
    ensures
        node_defaults(m, node, k).contains_key(key),
        node_defaults(m, node, k)[key] == m[key],
    decreases k,
{
    if k > 0 {
        lemma_node_defaults_preserves(m, node, k - 1, key);
    }
}

/// Values already mapped survive the whole defaults pass untouched.
proof fn lemma_graph_defaults_preserves(
    m: Map<(Seq<char>, Seq<char>), Provenance>,
    nodes: Seq<NodeInstance>,
    k: int,
    key: (Seq<char>, Seq<char>),
)
    requires
        m.contains_key(key),
    ensures
        graph_defaults(m, nodes, k).contains_key(key),
        graph_defaults(m, nodes, k)[key] == m[key],
    decreases k,
{
    if k > 0 {
        lemma_graph_defaults_preserves(m, nodes, k - 1, key);
        lemma_node_defaults_preserves(
            graph_defaults(m, nodes, k - 1),
            nodes[k - 1],
            nodes[k - 1].inputs@.len() as int,
            key,
        );
    }
}

/// The connection map holds, at the key of the last data connection
/// targeting it, that connection's source.
proof fn lemma_connection_sources_get(conns: Seq<Connection>, j: int)
    requires
        0 <= j < conns.len(),
        conns[j].connection_type == ConnectionType::Data,
        forall|j2: int|
            j < j2 < conns.len() ==> !(conns[j2].connection_type == ConnectionType::Data
                && connection_key(conns[j2]) == connection_key(conns[j])),
    ensures
        connection_sources(conns).contains_key(connection_key(conns[j])),
        connection_sources(conns)[connection_key(conns[j])] == connection_provenance(conns[j]),
    decreases conns.len(),
{
    if j == conns.len() - 1 {
    } else {
        assert(conns.drop_last()[j] == conns[j]);
        assert(forall|j2: int|
            j < j2 < conns.drop_last().len() ==> conns.drop_last()[j2] == conns[j2]);
        lemma_connection_sources_get(conns.drop_last(), j);
    }
}

/// No data connection targets the key, so the connection map omits it.
proof fn lemma_connection_sources_absent(conns: Seq<Connection>, key: (Seq<char>, Seq<char>))
    requires
        forall|j: int|
            0 <= j < conns.len() ==> !(conns[j].connection_type == ConnectionType::Data
                && connection_key(conns[j]) == key),
    ensures
        !connection_sources(conns).contains_key(key),
    decreases conns.len(),
{
    if conns.len() > 0 {
        assert(forall|j: int|
            0 <= j < conns.drop_last().len() ==> conns.drop_last()[j] == conns[j]);
        lemma_connection_sources_absent(conns.drop_last(), key);
    }
}

/// A connection to an input always yields a connected provenance for it,
/// overriding any property on the same input: the resolved source is the
/// last data connection declared for that input.
pub proof fn lemma_connection_wins<P: NodeMetadataProvider>(
    g: GraphDescription,
    p: &P,
    r: Result<DataResolver, GraphyError>,
    j: int,
)
    requires
        build_post(g, p, r),
        r is Ok,
        0 <= j < g.connections@.len(),
        g.connections@[j].connection_type == ConnectionType::Data,
        forall|j2: int|
            j < j2 < g.connections@.len() ==> !(g.connections@[j2].connection_type
                == ConnectionType::Data && connection_key(g.connections@[j2]) == connection_key(
                g.connections@[j],
            )),
    ensures
        r->Ok_0.sources_map().contains_key(connection_key(g.connections@[j])),
        r->Ok_0.sources_map()[connection_key(g.connections@[j])] == connection_provenance(
            g.connections@[j],
        ),
{
    lemma_connection_sources_get(g.connections@, j);
    lemma_graph_defaults_preserves(
        connection_sources(g.connections@),
        g.nodes@,
        g.nodes@.len() as int,
        connection_key(g.connections@[j]),
    );
}

/// A key absent from `m` and not among the first `k` input pins of the
/// node stays absent.
proof fn lemma_node_defaults_frame(
    m: Map<(Seq<char>, Seq<char>), Provenance>,
    node: NodeInstance,
    k: int,
    key: (Seq<char>, Seq<char>),
)
    requires
        !m.contains_key(key),
        forall|idx: int| 0 <= idx < k ==> (node.id@, node.inputs@[idx].id@) != key,
    ensures
        !node_defaults(m, node, k).contains_key(key),
    decreases k,
{
    if k > 0 {
        lemma_node_defaults_frame(m, node, k - 1, key);
    }
}

/// Once some input pin with the given id has been processed, the key is
/// mapped: to the value `m` already had, or to the pin's default.
proof fn lemma_node_defaults_sets(
    m: Map<(Seq<char>, Seq<char>), Provenance>,
    node: NodeInstance,
    k: int,
    idx: int,
)
    requires
        0 <= idx < k <= node.inputs@.len(),
    ensures
        node_defaults(m, node, k).contains_key((node.id@, node.inputs@[idx].id@)),
        node_defaults(m, node, k)[(node.id@, node.inputs@[idx].id@)] == (if m.contains_key(
            (node.id@, node.inputs@[idx].id@),
        ) {
            m[(node.id@, node.inputs@[idx].id@)]
        } else {
            default_provenance(node, node.inputs@[idx].id@)
        }),
    decreases k,
{
    let key = (node.id@, node.inputs@[idx].id@);
    if idx == k - 1 {
        let m2 = node_defaults(m, node, k - 1);
        if exists|x: int| 0 <= x < k - 1 && node.inputs@[x].id@ == node.inputs@[idx].id@ {
            let x = choose|x: int| 0 <= x < k - 1 && node.inputs@[x].id@ == node.inputs@[idx].id@;
            lemma_node_defaults_sets(m, node, k - 1, x);
        } else {
            if m.contains_key(key) {
                lemma_node_defaults_preserves(m, node, k - 1, key);
            } else {
                assert(forall|x: int| 0 <= x < k - 1 ==> (node.id@, node.inputs@[x].id@) != key);
                lemma_node_defaults_frame(m, node, k - 1, key);
            }
        }
    } else {
        lemma_node_defaults_sets(m, node, k - 1, idx);
    }
}

/// A key whose node id belongs to none of the first `k` nodes stays
/// absent through the defaults pass.
proof fn lemma_graph_defaults_frame(
    m: Map<(Seq<char>, Seq<char>), Provenance>,
    nodes: Seq<NodeInstance>,
    k: int,
    key: (Seq<char>, Seq<char>),
)
    requires
        !m.contains_key(key),
        forall|x: int| 0 <= x < k ==> nodes[x].id@ != key.0,
    ensures
        !graph_defaults(m, nodes, k).contains_key(key),
    decreases k,
{
    if k > 0 {
        lemma_graph_defaults_frame(m, nodes, k - 1, key);
        assert(forall|idx: int|
            0 <= idx < nodes[k - 1].inputs@.len() ==> (
            nodes[k - 1].id@,
            #[trigger] nodes[k - 1].inputs@[idx].id@,
            ) != key);
        lemma_node_defaults_frame(
            graph_defaults(m, nodes, k - 1),
            nodes[k - 1],
            nodes[k - 1].inputs@.len() as int,
            key,
        );
    }
}

/// A key mapped after `k1` nodes keeps its value through the remaining
/// nodes of the defaults pass.
proof fn lemma_graph_defaults_rest(
    m: Map<(Seq<char>, Seq<char>), Provenance>,
    nodes: Seq<NodeInstance>,
    k1: int,
    k2: int,
    key: (Seq<char>, Seq<char>),
)
    requires
        0 <= k1 <= k2,
        graph_defaults(m, nodes, k1).contains_key(key),
    ensures
        graph_defaults(m, nodes, k2).contains_key(key),
        graph_defaults(m, nodes, k2)[key] == graph_defaults(m, nodes, k1)[key],
    decreases k2 - k1,
{
    if k1 < k2 {
        lemma_graph_defaults_rest(m, nodes, k1, k2 - 1, key);
        lemma_node_defaults_preserves(
            graph_defaults(m, nodes, k2 - 1),
            nodes[k2 - 1],
            nodes[k2 - 1].inputs@.len() as int,
            key,
        );
    }
}

/// An input pin with no data connection resolves to its default
/// provenance: the canonicalized constant of a same-named property if one
/// exists, the type default otherwise.
pub proof fn lemma_unsupplied_input<P: NodeMetadataProvider>(
    g: GraphDescription,
    p: &P,
    r: Result<DataResolver, GraphyError>,
    i: int,
    k: int,
)
    requires
        build_post(g, p, r),
        r is Ok,
        g.wf(),
        0 <= i < g.nodes@.len(),
        0 <= k < g.nodes@[i].inputs@.len(),
        forall|j: int|
            0 <= j < g.connections@.len() ==> !(g.connections@[j].connection_type
                == ConnectionType::Data && connection_key(g.connections@[j]) == (
                g.nodes@[i].id@,
                g.nodes@[i].inputs@[k].id@,
            )),
    ensures
        r->Ok_0.sources_map().contains_key((g.nodes@[i].id@, g.nodes@[i].inputs@[k].id@)),
        r->Ok_0.sources_map()[(g.nodes@[i].id@, g.nodes@[i].inputs@[k].id@)] == default_provenance(
            g.nodes@[i],
            g.nodes@[i].inputs@[k].id@,
        ),
{
    let node = g.nodes@[i];
    let key = (node.id@, node.inputs@[k].id@);
    let base = connection_sources(g.connections@);
    lemma_connection_sources_absent(g.connections@, key);
    assert(forall|x: int| 0 <= x < i ==> g.nodes@[x].id@ != key.0);
    lemma_graph_defaults_frame(base, g.nodes@, i, key);
    let before = graph_defaults(base, g.nodes@, i);
    lemma_node_defaults_sets(before, node, node.inputs@.len() as int, k);
    let after = node_defaults(before, node, node.inputs@.len() as int);
    assert(after == graph_defaults(base, g.nodes@, i + 1));
    assert(after[key] == default_provenance(node, node.inputs@[k].id@));
    lemma_graph_defaults_rest(base, g.nodes@, i + 1, g.nodes@.len() as int, key);
}

} // verus!
