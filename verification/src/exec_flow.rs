//! Execution-flow routing: a lookup table of control-flow successors built
//! from execution-tagged connections, supporting multi-output branching
//! nodes.

use vstd::prelude::*;

use crate::assoc::{
    lemma_gpairs_map_absent, lemma_gpairs_map_domain, lemma_gpairs_map_get, lemma_gpairs_map_push,
    lemma_gpairs_map_update, pairs_map, pairs_unique,
};
use crate::connection::{Connection, ConnectionType};
use crate::graph::GraphDescription;
use crate::text::string_views;

verus! {

/// The routing key of a connection: its source node and source pin.
pub open spec fn route_key(c: Connection) -> (Seq<char>, Seq<char>) {
    (c.source_node@, c.source_pin@)
}

/// The routing table of a connection sequence: for every execution
/// connection, in declaration order, the target is appended to its source
/// key's successor list. Duplicates are preserved as declared.
pub open spec fn spec_routes(conns: Seq<Connection>) -> Map<(Seq<char>, Seq<char>), Seq<Seq<char>>>
    decreases conns.len(),
{
    if conns.len() == 0 {
        Map::<(Seq<char>, Seq<char>), Seq<Seq<char>>>::empty()
    } else {
        let m = spec_routes(conns.drop_last());
        let c = conns.last();
        if c.connection_type == ConnectionType::Execution {
            let prev = if m.contains_key(route_key(c)) {
                m[route_key(c)]
            } else {
                Seq::<Seq<char>>::empty()
            };
            m.insert(route_key(c), prev.push(c.target_node@))
        } else {
            m
        }
    }
}

/// The view of the stored routing entries as key/successor-list pairs.
pub open spec fn route_entries_view(s: Seq<((String, String), Vec<String>)>) -> Seq<
    ((Seq<char>, Seq<char>), Seq<Seq<char>>),
> {
    s.map(|i: int, e: ((String, String), Vec<String>)| ((e.0.0@, e.0.1@), string_views(e.1@)))
}

/// Execution routing table: maps (source node, output pin) to the ordered
/// list of target node ids.
pub struct ExecutionRouting {
    /// One entry per key with at least one outgoing execution connection.
    routes: Vec<((String, String), Vec<String>)>,
}

/// Copies a vector of strings.
fn clone_string_vec(v: &Vec<String>) -> (r: Vec<String>)
    ensures
        r@ == v@,
{
    let n = v.len();
    let mut out: Vec<String> = Vec::new();
    let mut i: usize = 0;
    while i < n
        invariant
            n == v@.len(),
            0 <= i <= n,
            out@ =~= v@.subrange(0, i as int),
        decreases n - i,
    {
        out.push(v[i].clone());
        proof {
            assert(out@ =~= v@.subrange(0, i + 1 as int));
        }
        i = i + 1;
    }
    proof {
        assert(v@.subrange(0, n as int) =~= v@);
    }
    out
}

impl ExecutionRouting {
    /// The stored entries have pairwise distinct keys.
    #[verifier::type_invariant]
    spec fn wf(&self) -> bool {
        pairs_unique(route_entries_view(self.routes@))
    }

    /// The routing table as a map from (source node, output pin) to the
    /// ordered successor list.
    pub closed spec fn routes_map(&self) -> Map<(Seq<char>, Seq<char>), Seq<Seq<char>>> {
        pairs_map(route_entries_view(self.routes@))
    }

    /// Builds the routing table from a graph's execution connections,
    /// preserving declaration order and duplicates. Absence of execution
    /// wiring is valid: the table is then empty.
    pub fn build_from_graph(graph: &GraphDescription) -> (r: ExecutionRouting)
        ensures
            r.routes_map() == spec_routes(graph.connections@),
    {
        let cn = graph.connections.len();
        let mut routes: Vec<((String, String), Vec<String>)> = Vec::new();
        let mut i: usize = 0;
        while i < cn
            invariant
                cn == graph.connections@.len(),
                0 <= i <= cn,
                pairs_unique(route_entries_view(routes@)),
                pairs_map(route_entries_view(routes@)) == spec_routes(
                    graph.connections@.take(i as int),
                ),
            decreases cn - i,
        {
            proof {
                assert(graph.connections@.take(i + 1 as int).drop_last()
                    =~= graph.connections@.take(i as int));
                assert(graph.connections@.take(i + 1 as int).last()
                    == graph.connections@[i as int]);
            }
            let c = &graph.connections[i];
            if c.connection_type == ConnectionType::Execution {
                append_route(&mut routes, c);
            }
            i = i + 1;
        }
        proof {
            assert(graph.connections@.take(cn as int) =~= graph.connections@);
        }
        ExecutionRouting { routes }
    }

    /// All nodes connected to this execution output pin, in declaration
    /// order; empty if none.
    pub fn get_connected_nodes(&self, node_id: &str, output_pin: &str) -> (r: Vec<String>)
        ensures
            self.routes_map().contains_key((node_id@, output_pin@)) ==> string_views(r@)
                == self.routes_map()[(node_id@, output_pin@)],
            !self.routes_map().contains_key((node_id@, output_pin@)) ==> r@.len() == 0,
    {
        let n = self.routes.len();
        let node_key = node_id.to_owned();
        let pin_key = output_pin.to_owned();
        let mut i: usize = n;
        while i > 0
            invariant
                n == self.routes@.len(),
                0 <= i <= n,
                node_key@ == node_id@,
                pin_key@ == output_pin@,
                forall|j: int|
                    i <= j < n ==> route_entries_view(self.routes@)[j].0 != (
                    node_id@,
                    output_pin@,
                ),
            decreases i,
        {
            i = i - 1;
            let e = &self.routes[i];
            if e.0.0 == node_key && e.0.1 == pin_key {
                proof {
                    let s = route_entries_view(self.routes@);
                    assert(s[i as int].0 == (node_id@, output_pin@));
                    lemma_gpairs_map_get(s, (node_id@, output_pin@), i as int);
                }
                return clone_string_vec(&self.routes[i].1);
            }
            proof {
                assert(route_entries_view(self.routes@)[i as int].0 == (
                    self.routes@[i as int].0.0@,
                    self.routes@[i as int].0.1@,
                ));
            }
        }
        proof {
            lemma_gpairs_map_absent(route_entries_view(self.routes@), (node_id@, output_pin@));
        }
        Vec::new()
    }

    /// Whether the node has any outgoing execution connection.
    pub fn has_execution_outputs(&self, node_id: &str) -> (r: bool)
        ensures
            r == exists|pin: Seq<char>| self.routes_map().contains_key((node_id@, pin)),
    {
        let n = self.routes.len();
        let node_key = node_id.to_owned();
        let mut i: usize = 0;
        while i < n
            invariant
                n == self.routes@.len(),
                0 <= i <= n,
                node_key@ == node_id@,
                forall|j: int| 0 <= j < i ==> route_entries_view(self.routes@)[j].0.0 != node_id@,
            decreases n - i,
        {
            let e = &self.routes[i];
            if e.0.0 == node_key {
                proof {
                    let s = route_entries_view(self.routes@);
                    assert(s[i as int].0 == (node_id@, self.routes@[i as int].0.1@));
                    lemma_gpairs_map_domain(s, (node_id@, self.routes@[i as int].0.1@));
                    assert(self.routes_map().contains_key(
                        (node_id@, self.routes@[i as int].0.1@),
                    ));
                }
                return true;
            }
            proof {
                assert(route_entries_view(self.routes@)[i as int].0 == (
                    self.routes@[i as int].0.0@,
                    self.routes@[i as int].0.1@,
                ));
            }
            i = i + 1;
        }
        proof {
            let s = route_entries_view(self.routes@);
            assert forall|pin: Seq<char>| !self.routes_map().contains_key((node_id@, pin)) by {
                lemma_gpairs_map_domain(s, (node_id@, pin));
                assert forall|j: int| 0 <= j < s.len() implies s[j].0 != (node_id@, pin) by {
                    assert(s[j].0.0 != node_id@);
                }
            }
        }
        false
    }

    /// The output pin names of the node that have at least one outgoing
    /// execution connection, in first-use order.
    pub fn get_output_pins(&self, node_id: &str) -> (r: Vec<String>)
        ensures
            forall|pin: Seq<char>| #[trigger]
                string_views(r@).contains(pin) <==> self.routes_map().contains_key((node_id@, pin)),
            string_views(r@).no_duplicates(),
    {
        proof {
            use_type_invariant(self);
        }
        let n = self.routes.len();
        let node_key = node_id.to_owned();
        let mut out: Vec<String> = Vec::new();
        let mut i: usize = 0;
        while i < n
            invariant
                pairs_unique(route_entries_view(self.routes@)),
                n == self.routes@.len(),
                0 <= i <= n,
                node_key@ == node_id@,
                string_views(out@).no_duplicates(),
                forall|pin: Seq<char>| #[trigger]
                    string_views(out@).contains(pin) <==> exists|j: int|
                        0 <= j < i && route_entries_view(self.routes@)[j].0 == (node_id@, pin),
            decreases n - i,
        {
            let e = &self.routes[i];
            proof {
                assert(route_entries_view(self.routes@)[i as int].0 == (
                    self.routes@[i as int].0.0@,
                    self.routes@[i as int].0.1@,
                ));
            }
            if e.0.0 == node_key {
                let ghost old_out = out@;
                proof {
                    // the pin is new: an earlier entry with the same key
                    // would contradict key uniqueness
                    if string_views(old_out).contains(self.routes@[i as int].0.1@) {
                        let j = choose|j: int|
                            0 <= j < i && route_entries_view(self.routes@)[j].0 == (
                            node_id@,
                            self.routes@[i as int].0.1@,
                            );
                        assert(route_entries_view(self.routes@)[j].0 == route_entries_view(
                            self.routes@,
                        )[i as int].0);
                        assert(false);
                    }
                }
                out.push(e.0.1.clone());
                proof {
                    assert(string_views(out@).drop_last() =~= string_views(old_out));
                    assert(string_views(out@).last() == self.routes@[i as int].0.1@);
                    assert forall|a: int, b: int|
                        0 <= a < b < string_views(out@).len() implies string_views(out@)[a]
                        != string_views(out@)[b] by {
                        assert(string_views(out@).len() == old_out.len() + 1);
                        if b < old_out.len() {
                            assert(string_views(out@)[a] == string_views(old_out)[a]);
                            assert(string_views(out@)[b] == string_views(old_out)[b]);
                            assert(string_views(old_out).no_duplicates());
                        } else {
                            assert(string_views(out@)[b] == self.routes@[i as int].0.1@);
                            assert(string_views(out@)[a] == string_views(old_out)[a]);
                            if string_views(old_out)[a] == self.routes@[i as int].0.1@ {
                                assert(string_views(old_out).contains(
                                    self.routes@[i as int].0.1@,
                                ));
                            }
                        }
                    }
                    assert(string_views(out@).no_duplicates());
                    assert forall|pin: Seq<char>| #[trigger]
                        string_views(out@).contains(pin) implies exists|j: int|
                        0 <= j < i + 1 && route_entries_view(self.routes@)[j].0 == (
                        node_id@,
                        pin,
                    ) by {
                        let x = choose|x: int|
                            0 <= x < string_views(out@).len() && string_views(out@)[x] == pin;
                        if x < old_out.len() {
                            assert(string_views(old_out)[x] == pin);
                            assert(string_views(old_out).contains(pin));
                        } else {
                            assert(pin == self.routes@[i as int].0.1@);
                            assert(route_entries_view(self.routes@)[i as int].0 == (
                                node_id@,
                                pin,
                            ));
                        }
                    }
                    assert forall|pin: Seq<char>|
                        (exists|j: int|
                            0 <= j < i + 1 && route_entries_view(self.routes@)[j].0 == (
                            node_id@,
                            pin,
                            )) implies #[trigger] string_views(out@).contains(pin) by {
                        let j = choose|j: int|
                            0 <= j < i + 1 && route_entries_view(self.routes@)[j].0 == (
                            node_id@,
                            pin,
                            );
                        if j < i {
                            assert(string_views(old_out).contains(pin));
                            let x = choose|x: int|
                                0 <= x < string_views(old_out).len() && string_views(old_out)[x]
                                    == pin;
                            assert(string_views(out@)[x] == pin);
                        } else {
                            assert(string_views(out@)[out@.len() - 1] == pin);
                        }
                    }
                }
            } else {
                proof {
                    assert forall|pin: Seq<char>| #[trigger]
                        string_views(out@).contains(pin) implies exists|j: int|
                        0 <= j < i + 1 && route_entries_view(self.routes@)[j].0 == (
                        node_id@,
                        pin,
                    ) by {}
                    assert forall|pin: Seq<char>|
                        (exists|j: int|
                            0 <= j < i + 1 && route_entries_view(self.routes@)[j].0 == (
                            node_id@,
                            pin,
                            )) implies #[trigger] string_views(out@).contains(pin) by {
                        let j = choose|j: int|
                            0 <= j < i + 1 && route_entries_view(self.routes@)[j].0 == (
                            node_id@,
                            pin,
                            );
                        assert(j < i);
                    }
                }
            }
            i = i + 1;
        }
        proof {
            let s = route_entries_view(self.routes@);
            assert forall|pin: Seq<char>| #[trigger]
                string_views(out@).contains(pin) <==> self.routes_map().contains_key(
                (node_id@, pin),
            ) by {
                lemma_gpairs_map_domain(s, (node_id@, pin));
            }
        }
        out
    }
}

/// Appends an execution connection's target to its key's successor list,
/// creating the entry if the key is new.
fn append_route(routes: &mut Vec<((String, String), Vec<String>)>, c: &Connection)
    requires
        pairs_unique(route_entries_view(old(routes)@)),
        c.connection_type == ConnectionType::Execution,
    ensures
        pairs_unique(route_entries_view(final(routes)@)),
        pairs_map(route_entries_view(final(routes)@)) == pairs_map(
            route_entries_view(old(routes)@),
        ).insert(
            route_key(*c),
            (if pairs_map(route_entries_view(old(routes)@)).contains_key(route_key(*c)) {
                pairs_map(route_entries_view(old(routes)@))[route_key(*c)]
            } else {
                Seq::<Seq<char>>::empty()
            }).push(c.target_node@),
        ),
{
    let n = routes.len();
    let mut i: usize = 0;
    while i < n
        invariant
            *routes == *old(routes),
            pairs_unique(route_entries_view(routes@)),
            n == routes@.len(),
            0 <= i <= n,
            forall|j: int| 0 <= j < i ==> route_entries_view(routes@)[j].0 != route_key(*c),
        decreases n - i,
    {
        let e = &routes[i];
        if e.0.0 == c.source_node && e.0.1 == c.source_pin {
            let mut targets = clone_string_vec(&routes[i].1);
            targets.push(c.target_node.clone());
            let new_entry = ((c.source_node.clone(), c.source_pin.clone()), targets);
            proof {
                let s = route_entries_view(routes@);
                assert(s[i as int].0 == route_key(*c));
                assert forall|j: int| 0 <= j < s.len() && j != i implies s[j].0 != route_key(
                    *c,
                ) by {
                    if j < i {
                    } else {
                        assert(pairs_unique(s));
                        assert(s[i as int].0 != s[j].0);
                    }
                }
                lemma_gpairs_map_get(s, route_key(*c), i as int);
                assert(string_views(new_entry.1@) =~= s[i as int].1.push(c.target_node@));
                lemma_gpairs_map_update(
                    s,
                    i as int,
                    (route_key(*c), string_views(new_entry.1@)),
                );
                assert(route_entries_view(routes@.update(i as int, new_entry)) =~= s.update(
                    i as int,
                    (route_key(*c), string_views(new_entry.1@)),
                ));
                assert forall|a: int, b: int| 0 <= a < b < s.len() implies s.update(
                    i as int,
                    (route_key(*c), string_views(new_entry.1@)),
                )[a].0 != s.update(i as int, (route_key(*c), string_views(new_entry.1@)))[b].0 by {
                    assert(s[a].0 != s[b].0);
                }
            }
            routes.set(i, new_entry);
            return ;
        }
        proof {
            assert(route_entries_view(routes@)[i as int].0 == (
                routes@[i as int].0.0@,
                routes@[i as int].0.1@,
            ));
        }
        i = i + 1;
    }
    let mut targets: Vec<String> = Vec::new();
    targets.push(c.target_node.clone());
    let new_entry = ((c.source_node.clone(), c.source_pin.clone()), targets);
    proof {
        let s = route_entries_view(routes@);
        lemma_gpairs_map_absent(s, route_key(*c));
        assert(string_views(new_entry.1@) =~= Seq::<Seq<char>>::empty().push(c.target_node@));
        lemma_gpairs_map_push(s, (route_key(*c), string_views(new_entry.1@)));
        assert(route_entries_view(routes@.push(new_entry)) =~= s.push(
            (route_key(*c), string_views(new_entry.1@)),
        ));
        let sp = s.push((route_key(*c), string_views(new_entry.1@)));
        assert forall|a: int, b: int| 0 <= a < b < sp.len() implies sp[a].0 != sp[b].0 by {
            if b == sp.len() - 1 {
                assert(sp[a] == s[a]);
            } else {
                assert(pairs_unique(s));
                assert(sp[a] == s[a] && sp[b] == s[b]);
            }
        }
    }
    routes.push(new_entry);
}

} // verus!
