//! The graph: an arena of nodes, a list of edges, and the cache they share.
//! Wiring an edge copies the source output's cache handle into the
//! destination input (aliasing, not copying data); the edge list is kept
//! consistent with the ports' state at all times.

use vstd::prelude::*;

use crate::allocated_vec::AllocatedVec;
use crate::cache::Cache;
use crate::cache::CacheIndex;
use crate::cache::model_set;
use crate::node::Direction;
use crate::node::Node;
use crate::node::NodeKind;
use crate::node::Port;
use crate::node::compute_model;
use crate::node::default_value;
use crate::node::managed_input;
use crate::node::owned_port;
use crate::node::port_count;
use crate::node::port_dir;
use crate::node::port_tag;
use crate::values::Tag;
use crate::values::Value;

verus! {

/// Whether an edge is a forward (`Normal`) edge or closes a two-node cycle
/// (`Post`). Computed at wiring time to let a scheduler prioritize forward
/// edges; the fixed-order compute pass does not consume it.
#[derive(Clone, Copy, PartialEq, Eq, Structural, Debug)]
pub enum EdgeType {
    Normal,
    Post,
}

/// A directed record of which output port feeds which input port.
#[derive(Clone, Copy, PartialEq, Eq, Structural, Debug)]
pub struct Edge {
    pub from_node: usize,
    pub from_port: usize,
    pub to_node: usize,
    pub to_port: usize,
    pub edge_type: EdgeType,
}

/// A node is well placed in a cache when its ports follow the kind's layout
/// and every port's handle names an occupied cell of the port's type.
/// Disconnected ports (and outputs, which never redirect) hold their own
/// default cell.
pub open spec fn node_ok(n: Node, c: Cache) -> bool {
    &&& n.ports@.len() == port_count(n.kind)
    &&& forall|p: int|
        0 <= p < n.ports@.len() ==> {
            let port = #[trigger] n.ports@[p];
            &&& port.direction == port_dir(n.kind, p)
            &&& port.cache_index.type_tag == port_tag(n.kind, p)
            &&& c.slot(port.cache_index) is Some
            &&& (!port.is_connected ==> port.cache_index == port.default_cache_index)
            &&& (port.direction == Direction::Output ==> !port.is_connected)
        }
}

/// An edge is well placed when both endpoints exist, the source port is an
/// output, the destination port is a connected managed input, and the
/// destination reads exactly the source's cell.
pub open spec fn edge_ok(e: Edge, nodes: Seq<Option<Node>>, c: Cache) -> bool {
    &&& (e.from_node as int) < nodes.len() && nodes[e.from_node as int] is Some
    &&& (e.to_node as int) < nodes.len() && nodes[e.to_node as int] is Some
    &&& {
        let from_ports = nodes[e.from_node as int].unwrap().ports@;
        let ton = nodes[e.to_node as int].unwrap();
        &&& (e.from_port as int) < from_ports.len()
        &&& (e.to_port as int) < ton.ports@.len()
        &&& from_ports[e.from_port as int].direction == Direction::Output
        &&& ton.ports@[e.to_port as int].direction == Direction::Input
        &&& ton.ports@[e.to_port as int].is_connected
        &&& ton.ports@[e.to_port as int].cache_index == from_ports[e.from_port as int].cache_index
        &&& managed_input(ton.kind, e.to_port as int)
    }
}

/// The port at a node slot, when the slot is occupied and the index in
/// range.
pub open spec fn port_at(nodes: Seq<Option<Node>>, i: int, p: int) -> Port {
    nodes[i].unwrap().ports@[p]
}

/// Whether node slot `i`, port `p` names a port that owns its cell: an
/// output, or a disconnected input holding its private default.
pub open spec fn owner_at(nodes: Seq<Option<Node>>, i: int, p: int) -> bool {
    &&& 0 <= i < nodes.len()
    &&& nodes[i] is Some
    &&& 0 <= p < nodes[i].unwrap().ports@.len()
    &&& owned_port(port_at(nodes, i, p))
}

pub struct App {
    cache: Cache,
    nodes: AllocatedVec<Node>,
    edges: Vec<Edge>,
    factories: Vec<NodeKind>,
}

impl App {
    pub closed spec fn spec_cache(&self) -> Cache {
        self.cache
    }

    pub closed spec fn spec_nodes(&self) -> Seq<Option<Node>> {
        self.nodes@
    }

    pub closed spec fn spec_edges(&self) -> Seq<Edge> {
        self.edges@
    }

    pub closed spec fn spec_factories(&self) -> Seq<NodeKind> {
        self.factories@
    }

    /// The graph invariant. Every live node is well placed; every edge is
    /// well placed; at most one edge targets any input; every connected
    /// input is targeted by an edge; and the cells of owner ports are
    /// pairwise distinct, so exactly one port may free each cell.
    pub closed spec fn wf(&self) -> bool {
        &&& self.cache.wf()
        &&& self.nodes.wf()
        &&& forall|i: int|
            0 <= i < self.nodes@.len() && (#[trigger] self.nodes@[i]) is Some ==> node_ok(
                self.nodes@[i].unwrap(),
                self.cache,
            )
        &&& forall|j: int|
            0 <= j < self.edges@.len() ==> edge_ok(#[trigger] self.edges@[j], self.nodes@, self.cache)
        &&& forall|j1: int, j2: int|
            0 <= j1 < j2 < self.edges@.len() ==> !((#[trigger] self.edges@[j1]).to_node == (
            #[trigger] self.edges@[j2]).to_node && self.edges@[j1].to_port
                == self.edges@[j2].to_port)
        &&& forall|i: int, p: int|
            0 <= i < self.nodes@.len() && (#[trigger] self.nodes@[i]) is Some && 0 <= p
                < self.nodes@[i].unwrap().ports@.len() && (#[trigger] self.nodes@[i].unwrap().ports@[p]).is_connected
                ==> exists|j: int|
                0 <= j < self.edges@.len() && (#[trigger] self.edges@[j]).to_node == i
                    && self.edges@[j].to_port == p
        &&& forall|i1: int, p1: int, i2: int, p2: int|
            #[trigger] owner_at(self.nodes@, i1, p1) && #[trigger] owner_at(self.nodes@, i2, p2)
                && (i1 != i2 || p1 != p2) ==> port_at(self.nodes@, i1, p1).cache_index != port_at(
                self.nodes@,
                i2,
                p2,
            ).cache_index
    }

    pub fn new() -> (r: App)
        ensures
            r.wf(),
            r.spec_nodes().len() == 0,
            r.spec_edges().len() == 0,
            r.spec_factories().len() == 0,
            forall|ci: CacheIndex| #[trigger] r.spec_cache().slot(ci) is None,
    {
        App {
            cache: Cache::new(),
            nodes: AllocatedVec::new(),
            edges: Vec::new(),
            factories: Vec::new(),
        }
    }

    pub fn with_factories(self, factories: Vec<NodeKind>) -> (r: App)
        ensures
            r.spec_cache() == self.spec_cache(),
            r.spec_nodes() == self.spec_nodes(),
            r.spec_edges() == self.spec_edges(),
            r.spec_factories() == factories@,
            self.wf() ==> r.wf(),
    {
        App { factories, ..self }
    }

    /// The node at an occupied slot.
    pub fn get_node(&self, node_index: usize) -> (r: &Node)
        requires
            (node_index as int) < self.spec_nodes().len(),
            self.spec_nodes()[node_index as int] is Some,
        ensures
            *r == self.spec_nodes()[node_index as int].unwrap(),
    {
        match self.nodes.get(node_index) {
            Some(n) => n,
            None => vstd::pervasive::unreached(),
        }
    }

    pub fn nodes(&self) -> (r: &AllocatedVec<Node>)
        ensures
            r@ == self.spec_nodes(),
            self.wf() ==> r.wf(),
    {
        &self.nodes
    }

    pub fn edges(&self) -> (r: &Vec<Edge>)
        ensures
            r@ == self.spec_edges(),
    {
        &self.edges
    }

    pub fn get_cache(&self) -> (r: &Cache)
        ensures
            *r == self.spec_cache(),
            self.wf() ==> r.wf(),
    {
        &self.cache
    }

    /// Writes a value into a cache cell through the graph, preserving the
    /// graph invariant: the write lands only on an occupied cell of the
    /// value's own type (and is otherwise a no-op), so no port's cell can
    /// disappear or change type under it.
    pub fn set_value(&mut self, cache_index: &CacheIndex, new_value: Value)
        requires
            old(self).wf(),
        ensures
            final(self).wf(),
            final(self).spec_nodes() == old(self).spec_nodes(),
            final(self).spec_edges() == old(self).spec_edges(),
            final(self).spec_factories() == old(self).spec_factories(),
            final(self).spec_cache().model() == model_set(
                old(self).spec_cache().model(),
                *cache_index,
                new_value,
            ),
            cache_index.type_tag == new_value.spec_tag() && old(self).spec_cache().slot(
                *cache_index,
            ) is Some ==> final(self).spec_cache().slot(*cache_index) == Some(new_value),
            forall|c2: CacheIndex|
                c2 != *cache_index ==> #[trigger] final(self).spec_cache().slot(c2) == old(
                    self,
                ).spec_cache().slot(c2),
    {
        self.cache.set(cache_index, new_value);
        proof {
            assert forall|i: int|
                0 <= i < self.nodes@.len() && (#[trigger] self.nodes@[i]) is Some implies node_ok(
                self.nodes@[i].unwrap(),
                self.cache,
            ) by {
                let n = self.nodes@[i].unwrap();
                assert(node_ok(n, old(self).cache));
                assert forall|p: int| 0 <= p < n.ports@.len() implies {
                    let port = #[trigger] n.ports@[p];
                    self.cache.slot(port.cache_index) is Some
                } by {
                    let port = n.ports@[p];
                    if port.cache_index != *cache_index {
                        assert(self.cache.slot(port.cache_index) == old(self).cache.slot(
                            port.cache_index,
                        ));
                    }
                }
            }
        }
    }

    /// Builds a node with the factory at `node_factory_index` (which inserts
    /// the node's private cache cells) and stores it in the node arena,
    /// returning its handle.
    pub fn add_node(&mut self, node_factory_index: usize) -> (node_index: usize)
        requires
            old(self).wf(),
            (node_factory_index as int) < old(self).spec_factories().len(),
        ensures
            final(self).wf(),
            final(self).spec_edges() == old(self).spec_edges(),
            final(self).spec_factories() == old(self).spec_factories(),
            (node_index as int) <= old(self).spec_nodes().len(),
            forall|j: int|
                0 <= j < node_index as int ==> (#[trigger] old(self).spec_nodes()[j]) is Some,
            (node_index as int) < old(self).spec_nodes().len() ==> old(self).spec_nodes()[node_index as int] is None
                && final(self).spec_nodes() =~= old(self).spec_nodes().update(
                node_index as int,
                final(self).spec_nodes()[node_index as int],
            ),
            (node_index as int) == old(self).spec_nodes().len() ==> final(self).spec_nodes()
                =~= old(self).spec_nodes().push(final(self).spec_nodes()[node_index as int]),
            final(self).spec_nodes()[node_index as int] is Some,
            ({
                let n = final(self).spec_nodes()[node_index as int].unwrap();
                &&& n.kind == old(self).spec_factories()[node_factory_index as int]
                &&& crate::node::fresh_node(n, old(self).spec_cache(), final(self).spec_cache())
            }),
            forall|ci: CacheIndex|
                #[trigger] old(self).spec_cache().slot(ci) is Some ==> final(self).spec_cache().slot(ci) == old(self).spec_cache().slot(ci),
    {
        let kind = self.factories[node_factory_index];
        let node = match kind {
            NodeKind::Value => crate::value_node::node_factory(&mut self.cache),
            NodeKind::Passthrough => crate::passthrough_node::node_factory(&mut self.cache),
            NodeKind::Vector2D => crate::vector_node::node_factory(&mut self.cache),
            NodeKind::Circle => crate::circle_node::node_factory(&mut self.cache),
            NodeKind::Particle => crate::particle_node::node_factory(&mut self.cache),
        };
        let ghost new_node = node;
        let node_index = self.nodes.push(node);
        proof {
            lemma_add_node_wf(*old(self), *self, new_node, node_index as int);
        }
        node_index
    }

    /// Drops the edge record at `index` and disconnects the destination
    /// port, which synthesizes a fresh private default cell for it (and
    /// clears the kind's internal flag for the port, if it has one).
    fn remove_edge(&mut self, index: usize)
        requires
            old(self).wf(),
            (index as int) < old(self).spec_edges().len(),
        ensures
            final(self).wf(),
            final(self).spec_factories() == old(self).spec_factories(),
            final(self).spec_edges() == old(self).spec_edges().remove(index as int),
            removed_edge_effect(*old(self), *final(self), old(self).spec_edges()[index as int]),
    {
        let edge = self.edges.remove(index);
        proof {
            assert(edge_ok(edge, self.nodes@, self.cache));
        }
        let node = self.nodes.get_mut(edge.to_node);
        node.disconnect_input(edge.to_port, &mut self.cache);
        proof {
            lemma_remove_edge_wf(*old(self), *self, edge, index as int);
        }
    }

    /// Finds the edge targeting `(to_node, to_port)`, if one exists, and
    /// removes it; otherwise does nothing.
    #[verifier::rlimit(30)]
    pub fn remove_edge_to(&mut self, to_node: usize, to_port: usize)
        requires
            old(self).wf(),
        ensures
            final(self).wf(),
            final(self).spec_factories() == old(self).spec_factories(),
            ({
                let found = find_edge_to(old(self).spec_edges(), to_node as int, to_port as int);
                &&& found is None ==> *final(self) == *old(self)
                &&& found matches Some(j) ==> final(self).spec_edges()
                    == old(self).spec_edges().remove(j) && removed_edge_effect(
                    *old(self),
                    *final(self),
                    old(self).spec_edges()[j],
                )
            }),
            forall|j: int|
                0 <= j < final(self).spec_edges().len() ==> !((#[trigger] final(self).spec_edges()[j]).to_node
                    == to_node && final(self).spec_edges()[j].to_port == to_port),
    {
        let ghost pre_edges = self.edges@;
        proof {
            assert(pre_edges.skip(0) =~= pre_edges);
        }
        let mut edge_index: Option<usize> = None;
        let mut k: usize = 0;
        while k < self.edges.len()
            invariant
                k <= self.edges@.len(),
                self.edges@ == pre_edges,
                edge_index is None ==> (match find_edge_to(
                    pre_edges.skip(k as int),
                    to_node as int,
                    to_port as int,
                ) {
                    Some(j) => find_edge_to(pre_edges, to_node as int, to_port as int) == Some(
                        j + k,
                    ),
                    None => find_edge_to(pre_edges, to_node as int, to_port as int) is None,
                }) && (forall|j: int|
                    0 <= j < k ==> !((#[trigger] pre_edges[j]).to_node == to_node
                        && pre_edges[j].to_port == to_port)),
                edge_index matches Some(j) ==> find_edge_to(
                    pre_edges,
                    to_node as int,
                    to_port as int,
                ) == Some(j as int) && (j as int) < pre_edges.len(),
            decreases self.edges@.len() - k,
        {
            if edge_index.is_none() {
                let e = &self.edges[k];
                if e.to_node == to_node && e.to_port == to_port {
                    edge_index = Some(k);
                    proof {
                        lemma_find_edge_to_skip(
                            pre_edges,
                            to_node as int,
                            to_port as int,
                            k as int,
                        );
                    }
                } else {
                    proof {
                        lemma_find_edge_to_skip_step(
                            pre_edges,
                            to_node as int,
                            to_port as int,
                            k as int,
                        );
                    }
                }
            }
            k = k + 1;
        }
        proof {
            if edge_index is None {
                assert(k == self.edges@.len());
                assert(pre_edges.skip(k as int) =~= Seq::<Edge>::empty());
            }
        }
        match edge_index {
            Some(i) => {
                self.remove_edge(i);
                proof {
                    let j = find_edge_to(pre_edges, to_node as int, to_port as int).unwrap();
                    lemma_find_edge_to_is_only(pre_edges, to_node as int, to_port as int);
                    assert forall|j2: int|
                        0 <= j2 < self.spec_edges().len() implies !((#[trigger] self.spec_edges()[j2]).to_node
                        == to_node && self.spec_edges()[j2].to_port == to_port) by {
                        if j2 < j {
                            assert(self.spec_edges()[j2] == pre_edges[j2]);
                        } else {
                            assert(self.spec_edges()[j2] == pre_edges[j2 + 1]);
                        }
                    }
                }
            },
            None => {},
        }
    }

    /// Wires the source output's cell into the destination input: the
    /// destination now reads and writes the exact same cache cell as the
    /// source's output. If another edge already targets the destination
    /// input it is replaced (single source per input). The new edge is
    /// classified `Post` when an edge already runs from the destination
    /// node back to the source node, else `Normal`.
    pub fn add_edge(&mut self, from_node: usize, from_port: usize, to_node: usize, to_port: usize)
        requires
            old(self).wf(),
            (from_node as int) < old(self).spec_nodes().len(),
            old(self).spec_nodes()[from_node as int] is Some,
            (to_node as int) < old(self).spec_nodes().len(),
            old(self).spec_nodes()[to_node as int] is Some,
            (from_port as int) < old(self).spec_nodes()[from_node as int].unwrap().ports@.len(),
            (to_port as int) < old(self).spec_nodes()[to_node as int].unwrap().ports@.len(),
            old(self).spec_nodes()[from_node as int].unwrap().ports@[from_port as int].direction
                == Direction::Output,
            old(self).spec_nodes()[to_node as int].unwrap().ports@[to_port as int].direction
                == Direction::Input,
            port_tag(
                old(self).spec_nodes()[from_node as int].unwrap().kind,
                from_port as int,
            ) == port_tag(old(self).spec_nodes()[to_node as int].unwrap().kind, to_port as int),
        ensures
            final(self).wf(),
            final(self).spec_factories() == old(self).spec_factories(),
            // the aliasing step: destination and source share one cell
            ({
                let x = old(self).spec_nodes()[from_node as int].unwrap().ports@[from_port as int].cache_index;
                let ton_new = final(self).spec_nodes()[to_node as int].unwrap();
                &&& ton_new.ports@[to_port as int].cache_index == x
                &&& ton_new.ports@[to_port as int].is_connected
            }),
            // nodes other than the destination are untouched, and so are the
            // destination's other ports
            final(self).spec_nodes().len() == old(self).spec_nodes().len(),
            forall|i: int|
                0 <= i < old(self).spec_nodes().len() && i != to_node as int ==> final(self).spec_nodes()[i] == #[trigger] old(self).spec_nodes()[i],
            final(self).spec_nodes()[to_node as int] is Some,
            final(self).spec_nodes()[to_node as int].unwrap().kind == old(
                self,
            ).spec_nodes()[to_node as int].unwrap().kind,
            final(self).spec_nodes()[to_node as int].unwrap().ports@.len() == old(
                self,
            ).spec_nodes()[to_node as int].unwrap().ports@.len(),
            forall|q: int|
                0 <= q < old(self).spec_nodes()[to_node as int].unwrap().ports@.len() && q
                    != to_port as int ==> final(self).spec_nodes()[to_node as int].unwrap().ports@[q]
                    == #[trigger] old(self).spec_nodes()[to_node as int].unwrap().ports@[q],
            // the edge list: any previous edge into the destination input is
            // gone, and the new edge sits at the end, classified by whether
            // the remaining edges already close a two-node cycle
            ({
                let mid_edges = match find_edge_to(
                    old(self).spec_edges(),
                    to_node as int,
                    to_port as int,
                ) {
                    Some(j) => old(self).spec_edges().remove(j),
                    None => old(self).spec_edges(),
                };
                final(self).spec_edges() == mid_edges.push(
                    Edge {
                        from_node,
                        from_port,
                        to_node,
                        to_port,
                        edge_type: if has_reverse(mid_edges, to_node as int, from_node as int) {
                            EdgeType::Post
                        } else {
                            EdgeType::Normal
                        },
                    },
                )
            }),
            // exactly one edge targets the destination input: the new one
            forall|j: int|
                0 <= j < final(self).spec_edges().len() - 1 ==> !((#[trigger] final(self).spec_edges()[j]).to_node
                    == to_node && final(self).spec_edges()[j].to_port == to_port),
            // the source output's cell is untouched by the rewiring
            ({
                let x = old(self).spec_nodes()[from_node as int].unwrap().ports@[from_port as int].cache_index;
                final(self).spec_cache().slot(x) == old(self).spec_cache().slot(x)
            }),
            // when no edge had to be replaced, the destination's now
            // superseded private default cell is freed
            find_edge_to(old(self).spec_edges(), to_node as int, to_port as int) is None
                ==> final(self).spec_cache().slot(
                old(self).spec_nodes()[to_node as int].unwrap().ports@[to_port as int].cache_index,
            ) is None,
    {
        let new_cache_index = {
            let n = self.get_node(from_node);
            match n.get_output(from_port) {
                Some(ci) => *ci,
                None => vstd::pervasive::unreached(),
            }
        };
        self.remove_edge_to(to_node, to_port);
        let ghost mid = *self;
        proof {
            assert(mid.spec_nodes()[to_node as int].unwrap().ports@[to_port as int].direction
                == Direction::Input);
            if mid.spec_nodes()[to_node as int].unwrap().ports@[to_port as int].is_connected {
                let j = choose|j: int|
                    0 <= j < mid.spec_edges().len() && (#[trigger] mid.spec_edges()[j]).to_node
                        == to_node as int && mid.spec_edges()[j].to_port == to_port as int;
                assert(false);
            }
        }
        let node = self.nodes.get_mut(to_node);
        node.connect_input(to_port, new_cache_index, &mut self.cache);
        let ghost mid2 = *self;
        let mut is_post = false;
        let mut k: usize = 0;
        while k < self.edges.len()
            invariant
                *self == mid2,
                k <= self.edges@.len(),
                is_post == exists|j: int|
                    0 <= j < k && (#[trigger] self.edges@[j]).from_node == to_node
                        && self.edges@[j].to_node == from_node,
            decreases self.edges@.len() - k,
        {
            let e = &self.edges[k];
            if e.from_node == to_node && e.to_node == from_node {
                is_post = true;
            }
            k = k + 1;
        }
        let edge_type = if is_post {
            EdgeType::Post
        } else {
            EdgeType::Normal
        };
        self.edges.push(
            Edge { from_node, from_port, to_node, to_port, edge_type },
        );
        proof {
            lemma_find_edge_to_props(old(self).spec_edges(), to_node as int, to_port as int);
            assert forall|q: int|
                0 <= q < old(self).spec_nodes()[to_node as int].unwrap().ports@.len() && q
                    != to_port as int implies self.spec_nodes()[to_node as int].unwrap().ports@[q]
                == #[trigger] old(self).spec_nodes()[to_node as int].unwrap().ports@[q] by {
                match find_edge_to(old(self).spec_edges(), to_node as int, to_port as int) {
                    Some(j) => {
                        assert(removed_edge_effect(
                            *old(self),
                            mid,
                            old(self).spec_edges()[j],
                        ));
                        assert(mid.spec_nodes()[to_node as int].unwrap().ports@[q] == old(
                            self,
                        ).spec_nodes()[to_node as int].unwrap().ports@[q]);
                    },
                    None => {
                        assert(mid == *old(self));
                    },
                }
                assert(self.spec_nodes()[to_node as int].unwrap().ports@[q]
                    == mid.spec_nodes()[to_node as int].unwrap().ports@[q]);
            }
            assert(is_post == has_reverse(mid.spec_edges(), to_node as int, from_node as int));
            let x = old(self).spec_nodes()[from_node as int].unwrap().ports@[from_port as int].cache_index;
            assert(node_ok(
                old(self).spec_nodes()[from_node as int].unwrap(),
                old(self).spec_cache(),
            ));
            match find_edge_to(old(self).spec_edges(), to_node as int, to_port as int) {
                Some(j) => {
                    let e = old(self).spec_edges()[j];
                    assert(removed_edge_effect(*old(self), mid, e));
                    let ton_old = old(self).spec_nodes()[to_node as int].unwrap();
                    let fresh = mid.spec_nodes()[to_node as int].unwrap().ports@[to_port as int].default_cache_index;
                    assert(old(self).spec_cache().slot(x) is Some);
                    assert(x != fresh);
                    lemma_output_feeds_managed_input(
                        old(self).spec_nodes()[from_node as int].unwrap().kind,
                        from_port as int,
                        ton_old.kind,
                        to_port as int,
                    );
                    match crate::node::flag_port(ton_old.kind, to_port as int) {
                        Some(fp2) => {
                            let fci = ton_old.ports@[fp2].cache_index;
                            assert(node_ok(ton_old, old(self).spec_cache()));
                            assert(fci.type_tag == port_tag(ton_old.kind, fp2));
                            assert(x != fci);
                            assert(mid.spec_cache().slot(x) == old(self).spec_cache().slot(x));
                        },
                        None => {
                            assert(mid.spec_cache().slot(x) == old(self).spec_cache().slot(x));
                        },
                    }
                },
                None => {
                    assert(mid == *old(self));
                },
            }
            lemma_add_edge_wf(
                mid,
                *self,
                from_node as int,
                from_port as int,
                to_node as int,
                to_port as int,
                new_cache_index,
            );
            assert forall|j: int|
                0 <= j < self.spec_edges().len() - 1 implies !((#[trigger] self.spec_edges()[j]).to_node
                == to_node && self.spec_edges()[j].to_port == to_port) by {
                assert(self.spec_edges()[j] == mid.spec_edges()[j]);
            }
        }
    }

    /// One evaluation tick: runs every live node's compute behaviour, in
    /// arena slot order (a fixed-order pass, not a dependency-ordered one).
    pub fn compute(&mut self)
        requires
            old(self).wf(),
        ensures
            final(self).wf(),
            final(self).spec_nodes() == old(self).spec_nodes(),
            final(self).spec_edges() == old(self).spec_edges(),
            final(self).spec_factories() == old(self).spec_factories(),
            final(self).spec_cache().model() == compute_pass(
                old(self).spec_nodes(),
                old(self).spec_nodes().len() as int,
                old(self).spec_cache().model(),
            ),
    {
        let ghost pre = *old(self);
        let n = self.nodes.raw_len();
        let mut i: usize = 0;
        while i < n
            invariant
                pre.wf(),
                n == self.spec_nodes().len(),
                i <= n,
                self.spec_nodes() == pre.spec_nodes(),
                self.spec_edges() == pre.spec_edges(),
                self.spec_factories() == pre.spec_factories(),
                self.nodes == pre.nodes,
                self.spec_cache().wf(),
                self.spec_cache().model() == compute_pass(
                    pre.spec_nodes(),
                    i as int,
                    pre.spec_cache().model(),
                ),
                forall|ci: CacheIndex|
                    #[trigger] self.spec_cache().slot(ci) is Some <==> pre.spec_cache().slot(
                        ci,
                    ) is Some,
            decreases n - i,
        {
            let ghost c_before = self.spec_cache();
            let ghost m_before = self.spec_cache().model();
            let node_opt = self.nodes.get(i);
            match node_opt {
                Some(node) => {
                    let ghost nd = *node;
                    node.compute(&mut self.cache);
                    proof {
                        assert(self.spec_cache().model() == compute_model(
                            nd.kind,
                            nd.ports@,
                            m_before,
                        ));
                        assert(compute_pass(pre.spec_nodes(), i + 1, pre.spec_cache().model())
                            == compute_model(nd.kind, nd.ports@, m_before));
                        assert forall|ci: CacheIndex|
                            #[trigger] self.spec_cache().slot(ci) is Some <==> pre.spec_cache().slot(
                                ci,
                            ) is Some by {
                            assert(c_before.slot(ci) is Some <==> pre.spec_cache().slot(
                                ci,
                            ) is Some);
                            assert(c_before.slot(ci) == crate::cache::model_slot(m_before, ci));
                            crate::node::lemma_compute_model_occupancy(
                                nd.kind,
                                nd.ports@,
                                m_before,
                                ci,
                            );
                        }
                    }
                },
                None => {
                    proof {
                        assert(compute_pass(pre.spec_nodes(), i + 1, pre.spec_cache().model())
                            == compute_pass(pre.spec_nodes(), i as int, pre.spec_cache().model()));
                    }
                },
            }
            i = i + 1;
        }
        proof {
            lemma_wf_after_cache_rewrite(pre, *self);
        }
    }

    /// Removes every edge sourced at the given output port: used before
    /// deleting or rewiring an output to avoid orphaned aliases.
    pub fn remove_edges_from(&mut self, from_node: usize, from_port: usize)
        requires
            old(self).wf(),
        ensures
            final(self).wf(),
            final(self).spec_factories() == old(self).spec_factories(),
            forall|j: int|
                0 <= j < final(self).spec_edges().len() ==> !((#[trigger] final(self).spec_edges()[j]).from_node
                    == from_node && final(self).spec_edges()[j].from_port == from_port),
            edges_subset(final(self).spec_edges(), old(self).spec_edges()),
            edges_keep_subset(
                old(self).spec_edges(),
                final(self).spec_edges(),
                |e: Edge| !(e.from_node == from_node && e.from_port == from_port),
            ),
    {
        let ghost pre = *old(self);
        let ghost keep = |e: Edge| !(e.from_node == from_node && e.from_port == from_port);
        proof {
            lemma_edges_same_presence(pre.spec_edges(), keep);
        }
        let mut i: usize = self.edges.len();
        while i > 0
            invariant
                self.wf(),
                self.spec_factories() == pre.spec_factories(),
                i <= self.spec_edges().len(),
                keep == (|e: Edge| !(e.from_node == from_node && e.from_port == from_port)),
                forall|j: int|
                    i <= j < self.spec_edges().len() ==> !((#[trigger] self.spec_edges()[j]).from_node
                        == from_node && self.spec_edges()[j].from_port == from_port),
                edges_subset(self.spec_edges(), pre.spec_edges()),
                edges_keep_subset(pre.spec_edges(), self.spec_edges(), keep),
            decreases i,
        {
            i = i - 1;
            let matches_source = {
                let e = &self.edges[i];
                e.from_node == from_node && e.from_port == from_port
            };
            if matches_source {
                let ghost before = self.spec_edges();
                self.remove_edge(i);
                proof {
                    lemma_edges_presence_step(
                        pre.spec_edges(),
                        before,
                        self.spec_edges(),
                        i as int,
                        keep,
                    );
                }
            }
        }
    }

    /// Removes every edge that touches `node_index`, as source or as
    /// destination.
    #[verifier::rlimit(80)]
    fn sever_node_edges(&mut self, node_index: usize)
        requires
            old(self).wf(),
            (node_index as int) < old(self).spec_nodes().len(),
            old(self).spec_nodes()[node_index as int] is Some,
        ensures
            final(self).wf(),
            final(self).spec_factories() == old(self).spec_factories(),
            final(self).spec_nodes().len() == old(self).spec_nodes().len(),
            forall|i2: int|
                0 <= i2 < old(self).spec_nodes().len() ==> ((#[trigger] final(self).spec_nodes()[i2]) is Some
                    <==> old(self).spec_nodes()[i2] is Some),
            final(self).spec_nodes()[node_index as int] is Some,
            final(self).spec_nodes()[node_index as int].unwrap().kind == old(self).spec_nodes()[node_index as int].unwrap().kind,
            final(self).spec_nodes()[node_index as int].unwrap().ports@.len() == old(self).spec_nodes()[node_index as int].unwrap().ports@.len(),
            forall|p: int|
                0 <= p < old(self).spec_nodes()[node_index as int].unwrap().ports@.len()
                    && owned_port(
                    #[trigger] old(self).spec_nodes()[node_index as int].unwrap().ports@[p],
                ) ==> final(self).spec_nodes()[node_index as int].unwrap().ports@[p] == old(
                    self,
                ).spec_nodes()[node_index as int].unwrap().ports@[p],
            forall|j: int|
                0 <= j < final(self).spec_edges().len() ==> !((#[trigger] final(self).spec_edges()[j]).from_node
                    == node_index || final(self).spec_edges()[j].to_node == node_index),
            edges_subset(final(self).spec_edges(), old(self).spec_edges()),
            edges_keep_subset(
                old(self).spec_edges(),
                final(self).spec_edges(),
                |e: Edge| !(e.from_node == node_index || e.to_node == node_index),
            ),
            // severing inserts fresh defaults and rewrites flags, but frees
            // no cell
            forall|ci: CacheIndex|
                #[trigger] old(self).spec_cache().slot(ci) is Some ==> final(self).spec_cache().slot(ci) is Some,
            // an input that severing disconnected sits on a cell that was
            // not yet in use before
            forall|p: int|
                0 <= p < old(self).spec_nodes()[node_index as int].unwrap().ports@.len()
                    && (#[trigger] old(self).spec_nodes()[node_index as int].unwrap().ports@[p]).is_connected
                    && !final(self).spec_nodes()[node_index as int].unwrap().ports@[p].is_connected
                    ==> old(self).spec_cache().slot(
                    final(self).spec_nodes()[node_index as int].unwrap().ports@[p].cache_index,
                ) is None,
    {
        let ghost pre = *old(self);
        let ghost keep = |e: Edge| !(e.from_node == node_index || e.to_node == node_index);
        proof {
            lemma_edges_same_presence(pre.spec_edges(), keep);
        }
        let mut i: usize = self.edges.len();
        while i > 0
            invariant
                self.wf(),
                self.spec_factories() == pre.spec_factories(),
                self.spec_nodes().len() == pre.spec_nodes().len(),
                (node_index as int) < pre.spec_nodes().len(),
                forall|i2: int|
                    0 <= i2 < pre.spec_nodes().len() ==> ((#[trigger] self.spec_nodes()[i2]) is Some
                        <==> pre.spec_nodes()[i2] is Some),
                self.spec_nodes()[node_index as int] is Some,
                pre.spec_nodes()[node_index as int] is Some,
                self.spec_nodes()[node_index as int].unwrap().kind == pre.spec_nodes()[node_index as int].unwrap().kind,
                self.spec_nodes()[node_index as int].unwrap().ports@.len() == pre.spec_nodes()[node_index as int].unwrap().ports@.len(),
                forall|p: int|
                    0 <= p < pre.spec_nodes()[node_index as int].unwrap().ports@.len()
                        && owned_port(
                        #[trigger] pre.spec_nodes()[node_index as int].unwrap().ports@[p],
                    ) ==> self.spec_nodes()[node_index as int].unwrap().ports@[p]
                        == pre.spec_nodes()[node_index as int].unwrap().ports@[p],
                i <= self.spec_edges().len(),
                keep == (|e: Edge| !(e.from_node == node_index || e.to_node == node_index)),
                forall|j: int|
                    i <= j < self.spec_edges().len() ==> !((#[trigger] self.spec_edges()[j]).from_node
                        == node_index || self.spec_edges()[j].to_node == node_index),
                edges_subset(self.spec_edges(), pre.spec_edges()),
                edges_keep_subset(pre.spec_edges(), self.spec_edges(), keep),
                forall|ci: CacheIndex|
                    #[trigger] pre.spec_cache().slot(ci) is Some ==> self.spec_cache().slot(
                        ci,
                    ) is Some,
                forall|p: int|
                    0 <= p < pre.spec_nodes()[node_index as int].unwrap().ports@.len()
                        && (#[trigger] pre.spec_nodes()[node_index as int].unwrap().ports@[p]).is_connected
                        && !self.spec_nodes()[node_index as int].unwrap().ports@[p].is_connected
                        ==> pre.spec_cache().slot(
                        self.spec_nodes()[node_index as int].unwrap().ports@[p].cache_index,
                    ) is None,
            decreases i,
        {
            i = i - 1;
            let touches = {
                let e = &self.edges[i];
                e.from_node == node_index || e.to_node == node_index
            };
            if touches {
                let ghost before = *self;
                self.remove_edge(i);
                proof {
                    lemma_edges_presence_step(
                        pre.spec_edges(),
                        before.spec_edges(),
                        self.spec_edges(),
                        i as int,
                        keep,
                    );
                    let e = before.spec_edges()[i as int];
                    assert(removed_edge_effect(before, *self, e));
                    let fresh = self.spec_nodes()[e.to_node as int].unwrap().ports@[e.to_port as int].default_cache_index;
                    assert forall|ci: CacheIndex|
                        #[trigger] pre.spec_cache().slot(ci) is Some implies self.spec_cache().slot(
                        ci,
                    ) is Some by {
                        let tok = before.spec_nodes()[e.to_node as int].unwrap().kind;
                        match crate::node::flag_port(tok, e.to_port as int) {
                            Some(fp) => {
                                let fci = before.spec_nodes()[e.to_node as int].unwrap().ports@[fp].cache_index;
                                if ci != fresh && ci != fci {
                                    assert(self.spec_cache().slot(ci) == before.spec_cache().slot(
                                        ci,
                                    ));
                                }
                            },
                            None => {
                                if ci != fresh {
                                    assert(self.spec_cache().slot(ci) == before.spec_cache().slot(
                                        ci,
                                    ));
                                }
                            },
                        }
                    }
                    assert forall|p: int|
                        0 <= p < pre.spec_nodes()[node_index as int].unwrap().ports@.len()
                            && (#[trigger] pre.spec_nodes()[node_index as int].unwrap().ports@[p]).is_connected
                            && !self.spec_nodes()[node_index as int].unwrap().ports@[p].is_connected
                            implies pre.spec_cache().slot(
                        self.spec_nodes()[node_index as int].unwrap().ports@[p].cache_index,
                    ) is None by {
                        if e.to_node as int == node_index as int && p == e.to_port as int {
                            assert(before.spec_cache().slot(fresh) is None);
                            assert(pre.spec_cache().slot(fresh) is None);
                        } else {
                            if e.to_node as int == node_index as int {
                                assert(self.spec_nodes()[node_index as int].unwrap().ports@[p]
                                    == before.spec_nodes()[node_index as int].unwrap().ports@[p]);
                            } else {
                                assert(self.spec_nodes()[node_index as int]
                                    == before.spec_nodes()[node_index as int]);
                            }
                        }
                    }
                    assert forall|i2: int|
                        0 <= i2 < pre.spec_nodes().len() implies ((#[trigger] self.spec_nodes()[i2]) is Some
                        <==> pre.spec_nodes()[i2] is Some) by {
                        if i2 != e.to_node as int {
                            assert(self.spec_nodes()[i2] == before.spec_nodes()[i2]);
                        } else {
                            assert(self.spec_nodes()[i2] is Some);
                            assert(before.spec_nodes()[i2] is Some);
                        }
                    }
                    assert forall|p: int|
                        0 <= p < pre.spec_nodes()[node_index as int].unwrap().ports@.len()
                            && owned_port(
                            #[trigger] pre.spec_nodes()[node_index as int].unwrap().ports@[p],
                        ) implies self.spec_nodes()[node_index as int].unwrap().ports@[p]
                        == pre.spec_nodes()[node_index as int].unwrap().ports@[p] by {
                        if e.to_node as int == node_index as int {
                            if p != e.to_port as int {
                                assert(self.spec_nodes()[node_index as int].unwrap().ports@[p]
                                    == before.spec_nodes()[node_index as int].unwrap().ports@[p]);
                            } else {
                                // an owned port is disconnected or an output,
                                // so no severed edge ends at it
                                assert(edge_ok(e, before.spec_nodes(), before.spec_cache()));
                                assert(before.spec_nodes()[node_index as int].unwrap().ports@[p]
                                    == pre.spec_nodes()[node_index as int].unwrap().ports@[p]);
                                assert(false);
                            }
                        } else {
                            assert(self.spec_nodes()[node_index as int]
                                == before.spec_nodes()[node_index as int]);
                        }
                    }
                }
            }
        }
    }

    /// Removes a node: severs every edge touching it (as source or
    /// destination) first, so no port keeps a handle about to dangle; then
    /// evicts the node from the arena and frees every cache cell it owned.
    pub fn remove_node(&mut self, node_index: usize)
        requires
            old(self).wf(),
            (node_index as int) < old(self).spec_nodes().len(),
            old(self).spec_nodes()[node_index as int] is Some,
        ensures
            final(self).wf(),
            final(self).spec_factories() == old(self).spec_factories(),
            final(self).spec_nodes().len() == old(self).spec_nodes().len(),
            final(self).spec_nodes()[node_index as int] is None,
            forall|i: int|
                0 <= i < old(self).spec_nodes().len() && i != node_index as int ==> ((#[trigger] final(self).spec_nodes()[i]) is Some
                    <==> old(self).spec_nodes()[i] is Some),
            forall|j: int|
                0 <= j < final(self).spec_edges().len() ==> !((#[trigger] final(self).spec_edges()[j]).from_node
                    == node_index || final(self).spec_edges()[j].to_node == node_index),
            edges_subset(final(self).spec_edges(), old(self).spec_edges()),
            edges_keep_subset(
                old(self).spec_edges(),
                final(self).spec_edges(),
                |e: Edge| !(e.from_node == node_index || e.to_node == node_index),
            ),
            forall|p: int|
                0 <= p < old(self).spec_nodes()[node_index as int].unwrap().ports@.len()
                    && owned_port(
                    #[trigger] old(self).spec_nodes()[node_index as int].unwrap().ports@[p],
                ) ==> final(self).spec_cache().slot(
                    old(self).spec_nodes()[node_index as int].unwrap().ports@[p].cache_index,
                ) is None,
            // and they are the only cells that removal frees
            forall|ci: CacheIndex|
                #[trigger] old(self).spec_cache().slot(ci) is Some && final(self).spec_cache().slot(
                    ci,
                ) is None ==> exists|p: int|
                    0 <= p < old(self).spec_nodes()[node_index as int].unwrap().ports@.len()
                        && owned_port(
                        #[trigger] old(self).spec_nodes()[node_index as int].unwrap().ports@[p],
                    ) && ci == old(self).spec_nodes()[node_index as int].unwrap().ports@[p].cache_index,
    {
        self.sever_node_edges(node_index);
        proof {
            // with no edge left targeting the node, all its inputs are
            // disconnected, so all its ports are owned
            assert forall|p: int|
                0 <= p < self.spec_nodes()[node_index as int].unwrap().ports@.len() implies owned_port(
                #[trigger] self.spec_nodes()[node_index as int].unwrap().ports@[p],
            ) by {
                if self.spec_nodes()[node_index as int].unwrap().ports@[p].is_connected {
                    let j = choose|j: int|
                        0 <= j < self.spec_edges().len() && (#[trigger] self.spec_edges()[j]).to_node
                            == node_index as int && self.spec_edges()[j].to_port == p;
                    assert(false);
                }
            }
            assert(node_ok(
                self.spec_nodes()[node_index as int].unwrap(),
                self.spec_cache(),
            ));
        }
        let ghost severed = *self;
        let mut removed = match self.nodes.remove(node_index) {
            Some(n) => n,
            None => vstd::pervasive::unreached(),
        };
        let ghost evicted = *self;
        removed.remove_all_cache(&mut self.cache);
        proof {
            lemma_remove_node_wf(severed, evicted, *self, removed, node_index as int);
            assert forall|ci: CacheIndex|
                #[trigger] old(self).spec_cache().slot(ci) is Some && self.spec_cache().slot(
                    ci,
                ) is None implies exists|p: int|
                0 <= p < old(self).spec_nodes()[node_index as int].unwrap().ports@.len()
                    && owned_port(
                    #[trigger] old(self).spec_nodes()[node_index as int].unwrap().ports@[p],
                ) && ci == old(self).spec_nodes()[node_index as int].unwrap().ports@[p].cache_index by {
                assert(severed.spec_cache().slot(ci) is Some);
                assert(evicted.spec_cache().slot(ci) is Some);
                let p2 = choose|p2: int|
                    0 <= p2 < removed.ports@.len() && owned_port(#[trigger] removed.ports@[p2])
                        && ci == removed.ports@[p2].cache_index;
                let old_port = old(self).spec_nodes()[node_index as int].unwrap().ports@[p2];
                if old_port.is_connected {
                    // this port was disconnected while severing, so its
                    // severed-state cell was not in use before removal began
                    assert(old(self).spec_cache().slot(removed.ports@[p2].cache_index) is None);
                    assert(false);
                } else {
                    assert(owned_port(old_port));
                    assert(removed.ports@[p2] == old_port);
                }
            }
            assert forall|p: int|
                0 <= p < old(self).spec_nodes()[node_index as int].unwrap().ports@.len()
                    && owned_port(
                    #[trigger] old(self).spec_nodes()[node_index as int].unwrap().ports@[p],
                ) implies self.spec_cache().slot(
                old(self).spec_nodes()[node_index as int].unwrap().ports@[p].cache_index,
            ) is None by {
                let oldp = old(self).spec_nodes()[node_index as int].unwrap().ports@[p];
                assert(severed.spec_nodes()[node_index as int].unwrap().ports@[p] == oldp);
            }
        }
    }
}

/// Placing a freshly built node into an empty or new arena slot preserves
/// the graph invariant: the node's cells are new and distinct from every
/// cell the existing graph holds.
proof fn lemma_add_node_wf(pre: App, post: App, n: Node, ni: int)
    requires
        pre.wf(),
        post.cache.wf(),
        post.nodes.wf(),
        crate::node::fresh_node(n, pre.cache, post.cache),
        forall|ci: CacheIndex|
            #[trigger] pre.cache.slot(ci) is Some ==> post.cache.slot(ci) == pre.cache.slot(ci),
        post.edges@ == pre.edges@,
        0 <= ni <= pre.nodes@.len(),
        ni < pre.nodes@.len() ==> pre.nodes@[ni] is None && post.nodes@ =~= pre.nodes@.update(
            ni,
            Some(n),
        ),
        ni == pre.nodes@.len() ==> post.nodes@ =~= pre.nodes@.push(Some(n)),
    ensures
        post.wf(),
{
    let nodes2 = post.nodes@;
    let c2 = post.cache;
    assert forall|i: int|
        0 <= i < nodes2.len() && (#[trigger] nodes2[i]) is Some implies node_ok(
        nodes2[i].unwrap(),
        c2,
    ) by {
        if i == ni {
            assert(nodes2[i].unwrap() == n);
            assert(node_ok(n, c2));
        } else {
            assert(nodes2[i] == pre.nodes@[i]);
            let m = nodes2[i].unwrap();
            assert(node_ok(m, pre.cache));
            assert forall|p: int| 0 <= p < m.ports@.len() implies c2.slot(
                (#[trigger] m.ports@[p]).cache_index,
            ) is Some by {
                assert(pre.cache.slot(m.ports@[p].cache_index) is Some);
            }
        }
    }
    assert forall|j: int|
        0 <= j < post.edges@.len() implies edge_ok(#[trigger] post.edges@[j], nodes2, c2) by {
        let e = post.edges@[j];
        assert(edge_ok(e, pre.nodes@, pre.cache));
        assert(nodes2[e.from_node as int] == pre.nodes@[e.from_node as int]);
        assert(nodes2[e.to_node as int] == pre.nodes@[e.to_node as int]);
    }
    assert forall|i: int, p: int|
        0 <= i < nodes2.len() && (#[trigger] nodes2[i]) is Some && 0 <= p
            < nodes2[i].unwrap().ports@.len() && (#[trigger] nodes2[i].unwrap().ports@[p]).is_connected
            implies exists|j: int|
            0 <= j < post.edges@.len() && (#[trigger] post.edges@[j]).to_node == i
                && post.edges@[j].to_port == p by {
        if i != ni {
            assert(nodes2[i] == pre.nodes@[i]);
        }
    }
    assert forall|i1: int, p1: int, i2: int, p2: int|
        #[trigger] owner_at(nodes2, i1, p1) && #[trigger] owner_at(nodes2, i2, p2) && (i1 != i2
            || p1 != p2) implies port_at(nodes2, i1, p1).cache_index != port_at(
        nodes2,
        i2,
        p2,
    ).cache_index by {
        if i1 == ni && i2 == ni {
            assert(p1 != p2);
        } else if i1 == ni {
            assert(owner_at(pre.nodes@, i2, p2));
            assert(node_ok(pre.nodes@[i2].unwrap(), pre.cache));
            assert(pre.cache.slot(port_at(pre.nodes@, i2, p2).cache_index) is Some);
            assert(pre.cache.slot(port_at(nodes2, i1, p1).cache_index) is None);
        } else if i2 == ni {
            assert(owner_at(pre.nodes@, i1, p1));
            assert(node_ok(pre.nodes@[i1].unwrap(), pre.cache));
            assert(pre.cache.slot(port_at(pre.nodes@, i1, p1).cache_index) is Some);
            assert(pre.cache.slot(port_at(nodes2, i2, p2).cache_index) is None);
        } else {
            assert(owner_at(pre.nodes@, i1, p1));
            assert(owner_at(pre.nodes@, i2, p2));
        }
    }
}

/// The position of the first edge targeting `(to_node, to_port)`.
pub open spec fn find_edge_to(edges: Seq<Edge>, to_node: int, to_port: int) -> Option<int>
    decreases edges.len(),
{
    if edges.len() == 0 {
        None
    } else if edges[0].to_node == to_node && edges[0].to_port == to_port {
        Some(0)
    } else {
        match find_edge_to(edges.drop_first(), to_node, to_port) {
            Some(j) => Some(j + 1),
            None => None,
        }
    }
}

proof fn lemma_find_edge_to_skip(edges: Seq<Edge>, to_node: int, to_port: int, k: int)
    requires
        0 <= k < edges.len(),
        edges[k].to_node == to_node && edges[k].to_port == to_port,
    ensures
        find_edge_to(edges.skip(k), to_node, to_port) == Some(0int),
{
    assert(edges.skip(k).len() > 0);
    assert(edges.skip(k)[0] == edges[k]);
}

proof fn lemma_find_edge_to_skip_step(edges: Seq<Edge>, to_node: int, to_port: int, k: int)
    requires
        0 <= k < edges.len(),
        !(edges[k].to_node == to_node && edges[k].to_port == to_port),
    ensures
        match find_edge_to(edges.skip(k + 1), to_node, to_port) {
            Some(j) => find_edge_to(edges.skip(k), to_node, to_port) == Some(j + 1),
            None => find_edge_to(edges.skip(k), to_node, to_port) is None,
        },
{
    assert(edges.skip(k)[0] == edges[k]);
    assert(edges.skip(k).drop_first() =~= edges.skip(k + 1));
}

/// What `find_edge_to` returns is a match, and the edges before it are not.
proof fn lemma_find_edge_to_props(edges: Seq<Edge>, to_node: int, to_port: int)
    ensures
        match find_edge_to(edges, to_node, to_port) {
            Some(j) => 0 <= j < edges.len() && edges[j].to_node == to_node && edges[j].to_port
                == to_port,
            None => forall|j: int|
                0 <= j < edges.len() ==> !((#[trigger] edges[j]).to_node == to_node
                    && edges[j].to_port == to_port),
        },
    decreases edges.len(),
{
    if edges.len() > 0 && !(edges[0].to_node == to_node && edges[0].to_port == to_port) {
        lemma_find_edge_to_props(edges.drop_first(), to_node, to_port);
        assert forall|j: int|
            0 <= j < edges.len() && find_edge_to(edges, to_node, to_port) is None implies !((
        #[trigger] edges[j]).to_node == to_node && edges[j].to_port == to_port) by {
            if j > 0 {
                assert(edges.drop_first()[j - 1] == edges[j]);
            }
        }
    }
}

/// In a graph whose edges target pairwise distinct inputs, the found edge is
/// the only one targeting the pair.
proof fn lemma_find_edge_to_is_only(edges: Seq<Edge>, to_node: int, to_port: int)
    requires
        forall|j1: int, j2: int|
            0 <= j1 < j2 < edges.len() ==> !((#[trigger] edges[j1]).to_node == (
            #[trigger] edges[j2]).to_node && edges[j1].to_port == edges[j2].to_port),
        find_edge_to(edges, to_node, to_port) is Some,
    ensures
        forall|j: int|
            0 <= j < edges.len() && j != find_edge_to(edges, to_node, to_port).unwrap() ==> !((
            #[trigger] edges[j]).to_node == to_node && edges[j].to_port == to_port),
{
    lemma_find_edge_to_props(edges, to_node, to_port);
}

/// How removing one edge changes the destination node and the cache: the
/// destination port is restored to a fresh private default cell holding the
/// kind's default value, the kind's flag for the port (if any) is cleared,
/// and nothing else changes.
pub open spec fn removed_edge_effect(pre: App, post: App, e: Edge) -> bool {
    let nodes = pre.spec_nodes();
    let ton_old = nodes[e.to_node as int].unwrap();
    let nodes2 = post.spec_nodes();
    let ton_new = nodes2[e.to_node as int].unwrap();
    let newp = ton_new.ports@[e.to_port as int];
    &&& nodes2.len() == nodes.len()
    &&& forall|i: int| 0 <= i < nodes.len() && i != e.to_node as int ==> nodes2[i] == #[trigger] nodes[i]
    &&& nodes2[e.to_node as int] is Some
    &&& ton_new.kind == ton_old.kind
    &&& ton_new.ports@.len() == ton_old.ports@.len()
    &&& forall|q: int|
        0 <= q < ton_old.ports@.len() && q != e.to_port as int ==> ton_new.ports@[q] == #[trigger] ton_old.ports@[q]
    &&& !newp.is_connected
    &&& newp.cache_index == newp.default_cache_index
    &&& newp.direction == Direction::Input
    &&& newp.default_cache_index.type_tag == port_tag(ton_old.kind, e.to_port as int)
    &&& pre.spec_cache().slot(newp.default_cache_index) is None
    &&& post.spec_cache().slot(newp.default_cache_index) == Some(
        default_value(ton_old.kind, e.to_port as int),
    )
    &&& match crate::node::flag_port(ton_old.kind, e.to_port as int) {
        Some(fp) => {
            let fci = ton_old.ports@[fp].cache_index;
            &&& post.spec_cache().slot(fci) == Some(Value::Bool(false))
            &&& forall|c2: CacheIndex|
                c2 != newp.default_cache_index && c2 != fci ==> #[trigger] post.spec_cache().slot(
                    c2,
                ) == pre.spec_cache().slot(c2)
        },
        None => forall|c2: CacheIndex|
            c2 != newp.default_cache_index ==> #[trigger] post.spec_cache().slot(c2)
                == pre.spec_cache().slot(c2),
    }
}

/// Dropping an edge and disconnecting its destination preserves the graph
/// invariant: the freed port becomes an owner of a fresh cell, and no other
/// port's cell is disturbed.
proof fn lemma_remove_edge_wf(pre: App, post: App, e: Edge, index: int)
    requires
        pre.wf(),
        0 <= index < pre.spec_edges().len(),
        e == pre.spec_edges()[index],
        post.spec_edges() == pre.spec_edges().remove(index),
        post.spec_cache().wf(),
        post.nodes.wf(),
        removed_edge_effect(pre, post, e),
    ensures
        post.wf(),
{
    let nodes = pre.nodes@;
    let nodes2 = post.nodes@;
    let c1 = pre.cache;
    let c2 = post.cache;
    let tn = e.to_node as int;
    let tp = e.to_port as int;
    let ton_old = nodes[tn].unwrap();
    let ton_new = nodes2[tn].unwrap();
    let newp = ton_new.ports@[tp];
    let fresh = newp.default_cache_index;
    assert(edge_ok(e, nodes, c1));
    // no occupied cell became empty: only `fresh` appeared, the flag cell
    // kept a value, and everything else is untouched
    assert forall|ci: CacheIndex| #[trigger] c1.slot(ci) is Some implies c2.slot(ci) is Some by {
        match crate::node::flag_port(ton_old.kind, tp) {
            Some(fp) => {
                let fci = ton_old.ports@[fp].cache_index;
                if ci != fresh && ci != fci {
                    assert(c2.slot(ci) == c1.slot(ci));
                }
            },
            None => {
                if ci != fresh {
                    assert(c2.slot(ci) == c1.slot(ci));
                }
            },
        }
    }
    assert forall|i: int|
        0 <= i < nodes2.len() && (#[trigger] nodes2[i]) is Some implies node_ok(
        nodes2[i].unwrap(),
        c2,
    ) by {
        if i == tn {
            assert(node_ok(ton_old, c1));
            assert forall|p: int| 0 <= p < ton_new.ports@.len() implies {
                let port = #[trigger] ton_new.ports@[p];
                &&& port.direction == port_dir(ton_new.kind, p)
                &&& port.cache_index.type_tag == port_tag(ton_new.kind, p)
                &&& c2.slot(port.cache_index) is Some
                &&& (!port.is_connected ==> port.cache_index == port.default_cache_index)
                &&& (port.direction == Direction::Output ==> !port.is_connected)
            } by {
                if p != tp {
                    assert(ton_new.ports@[p] == ton_old.ports@[p]);
                    assert(c1.slot(ton_old.ports@[p].cache_index) is Some);
                }
            }
        } else {
            assert(nodes2[i] == nodes[i]);
            let m = nodes2[i].unwrap();
            assert(node_ok(m, c1));
            assert forall|p: int| 0 <= p < m.ports@.len() implies c2.slot(
                (#[trigger] m.ports@[p]).cache_index,
            ) is Some by {
                assert(c1.slot(m.ports@[p].cache_index) is Some);
            }
        }
    }
    // surviving edges
    assert forall|j: int|
        0 <= j < post.edges@.len() implies edge_ok(#[trigger] post.edges@[j], nodes2, c2) by {
        let e2 = post.edges@[j];
        let j1 = if j < index {
            j
        } else {
            j + 1
        };
        assert(e2 == pre.edges@[j1]);
        assert(edge_ok(e2, nodes, c1));
        assert(j1 != index);
        // the only edge targeting (tn, tp) was the removed one
        if e2.to_node as int == tn && e2.to_port as int == tp {
            if j1 < index {
                assert(!(pre.edges@[j1].to_node == pre.edges@[index].to_node
                    && pre.edges@[j1].to_port == pre.edges@[index].to_port));
            } else {
                assert(!(pre.edges@[index].to_node == pre.edges@[j1].to_node
                    && pre.edges@[index].to_port == pre.edges@[j1].to_port));
            }
        }
        if e2.to_node as int == tn {
            assert(nodes2[e2.to_node as int].unwrap().ports@[e2.to_port as int]
                == ton_old.ports@[e2.to_port as int]);
        } else {
            assert(nodes2[e2.to_node as int] == nodes[e2.to_node as int]);
        }
        if e2.from_node as int == tn {
            assert(nodes2[e2.from_node as int].unwrap().ports@[e2.from_port as int]
                == ton_old.ports@[e2.from_port as int]);
        } else {
            assert(nodes2[e2.from_node as int] == nodes[e2.from_node as int]);
        }
    }
    // at most one edge per input
    assert forall|j1: int, j2: int|
        0 <= j1 < j2 < post.edges@.len() implies !((#[trigger] post.edges@[j1]).to_node == (
        #[trigger] post.edges@[j2]).to_node && post.edges@[j1].to_port
            == post.edges@[j2].to_port) by {
        let i1 = if j1 < index {
            j1
        } else {
            j1 + 1
        };
        let i2 = if j2 < index {
            j2
        } else {
            j2 + 1
        };
        assert(post.edges@[j1] == pre.edges@[i1]);
        assert(post.edges@[j2] == pre.edges@[i2]);
        assert(i1 < i2);
    }
    // every connected input still has its edge
    assert forall|i: int, p: int|
        0 <= i < nodes2.len() && (#[trigger] nodes2[i]) is Some && 0 <= p
            < nodes2[i].unwrap().ports@.len() && (#[trigger] nodes2[i].unwrap().ports@[p]).is_connected
            implies exists|j: int|
            0 <= j < post.edges@.len() && (#[trigger] post.edges@[j]).to_node == i
                && post.edges@[j].to_port == p by {
        if i == tn {
            if p != tp {
                assert(nodes2[i].unwrap().ports@[p] == ton_old.ports@[p]);
            }
        } else {
            assert(nodes2[i] == nodes[i]);
        }
        assert(nodes[i].unwrap().ports@[p].is_connected);
        let j1 = choose|j1: int|
            0 <= j1 < pre.edges@.len() && (#[trigger] pre.edges@[j1]).to_node == i
                && pre.edges@[j1].to_port == p;
        assert(j1 != index);
        let j = if j1 < index {
            j1
        } else {
            j1 - 1
        };
        assert(post.edges@[j] == pre.edges@[j1]);
    }
    // owners' cells stay pairwise distinct
    assert forall|i1: int, p1: int, i2: int, p2: int|
        #[trigger] owner_at(nodes2, i1, p1) && #[trigger] owner_at(nodes2, i2, p2) && (i1 != i2
            || p1 != p2) implies port_at(nodes2, i1, p1).cache_index != port_at(
        nodes2,
        i2,
        p2,
    ).cache_index by {
        let new1 = i1 == tn && p1 == tp;
        let new2 = i2 == tn && p2 == tp;
        if new1 || new2 {
            // the fresh cell was empty before, every other owner's cell was not
            let (io, po) = if new1 {
                (i2, p2)
            } else {
                (i1, p1)
            };
            if io == tn && 0 <= po < ton_old.ports@.len() {
                assert(port_at(nodes2, io, po) == ton_old.ports@[po]);
            } else {
                assert(nodes2[io] == nodes[io]);
            }
            assert(owner_at(nodes, io, po) || nodes[io].unwrap().ports@[po].is_connected);
            assert(node_ok(nodes[io].unwrap(), c1));
            assert(c1.slot(port_at(nodes, io, po).cache_index) is Some);
            assert(c1.slot(fresh) is None);
            assert(port_at(nodes, io, po).cache_index == port_at(nodes2, io, po).cache_index);
        } else {
            if i1 == tn {
                assert(port_at(nodes2, i1, p1) == ton_old.ports@[p1]);
            } else {
                assert(nodes2[i1] == nodes[i1]);
            }
            if i2 == tn {
                assert(port_at(nodes2, i2, p2) == ton_old.ports@[p2]);
            } else {
                assert(nodes2[i2] == nodes[i2]);
            }
            if owner_at(nodes, i1, p1) && owner_at(nodes, i2, p2) {
                assert(port_at(nodes, i1, p1).cache_index != port_at(nodes, i2, p2).cache_index);
            } else {
                // a port that was connected before is an owner only at (tn, tp)
                assert(false);
            }
        }
    }

}

/// Whether some edge runs from `a` to `b`.
pub open spec fn has_reverse(edges: Seq<Edge>, a: int, b: int) -> bool {
    exists|j: int|
        0 <= j < edges.len() && (#[trigger] edges[j]).from_node == a && edges[j].to_node == b
}

/// Every output port of every kind carries a non-flag value type, so any
/// input wired to one is a managed input.
proof fn lemma_output_feeds_managed_input(fk: NodeKind, fp: int, tk: NodeKind, tp: int)
    requires
        0 <= fp < port_count(fk),
        port_dir(fk, fp) == Direction::Output,
        0 <= tp < port_count(tk),
        port_dir(tk, tp) == Direction::Input,
        port_tag(fk, fp) == port_tag(tk, tp),
    ensures
        managed_input(tk, tp),
        port_tag(tk, tp) != Tag::Bool,
{
    assert(port_tag(fk, fp) != Tag::Bool);
}

/// Connecting a disconnected managed input to an output's occupied cell
/// preserves the graph invariant.
proof fn lemma_add_edge_wf(
    mid: App,
    post: App,
    fni: int,
    fpi: int,
    tni: int,
    tpi: int,
    x: CacheIndex,
)
    requires
        mid.wf(),
        0 <= fni < mid.nodes@.len(),
        mid.nodes@[fni] is Some,
        0 <= tni < mid.nodes@.len(),
        mid.nodes@[tni] is Some,
        0 <= fpi < mid.nodes@[fni].unwrap().ports@.len(),
        0 <= tpi < mid.nodes@[tni].unwrap().ports@.len(),
        mid.nodes@[fni].unwrap().ports@[fpi].direction == Direction::Output,
        mid.nodes@[tni].unwrap().ports@[tpi].direction == Direction::Input,
        !mid.nodes@[tni].unwrap().ports@[tpi].is_connected,
        port_tag(mid.nodes@[fni].unwrap().kind, fpi) == port_tag(mid.nodes@[tni].unwrap().kind, tpi),
        x == mid.nodes@[fni].unwrap().ports@[fpi].cache_index,
        forall|j: int|
            0 <= j < mid.edges@.len() ==> !((#[trigger] mid.edges@[j]).to_node == tni
                && mid.edges@[j].to_port == tpi),
        post.cache.wf(),
        post.nodes.wf(),
        post.nodes@.len() == mid.nodes@.len(),
        forall|i: int|
            0 <= i < mid.nodes@.len() && i != tni ==> post.nodes@[i] == #[trigger] mid.nodes@[i],
        post.nodes@[tni] is Some,
        post.nodes@[tni].unwrap().kind == mid.nodes@[tni].unwrap().kind,
        post.nodes@[tni].unwrap().ports@ == mid.nodes@[tni].unwrap().ports@.update(
            tpi,
            Port {
                cache_index: x,
                is_connected: true,
                ..mid.nodes@[tni].unwrap().ports@[tpi]
            },
        ),
        crate::node::after_connect_hook(
            mid.nodes@[tni].unwrap().kind,
            mid.nodes@[tni].unwrap().ports@,
            tpi,
            mid.cache,
            post.cache,
        ),
        post.edges@.len() == mid.edges@.len() + 1,
        forall|j: int| 0 <= j < mid.edges@.len() ==> post.edges@[j] == #[trigger] mid.edges@[j],
        ({
            let e = post.edges@[mid.edges@.len() as int];
            e.from_node == fni && e.from_port == fpi && e.to_node == tni && e.to_port == tpi
        }),
    ensures
        post.wf(),
        post.cache.slot(x) == mid.cache.slot(x),
        post.cache.slot(mid.nodes@[tni].unwrap().ports@[tpi].cache_index) is None,
{
    let nodes = mid.nodes@;
    let nodes2 = post.nodes@;
    let c1 = mid.cache;
    let c2 = post.cache;
    let ton_old = nodes[tni].unwrap();
    let ton_new = nodes2[tni].unwrap();
    let tk = ton_old.kind;
    let freed = ton_old.ports@[tpi].cache_index;
    let fromn = nodes[fni].unwrap();
    assert(node_ok(ton_old, c1));
    assert(node_ok(fromn, c1));
    lemma_output_feeds_managed_input(fromn.kind, fpi, tk, tpi);
    assert(owner_at(nodes, tni, tpi));
    assert(freed.type_tag == port_tag(tk, tpi));
    assert(c2.slot(freed) is None);
    // the source's cell is neither the freed default nor a flag cell
    match crate::node::flag_port(tk, tpi) {
        Some(fp2) => {
            let fci = ton_old.ports@[fp2].cache_index;
            assert(fci.type_tag == port_tag(tk, fp2));
            assert(x.type_tag == port_tag(fromn.kind, fpi));
            assert(x != fci);
            assert(owner_at(nodes, fni, fpi));
            assert(x != freed);
            assert(c2.slot(x) == c1.slot(x));
        },
        None => {
            assert(owner_at(nodes, fni, fpi));
            assert(x != freed);
            assert(c2.slot(x) == c1.slot(x));
        },
    }
    // occupancy: every occupied cell but the freed one stays occupied
    assert forall|ci: CacheIndex|
        #[trigger] c1.slot(ci) is Some && ci != freed implies c2.slot(ci) is Some by {
        match crate::node::flag_port(tk, tpi) {
            Some(fp2) => {
                let fci = ton_old.ports@[fp2].cache_index;
                if ci != fci {
                    assert(c2.slot(ci) == c1.slot(ci));
                }
            },
            None => {
                assert(c2.slot(ci) == c1.slot(ci));
            },
        }
    }
    // no port but the rewired one reads the freed cell
    assert forall|i: int, p: int|
        0 <= i < nodes.len() && nodes[i] is Some && 0 <= p < nodes[i].unwrap().ports@.len() && (i
            != tni || p != tpi) implies #[trigger] port_at(nodes, i, p).cache_index != freed by {
        if owner_at(nodes, i, p) {
        } else {
            assert(nodes[i].unwrap().ports@[p].is_connected);
            let j = choose|j: int|
                0 <= j < mid.edges@.len() && (#[trigger] mid.edges@[j]).to_node == i
                    && mid.edges@[j].to_port == p;
            let e = mid.edges@[j];
            assert(edge_ok(e, nodes, c1));
            assert(port_at(nodes, i, p).cache_index == port_at(
                nodes,
                e.from_node as int,
                e.from_port as int,
            ).cache_index);
            assert(owner_at(nodes, e.from_node as int, e.from_port as int));
            assert(!(e.from_node as int == tni && e.from_port as int == tpi));
        }
    }
    // the source's cell is not the freed cell
    assert(owner_at(nodes, fni, fpi));
    assert(x != freed);
    assert(c2.slot(x) is Some);
    // well-placed nodes
    assert forall|i: int|
        0 <= i < nodes2.len() && (#[trigger] nodes2[i]) is Some implies node_ok(
        nodes2[i].unwrap(),
        c2,
    ) by {
        let m = nodes2[i].unwrap();
        assert forall|p: int| 0 <= p < m.ports@.len() implies {
            let port = #[trigger] m.ports@[p];
            &&& port.direction == port_dir(m.kind, p)
            &&& port.cache_index.type_tag == port_tag(m.kind, p)
            &&& c2.slot(port.cache_index) is Some
            &&& (!port.is_connected ==> port.cache_index == port.default_cache_index)
            &&& (port.direction == Direction::Output ==> !port.is_connected)
        } by {
            if i == tni && p == tpi {
                assert(m.ports@[p].cache_index == x);
                assert(x.type_tag == port_tag(fromn.kind, fpi));
            } else {
                let oldport = if i == tni {
                    ton_old.ports@[p]
                } else {
                    nodes[i].unwrap().ports@[p]
                };
                assert(m.ports@[p] == oldport);
                assert(node_ok(nodes[i].unwrap(), c1));
                assert(c1.slot(oldport.cache_index) is Some);
                assert(port_at(nodes, i, p).cache_index != freed);
                assert(oldport.cache_index != freed);
            }
        }
    }
    // well-placed edges
    assert forall|j: int|
        0 <= j < post.edges@.len() implies edge_ok(#[trigger] post.edges@[j], nodes2, c2) by {
        let e = post.edges@[j];
        if j < mid.edges@.len() {
            assert(e == mid.edges@[j]);
            assert(edge_ok(e, nodes, c1));
            assert(!(e.to_node as int == tni && e.to_port as int == tpi));
            let tports_old = nodes[e.to_node as int].unwrap().ports@;
            let fports_old = nodes[e.from_node as int].unwrap().ports@;
            if e.to_node as int == tni {
                assert(nodes2[e.to_node as int].unwrap().ports@[e.to_port as int]
                    == tports_old[e.to_port as int]);
            } else {
                assert(nodes2[e.to_node as int] == nodes[e.to_node as int]);
            }
            if e.from_node as int == tni {
                assert(fports_old[e.from_port as int].direction == Direction::Output);
                assert(e.from_port as int != tpi);
                assert(nodes2[e.from_node as int].unwrap().ports@[e.from_port as int]
                    == fports_old[e.from_port as int]);
            } else {
                assert(nodes2[e.from_node as int] == nodes[e.from_node as int]);
            }
        } else {
            assert(j == mid.edges@.len() as int);
            assert(e.to_node as int == tni && e.to_port as int == tpi);
            assert(ton_new.ports@[tpi].cache_index == x);
            if fni == tni {
                assert(nodes2[fni].unwrap().ports@[fpi] == ton_old.ports@[fpi]);
            } else {
                assert(nodes2[fni] == nodes[fni]);
            }
        }
    }
    // at most one edge per input
    assert forall|j1: int, j2: int|
        0 <= j1 < j2 < post.edges@.len() implies !((#[trigger] post.edges@[j1]).to_node == (
        #[trigger] post.edges@[j2]).to_node && post.edges@[j1].to_port
            == post.edges@[j2].to_port) by {
        if j2 == mid.edges@.len() as int {
            assert(post.edges@[j1] == mid.edges@[j1]);
        } else {
            assert(post.edges@[j1] == mid.edges@[j1]);
            assert(post.edges@[j2] == mid.edges@[j2]);
        }
    }
    // every connected input has its edge
    assert forall|i: int, p: int|
        0 <= i < nodes2.len() && (#[trigger] nodes2[i]) is Some && 0 <= p
            < nodes2[i].unwrap().ports@.len() && (#[trigger] nodes2[i].unwrap().ports@[p]).is_connected
            implies exists|j: int|
            0 <= j < post.edges@.len() && (#[trigger] post.edges@[j]).to_node == i
                && post.edges@[j].to_port == p by {
        if i == tni && p == tpi {
            let j = mid.edges@.len() as int;
            assert(0 <= j < post.edges@.len() && post.edges@[j].to_node == i
                && post.edges@[j].to_port == p);
        } else {
            let oldport = if i == tni {
                ton_old.ports@[p]
            } else {
                nodes[i].unwrap().ports@[p]
            };
            assert(nodes2[i].unwrap().ports@[p] == oldport);
            assert(nodes[i].unwrap().ports@[p].is_connected);
            let j = choose|j: int|
                0 <= j < mid.edges@.len() && (#[trigger] mid.edges@[j]).to_node == i
                    && mid.edges@[j].to_port == p;
            assert(post.edges@[j] == mid.edges@[j]);
        }
    }
    // owners' cells stay pairwise distinct
    assert forall|i1: int, p1: int, i2: int, p2: int|
        #[trigger] owner_at(nodes2, i1, p1) && #[trigger] owner_at(nodes2, i2, p2) && (i1 != i2
            || p1 != p2) implies port_at(nodes2, i1, p1).cache_index != port_at(
        nodes2,
        i2,
        p2,
    ).cache_index by {
        assert(!(i1 == tni && p1 == tpi));
        assert(!(i2 == tni && p2 == tpi));
        if i1 == tni {
            assert(port_at(nodes2, i1, p1) == ton_old.ports@[p1]);
        } else {
            assert(nodes2[i1] == nodes[i1]);
        }
        if i2 == tni {
            assert(port_at(nodes2, i2, p2) == ton_old.ports@[p2]);
        } else {
            assert(nodes2[i2] == nodes[i2]);
        }
        assert(owner_at(nodes, i1, p1));
        assert(owner_at(nodes, i2, p2));
    }
}

/// Every entry of `a` occurs somewhere in `b`.
pub open spec fn edges_subset(a: Seq<Edge>, b: Seq<Edge>) -> bool {
    forall|j: int| 0 <= j < a.len() ==> b.contains(#[trigger] a[j])
}

/// Every entry of `b` that `keep` accepts occurs somewhere in `a`.
pub open spec fn edges_keep_subset(b: Seq<Edge>, a: Seq<Edge>, keep: spec_fn(Edge) -> bool) -> bool {
    forall|j2: int| 0 <= j2 < b.len() && keep(#[trigger] b[j2]) ==> a.contains(b[j2])
}

proof fn lemma_edges_same_presence(a: Seq<Edge>, keep: spec_fn(Edge) -> bool)
    ensures
        edges_subset(a, a),
        edges_keep_subset(a, a, keep),
{
    assert forall|j: int| 0 <= j < a.len() implies a.contains(#[trigger] a[j]) by {
        assert(a[j] == a[j]);
    }
}

/// Removing an entry that `keep` rejects preserves both presence relations
/// against the starting list.
proof fn lemma_edges_presence_step(
    pre: Seq<Edge>,
    before: Seq<Edge>,
    after: Seq<Edge>,
    i: int,
    keep: spec_fn(Edge) -> bool,
)
    requires
        0 <= i < before.len(),
        after == before.remove(i),
        !keep(before[i]),
        edges_subset(before, pre),
        edges_keep_subset(pre, before, keep),
    ensures
        edges_subset(after, pre),
        edges_keep_subset(pre, after, keep),
{
    assert forall|j: int| 0 <= j < after.len() implies pre.contains(#[trigger] after[j]) by {
        if j < i {
            assert(after[j] == before[j]);
        } else {
            assert(after[j] == before[j + 1]);
        }
        assert(before.contains(after[j]));
    }
    assert forall|j2: int|
        0 <= j2 < pre.len() && keep(#[trigger] pre[j2]) implies after.contains(pre[j2]) by {
        assert(before.contains(pre[j2]));
        let jb = choose|jb: int| 0 <= jb < before.len() && before[jb] == pre[j2];
        assert(jb != i);
        if jb < i {
            assert(after[jb] == before[jb]);
        } else {
            assert(after[jb - 1] == before[jb]);
        }
        assert(after.contains(pre[j2]));
    }
}

proof fn lemma_remove_node_wf(severed: App, evicted: App, post: App, removed: Node, ni: int)
    requires
        severed.wf(),
        0 <= ni < severed.nodes@.len(),
        severed.nodes@[ni] is Some,
        removed == severed.nodes@[ni].unwrap(),
        forall|j: int|
            0 <= j < severed.edges@.len() ==> !((#[trigger] severed.edges@[j]).from_node as int
                == ni || severed.edges@[j].to_node as int == ni),
        forall|p: int|
            0 <= p < removed.ports@.len() ==> owned_port(#[trigger] removed.ports@[p]),
        evicted.cache == severed.cache,
        evicted.edges@ == severed.edges@,
        evicted.nodes.wf(),
        evicted.nodes@ == severed.nodes@.update(ni, None),
        post.nodes@ == evicted.nodes@,
        post.edges@ == evicted.edges@,
        post.nodes == evicted.nodes,
        post.cache.wf(),
        forall|p: int|
            0 <= p < removed.ports@.len() && owned_port(#[trigger] removed.ports@[p])
                && removed.ports@[p].cache_index.type_tag == port_tag(removed.kind, p)
                ==> post.cache.slot(removed.ports@[p].cache_index) is None,
        forall|c2: CacheIndex|
            #[trigger] post.cache.slot(c2) != evicted.cache.slot(c2) ==> post.cache.slot(
                c2,
            ) is None && exists|p: int|
                0 <= p < removed.ports@.len() && owned_port(#[trigger] removed.ports@[p]) && c2
                    == removed.ports@[p].cache_index,
    ensures
        post.wf(),
{
    let nodes = severed.nodes@;
    let nodes2 = post.nodes@;
    let c1 = severed.cache;
    let c2 = post.cache;
    assert(node_ok(removed, c1));
    // every cell a surviving port reads is not one of the removed node's
    // owned cells, hence untouched
    assert forall|i: int, p: int|
        0 <= i < nodes2.len() && nodes2[i] is Some && 0 <= p < nodes2[i].unwrap().ports@.len()
            implies c2.slot((#[trigger] port_at(nodes2, i, p)).cache_index) == c1.slot(
        port_at(nodes2, i, p).cache_index,
    ) by {
        assert(i != ni);
        assert(nodes2[i] == nodes[i]);
        let ci = port_at(nodes, i, p).cache_index;
        if c2.slot(ci) != evicted.cache.slot(ci) {
            let p2 = choose|p2: int|
                0 <= p2 < removed.ports@.len() && owned_port(#[trigger] removed.ports@[p2]) && ci
                    == removed.ports@[p2].cache_index;
            assert(owner_at(nodes, ni, p2));
            if owner_at(nodes, i, p) {
                assert(port_at(nodes, i, p).cache_index != port_at(nodes, ni, p2).cache_index);
                assert(false);
            } else {
                assert(nodes[i].unwrap().ports@[p].is_connected);
                let j = choose|j: int|
                    0 <= j < severed.edges@.len() && (#[trigger] severed.edges@[j]).to_node == i
                        && severed.edges@[j].to_port == p;
                let e = severed.edges@[j];
                assert(edge_ok(e, nodes, c1));
                assert(port_at(nodes, i, p).cache_index == port_at(
                    nodes,
                    e.from_node as int,
                    e.from_port as int,
                ).cache_index);
                assert(owner_at(nodes, e.from_node as int, e.from_port as int));
                assert(e.from_node as int != ni);
                assert(port_at(nodes, e.from_node as int, e.from_port as int).cache_index
                    != port_at(nodes, ni, p2).cache_index);
                assert(false);
            }
        }
    }
    assert forall|i: int|
        0 <= i < nodes2.len() && (#[trigger] nodes2[i]) is Some implies node_ok(
        nodes2[i].unwrap(),
        c2,
    ) by {
        assert(i != ni);
        assert(nodes2[i] == nodes[i]);
        let m = nodes2[i].unwrap();
        assert(node_ok(m, c1));
        assert forall|p: int| 0 <= p < m.ports@.len() implies c2.slot(
            (#[trigger] m.ports@[p]).cache_index,
        ) is Some by {
            assert(c2.slot(port_at(nodes2, i, p).cache_index) == c1.slot(
                port_at(nodes2, i, p).cache_index,
            ));
        }
    }
    assert forall|j: int|
        0 <= j < post.edges@.len() implies edge_ok(#[trigger] post.edges@[j], nodes2, c2) by {
        let e = post.edges@[j];
        assert(edge_ok(e, nodes, c1));
        assert(e.from_node as int != ni && e.to_node as int != ni);
        assert(nodes2[e.from_node as int] == nodes[e.from_node as int]);
        assert(nodes2[e.to_node as int] == nodes[e.to_node as int]);
        assert(c2.slot(port_at(nodes2, e.to_node as int, e.to_port as int).cache_index) == c1.slot(
            port_at(nodes2, e.to_node as int, e.to_port as int).cache_index,
        ));
    }
    assert forall|i: int, p: int|
        0 <= i < nodes2.len() && (#[trigger] nodes2[i]) is Some && 0 <= p
            < nodes2[i].unwrap().ports@.len() && (#[trigger] nodes2[i].unwrap().ports@[p]).is_connected
            implies exists|j: int|
            0 <= j < post.edges@.len() && (#[trigger] post.edges@[j]).to_node == i
                && post.edges@[j].to_port == p by {
        assert(i != ni);
        assert(nodes2[i] == nodes[i]);
    }
    assert forall|i1: int, p1: int, i2: int, p2: int|
        #[trigger] owner_at(nodes2, i1, p1) && #[trigger] owner_at(nodes2, i2, p2) && (i1 != i2
            || p1 != p2) implies port_at(nodes2, i1, p1).cache_index != port_at(
        nodes2,
        i2,
        p2,
    ).cache_index by {
        assert(i1 != ni && i2 != ni);
        assert(nodes2[i1] == nodes[i1]);
        assert(nodes2[i2] == nodes[i2]);
        assert(owner_at(nodes, i1, p1));
        assert(owner_at(nodes, i2, p2));
    }
}

/// The cache after computing the nodes of the first `upto` arena slots, in
/// slot order.
pub open spec fn compute_pass(
    nodes: Seq<Option<Node>>,
    upto: int,
    m: crate::cache::CacheModel,
) -> crate::cache::CacheModel
    decreases upto,
{
    if upto <= 0 {
        m
    } else {
        let prev = compute_pass(nodes, upto - 1, m);
        match nodes[upto - 1] {
            Some(n) => compute_model(n.kind, n.ports@, prev),
            None => prev,
        }
    }
}

/// A cache rewrite that keeps every slot's occupancy (such as a compute
/// pass, which writes cells but never frees or creates one) preserves the
/// graph invariant.
proof fn lemma_wf_after_cache_rewrite(pre: App, post: App)
    requires
        pre.wf(),
        post.nodes == pre.nodes,
        post.edges@ == pre.edges@,
        post.cache.wf(),
        forall|ci: CacheIndex|
            #[trigger] post.cache.slot(ci) is Some <==> pre.cache.slot(ci) is Some,
    ensures
        post.wf(),
{
    assert forall|i: int|
        0 <= i < post.nodes@.len() && (#[trigger] post.nodes@[i]) is Some implies node_ok(
        post.nodes@[i].unwrap(),
        post.cache,
    ) by {
        let m = post.nodes@[i].unwrap();
        assert(node_ok(m, pre.cache));
        assert forall|p: int| 0 <= p < m.ports@.len() implies post.cache.slot(
            (#[trigger] m.ports@[p]).cache_index,
        ) is Some by {
            assert(pre.cache.slot(m.ports@[p].cache_index) is Some);
        }
    }
    assert forall|j: int|
        0 <= j < post.edges@.len() implies edge_ok(#[trigger] post.edges@[j], post.nodes@, post.cache) by {
        assert(edge_ok(post.edges@[j], pre.nodes@, pre.cache));
    }
}

/// Single-source law: at most one edge targets any `(to_node, to_port)`
/// pair, so wiring a second source to an already-wired input leaves exactly
/// one edge there (the later one, by `add_edge`'s contract).
pub proof fn lemma_single_source_per_input(app: &App, j1: int, j2: int)
    requires
        app.wf(),
        0 <= j1 < app.spec_edges().len(),
        0 <= j2 < app.spec_edges().len(),
        j1 != j2,
    ensures
        !(app.spec_edges()[j1].to_node == app.spec_edges()[j2].to_node
            && app.spec_edges()[j1].to_port == app.spec_edges()[j2].to_port),
{
}

/// Aliasing law: every edge's destination port reads exactly its source
/// output's cell, and a value written through the source's handle is what a
/// read through the destination's handle observes.
pub proof fn lemma_edge_aliasing(app: &App, j: int, v: Value)
    requires
        app.wf(),
        0 <= j < app.spec_edges().len(),
    ensures
        ({
            let e = app.spec_edges()[j];
            let src = app.spec_nodes()[e.from_node as int].unwrap().ports@[e.from_port as int];
            let dst = app.spec_nodes()[e.to_node as int].unwrap().ports@[e.to_port as int];
            &&& (e.from_node as int) < app.spec_nodes().len()
            &&& app.spec_nodes()[e.from_node as int] is Some
            &&& (e.to_node as int) < app.spec_nodes().len()
            &&& app.spec_nodes()[e.to_node as int] is Some
            &&& dst.cache_index == src.cache_index
            &&& (v.spec_tag() == src.cache_index.type_tag ==> crate::cache::model_slot(
                crate::cache::model_set(app.spec_cache().model(), src.cache_index, v),
                dst.cache_index,
            ) == Some(v))
        }),
{
    let e = app.spec_edges()[j];
    assert(edge_ok(e, app.spec_nodes(), app.spec_cache()));
    let src = app.spec_nodes()[e.from_node as int].unwrap().ports@[e.from_port as int];
    assert(node_ok(app.spec_nodes()[e.from_node as int].unwrap(), app.spec_cache()));
    assert(app.spec_cache().slot(src.cache_index) is Some);
    crate::cache::lemma_model_set_slot(
        app.spec_cache().model(),
        src.cache_index,
        v,
        src.cache_index,
    );
}

/// Disconnection law: removing an edge hands the destination a fresh
/// private cell, distinct from the source output's cell, holding the
/// destination's default value again — so later writes through the source
/// are no longer visible through the destination.
pub proof fn lemma_disconnect_restores_isolation(pre: App, post: App, j: int)
    requires
        pre.wf(),
        0 <= j < pre.spec_edges().len(),
        removed_edge_effect(pre, post, pre.spec_edges()[j]),
    ensures
        ({
            let e = pre.spec_edges()[j];
            let newp = post.spec_nodes()[e.to_node as int].unwrap().ports@[e.to_port as int];
            let src = pre.spec_nodes()[e.from_node as int].unwrap().ports@[e.from_port as int];
            &&& newp.cache_index != src.cache_index
            &&& post.spec_cache().slot(newp.cache_index) == Some(
                default_value(
                    pre.spec_nodes()[e.to_node as int].unwrap().kind,
                    e.to_port as int,
                ),
            )
        }),
{
    let e = pre.spec_edges()[j];
    assert(edge_ok(e, pre.spec_nodes(), pre.spec_cache()));
    let src = pre.spec_nodes()[e.from_node as int].unwrap().ports@[e.from_port as int];
    assert(node_ok(pre.spec_nodes()[e.from_node as int].unwrap(), pre.spec_cache()));
    assert(pre.spec_cache().slot(src.cache_index) is Some);
}

/// No dangling handles: in a well-formed graph every port of every live
/// node reads an occupied cell — removing a node never leaves a reachable
/// handle pointing into its freed cells.
pub proof fn lemma_no_dangling_handles(app: &App, i: int, p: int)
    requires
        app.wf(),
        0 <= i < app.spec_nodes().len(),
        app.spec_nodes()[i] is Some,
        0 <= p < app.spec_nodes()[i].unwrap().ports@.len(),
    ensures
        app.spec_cache().slot(app.spec_nodes()[i].unwrap().ports@[p].cache_index) is Some,
{
    assert(node_ok(app.spec_nodes()[i].unwrap(), app.spec_cache()));
}

} // verus!
