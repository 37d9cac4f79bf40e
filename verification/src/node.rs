//! Ports and nodes. A port is a named slot on a node: a direction, a handle
//! to the node's private default cell, the handle currently in effect, and a
//! connected flag. A node is an ordered list of ports plus a kind; the kind
//! selects the node's compute, connect, disconnect and cache-release
//! behaviour, dispatched through a match.

use vstd::prelude::*;

use crate::cache::Cache;
use crate::cache::CacheIndex;
use crate::cache::CacheModel;
use crate::cache::model_slot;
use crate::values::Tag;
use crate::values::Value;
use crate::values::Vec2;
use crate::values::Particle;
use crate::values::Circle;

verus! {

#[derive(Clone, Copy, PartialEq, Eq, Structural, Debug)]
pub enum Direction {
    Input,
    Output,
}

/// A connection point on a node, backed by a cache cell. When disconnected,
/// the port reads its own default cell; when connected, it reads a cell
/// owned by some upstream node's output port.
#[derive(Clone, Copy, PartialEq, Eq, Structural, Debug)]
pub struct Port {
    pub default_cache_index: CacheIndex,
    pub cache_index: CacheIndex,
    pub direction: Direction,
    pub is_connected: bool,
}

impl Port {
    pub fn new(default_cache_index: CacheIndex, direction: Direction) -> (r: Port)
        ensures
            r == (Port {
                default_cache_index,
                cache_index: default_cache_index,
                direction,
                is_connected: false,
            }),
    {
        Port { cache_index: default_cache_index, default_cache_index, direction, is_connected: false }
    }

    /// Redirects the port to another cell and marks it connected. Legal only
    /// on input ports; an output port always owns its storage and is left
    /// unchanged.
    pub fn connect(&mut self, new_cache_index: CacheIndex)
        ensures
            old(self).direction == Direction::Input ==> *final(self) == (Port {
                cache_index: new_cache_index,
                is_connected: true,
                ..*old(self)
            }),
            old(self).direction == Direction::Output ==> *final(self) == *old(self),
    {
        match self.direction {
            Direction::Input => {
                self.cache_index = new_cache_index;
                self.is_connected = true;
            },
            Direction::Output => {},
        }
    }

    /// Restores the port to its default cell and marks it disconnected.
    pub fn disconnect(&mut self)
        ensures
            *final(self) == (Port {
                cache_index: old(self).default_cache_index,
                is_connected: false,
                ..*old(self)
            }),
    {
        self.cache_index = self.default_cache_index;
        self.is_connected = false;
    }

    /// The handle currently in effect: the cell compute logic and rendering
    /// collaborators read and write through.
    pub fn get_cache_index(&self) -> (r: &CacheIndex)
        ensures
            *r == self.cache_index,
    {
        &self.cache_index
    }

    pub fn get_default_cache_index(&self) -> (r: &CacheIndex)
        ensures
            *r == self.default_cache_index,
    {
        &self.default_cache_index
    }

    pub fn set_default_cache_index(&mut self, new_default_cache_index: CacheIndex)
        ensures
            *final(self) == (Port { default_cache_index: new_default_cache_index, ..*old(self) }),
    {
        self.default_cache_index = new_default_cache_index;
    }

    pub fn get_direction(&self) -> (r: &Direction)
        ensures
            *r == self.direction,
    {
        &self.direction
    }

    pub fn is_connected(&self) -> (r: bool)
        ensures
            r == self.is_connected,
    {
        self.is_connected
    }
}

/// The closed set of node kinds.
#[derive(Clone, Copy, PartialEq, Eq, Structural, Debug)]
pub enum NodeKind {
    /// One scalar output the user edits directly.
    Value,
    /// One scalar input copied to one scalar output.
    Passthrough,
    /// Two scalar inputs joined into one vector output.
    Vector2D,
    /// A position and a radius joined into one circle output.
    Circle,
    /// A point mass driven by a force or by explicit state overrides.
    Particle,
}

/// How many ports a node of this kind has.
pub open spec fn port_count(k: NodeKind) -> int {
    match k {
        NodeKind::Value => 1,
        NodeKind::Passthrough => 2,
        NodeKind::Vector2D => 3,
        NodeKind::Circle => 3,
        NodeKind::Particle => 12,
    }
}

/// The direction of each port of a kind.
pub open spec fn port_dir(k: NodeKind, p: int) -> Direction {
    match k {
        NodeKind::Value => Direction::Output,
        NodeKind::Passthrough => if p == 0 {
            Direction::Input
        } else {
            Direction::Output
        },
        NodeKind::Vector2D => if p < 2 {
            Direction::Input
        } else {
            Direction::Output
        },
        NodeKind::Circle => if p < 2 {
            Direction::Input
        } else {
            Direction::Output
        },
        NodeKind::Particle => if p < 5 || p >= 9 {
            Direction::Input
        } else {
            Direction::Output
        },
    }
}

/// The value type flowing through each port of a kind.
pub open spec fn port_tag(k: NodeKind, p: int) -> Tag {
    match k {
        NodeKind::Value => Tag::Num,
        NodeKind::Passthrough => Tag::Num,
        NodeKind::Vector2D => if p < 2 {
            Tag::Num
        } else {
            Tag::Vec2
        },
        NodeKind::Circle => if p == 0 {
            Tag::Vec2
        } else if p == 1 {
            Tag::Num
        } else {
            Tag::Circle
        },
        NodeKind::Particle => if p == 0 {
            Tag::Num
        } else if p < 5 {
            Tag::Vec2
        } else if p == 5 {
            Tag::Particle
        } else if p < 9 {
            Tag::Vec2
        } else {
            Tag::Bool
        },
    }
}

/// The default value a kind's factory puts in each port's private cell, and
/// that a disconnect synthesizes anew for a managed input.
pub open spec fn default_value(k: NodeKind, p: int) -> Value {
    match k {
        NodeKind::Value => Value::Num(0),
        NodeKind::Passthrough => Value::Num(0),
        NodeKind::Vector2D => if p < 2 {
            Value::Num(0)
        } else {
            Value::Vec2(Vec2 { x: 0, y: 0 })
        },
        NodeKind::Circle => if p == 0 {
            Value::Vec2(Vec2 { x: 0, y: 0 })
        } else if p == 1 {
            Value::Num(5)
        } else {
            Value::Circle(Circle { position: Vec2 { x: 0, y: 0 }, radius: 5 })
        },
        NodeKind::Particle => if p == 0 {
            Value::Num(1)
        } else if p < 5 {
            Value::Vec2(Vec2 { x: 0, y: 0 })
        } else if p == 5 {
            Value::Particle(
                Particle {
                    mass: 1,
                    acceleration: Vec2 { x: 0, y: 0 },
                    velocity: Vec2 { x: 0, y: 0 },
                    position: Vec2 { x: 0, y: 0 },
                },
            )
        } else if p < 9 {
            Value::Vec2(Vec2 { x: 0, y: 0 })
        } else {
            Value::Bool(false)
        },
    }
}

/// Whether the kind's hooks manage the input port's private cell: the
/// connect hook frees it and the disconnect hook synthesizes a fresh one.
pub open spec fn managed_input(k: NodeKind, p: int) -> bool {
    match k {
        NodeKind::Value => false,
        NodeKind::Passthrough => p == 0,
        NodeKind::Vector2D => p == 0 || p == 1,
        NodeKind::Circle => p == 0 || p == 1,
        NodeKind::Particle => 0 <= p < 5,
    }
}

/// The internal flag port toggled when this input connects or disconnects,
/// if the kind has one for it.
pub open spec fn flag_port(k: NodeKind, p: int) -> Option<int> {
    if k == NodeKind::Particle && 2 <= p < 5 {
        Some(p + 7)
    } else {
        None
    }
}

/// What a freshly built node of kind `k` looks like, relating the cache
/// before (`pre`) and after (`post`) the factory ran: every port carries its
/// own newly inserted default cell of the right tag and direction, the cells
/// are pairwise distinct, and no previously occupied cell changed.
pub open spec fn fresh_node(n: Node, pre: Cache, post: Cache) -> bool {
    &&& n.ports@.len() == port_count(n.kind)
    &&& forall|p: int|
        0 <= p < n.ports@.len() ==> {
            let port = #[trigger] n.ports@[p];
            &&& port.direction == port_dir(n.kind, p)
            &&& !port.is_connected
            &&& port.cache_index == port.default_cache_index
            &&& port.cache_index.type_tag == port_tag(n.kind, p)
            &&& post.slot(port.cache_index) == Some(default_value(n.kind, p))
            &&& pre.slot(port.cache_index) is None
        }
    &&& forall|p1: int, p2: int|
        0 <= p1 < p2 < n.ports@.len() ==> (#[trigger] n.ports@[p1]).cache_index != (
        #[trigger] n.ports@[p2]).cache_index
    &&& forall|c2: CacheIndex| #[trigger] pre.slot(c2) is Some ==> post.slot(c2) == pre.slot(c2)
}

/// The scalar a model slot holds, if it holds one.
pub open spec fn num_at(m: CacheModel, ci: CacheIndex) -> Option<i64> {
    match model_slot(m, ci) {
        Some(Value::Num(n)) => Some(n),
        _ => None,
    }
}

/// The vector a model slot holds, if it holds one.
pub open spec fn vec2_at(m: CacheModel, ci: CacheIndex) -> Option<Vec2> {
    match model_slot(m, ci) {
        Some(Value::Vec2(v)) => Some(v),
        _ => None,
    }
}

/// The flag a model slot holds, if it holds one.
pub open spec fn bool_at(m: CacheModel, ci: CacheIndex) -> Option<bool> {
    match model_slot(m, ci) {
        Some(Value::Bool(b)) => Some(b),
        _ => None,
    }
}

/// The particle a model slot holds, if it holds one.
pub open spec fn particle_at(m: CacheModel, ci: CacheIndex) -> Option<Particle> {
    match model_slot(m, ci) {
        Some(Value::Particle(p)) => Some(p),
        _ => None,
    }
}

pub(crate) fn read_num(cache: &Cache, ci: &CacheIndex) -> (r: Option<i64>)
    ensures
        r == num_at(cache.model(), *ci),
{
    match cache.get(ci) {
        Some(v) => v.as_num(),
        None => None,
    }
}

pub(crate) fn read_vec2(cache: &Cache, ci: &CacheIndex) -> (r: Option<Vec2>)
    ensures
        r == vec2_at(cache.model(), *ci),
{
    match cache.get(ci) {
        Some(v) => v.as_vec2(),
        None => None,
    }
}

pub(crate) fn read_bool(cache: &Cache, ci: &CacheIndex) -> (r: Option<bool>)
    ensures
        r == bool_at(cache.model(), *ci),
{
    match cache.get(ci) {
        Some(v) => v.as_bool(),
        None => None,
    }
}

pub(crate) fn read_particle(cache: &Cache, ci: &CacheIndex) -> (r: Option<Particle>)
    ensures
        r == particle_at(cache.model(), *ci),
{
    match cache.get(ci) {
        Some(v) => v.as_particle(),
        None => None,
    }
}

/// A port that owns the cell its handle names: an output, or an input that
/// is disconnected and so still holds its private default.
pub open spec fn owned_port(port: Port) -> bool {
    port.direction == Direction::Output || !port.is_connected
}

/// What a kind's connect hook did to the cache: for a managed input it freed
/// the port's private default cell (a typed remove: effective only when the
/// handle carries the port's tag), set the kind's internal flag for the port
/// if there is one, and touched nothing else.
pub open spec fn after_connect_hook(
    k: NodeKind,
    ports: Seq<Port>,
    p: int,
    pre: Cache,
    post: Cache,
) -> bool {
    let target = ports[p].cache_index;
    &&& post.wf()
    &&& (managed_input(k, p) && target.type_tag == port_tag(k, p) ==> post.slot(target) is None)
    &&& (!(managed_input(k, p) && target.type_tag == port_tag(k, p)) && (match flag_port(k, p) {
        Some(fp) => target != ports[fp].cache_index,
        None => true,
    }) ==> post.slot(target) == pre.slot(target))
    &&& match flag_port(k, p) {
        Some(fp) => {
            let fci = ports[fp].cache_index;
            &&& (fci.type_tag == Tag::Bool && pre.slot(fci) is Some ==> post.slot(fci) == Some(
                Value::Bool(true),
            ))
            &&& (!(fci.type_tag == Tag::Bool && pre.slot(fci) is Some) && fci != target
                ==> post.slot(fci) == pre.slot(fci))
            &&& forall|c2: CacheIndex|
                c2 != target && c2 != fci ==> #[trigger] post.slot(c2) == pre.slot(c2)
        },
        None => forall|c2: CacheIndex| c2 != target ==> #[trigger] post.slot(c2) == pre.slot(c2),
    }
}

/// What a kind's disconnect hook did: for a managed input it synthesized a
/// fresh private cell holding the port's default value (returned as
/// `Some`), cleared the kind's internal flag for the port if there is one,
/// and touched nothing else; for any other port it did nothing.
pub open spec fn after_disconnect_hook(
    k: NodeKind,
    ports: Seq<Port>,
    p: int,
    pre: Cache,
    post: Cache,
    r: Option<CacheIndex>,
) -> bool {
    &&& post.wf()
    &&& if managed_input(k, p) {
        &&& r matches Some(fresh)
        &&& {
            let fresh = r.unwrap();
            &&& fresh.type_tag == port_tag(k, p)
            &&& pre.slot(fresh) is None
            &&& post.slot(fresh) == Some(default_value(k, p))
            &&& match flag_port(k, p) {
                Some(fp) => {
                    let fci = ports[fp].cache_index;
                    &&& (fci.type_tag == Tag::Bool && pre.slot(fci) is Some ==> post.slot(fci)
                        == Some(Value::Bool(false)))
                    &&& (!(fci.type_tag == Tag::Bool && pre.slot(fci) is Some) && fci != fresh
                        ==> post.slot(fci) == pre.slot(fci))
                    &&& forall|c2: CacheIndex|
                        c2 != fresh && c2 != fci ==> #[trigger] post.slot(c2) == pre.slot(c2)
                },
                None => forall|c2: CacheIndex|
                    c2 != fresh ==> #[trigger] post.slot(c2) == pre.slot(c2),
            }
        }
    } else {
        r is None && post == pre
    }
}

/// A node: an ordered list of ports and the kind that drives its behaviour.
pub struct Node {
    pub ports: Vec<Port>,
    pub kind: NodeKind,
}

impl Node {
    pub fn new(ports: Vec<Port>, kind: NodeKind) -> (n: Node)
        ensures
            n.ports@ == ports@,
            n.kind == kind,
    {
        Node { ports, kind }
    }

    /// The handle of a port's cell, `None` when the port index is out of
    /// range.
    pub fn get_output(&self, port_index: usize) -> (r: Option<&CacheIndex>)
        ensures
            match r {
                Some(ci) => port_index < self.ports@.len() && *ci
                    == self.ports@[port_index as int].cache_index,
                None => port_index >= self.ports@.len(),
            },
    {
        if port_index < self.ports.len() {
            Some(self.ports[port_index].get_cache_index())
        } else {
            None
        }
    }

    pub fn get_ports(&self) -> (r: &Vec<Port>)
        ensures
            r@ == self.ports@,
    {
        &self.ports
    }

    /// Redirects an input port to another cell: invokes the kind's connect
    /// hook (which disposes of the port's now superseded private default),
    /// then swaps the new handle in and marks the port connected. A no-op on
    /// an output port, an out-of-range index, or a port already connected.
    pub fn connect_input(
        &mut self,
        port_index: usize,
        new_cache_index: CacheIndex,
        cache: &mut Cache,
    )
        requires
            old(cache).wf(),
            old(self).ports@.len() == port_count(old(self).kind),
        ensures
            final(cache).wf(),
            ({
                let effective = port_index < old(self).ports@.len() && old(
                    self,
                ).ports@[port_index as int].direction == Direction::Input && !old(
                    self,
                ).ports@[port_index as int].is_connected;
                &&& !effective ==> *final(self) == *old(self) && *final(cache) == *old(cache)
                &&& effective ==> {
                    &&& final(self).kind == old(self).kind
                    &&& final(self).ports@ == old(self).ports@.update(
                        port_index as int,
                        Port {
                            cache_index: new_cache_index,
                            is_connected: true,
                            ..old(self).ports@[port_index as int]
                        },
                    )
                    &&& after_connect_hook(
                        old(self).kind,
                        old(self).ports@,
                        port_index as int,
                        *old(cache),
                        *final(cache),
                    )
                }
            }),
    {
        if port_index < self.ports.len() {
            let is_input = match *self.ports[port_index].get_direction() {
                Direction::Input => true,
                Direction::Output => false,
            };
            let connected = self.ports[port_index].is_connected();
            if is_input && !connected {
                match self.kind {
                    NodeKind::Value => {},
                    NodeKind::Passthrough => crate::passthrough_node::connect(
                        &self.ports,
                        port_index,
                        cache,
                    ),
                    NodeKind::Vector2D => crate::vector_node::connect(
                        &self.ports,
                        port_index,
                        cache,
                    ),
                    NodeKind::Circle => crate::circle_node::connect(&self.ports, port_index, cache),
                    NodeKind::Particle => crate::particle_node::connect(
                        &self.ports,
                        port_index,
                        cache,
                    ),
                }
                let port = &mut self.ports[port_index];
                port.connect(new_cache_index);
                proof {
                    assert(self.ports@ =~= old(self).ports@.update(
                        port_index as int,
                        Port {
                            cache_index: new_cache_index,
                            is_connected: true,
                            ..old(self).ports@[port_index as int]
                        },
                    ));
                }
            }
        }
    }

    /// Disconnects an input port: invokes the kind's disconnect hook to
    /// synthesize a fresh private default cell (the old one is gone since
    /// the prior connect), adopts it as the port's default and restores the
    /// port to it. A no-op on an output port, an out-of-range index, or a
    /// port not connected.
    pub fn disconnect_input(&mut self, port_index: usize, cache: &mut Cache)
        requires
            old(cache).wf(),
            old(self).ports@.len() == port_count(old(self).kind),
        ensures
            final(cache).wf(),
            ({
                let effective = port_index < old(self).ports@.len() && old(
                    self,
                ).ports@[port_index as int].direction == Direction::Input && old(
                    self,
                ).ports@[port_index as int].is_connected;
                &&& !effective ==> *final(self) == *old(self) && *final(cache) == *old(cache)
                &&& effective ==> {
                    let oldp = old(self).ports@[port_index as int];
                    let newp = final(self).ports@[port_index as int];
                    &&& final(self).kind == old(self).kind
                    &&& final(self).ports@.len() == old(self).ports@.len()
                    &&& forall|q: int|
                        0 <= q < old(self).ports@.len() && q != port_index as int ==> final(self).ports@[q] == #[trigger] old(self).ports@[q]
                    &&& newp.direction == Direction::Input
                    &&& !newp.is_connected
                    &&& newp.cache_index == newp.default_cache_index
                    &&& (!managed_input(old(self).kind, port_index as int) ==> newp
                        == (Port {
                        cache_index: oldp.default_cache_index,
                        is_connected: false,
                        ..oldp
                    }) && *final(cache) == *old(cache))
                    &&& (managed_input(old(self).kind, port_index as int) ==> {
                        &&& newp.direction == oldp.direction
                        &&& after_disconnect_hook(
                            old(self).kind,
                            old(self).ports@,
                            port_index as int,
                            *old(cache),
                            *final(cache),
                            Some(newp.default_cache_index),
                        )
                    })
                }
            }),
    {
        if port_index < self.ports.len() {
            let is_input = match *self.ports[port_index].get_direction() {
                Direction::Input => true,
                Direction::Output => false,
            };
            let connected = self.ports[port_index].is_connected();
            if is_input && connected {
                let fresh = match self.kind {
                    NodeKind::Value => None,
                    NodeKind::Passthrough => crate::passthrough_node::disconnect(
                        &self.ports,
                        port_index,
                        cache,
                    ),
                    NodeKind::Vector2D => crate::vector_node::disconnect(
                        &self.ports,
                        port_index,
                        cache,
                    ),
                    NodeKind::Circle => crate::circle_node::disconnect(
                        &self.ports,
                        port_index,
                        cache,
                    ),
                    NodeKind::Particle => crate::particle_node::disconnect(
                        &self.ports,
                        port_index,
                        cache,
                    ),
                };
                let port = &mut self.ports[port_index];
                match fresh {
                    Some(new_default) => {
                        port.set_default_cache_index(new_default);
                    },
                    None => {},
                }
                port.disconnect();
            }
        }
    }

    /// Runs the kind's compute behaviour against the cache. Safe to call
    /// every tick regardless of connection state: a missing or mistyped
    /// cell leaves the pass without effect rather than corrupting anything.
    pub fn compute(&self, cache: &mut Cache)
        requires
            old(cache).wf(),
        ensures
            final(cache).wf(),
            final(cache).model() == compute_model(self.kind, self.ports@, old(cache).model()),
    {
        match self.kind {
            NodeKind::Value => {},
            NodeKind::Passthrough => crate::passthrough_node::compute(&self.ports, cache),
            NodeKind::Vector2D => crate::vector_node::compute(&self.ports, cache),
            NodeKind::Circle => crate::circle_node::compute(&self.ports, cache),
            NodeKind::Particle => crate::particle_node::compute(&self.ports, cache),
        }
    }

    /// Frees every cache cell the node still owns: its output cells and the
    /// private default cells of its disconnected inputs. Cells a connected
    /// input merely reads belong to an upstream output and are left alone.
    pub fn remove_all_cache(&mut self, cache: &mut Cache)
        requires
            old(cache).wf(),
        ensures
            final(cache).wf(),
            *final(self) == *old(self),
            forall|p: int|
                0 <= p < old(self).ports@.len() && owned_port(#[trigger] old(self).ports@[p]) && old(
                    self,
                ).ports@[p].cache_index.type_tag == port_tag(old(self).kind, p) ==> final(cache).slot(old(self).ports@[p].cache_index) is None,
            forall|c2: CacheIndex|
                #[trigger] final(cache).slot(c2) != old(cache).slot(c2) ==> final(cache).slot(
                    c2,
                ) is None && exists|p: int|
                    0 <= p < old(self).ports@.len() && owned_port(#[trigger] old(self).ports@[p])
                        && c2 == old(self).ports@[p].cache_index,
    {
        let ghost pre = *cache;
        let mut p: usize = 0;
        while p < self.ports.len()
            invariant
                *self == *old(self),
                cache.wf(),
                p <= self.ports@.len(),
                forall|q: int|
                    0 <= q < p && owned_port(#[trigger] self.ports@[q])
                        && self.ports@[q].cache_index.type_tag == port_tag(self.kind, q)
                        ==> cache.slot(self.ports@[q].cache_index) is None,
                forall|c2: CacheIndex|
                    #[trigger] cache.slot(c2) != pre.slot(c2) ==> cache.slot(c2) is None && exists|
                        q: int,
                    |
                        0 <= q < p && owned_port(#[trigger] self.ports@[q]) && c2
                            == self.ports@[q].cache_index,
            decreases self.ports@.len() - p,
        {
            let owned = {
                let port = &self.ports[p];
                match *port.get_direction() {
                    Direction::Output => true,
                    Direction::Input => !port.is_connected(),
                }
            };
            if owned {
                let ghost before = *cache;
                let t = port_tag_exec(self.kind, p);
                cache.remove(self.ports[p].get_cache_index(), t);
                proof {
                    let tci = self.ports@[p as int].cache_index;
                    assert forall|c2: CacheIndex| #[trigger]
                        cache.slot(c2) != pre.slot(c2) implies cache.slot(c2) is None && exists|
                        q: int,
                    |
                        0 <= q < p + 1 && owned_port(#[trigger] self.ports@[q]) && c2
                            == self.ports@[q].cache_index by {
                        if c2 != tci {
                            assert(cache.slot(c2) == before.slot(c2));
                        } else {
                            if tci.type_tag == t {
                                assert(cache.slot(c2) is None);
                            } else {
                                assert(*cache == before);
                            }
                            assert(owned_port(self.ports@[p as int]));
                        }
                    }
                    assert forall|q: int|
                        0 <= q < p + 1 && owned_port(#[trigger] self.ports@[q])
                            && self.ports@[q].cache_index.type_tag == port_tag(self.kind, q)
                            implies cache.slot(self.ports@[q].cache_index) is None by {
                        if q < p {
                            if self.ports@[q].cache_index != tci {
                                assert(cache.slot(self.ports@[q].cache_index) == before.slot(
                                    self.ports@[q].cache_index,
                                ));
                            }
                        }
                    }
                }
            }
            p = p + 1;
        }
    }
}

/// The value type of a kind's port, as runtime data.
fn port_tag_exec(k: NodeKind, p: usize) -> (t: Tag)
    ensures
        t == port_tag(k, p as int),
{
    match k {
        NodeKind::Value => Tag::Num,
        NodeKind::Passthrough => Tag::Num,
        NodeKind::Vector2D => if p < 2 {
            Tag::Num
        } else {
            Tag::Vec2
        },
        NodeKind::Circle => if p == 0 {
            Tag::Vec2
        } else if p == 1 {
            Tag::Num
        } else {
            Tag::Circle
        },
        NodeKind::Particle => if p == 0 {
            Tag::Num
        } else if p < 5 {
            Tag::Vec2
        } else if p == 5 {
            Tag::Particle
        } else if p < 9 {
            Tag::Vec2
        } else {
            Tag::Bool
        },
    }
}

/// The cache after one compute pass of a node of kind `k`.
pub open spec fn compute_model(k: NodeKind, ports: Seq<Port>, m: CacheModel) -> CacheModel {
    match k {
        NodeKind::Value => m,
        NodeKind::Passthrough => crate::passthrough_node::compute_model(ports, m),
        NodeKind::Vector2D => crate::vector_node::compute_model(ports, m),
        NodeKind::Circle => crate::circle_node::compute_model(ports, m),
        NodeKind::Particle => crate::particle_node::compute_model(ports, m),
    }
}

/// A compute pass writes cells but never empties, creates or retags one:
/// every slot is occupied afterwards exactly when it was before, and an
/// occupied slot keeps its value's tag.
pub proof fn lemma_compute_model_occupancy(
    k: NodeKind,
    ports: Seq<Port>,
    m: CacheModel,
    ci: CacheIndex,
)
    ensures
        model_slot(compute_model(k, ports, m), ci) is Some <==> model_slot(m, ci) is Some,
{
    lemma_model_sets_occupancy(k, ports, m, ci);
}

proof fn lemma_model_sets_occupancy(k: NodeKind, ports: Seq<Port>, m: CacheModel, ci: CacheIndex)
    ensures
        model_slot(compute_model(k, ports, m), ci) is Some <==> model_slot(m, ci) is Some,
{
    match k {
        NodeKind::Value => {},
        NodeKind::Passthrough => {
            if ports.len() == 2 && model_slot(m, ports[0].cache_index) is Some {
                crate::cache::lemma_model_set_slot(
                    m,
                    ports[1].cache_index,
                    model_slot(m, ports[0].cache_index).unwrap(),
                    ci,
                );
            }
        },
        NodeKind::Vector2D => {
            let m2 = compute_model(k, ports, m);
            if m2 != m {
                crate::cache::lemma_model_set_slot(
                    m,
                    ports[2].cache_index,
                    Value::Vec2(
                        Vec2 {
                            x: num_at(m, ports[0].cache_index).unwrap(),
                            y: num_at(m, ports[1].cache_index).unwrap(),
                        },
                    ),
                    ci,
                );
            }
        },
        NodeKind::Circle => {
            let m2 = compute_model(k, ports, m);
            if m2 != m {
                crate::cache::lemma_model_set_slot(
                    m,
                    ports[2].cache_index,
                    Value::Circle(
                        Circle {
                            position: vec2_at(m, ports[0].cache_index).unwrap(),
                            radius: num_at(m, ports[1].cache_index).unwrap(),
                        },
                    ),
                    ci,
                );
            }
        },
        NodeKind::Particle => {
            lemma_particle_occupancy(ports, m, ci);
        },
    }
}

proof fn lemma_particle_occupancy(ports: Seq<Port>, m: CacheModel, ci: CacheIndex)
    ensures
        model_slot(crate::particle_node::compute_model(ports, m), ci) is Some <==> model_slot(
            m,
            ci,
        ) is Some,
{
    let m4 = crate::particle_node::compute_model(ports, m);
    if m4 != m {
        assert forall|m0: CacheModel, c: CacheIndex, v: Value|
            model_slot(#[trigger] crate::cache::model_set(m0, c, v), ci) is Some <==> model_slot(
                m0,
                ci,
            ) is Some by {
            crate::cache::lemma_model_set_slot(m0, c, v, ci);
        }
    }
}

} // verus!
