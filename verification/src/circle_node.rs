//! The circle node: a vector position input (default origin) and a scalar
//! radius input (default 5) joined into one circle output on every compute
//! pass.

use vstd::prelude::*;

use crate::cache::Cache;
use crate::cache::CacheIndex;
use crate::cache::CacheModel;
use crate::cache::model_set;
use crate::node::Direction;
use crate::node::Node;
use crate::node::NodeKind;
use crate::node::Port;
use crate::node::after_connect_hook;
use crate::node::after_disconnect_hook;
use crate::node::fresh_node;
use crate::node::num_at;
use crate::node::read_num;
use crate::node::read_vec2;
use crate::node::vec2_at;
use crate::values::Circle;
use crate::values::Tag;
use crate::values::Value;
use crate::values::Vec2;

verus! {

/// The cache after one compute pass of a circle node: the output cell takes
/// the circle built from the position and radius inputs.
pub open spec fn compute_model(ports: Seq<Port>, m: CacheModel) -> CacheModel {
    if ports.len() == 3 {
        match (vec2_at(m, ports[0].cache_index), num_at(m, ports[1].cache_index)) {
            (Some(position), Some(radius)) => model_set(
                m,
                ports[2].cache_index,
                Value::Circle(Circle { position, radius }),
            ),
            _ => m,
        }
    } else {
        m
    }
}

pub fn node_factory(cache: &mut Cache) -> (n: Node)
    requires
        old(cache).wf(),
    ensures
        final(cache).wf(),
        n.kind == NodeKind::Circle,
        fresh_node(n, *old(cache), *final(cache)),
{
    let position = cache.insert(Value::Vec2(Vec2 { x: 0, y: 0 }));
    let radius = cache.insert(Value::Num(5));
    let circle = cache.insert(
        Value::Circle(Circle { position: Vec2 { x: 0, y: 0 }, radius: 5 }),
    );

    let mut ports: Vec<Port> = Vec::new();
    ports.push(Port::new(position, Direction::Input));
    ports.push(Port::new(radius, Direction::Input));
    ports.push(Port::new(circle, Direction::Output));

    Node::new(ports, NodeKind::Circle)
}

pub(crate) fn compute(ports: &Vec<Port>, cache: &mut Cache)
    requires
        old(cache).wf(),
    ensures
        final(cache).wf(),
        final(cache).model() == compute_model(ports@, old(cache).model()),
{
    if ports.len() == 3 {
        let position = read_vec2(cache, ports[0].get_cache_index());
        let radius = read_num(cache, ports[1].get_cache_index());
        match (position, radius) {
            (Some(position), Some(radius)) => {
                cache.set(
                    ports[2].get_cache_index(),
                    Value::Circle(Circle { position, radius }),
                );
            },
            _ => {},
        }
    }
}

pub(crate) fn connect(ports: &Vec<Port>, port_index: usize, cache: &mut Cache)
    requires
        old(cache).wf(),
        port_index < ports@.len(),
    ensures
        after_connect_hook(
            NodeKind::Circle,
            ports@,
            port_index as int,
            *old(cache),
            *final(cache),
        ),
{
    if port_index == 0 {
        cache.remove(ports[0].get_cache_index(), Tag::Vec2);
    } else if port_index == 1 {
        cache.remove(ports[1].get_cache_index(), Tag::Num);
    }
}

pub(crate) fn disconnect(ports: &Vec<Port>, port_index: usize, cache: &mut Cache) -> (r: Option<
    CacheIndex,
>)
    requires
        old(cache).wf(),
        port_index < ports@.len(),
    ensures
        after_disconnect_hook(
            NodeKind::Circle,
            ports@,
            port_index as int,
            *old(cache),
            *final(cache),
            r,
        ),
{
    if port_index == 0 {
        Some(cache.insert(Value::Vec2(Vec2 { x: 0, y: 0 })))
    } else if port_index == 1 {
        Some(cache.insert(Value::Num(5)))
    } else {
        None
    }
}

} // verus!
