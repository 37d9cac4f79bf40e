//! The vector node: two scalar inputs (default 0 each) joined into one
//! vector output on every compute pass.

use vstd::prelude::*;

use crate::cache::Cache;
use crate::cache::CacheIndex;
use crate::cache::CacheModel;
use crate::cache::model_set;
use crate::node::Direction;
use crate::node::Node;
use crate::node::NodeKind;
use crate::node::Port;
use crate::node::after_connect_hook;
use crate::node::after_disconnect_hook;
use crate::node::fresh_node;
use crate::node::num_at;
use crate::node::read_num;
use crate::values::Tag;
use crate::values::Value;
use crate::values::Vec2;

verus! {

/// The cache after one compute pass of a vector node: the output cell takes
/// the vector built from the two scalar inputs.
pub open spec fn compute_model(ports: Seq<Port>, m: CacheModel) -> CacheModel {
    if ports.len() == 3 {
        match (num_at(m, ports[0].cache_index), num_at(m, ports[1].cache_index)) {
            (Some(x), Some(y)) => model_set(m, ports[2].cache_index, Value::Vec2(Vec2 { x, y })),
            _ => m,
        }
    } else {
        m
    }
}

pub fn node_factory(cache: &mut Cache) -> (n: Node)
    requires
        old(cache).wf(),
    ensures
        final(cache).wf(),
        n.kind == NodeKind::Vector2D,
        fresh_node(n, *old(cache), *final(cache)),
{
    let x = cache.insert(Value::Num(0));
    let y = cache.insert(Value::Num(0));
    let vector = cache.insert(Value::Vec2(Vec2 { x: 0, y: 0 }));

    let mut ports: Vec<Port> = Vec::new();
    ports.push(Port::new(x, Direction::Input));
    ports.push(Port::new(y, Direction::Input));
    ports.push(Port::new(vector, Direction::Output));

    Node::new(ports, NodeKind::Vector2D)
}

pub(crate) fn compute(ports: &Vec<Port>, cache: &mut Cache)
    requires
        old(cache).wf(),
    ensures
        final(cache).wf(),
        final(cache).model() == compute_model(ports@, old(cache).model()),
{
    if ports.len() == 3 {
        let x = read_num(cache, ports[0].get_cache_index());
        let y = read_num(cache, ports[1].get_cache_index());
        match (x, y) {
            (Some(x), Some(y)) => {
                cache.set(ports[2].get_cache_index(), Value::Vec2(Vec2 { x, y }));
            },
            _ => {},
        }
    }
}

pub(crate) fn connect(ports: &Vec<Port>, port_index: usize, cache: &mut Cache)
    requires
        old(cache).wf(),
        port_index < ports@.len(),
    ensures
        after_connect_hook(
            NodeKind::Vector2D,
            ports@,
            port_index as int,
            *old(cache),
            *final(cache),
        ),
{
    if port_index == 0 || port_index == 1 {
        cache.remove(ports[port_index].get_cache_index(), Tag::Num);
    }
}

pub(crate) fn disconnect(ports: &Vec<Port>, port_index: usize, cache: &mut Cache) -> (r: Option<
    CacheIndex,
>)
    requires
        old(cache).wf(),
        port_index < ports@.len(),
    ensures
        after_disconnect_hook(
            NodeKind::Vector2D,
            ports@,
            port_index as int,
            *old(cache),
            *final(cache),
            r,
        ),
{
    if port_index == 0 || port_index == 1 {
        Some(cache.insert(Value::Num(0)))
    } else {
        None
    }
}

} // verus!
