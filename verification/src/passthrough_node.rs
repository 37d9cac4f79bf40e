//! The passthrough node: one scalar input (default 0) copied verbatim to one
//! scalar output on every compute pass.

use vstd::prelude::*;

use crate::cache::Cache;
use crate::cache::CacheIndex;
use crate::cache::CacheModel;
use crate::cache::model_slot;
use crate::cache::model_set;
use crate::node::Direction;
use crate::node::Node;
use crate::node::NodeKind;
use crate::node::Port;
use crate::node::after_connect_hook;
use crate::node::after_disconnect_hook;
use crate::node::fresh_node;
use crate::values::Tag;
use crate::values::Value;

verus! {

/// The cache after one compute pass of a passthrough node: the output cell
/// takes whatever the input cell holds.
pub open spec fn compute_model(ports: Seq<Port>, m: CacheModel) -> CacheModel {
    if ports.len() == 2 {
        match model_slot(m, ports[0].cache_index) {
            Some(v) => model_set(m, ports[1].cache_index, v),
            None => m,
        }
    } else {
        m
    }
}

pub fn node_factory(cache: &mut Cache) -> (n: Node)
    requires
        old(cache).wf(),
    ensures
        final(cache).wf(),
        n.kind == NodeKind::Passthrough,
        fresh_node(n, *old(cache), *final(cache)),
{
    let input = cache.insert(Value::Num(0));
    let output = cache.insert(Value::Num(0));

    let mut ports: Vec<Port> = Vec::new();
    ports.push(Port::new(input, Direction::Input));
    ports.push(Port::new(output, Direction::Output));

    Node::new(ports, NodeKind::Passthrough)
}

pub(crate) fn compute(ports: &Vec<Port>, cache: &mut Cache)
    requires
        old(cache).wf(),
    ensures
        final(cache).wf(),
        final(cache).model() == compute_model(ports@, old(cache).model()),
{
    if ports.len() == 2 {
        let value = match cache.get(ports[0].get_cache_index()) {
            Some(v) => Some(*v),
            None => None,
        };
        match value {
            Some(v) => {
                cache.set(ports[1].get_cache_index(), v);
            },
            None => {},
        }
    }
}

pub(crate) fn connect(ports: &Vec<Port>, port_index: usize, cache: &mut Cache)
    requires
        old(cache).wf(),
        port_index < ports@.len(),
    ensures
        after_connect_hook(
            NodeKind::Passthrough,
            ports@,
            port_index as int,
            *old(cache),
            *final(cache),
        ),
{
    if port_index == 0 {
        cache.remove(ports[0].get_cache_index(), Tag::Num);
    }
}

pub(crate) fn disconnect(ports: &Vec<Port>, port_index: usize, cache: &mut Cache) -> (r: Option<
    CacheIndex,
>)
    requires
        old(cache).wf(),
        port_index < ports@.len(),
    ensures
        after_disconnect_hook(
            NodeKind::Passthrough,
            ports@,
            port_index as int,
            *old(cache),
            *final(cache),
            r,
        ),
{
    if port_index == 0 {
        Some(cache.insert(Value::Num(0)))
    } else {
        None
    }
}

} // verus!
