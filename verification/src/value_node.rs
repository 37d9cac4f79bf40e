//! The value node: no inputs, one scalar output (default 0) that the editor
//! layer writes directly through `Cache::set`.

use vstd::prelude::*;

use crate::cache::Cache;
use crate::node::Direction;
use crate::node::Node;
use crate::node::NodeKind;
use crate::node::Port;
use crate::node::fresh_node;
use crate::values::Value;

verus! {

pub fn node_factory(cache: &mut Cache) -> (n: Node)
    requires
        old(cache).wf(),
    ensures
        final(cache).wf(),
        n.kind == NodeKind::Value,
        fresh_node(n, *old(cache), *final(cache)),
{
    let value = cache.insert(Value::Num(0));

    let mut ports: Vec<Port> = Vec::new();
    ports.push(Port::new(value, Direction::Output));

    Node::new(ports, NodeKind::Value)
}

} // verus!
