//! The particle node: a point mass driven each tick either by an explicit
//! state override (position, velocity or acceleration, selected by internal
//! flags that track which override inputs are wired) or by an applied force,
//! then integrated one step. Outputs expose the particle and its state.

use vstd::prelude::*;

use crate::cache::Cache;
use crate::cache::CacheIndex;
use crate::cache::CacheModel;
use crate::cache::model_set;
use crate::node::Direction;
use crate::node::Node;
use crate::node::NodeKind;
use crate::node::Port;
use crate::node::after_connect_hook;
use crate::node::after_disconnect_hook;
use crate::node::bool_at;
use crate::node::fresh_node;
use crate::node::num_at;
use crate::node::particle_at;
use crate::node::read_bool;
use crate::node::read_num;
use crate::node::read_particle;
use crate::node::read_vec2;
use crate::node::vec2_at;
use crate::values::Particle;
use crate::values::Tag;
use crate::values::Value;
use crate::values::Vec2;

verus! {

// Inputs
pub const MASS: usize = 0;

pub const FORCE: usize = 1;

pub const SET_ACCELERATION: usize = 2;

pub const SET_VELOCITY: usize = 3;

pub const SET_POSITION: usize = 4;

// Outputs
pub const PARTICLE: usize = 5;

pub const ACCELERATION: usize = 6;

pub const VELOCITY: usize = 7;

pub const POSITION: usize = 8;

// Internal flags
pub const USE_ACCELERATION: usize = 9;

pub const USE_VELOCITY: usize = 10;

pub const USE_POSITION: usize = 11;

/// The particle one compute pass produces from the node's current inputs.
pub open spec fn next_particle(
    particle: Particle,
    mass: i64,
    force: Vec2,
    set_acceleration: Vec2,
    set_velocity: Vec2,
    set_position: Vec2,
    use_acceleration: bool,
    use_velocity: bool,
    use_position: bool,
) -> Particle {
    let with_mass = Particle { mass, ..particle };
    let driven = if use_position {
        Particle { position: set_position, ..with_mass }
    } else if use_velocity {
        Particle { velocity: set_velocity, ..with_mass }
    } else if use_acceleration {
        Particle { acceleration: set_acceleration, ..with_mass }
    } else {
        with_mass.spec_apply_force(force)
    };
    driven.spec_update()
}

/// The cache after one compute pass of a particle node: the particle cell
/// takes the integrated state and the three state outputs take its
/// components, written in that order.
pub open spec fn compute_model(ports: Seq<Port>, m: CacheModel) -> CacheModel {
    if ports.len() == 12 {
        let mass = num_at(m, ports[MASS as int].cache_index);
        let force = vec2_at(m, ports[FORCE as int].cache_index);
        let set_acceleration = vec2_at(m, ports[SET_ACCELERATION as int].cache_index);
        let set_velocity = vec2_at(m, ports[SET_VELOCITY as int].cache_index);
        let set_position = vec2_at(m, ports[SET_POSITION as int].cache_index);
        let particle = particle_at(m, ports[PARTICLE as int].cache_index);
        let use_acceleration = bool_at(m, ports[USE_ACCELERATION as int].cache_index);
        let use_velocity = bool_at(m, ports[USE_VELOCITY as int].cache_index);
        let use_position = bool_at(m, ports[USE_POSITION as int].cache_index);
        if mass is Some && force is Some && set_acceleration is Some && set_velocity is Some
            && set_position is Some && particle is Some && use_acceleration is Some
            && use_velocity is Some && use_position is Some {
            let next = next_particle(
                particle.unwrap(),
                mass.unwrap(),
                force.unwrap(),
                set_acceleration.unwrap(),
                set_velocity.unwrap(),
                set_position.unwrap(),
                use_acceleration.unwrap(),
                use_velocity.unwrap(),
                use_position.unwrap(),
            );
            let m1 = model_set(m, ports[PARTICLE as int].cache_index, Value::Particle(next));
            let m2 = model_set(
                m1,
                ports[ACCELERATION as int].cache_index,
                Value::Vec2(next.acceleration),
            );
            let m3 = model_set(m2, ports[VELOCITY as int].cache_index, Value::Vec2(next.velocity));
            model_set(m3, ports[POSITION as int].cache_index, Value::Vec2(next.position))
        } else {
            m
        }
    } else {
        m
    }
}

pub fn node_factory(cache: &mut Cache) -> (n: Node)
    requires
        old(cache).wf(),
    ensures
        final(cache).wf(),
        n.kind == NodeKind::Particle,
        fresh_node(n, *old(cache), *final(cache)),
{
    let mass = cache.insert(Value::Num(1));
    let force = cache.insert(Value::Vec2(Vec2 { x: 0, y: 0 }));
    let set_acceleration = cache.insert(Value::Vec2(Vec2 { x: 0, y: 0 }));
    let set_velocity = cache.insert(Value::Vec2(Vec2 { x: 0, y: 0 }));
    let set_position = cache.insert(Value::Vec2(Vec2 { x: 0, y: 0 }));
    let particle = cache.insert(Value::Particle(Particle::new()));
    let acceleration = cache.insert(Value::Vec2(Vec2 { x: 0, y: 0 }));
    let velocity = cache.insert(Value::Vec2(Vec2 { x: 0, y: 0 }));
    let position = cache.insert(Value::Vec2(Vec2 { x: 0, y: 0 }));
    let use_acceleration = cache.insert(Value::Bool(false));
    let use_velocity = cache.insert(Value::Bool(false));
    let use_position = cache.insert(Value::Bool(false));

    let mut ports: Vec<Port> = Vec::new();
    ports.push(Port::new(mass, Direction::Input));
    ports.push(Port::new(force, Direction::Input));
    ports.push(Port::new(set_acceleration, Direction::Input));
    ports.push(Port::new(set_velocity, Direction::Input));
    ports.push(Port::new(set_position, Direction::Input));
    ports.push(Port::new(particle, Direction::Output));
    ports.push(Port::new(acceleration, Direction::Output));
    ports.push(Port::new(velocity, Direction::Output));
    ports.push(Port::new(position, Direction::Output));
    ports.push(Port::new(use_acceleration, Direction::Input));
    ports.push(Port::new(use_velocity, Direction::Input));
    ports.push(Port::new(use_position, Direction::Input));

    Node::new(ports, NodeKind::Particle)
}

pub(crate) fn compute(ports: &Vec<Port>, cache: &mut Cache)
    requires
        old(cache).wf(),
    ensures
        final(cache).wf(),
        final(cache).model() == compute_model(ports@, old(cache).model()),
{
    if ports.len() == 12 {
        let mass = read_num(cache, ports[MASS].get_cache_index());
        let force = read_vec2(cache, ports[FORCE].get_cache_index());
        let set_acceleration = read_vec2(cache, ports[SET_ACCELERATION].get_cache_index());
        let set_velocity = read_vec2(cache, ports[SET_VELOCITY].get_cache_index());
        let set_position = read_vec2(cache, ports[SET_POSITION].get_cache_index());
        let particle = read_particle(cache, ports[PARTICLE].get_cache_index());
        let use_acceleration = read_bool(cache, ports[USE_ACCELERATION].get_cache_index());
        let use_velocity = read_bool(cache, ports[USE_VELOCITY].get_cache_index());
        let use_position = read_bool(cache, ports[USE_POSITION].get_cache_index());
        match (
            mass,
            force,
            set_acceleration,
            set_velocity,
            set_position,
            particle,
            use_acceleration,
            use_velocity,
            use_position,
        ) {
            (
                Some(mass),
                Some(force),
                Some(set_acceleration),
                Some(set_velocity),
                Some(set_position),
                Some(particle),
                Some(use_acceleration),
                Some(use_velocity),
                Some(use_position),
            ) => {
                let mut next = particle;
                next.mass = mass;
                if use_position {
                    next.position = set_position;
                } else if use_velocity {
                    next.velocity = set_velocity;
                } else if use_acceleration {
                    next.acceleration = set_acceleration;
                } else {
                    next.apply_force(force);
                }
                next.update();
                cache.set(ports[PARTICLE].get_cache_index(), Value::Particle(next));
                let acceleration = next.get_acceleration();
                cache.set(ports[ACCELERATION].get_cache_index(), Value::Vec2(acceleration));
                let velocity = next.get_velocity();
                cache.set(ports[VELOCITY].get_cache_index(), Value::Vec2(velocity));
                let position = next.get_position();
                cache.set(ports[POSITION].get_cache_index(), Value::Vec2(position));
            },
            _ => {},
        }
    }
}

pub(crate) fn connect(ports: &Vec<Port>, port_index: usize, cache: &mut Cache)
    requires
        old(cache).wf(),
        port_index < ports@.len(),
        ports@.len() == 12,
    ensures
        after_connect_hook(
            NodeKind::Particle,
            ports@,
            port_index as int,
            *old(cache),
            *final(cache),
        ),
{
    if port_index == MASS {
        cache.remove(ports[MASS].get_cache_index(), Tag::Num);
    } else if port_index == FORCE {
        cache.remove(ports[FORCE].get_cache_index(), Tag::Vec2);
    } else if port_index == SET_ACCELERATION {
        connect_override(ports, USE_ACCELERATION, SET_ACCELERATION, cache);
    } else if port_index == SET_VELOCITY {
        connect_override(ports, USE_VELOCITY, SET_VELOCITY, cache);
    } else if port_index == SET_POSITION {
        connect_override(ports, USE_POSITION, SET_POSITION, cache);
    }
}

/// Marks an override input as wired (flag cell set) and frees its private
/// default cell.
fn connect_override(ports: &Vec<Port>, flag: usize, target: usize, cache: &mut Cache)
    requires
        old(cache).wf(),
        ports@.len() == 12,
        flag < 12,
        target < 12,
    ensures
        final(cache).wf(),
        ({
            let tci = ports@[target as int].cache_index;
            let fci = ports@[flag as int].cache_index;
            &&& (tci.type_tag == Tag::Vec2 ==> final(cache).slot(tci) is None)
            &&& (tci.type_tag != Tag::Vec2 && tci != fci ==> final(cache).slot(tci) == old(
                cache,
            ).slot(tci))
            &&& (fci.type_tag == Tag::Bool && old(cache).slot(fci) is Some ==> final(cache).slot(
                fci,
            ) == Some(Value::Bool(true)))
            &&& (!(fci.type_tag == Tag::Bool && old(cache).slot(fci) is Some) && fci != tci
                ==> final(cache).slot(fci) == old(cache).slot(fci))
            &&& forall|c2: CacheIndex|
                c2 != tci && c2 != fci ==> #[trigger] final(cache).slot(c2) == old(cache).slot(c2)
        }),
{
    cache.set(ports[flag].get_cache_index(), Value::Bool(true));
    let ghost mid = *cache;
    cache.remove(ports[target].get_cache_index(), Tag::Vec2);
    proof {
        let tci = ports@[target as int].cache_index;
        let fci = ports@[flag as int].cache_index;
        if tci.type_tag != Tag::Vec2 {
            assert(*cache == mid);
        }
        if fci != tci {
            assert(cache.slot(fci) == mid.slot(fci));
        }
        assert forall|c2: CacheIndex| c2 != tci && c2 != fci implies #[trigger] cache.slot(c2)
            == old(cache).slot(c2) by {
            assert(mid.slot(c2) == old(cache).slot(c2));
            assert(cache.slot(c2) == mid.slot(c2));
        }
    }
}

pub(crate) fn disconnect(ports: &Vec<Port>, port_index: usize, cache: &mut Cache) -> (r: Option<
    CacheIndex,
>)
    requires
        old(cache).wf(),
        port_index < ports@.len(),
        ports@.len() == 12,
    ensures
        after_disconnect_hook(
            NodeKind::Particle,
            ports@,
            port_index as int,
            *old(cache),
            *final(cache),
            r,
        ),
{
    if port_index == MASS {
        Some(cache.insert(Value::Num(1)))
    } else if port_index == FORCE {
        Some(cache.insert(Value::Vec2(Vec2 { x: 0, y: 0 })))
    } else if port_index == SET_ACCELERATION {
        Some(disconnect_override(ports, USE_ACCELERATION, cache))
    } else if port_index == SET_VELOCITY {
        Some(disconnect_override(ports, USE_VELOCITY, cache))
    } else if port_index == SET_POSITION {
        Some(disconnect_override(ports, USE_POSITION, cache))
    } else {
        None
    }
}

/// Marks an override input as unwired (flag cell cleared) and synthesizes a
/// fresh private default cell for it.
fn disconnect_override(ports: &Vec<Port>, flag: usize, cache: &mut Cache) -> (fresh: CacheIndex)
    requires
        old(cache).wf(),
        ports@.len() == 12,
        flag < 12,
    ensures
        final(cache).wf(),
        ({
            let fci = ports@[flag as int].cache_index;
            &&& fresh.type_tag == Tag::Vec2
            &&& old(cache).slot(fresh) is None
            &&& final(cache).slot(fresh) == Some(Value::Vec2(Vec2 { x: 0, y: 0 }))
            &&& (fci.type_tag == Tag::Bool && old(cache).slot(fci) is Some ==> final(cache).slot(
                fci,
            ) == Some(Value::Bool(false)))
            &&& (!(fci.type_tag == Tag::Bool && old(cache).slot(fci) is Some) && fci != fresh
                ==> final(cache).slot(fci) == old(cache).slot(fci))
            &&& forall|c2: CacheIndex|
                c2 != fresh && c2 != fci ==> #[trigger] final(cache).slot(c2) == old(cache).slot(
                    c2,
                )
        }),
{
    cache.set(ports[flag].get_cache_index(), Value::Bool(false));
    let ghost mid = *cache;
    let fresh = cache.insert(Value::Vec2(Vec2 { x: 0, y: 0 }));
    proof {
        let fci = ports@[flag as int].cache_index;
        if fci != fresh {
            assert(old(cache).slot(fresh) == mid.slot(fresh));
        } else {
            assert(mid.slot(fci) is None);
            assert(old(cache).slot(fresh) == mid.slot(fresh));
        }
        if fci.type_tag == Tag::Bool && old(cache).slot(fci) is Some {
            assert(mid.slot(fci) == Some(Value::Bool(false)));
            assert(fci != fresh);
            assert(cache.slot(fci) == mid.slot(fci));
        }
        assert forall|c2: CacheIndex| c2 != fresh && c2 != fci implies #[trigger] cache.slot(c2)
            == old(cache).slot(c2) by {
            assert(mid.slot(c2) == old(cache).slot(c2));
            assert(cache.slot(c2) == mid.slot(c2));
        }
    }
    fresh
}

} // verus!
