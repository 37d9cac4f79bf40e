//! The closed set of value types that cache cells can hold, together with the
//! runtime type tag that keys the per-type arenas. Scalar quantities are
//! plain `i64` numbers; arithmetic on them saturates at the type's bounds.

use vstd::prelude::*;

verus! {

/// Runtime type tag: names the per-type arena a cache cell lives in.
#[derive(Clone, Copy, PartialEq, Eq, Structural, Debug, Hash)]
pub enum Tag {
    Num,
    Vec2,
    Bool,
    Particle,
    Circle,
}

/// Saturating addition on the `i64` range.
pub open spec fn sat_add(a: int, b: int) -> int {
    if a + b > i64::MAX {
        i64::MAX as int
    } else if a + b < i64::MIN {
        i64::MIN as int
    } else {
        a + b
    }
}

/// Truncated division, clamped to the `i64` range (the single overflowing
/// quotient, `i64::MIN / -1`, saturates to `i64::MAX`). Division by zero
/// yields the dividend unchanged.
pub open spec fn sat_div(a: int, d: int) -> int {
    if d == 0 {
        a
    } else {
        let q = if a == 0 {
            0
        } else if a > 0 && d > 0 {
            a / d
        } else if a < 0 && d < 0 {
            (a * -1) / (d * -1)
        } else if a < 0 {
            ((a * -1) / d) * -1
        } else {
            (a / (d * -1)) * -1
        };
        if q > i64::MAX {
            i64::MAX as int
        } else {
            q
        }
    }
}

pub fn sat_add_i64(a: i64, b: i64) -> (r: i64)
    ensures
        r as int == sat_add(a as int, b as int),
{
    match a.checked_add(b) {
        Some(r) => r,
        None => {
            if a >= 0 {
                i64::MAX
            } else {
                i64::MIN
            }
        },
    }
}

pub fn sat_div_i64(a: i64, d: i64) -> (r: i64)
    ensures
        r as int == sat_div(a as int, d as int),
{
    if d == 0 {
        a
    } else {
        match a.checked_div(d) {
            Some(r) => r,
            None => i64::MAX,
        }
    }
}

/// A two-component vector of scalar numbers.
#[derive(Clone, Copy, PartialEq, Eq, Structural, Debug)]
pub struct Vec2 {
    pub x: i64,
    pub y: i64,
}

impl Vec2 {
    pub open spec fn spec_add(self, other: Vec2) -> Vec2 {
        Vec2 { x: sat_add(self.x as int, other.x as int) as i64, y: sat_add(
            self.y as int,
            other.y as int,
        ) as i64 }
    }

    pub open spec fn spec_div(self, d: int) -> Vec2 {
        Vec2 { x: sat_div(self.x as int, d) as i64, y: sat_div(self.y as int, d) as i64 }
    }

    pub fn new(x: i64, y: i64) -> (r: Vec2)
        ensures
            r == (Vec2 { x, y }),
    {
        Vec2 { x, y }
    }

    /// Componentwise saturating addition.
    pub fn add_to(&self, other: &Vec2) -> (r: Vec2)
        ensures
            r == self.spec_add(*other),
    {
        Vec2 { x: sat_add_i64(self.x, other.x), y: sat_add_i64(self.y, other.y) }
    }

    /// Componentwise truncated division by a scalar.
    pub fn div_by(&self, d: i64) -> (r: Vec2)
        ensures
            r == self.spec_div(d as int),
    {
        Vec2 { x: sat_div_i64(self.x, d), y: sat_div_i64(self.y, d) }
    }
}

/// A point mass integrated one step at a time: each update adds the
/// acceleration to the velocity, the velocity to the position, and then
/// clears the acceleration.
#[derive(Clone, Copy, PartialEq, Eq, Structural, Debug)]
pub struct Particle {
    pub mass: i64,
    pub acceleration: Vec2,
    pub velocity: Vec2,
    pub position: Vec2,
}

impl Particle {
    pub open spec fn spec_mass(self) -> i64 {
        self.mass
    }

    pub open spec fn spec_acceleration(self) -> Vec2 {
        self.acceleration
    }

    pub open spec fn spec_velocity(self) -> Vec2 {
        self.velocity
    }

    pub open spec fn spec_position(self) -> Vec2 {
        self.position
    }

    /// The state after one integration step.
    pub open spec fn spec_update(self) -> Particle {
        let velocity = self.velocity.spec_add(self.acceleration);
        Particle {
            mass: self.mass,
            acceleration: Vec2 { x: 0, y: 0 },
            velocity,
            position: self.position.spec_add(velocity),
        }
    }

    /// The state after a force is applied: the acceleration grows by
    /// `force / mass`; a massless particle is left unchanged.
    pub open spec fn spec_apply_force(self, force: Vec2) -> Particle {
        if self.mass == 0 {
            self
        } else {
            Particle {
                acceleration: self.acceleration.spec_add(force.spec_div(self.mass as int)),
                ..self
            }
        }
    }

    pub fn new() -> (r: Particle)
        ensures
            r == (Particle {
                mass: 1,
                acceleration: Vec2 { x: 0, y: 0 },
                velocity: Vec2 { x: 0, y: 0 },
                position: Vec2 { x: 0, y: 0 },
            }),
    {
        Particle {
            mass: 1,
            acceleration: Vec2 { x: 0, y: 0 },
            velocity: Vec2 { x: 0, y: 0 },
            position: Vec2 { x: 0, y: 0 },
        }
    }

    pub fn update(&mut self)
        ensures
            *final(self) == old(self).spec_update(),
    {
        self.velocity = self.velocity.add_to(&self.acceleration);
        self.position = self.position.add_to(&self.velocity);
        self.acceleration = Vec2 { x: 0, y: 0 };
    }

    pub fn apply_force(&mut self, force: Vec2)
        ensures
            *final(self) == old(self).spec_apply_force(force),
    {
        if self.mass != 0 {
            let delta = force.div_by(self.mass);
            self.acceleration = self.acceleration.add_to(&delta);
        }
    }

    pub fn get_mass(&self) -> (r: i64)
        ensures
            r == self.spec_mass(),
    {
        self.mass
    }

    pub fn get_acceleration(&self) -> (r: Vec2)
        ensures
            r == self.spec_acceleration(),
    {
        self.acceleration
    }

    pub fn get_velocity(&self) -> (r: Vec2)
        ensures
            r == self.spec_velocity(),
    {
        self.velocity
    }

    pub fn get_position(&self) -> (r: Vec2)
        ensures
            r == self.spec_position(),
    {
        self.position
    }

    pub fn get_mut_mass(&mut self) -> (r: &mut i64)
        ensures
            *r == old(self).spec_mass(),
            *final(self) == (Particle { mass: *final(r), ..*old(self) }),
    {
        &mut self.mass
    }

    pub fn get_mut_acceleration(&mut self) -> (r: &mut Vec2)
        ensures
            *r == old(self).spec_acceleration(),
            *final(self) == (Particle { acceleration: *final(r), ..*old(self) }),
    {
        &mut self.acceleration
    }

    pub fn get_mut_velocity(&mut self) -> (r: &mut Vec2)
        ensures
            *r == old(self).spec_velocity(),
            *final(self) == (Particle { velocity: *final(r), ..*old(self) }),
    {
        &mut self.velocity
    }

    pub fn get_mut_position(&mut self) -> (r: &mut Vec2)
        ensures
            *r == old(self).spec_position(),
            *final(self) == (Particle { position: *final(r), ..*old(self) }),
    {
        &mut self.position
    }
}

/// A circle shape: a centre and a radius.
#[derive(Clone, Copy, PartialEq, Eq, Structural, Debug)]
pub struct Circle {
    pub position: Vec2,
    pub radius: i64,
}

impl Circle {
    pub open spec fn spec_position(self) -> Vec2 {
        self.position
    }

    pub open spec fn spec_radius(self) -> i64 {
        self.radius
    }

    pub fn new(position: Vec2, radius: i64) -> (r: Circle)
        ensures
            r == (Circle { position, radius }),
    {
        Circle { position, radius }
    }

    pub fn set_position(&mut self, position: Vec2)
        ensures
            *final(self) == (Circle { position, ..*old(self) }),
    {
        self.position = position;
    }

    pub fn set_radius(&mut self, radius: i64)
        ensures
            *final(self) == (Circle { radius, ..*old(self) }),
    {
        self.radius = radius;
    }

    pub fn get_position(&self) -> (r: Vec2)
        ensures
            r == self.spec_position(),
    {
        self.position
    }

    pub fn get_radius(&self) -> (r: i64)
        ensures
            r == self.spec_radius(),
    {
        self.radius
    }
}

/// A value stored in a cache cell: one variant per type tag.
#[derive(Clone, Copy, PartialEq, Eq, Structural, Debug)]
pub enum Value {
    Num(i64),
    Vec2(Vec2),
    Bool(bool),
    Particle(Particle),
    Circle(Circle),
}

impl Value {
    /// The tag of the arena this value belongs in.
    pub open spec fn spec_tag(self) -> Tag {
        match self {
            Value::Num(_) => Tag::Num,
            Value::Vec2(_) => Tag::Vec2,
            Value::Bool(_) => Tag::Bool,
            Value::Particle(_) => Tag::Particle,
            Value::Circle(_) => Tag::Circle,
        }
    }

    pub fn tag(&self) -> (t: Tag)
        ensures
            t == self.spec_tag(),
    {
        match self {
            Value::Num(_) => Tag::Num,
            Value::Vec2(_) => Tag::Vec2,
            Value::Bool(_) => Tag::Bool,
            Value::Particle(_) => Tag::Particle,
            Value::Circle(_) => Tag::Circle,
        }
    }

    pub fn as_num(&self) -> (r: Option<i64>)
        ensures
            r == (match *self {
                Value::Num(n) => Some(n),
                _ => None::<i64>,
            }),
    {
        match self {
            Value::Num(n) => Some(*n),
            _ => None,
        }
    }

    pub fn as_vec2(&self) -> (r: Option<Vec2>)
        ensures
            r == (match *self {
                Value::Vec2(v) => Some(v),
                _ => None::<Vec2>,
            }),
    {
        match self {
            Value::Vec2(v) => Some(*v),
            _ => None,
        }
    }

    pub fn as_bool(&self) -> (r: Option<bool>)
        ensures
            r == (match *self {
                Value::Bool(b) => Some(b),
                _ => None::<bool>,
            }),
    {
        match self {
            Value::Bool(b) => Some(*b),
            _ => None,
        }
    }

    pub fn as_particle(&self) -> (r: Option<Particle>)
        ensures
            r == (match *self {
                Value::Particle(p) => Some(p),
                _ => None::<Particle>,
            }),
    {
        match self {
            Value::Particle(p) => Some(*p),
            _ => None,
        }
    }

    pub fn as_circle(&self) -> (r: Option<Circle>)
        ensures
            r == (match *self {
                Value::Circle(c) => Some(c),
                _ => None::<Circle>,
            }),
    {
        match self {
            Value::Circle(c) => Some(*c),
            _ => None,
        }
    }
}

} // verus!
