//! The things that collide: immovable walls, moving bodies, and the contacts
//! recorded between them.

use crate::geometry::{Axis, Rect};
use vstd::prelude::*;

verus! {

/// A static obstacle. A level owns its walls and never moves them.
#[derive(Clone, Copy, Debug, PartialEq, Eq, Structural)]
pub struct Wall {
    pub rect: Rect,
}

/// A dynamic body: a rectangle with a velocity in pixels per step.
#[derive(Clone, Copy, Debug, PartialEq, Eq, Structural)]
pub struct Mobile {
    pub rect: Rect,
    pub vx: i32,
    pub vy: i32,
}

/// Names one collider of a batch: a wall by its index in the obstacle list
/// or a body by its index in the body list. An identifier means something
/// only together with the lists it was made for.
#[derive(Clone, Copy, Debug, PartialEq, Eq, Structural)]
pub enum ColliderID {
    Static(usize),
    Dynamic(usize),
}

/// A recorded contact: `a` is the dynamic body, `b` the wall or the other
/// body, `overlap` the penetration on each axis when the contact was found.
#[derive(Clone, Copy, Debug, PartialEq, Eq)]
pub struct Contact {
    pub a: ColliderID,
    pub b: ColliderID,
    pub overlap: (u16, u16),
}

impl Mobile {
    /// The velocity component on `axis`.
    pub open spec fn velocity(self, axis: Axis) -> int {
        match axis {
            Axis::X => self.vx as int,
            Axis::Y => self.vy as int,
        }
    }

    /// The body after one step of free movement: the rectangle moved by the
    /// velocity, saturating.
    pub open spec fn advanced(self) -> Mobile {
        Mobile { rect: self.rect.shifted(self.vx as int, self.vy as int), vx: self.vx, vy: self.vy }
    }

    /// The body moved by `amount` along `axis` and stopped on that axis.
    pub open spec fn pushed(self, axis: Axis, amount: int) -> Mobile {
        match axis {
            Axis::X => Mobile { rect: self.rect.slid(axis, amount), vx: 0, vy: self.vy },
            Axis::Y => Mobile { rect: self.rect.slid(axis, amount), vx: self.vx, vy: 0 },
        }
    }

    /// Integrates the velocity into the position.
    pub fn advance(&mut self)
        ensures
            *final(self) == old(self).advanced(),
    {
        self.rect = self.rect.offset(self.vx, self.vy);
    }

    /// Moves the body by `amount` along `axis` and zeroes its velocity on
    /// that axis.
    pub fn push(&mut self, axis: Axis, amount: i32)
        ensures
            *final(self) == old(self).pushed(axis, amount as int),
    {
        self.rect = self.rect.slide(axis, amount);
        match axis {
            Axis::X => {
                self.vx = 0;
            },
            Axis::Y => {
                self.vy = 0;
            },
        }
    }
}

/// Every body after one step of free movement.
pub open spec fn advanced_all(bodies: Seq<Mobile>) -> Seq<Mobile> {
    Seq::new(bodies.len(), |i: int| bodies[i].advanced())
}

/// Integrates the velocity of every body into its position.
pub fn integrate(dynamics: &mut Vec<Mobile>)
    ensures
        final(dynamics)@ == advanced_all(old(dynamics)@),
{
    let mut i: usize = 0;
    while i < dynamics.len()
        invariant
            i <= dynamics.len(),
            dynamics@.len() == old(dynamics)@.len(),
            forall|k: int| 0 <= k < i ==> dynamics@[k] == old(dynamics)@[k].advanced(),
            forall|k: int| i <= k < dynamics@.len() ==> dynamics@[k] == old(dynamics)@[k],
        decreases dynamics.len() - i,
    {
        let mut body: Mobile = dynamics[i];
        body.advance();
        dynamics.set(i, body);
        i += 1;
    }
}

impl Contact {
    /// The squared length of the recorded overlap, `dx * dx + dy * dy`.
    pub open spec fn magnitude(self) -> int {
        self.overlap.0 * self.overlap.0 + self.overlap.1 * self.overlap.1
    }

    /// Whether the contact is about the body that `id` names. A wall is
    /// never a body.
    pub open spec fn involves(self, id: ColliderID) -> bool {
        id is Dynamic && (self.a == id || self.b == id)
    }

    /// Two contacts are independent when no body belongs to both.
    pub open spec fn independent(self, other: Contact) -> bool {
        !self.involves(other.a) && !self.involves(other.b)
    }

    /// The squared length of the recorded overlap.
    pub fn weight(&self) -> (m: u64)
        ensures
            m == self.magnitude(),
    {
        let dx: u64 = self.overlap.0 as u64;
        let dy: u64 = self.overlap.1 as u64;
        assert(dx * dx <= 65535 * 65535 && dy * dy <= 65535 * 65535) by (nonlinear_arith)
            requires
                dx <= 65535,
                dy <= 65535,
        ;
        dx * dx + dy * dy
    }
}

} // verus!
