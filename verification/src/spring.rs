//! Spring descriptors: pure data records with validated parameters.

use vstd::prelude::*;

use crate::fixed::MAX_MAG;
use crate::vec2::Vec2Fx;

verus! {

/// Failure surfaced to the code that creates or retunes a spring.
#[derive(Clone, Copy, Debug, PartialEq, Eq, Structural)]
pub enum SpringError {
    /// A stiffness, damping or rest length was negative, a magnitude was
    /// outside the fixed-point range, or a coupled spring named the same
    /// body twice.
    InvalidParameter,
}

/// A stiffness, damping or rest-length value the descriptors accept.
pub open spec fn param_ok(v: i64) -> bool {
    0 <= v <= MAX_MAG
}

/// A spring between two rigid bodies, attached at a local-frame offset on
/// each; both bodies are referenced by stable handle only.
#[derive(Clone, Copy, Debug, PartialEq, Eq, Structural)]
pub struct CoupledSpring {
    pub body_a: u64,
    pub body_b: u64,
    pub local_anchor_a: Vec2Fx,
    pub local_anchor_b: Vec2Fx,
    pub stiffness: i64,
    pub damping: i64,
    pub rest_length: i64,
    /// Set by the evaluator when a body handle no longer resolves; a
    /// marked spring contributes nothing and is ready for removal.
    pub orphaned: bool,
}

/// A spring between one rigid body and a fixed world point; the world
/// anchor never moves with any body.
#[derive(Clone, Copy, Debug, PartialEq, Eq, Structural)]
pub struct AnchoredSpring {
    pub body: u64,
    pub local_anchor: Vec2Fx,
    pub world_anchor: Vec2Fx,
    pub stiffness: i64,
    pub damping: i64,
    pub rest_length: i64,
    /// Set by the evaluator when the body handle no longer resolves.
    pub orphaned: bool,
}

impl CoupledSpring {
    /// What a constructed descriptor always satisfies and the evaluator
    /// relies on.
    pub open spec fn wf(self) -> bool {
        &&& self.body_a != self.body_b
        &&& self.local_anchor_a.in_mag(MAX_MAG as int)
        &&& self.local_anchor_b.in_mag(MAX_MAG as int)
        &&& param_ok(self.stiffness)
        &&& param_ok(self.damping)
        &&& param_ok(self.rest_length)
    }

    /// Validated construction: fails, and only fails, on distinctness or
    /// parameter violations.
    pub fn new(
        body_a: u64,
        body_b: u64,
        local_anchor_a: Vec2Fx,
        local_anchor_b: Vec2Fx,
        stiffness: i64,
        damping: i64,
        rest_length: i64,
    ) -> (r: Result<Self, SpringError>)
        ensures
            r is Ok <==> (Self {
                body_a,
                body_b,
                local_anchor_a,
                local_anchor_b,
                stiffness,
                damping,
                rest_length,
                orphaned: false,
            }).wf(),
            r is Ok ==> r->Ok_0 == (Self {
                body_a,
                body_b,
                local_anchor_a,
                local_anchor_b,
                stiffness,
                damping,
                rest_length,
                orphaned: false,
            }),
            r is Err ==> r->Err_0 == SpringError::InvalidParameter,
    {
        let s = CoupledSpring {
            body_a,
            body_b,
            local_anchor_a,
            local_anchor_b,
            stiffness,
            damping,
            rest_length,
            orphaned: false,
        };
        if body_a != body_b && anchor_ok(local_anchor_a) && anchor_ok(local_anchor_b)
            && param_in_range(stiffness) && param_in_range(damping) && param_in_range(rest_length) {
            Ok(s)
        } else {
            Err(SpringError::InvalidParameter)
        }
    }

    /// Retune the stiffness; takes effect on the next tick.
    pub fn set_stiffness(&mut self, stiffness: i64) -> (r: Result<(), SpringError>)
        ensures
            r is Ok <==> param_ok(stiffness),
            r is Ok ==> *final(self) == (Self { stiffness, ..*old(self) }),
            r is Err ==> *final(self) == *old(self) && r->Err_0 == SpringError::InvalidParameter,
    {
        if param_in_range(stiffness) {
            self.stiffness = stiffness;
            Ok(())
        } else {
            Err(SpringError::InvalidParameter)
        }
    }

    /// Retune the damping; takes effect on the next tick.
    pub fn set_damping(&mut self, damping: i64) -> (r: Result<(), SpringError>)
        ensures
            r is Ok <==> param_ok(damping),
            r is Ok ==> *final(self) == (Self { damping, ..*old(self) }),
            r is Err ==> *final(self) == *old(self) && r->Err_0 == SpringError::InvalidParameter,
    {
        if param_in_range(damping) {
            self.damping = damping;
            Ok(())
        } else {
            Err(SpringError::InvalidParameter)
        }
    }

    /// Retune the rest length; takes effect on the next tick.
    pub fn set_rest_length(&mut self, rest_length: i64) -> (r: Result<(), SpringError>)
        ensures
            r is Ok <==> param_ok(rest_length),
            r is Ok ==> *final(self) == (Self { rest_length, ..*old(self) }),
            r is Err ==> *final(self) == *old(self) && r->Err_0 == SpringError::InvalidParameter,
    {
        if param_in_range(rest_length) {
            self.rest_length = rest_length;
            Ok(())
        } else {
            Err(SpringError::InvalidParameter)
        }
    }
}

impl AnchoredSpring {
    /// What a constructed descriptor always satisfies and the evaluator
    /// relies on.
    pub open spec fn wf(self) -> bool {
        &&& self.local_anchor.in_mag(MAX_MAG as int)
        &&& self.world_anchor.in_mag(MAX_MAG as int)
        &&& param_ok(self.stiffness)
        &&& param_ok(self.damping)
        &&& param_ok(self.rest_length)
    }

    /// Validated construction: fails, and only fails, on parameter
    /// violations.
    pub fn new(
        body: u64,
        local_anchor: Vec2Fx,
        world_anchor: Vec2Fx,
        stiffness: i64,
        damping: i64,
        rest_length: i64,
    ) -> (r: Result<Self, SpringError>)
        ensures
            r is Ok <==> (Self {
                body,
                local_anchor,
                world_anchor,
                stiffness,
                damping,
                rest_length,
                orphaned: false,
            }).wf(),
            r is Ok ==> r->Ok_0 == (Self {
                body,
                local_anchor,
                world_anchor,
                stiffness,
                damping,
                rest_length,
                orphaned: false,
            }),
            r is Err ==> r->Err_0 == SpringError::InvalidParameter,
    {
        let s = AnchoredSpring {
            body,
            local_anchor,
            world_anchor,
            stiffness,
            damping,
            rest_length,
            orphaned: false,
        };
        if anchor_ok(local_anchor) && anchor_ok(world_anchor) && param_in_range(stiffness)
            && param_in_range(damping) && param_in_range(rest_length) {
            Ok(s)
        } else {
            Err(SpringError::InvalidParameter)
        }
    }

    /// Retune the stiffness; takes effect on the next tick.
    pub fn set_stiffness(&mut self, stiffness: i64) -> (r: Result<(), SpringError>)
        ensures
            r is Ok <==> param_ok(stiffness),
            r is Ok ==> *final(self) == (Self { stiffness, ..*old(self) }),
            r is Err ==> *final(self) == *old(self) && r->Err_0 == SpringError::InvalidParameter,
    {
        if param_in_range(stiffness) {
            self.stiffness = stiffness;
            Ok(())
        } else {
            Err(SpringError::InvalidParameter)
        }
    }

    /// Retune the damping; takes effect on the next tick.
    pub fn set_damping(&mut self, damping: i64) -> (r: Result<(), SpringError>)
        ensures
            r is Ok <==> param_ok(damping),
            r is Ok ==> *final(self) == (Self { damping, ..*old(self) }),
            r is Err ==> *final(self) == *old(self) && r->Err_0 == SpringError::InvalidParameter,
    {
        if param_in_range(damping) {
            self.damping = damping;
            Ok(())
        } else {
            Err(SpringError::InvalidParameter)
        }
    }

    /// Retune the rest length; takes effect on the next tick.
    pub fn set_rest_length(&mut self, rest_length: i64) -> (r: Result<(), SpringError>)
        ensures
            r is Ok <==> param_ok(rest_length),
            r is Ok ==> *final(self) == (Self { rest_length, ..*old(self) }),
            r is Err ==> *final(self) == *old(self) && r->Err_0 == SpringError::InvalidParameter,
    {
        if param_in_range(rest_length) {
            self.rest_length = rest_length;
            Ok(())
        } else {
            Err(SpringError::InvalidParameter)
        }
    }
}

/// Runtime check matching `param_ok`.
fn param_in_range(v: i64) -> (r: bool)
    ensures
        r == param_ok(v),
{
    0 <= v && v <= MAX_MAG
}

/// Runtime check matching `Vec2Fx::in_mag(MAX_MAG)`.
fn anchor_ok(v: Vec2Fx) -> (r: bool)
    ensures
        r == v.in_mag(MAX_MAG as int),
{
    -MAX_MAG <= v.x && v.x <= MAX_MAG && -MAX_MAG <= v.y && v.y <= MAX_MAG
}

} // verus!
