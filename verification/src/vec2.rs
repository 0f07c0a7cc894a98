//! Fixed-point 2-D vectors and rotations.

use vstd::prelude::*;

use crate::fixed::{fx_mul, fx_mul_s, lemma_fx_mul_mag, MAX_MAG, SCALE};

verus! {

/// A 2-D vector in fixed-point steps (see `fixed::SCALE`).
#[derive(Clone, Copy, Debug, PartialEq, Eq, Structural)]
pub struct Vec2Fx {
    pub x: i64,
    pub y: i64,
}

/// A 2-D rotation stored as the fixed-point cosine and sine of its angle.
#[derive(Clone, Copy, Debug, PartialEq, Eq, Structural)]
pub struct Rot2Fx {
    pub cos: i64,
    pub sin: i64,
}

impl Vec2Fx {
    /// Both components are within `m` in magnitude.
    pub open spec fn in_mag(self, m: int) -> bool {
        -m <= self.x <= m && -m <= self.y <= m
    }

    pub fn new(x: i64, y: i64) -> (v: Self)
        ensures
            v.x == x,
            v.y == y,
    {
        Vec2Fx { x, y }
    }

    pub fn zero() -> (v: Self)
        ensures
            v.x == 0,
            v.y == 0,
    {
        Vec2Fx { x: 0, y: 0 }
    }

    /// Componentwise negation.
    pub fn neg(self) -> (v: Self)
        requires
            -i64::MAX <= self.x,
            -i64::MAX <= self.y,
        ensures
            v.x == -self.x,
            v.y == -self.y,
            v == neg_s(self),
    {
        Vec2Fx { x: -self.x, y: -self.y }
    }
}

/// Componentwise negation, as a spec value.
pub open spec fn neg_s(v: Vec2Fx) -> Vec2Fx {
    Vec2Fx { x: (-v.x) as i64, y: (-v.y) as i64 }
}

/// First component of a vector rotated by `r`.
pub open spec fn rot_apply_x_s(r: Rot2Fx, v: Vec2Fx) -> int {
    fx_mul_s(r.cos as int, v.x as int) - fx_mul_s(r.sin as int, v.y as int)
}

/// Second component of a vector rotated by `r`.
pub open spec fn rot_apply_y_s(r: Rot2Fx, v: Vec2Fx) -> int {
    fx_mul_s(r.sin as int, v.x as int) + fx_mul_s(r.cos as int, v.y as int)
}

impl Rot2Fx {
    /// The stored cosine and sine are fractions of at most one whole unit.
    pub open spec fn wf(self) -> bool {
        -SCALE <= self.cos <= SCALE && -SCALE <= self.sin <= SCALE
    }

    /// The rotation by angle zero.
    pub fn identity() -> (r: Self)
        ensures
            r.cos == SCALE,
            r.sin == 0,
            r.wf(),
    {
        Rot2Fx { cos: SCALE, sin: 0 }
    }

    pub fn new(cos: i64, sin: i64) -> (r: Option<Self>)
        ensures
            r is Some <==> (-SCALE <= cos <= SCALE && -SCALE <= sin <= SCALE),
            r is Some ==> r->0 == (Rot2Fx { cos, sin }) && r->0.wf(),
    {
        if -SCALE <= cos && cos <= SCALE && -SCALE <= sin && sin <= SCALE {
            Some(Rot2Fx { cos, sin })
        } else {
            None
        }
    }

    /// Rotate a local offset; each rotated component stays within the
    /// magnitude of the offset, up to the two-term sum.
    pub fn apply(self, v: Vec2Fx) -> (w: Vec2Fx)
        requires
            self.wf(),
            v.in_mag(MAX_MAG as int),
        ensures
            w.x == rot_apply_x_s(self, v),
            w.y == rot_apply_y_s(self, v),
            w.in_mag(2 * MAX_MAG),
    {
        proof {
            lemma_fx_mul_mag(self.cos as int, v.x as int, SCALE as int, MAX_MAG as int);
            lemma_fx_mul_mag(self.sin as int, v.y as int, SCALE as int, MAX_MAG as int);
            lemma_fx_mul_mag(self.sin as int, v.x as int, SCALE as int, MAX_MAG as int);
            lemma_fx_mul_mag(self.cos as int, v.y as int, SCALE as int, MAX_MAG as int);
        }
        let cx: i64 = fx_mul(self.cos, v.x);
        let sy: i64 = fx_mul(self.sin, v.y);
        let sx: i64 = fx_mul(self.sin, v.x);
        let cy: i64 = fx_mul(self.cos, v.y);
        Vec2Fx { x: cx - sy, y: sx + cy }
    }
}

} // verus!
