//! The spring model's guarantees, stated and proved once and for all
//! inputs, over the same spec functions the evaluator's contracts use.

use vstd::prelude::*;

use crate::evaluator::{
    apply_anchored, apply_coupled, axial_rel_vel_s, axis_x_s, axis_y_s,
    coupled_anchor_a_s, coupled_anchor_b_s, coupled_defined, coupled_impulse_b_s,
    impulse_on_b_x_s, impulse_on_b_y_s, mark_anchored, mark_coupled, scalar_force_s,
    spring_len_s,
};
use crate::fixed::{fx_mul_s, lemma_fx_mul_sign, scale_down_s, SCALE};
use crate::spring::{AnchoredSpring, CoupledSpring};
use crate::vec2::Vec2Fx;
use crate::world::{dir_body, dir_contains, dir_index, dir_wf, lemma_dir_index_valid, Body};

verus! {

/// A spring exactly at rest length whose anchors have no relative velocity
/// exerts no force and applies no impulse, whatever its stiffness, damping
/// and step duration.
pub proof fn law_zero_force_at_rest(
    pa: Vec2Fx,
    pb: Vec2Fx,
    va: Vec2Fx,
    vb: Vec2Fx,
    stiffness: i64,
    damping: i64,
    rest_length: i64,
    dt: i64,
)
    requires
        spring_len_s(pa, pb) == rest_length,
        va == vb,
    ensures
        scalar_force_s(pa, pb, va, vb, stiffness, damping, rest_length) == 0,
        impulse_on_b_x_s(pa, pb, va, vb, stiffness, damping, rest_length, dt) == 0,
        impulse_on_b_y_s(pa, pb, va, vb, stiffness, damping, rest_length, dt) == 0,
{
    lemma_fx_mul_sign(stiffness as int, spring_len_s(pa, pb) - rest_length);
    assert((vb.x - va.x) as int * axis_x_s(pa, pb) == 0);
    assert((vb.y - va.y) as int * axis_y_s(pa, pb) == 0);
    assert(axial_rel_vel_s(pa, pb, va, vb) == scale_down_s(0));
    lemma_fx_mul_sign(damping as int, 0);
    let f = scalar_force_s(pa, pb, va, vb, stiffness, damping, rest_length);
    lemma_fx_mul_sign(f, axis_x_s(pa, pb));
    lemma_fx_mul_sign(f, axis_y_s(pa, pb));
    lemma_fx_mul_sign(0, dt as int);
}

/// A spring stretched beyond rest by `x` with no relative anchor velocity
/// exerts exactly the Hookean force `stiffness · x` (fixed-point product),
/// nonnegative along the axis, and the impulse on the B side points back
/// toward A on both components: the spring pulls the bodies together.
pub proof fn law_stretched_pulls_together(
    pa: Vec2Fx,
    pb: Vec2Fx,
    va: Vec2Fx,
    vb: Vec2Fx,
    stiffness: i64,
    damping: i64,
    rest_length: i64,
    dt: i64,
    x: int,
)
    requires
        va == vb,
        x > 0,
        spring_len_s(pa, pb) == rest_length + x,
        0 <= stiffness,
        0 <= rest_length,
        0 <= dt,
    ensures
        scalar_force_s(pa, pb, va, vb, stiffness, damping, rest_length) == fx_mul_s(
            stiffness as int,
            x,
        ),
        scalar_force_s(pa, pb, va, vb, stiffness, damping, rest_length) >= 0,
        pb.x >= pa.x ==> impulse_on_b_x_s(pa, pb, va, vb, stiffness, damping, rest_length, dt)
            <= 0,
        pb.x <= pa.x ==> impulse_on_b_x_s(pa, pb, va, vb, stiffness, damping, rest_length, dt)
            >= 0,
        pb.y >= pa.y ==> impulse_on_b_y_s(pa, pb, va, vb, stiffness, damping, rest_length, dt)
            <= 0,
        pb.y <= pa.y ==> impulse_on_b_y_s(pa, pb, va, vb, stiffness, damping, rest_length, dt)
            >= 0,
{
    let l = spring_len_s(pa, pb);
    assert((vb.x - va.x) as int * axis_x_s(pa, pb) == 0);
    assert((vb.y - va.y) as int * axis_y_s(pa, pb) == 0);
    assert(axial_rel_vel_s(pa, pb, va, vb) == scale_down_s(0));
    lemma_fx_mul_sign(damping as int, 0);
    lemma_fx_mul_sign(stiffness as int, x);
    let f = scalar_force_s(pa, pb, va, vb, stiffness, damping, rest_length);
    lemma_axis_sign(pa, pb);
    lemma_fx_mul_sign(f, axis_x_s(pa, pb));
    lemma_fx_mul_sign(f, axis_y_s(pa, pb));
    lemma_fx_mul_sign(fx_mul_s(f, axis_x_s(pa, pb)), dt as int);
    lemma_fx_mul_sign(fx_mul_s(f, axis_y_s(pa, pb)), dt as int);
}

/// Each scaled axis component carries the sign of the corresponding
/// separation component whenever the spring length is positive.
pub proof fn lemma_axis_sign(pa: Vec2Fx, pb: Vec2Fx)
    requires
        spring_len_s(pa, pb) > 0,
    ensures
        pb.x >= pa.x ==> axis_x_s(pa, pb) >= 0,
        pb.x <= pa.x ==> axis_x_s(pa, pb) <= 0,
        pb.y >= pa.y ==> axis_y_s(pa, pb) >= 0,
        pb.y <= pa.y ==> axis_y_s(pa, pb) <= 0,
{
    let l = spring_len_s(pa, pb);
    let dx = pb.x - pa.x;
    let dy = pb.y - pa.y;
    if dx >= 0 {
        vstd::arithmetic::div_mod::lemma_div_pos_is_pos(dx * (SCALE as int), l);
        assert(dx * (SCALE as int) >= 0) by (nonlinear_arith)
            requires
                dx >= 0,
        ;
    } else {
        vstd::arithmetic::div_mod::lemma_div_pos_is_pos((-dx) * (SCALE as int), l);
        assert((-dx) * (SCALE as int) >= 0) by (nonlinear_arith)
            requires
                dx < 0,
        ;
    }
    if dy >= 0 {
        vstd::arithmetic::div_mod::lemma_div_pos_is_pos(dy * (SCALE as int), l);
        assert(dy * (SCALE as int) >= 0) by (nonlinear_arith)
            requires
                dy >= 0,
        ;
    } else {
        vstd::arithmetic::div_mod::lemma_div_pos_is_pos((-dy) * (SCALE as int), l);
        assert((-dy) * (SCALE as int) >= 0) by (nonlinear_arith)
            requires
                dy < 0,
        ;
    }
}

/// Momentum conservation of the coupled evaluation: in any tick, the
/// impulse the A body accumulates is the exact opposite of the one the B
/// body accumulates, and no other body is touched. The range premises only
/// keep the fixed-point sums representable.
pub proof fn law_equal_opposite(d: Seq<Body>, s: CoupledSpring, dt: i64)
    requires
        dir_wf(d),
        s.body_a != s.body_b,
        coupled_defined(d, s),
        ({
            let imp = coupled_impulse_b_s(d, s, dt);
            let ba = dir_body(d, s.body_a);
            let bb = dir_body(d, s.body_b);
            &&& -i64::MAX <= imp.x
            &&& -i64::MAX <= imp.y
            &&& i64::MIN <= bb.impulse.x + imp.x <= i64::MAX
            &&& i64::MIN <= bb.impulse.y + imp.y <= i64::MAX
            &&& i64::MIN <= ba.impulse.x - imp.x <= i64::MAX
            &&& i64::MIN <= ba.impulse.y - imp.y <= i64::MAX
        }),
    ensures
        ({
            let d2 = apply_coupled(d, s, dt);
            let ia = dir_index(d, s.body_a);
            let ib = dir_index(d, s.body_b);
            &&& d2.len() == d.len()
            &&& d2[ib].impulse.x - d[ib].impulse.x == -(d2[ia].impulse.x - d[ia].impulse.x)
            &&& d2[ib].impulse.y - d[ib].impulse.y == -(d2[ia].impulse.y - d[ia].impulse.y)
            &&& forall|i: int|
                0 <= i < d.len() && i != ia && i != ib ==> #[trigger] d2[i] == d[i]
        }),
{
    lemma_dir_index_valid(d, s.body_a);
    lemma_dir_index_valid(d, s.body_b);
    let ia = dir_index(d, s.body_a);
    let ib = dir_index(d, s.body_b);
    assert(d[ia].handle != d[ib].handle);
    assert(ia != ib);
}

/// An anchored spring touches the accumulator of its body and nothing
/// else: every other body is untouched, and the descriptor — its fixed
/// world anchor included — comes out of the tick unchanged except for the
/// orphan mark.
pub proof fn law_anchored_one_sided(d: Seq<Body>, s: AnchoredSpring, dt: i64)
    requires
        dir_wf(d),
    ensures
        apply_anchored(d, s, dt).len() == d.len(),
        forall|i: int|
            0 <= i < d.len() && d[i].handle != s.body ==> #[trigger] apply_anchored(d, s, dt)[i]
                == d[i],
        mark_anchored(d, s).world_anchor == s.world_anchor,
        mark_anchored(d, s) == (AnchoredSpring { orphaned: mark_anchored(d, s).orphaned, ..s }),
{
    if dir_contains(d, s.body) {
        lemma_dir_index_valid(d, s.body);
    }
}

/// With zero stiffness the force is the damping term alone, and with no
/// relative velocity along the axis it vanishes, whatever the separation
/// and rest length.
pub proof fn law_damping_only(
    pa: Vec2Fx,
    pb: Vec2Fx,
    va: Vec2Fx,
    vb: Vec2Fx,
    damping: i64,
    rest_length: i64,
    dt: i64,
)
    ensures
        scalar_force_s(pa, pb, va, vb, 0, damping, rest_length) == fx_mul_s(
            damping as int,
            axial_rel_vel_s(pa, pb, va, vb),
        ),
        axial_rel_vel_s(pa, pb, va, vb) == 0 ==> scalar_force_s(
            pa, pb, va, vb, 0, damping, rest_length) == 0,
        axial_rel_vel_s(pa, pb, va, vb) == 0 ==> impulse_on_b_x_s(
            pa, pb, va, vb, 0, damping, rest_length, dt) == 0,
        axial_rel_vel_s(pa, pb, va, vb) == 0 ==> impulse_on_b_y_s(
            pa, pb, va, vb, 0, damping, rest_length, dt) == 0,
{
    lemma_fx_mul_sign(0, spring_len_s(pa, pb) - rest_length);
    if axial_rel_vel_s(pa, pb, va, vb) == 0 {
        lemma_fx_mul_sign(damping as int, 0);
        lemma_fx_mul_sign(0, axis_x_s(pa, pb));
        lemma_fx_mul_sign(0, axis_y_s(pa, pb));
        lemma_fx_mul_sign(0, dt as int);
    }
}

/// Coincident anchors: a degenerate spring applies no impulse at all — the
/// tick leaves the directory exactly as it was.
pub proof fn law_degenerate_skipped_coupled(d: Seq<Body>, s: CoupledSpring, dt: i64)
    requires
        spring_len_s(coupled_anchor_a_s(d, s), coupled_anchor_b_s(d, s)) == 0,
    ensures
        apply_coupled(d, s, dt) == d,
{
}

/// Coincident anchors of an anchored spring: no impulse is applied.
pub proof fn law_degenerate_skipped_anchored(d: Seq<Body>, s: AnchoredSpring, dt: i64)
    requires
        spring_len_s(s.world_anchor, crate::evaluator::anchored_anchor_b_s(d, s)) == 0,
    ensures
        apply_anchored(d, s, dt) == d,
{
}

/// A coupled spring with a dangling handle contributes nothing to the tick
/// and comes out marked orphaned, ready for removal.
pub proof fn law_orphan_skipped(d: Seq<Body>, s: CoupledSpring, dt: i64)
    requires
        !dir_contains(d, s.body_a) || !dir_contains(d, s.body_b),
    ensures
        apply_coupled(d, s, dt) == d,
        mark_coupled(d, s).orphaned,
        mark_coupled(d, s) == (CoupledSpring { orphaned: true, ..s }),
{
}

} // verus!
