//! The per-spring force computation.
//!
//! Given the two resolved world-space anchor points and anchor velocities,
//! the damped Hookean force along the spring axis is
//! `F = stiffness * (L - rest_length) + damping * dot(vel_b - vel_a, u)`
//! with `u` the unit axis from anchor A to anchor B, and the impulse for
//! the tick applied to the B side is `-F * u * dt`; the A side receives
//! the exact opposite. Anchor-point velocity is the body's linear velocity
//! only: the angular-velocity-induced part at the offset is deliberately
//! not modeled.
//!
//! All steps are fixed-point; the spec functions here mirror them exactly,
//! so every returned impulse is pinned down to the integer.

use vstd::prelude::*;

use crate::fixed::{
    fx_div, fx_div_s, fx_mul, fx_mul_s, isqrt, lemma_fx_mul_mag, lemma_scale_down_mag,
    scale_down, scale_down_s, sqrt_floor, ACC_START, MAX_IMPULSE, MAX_MAG, MAX_SPRINGS, SCALE,
};
use crate::spring::{param_ok, AnchoredSpring, CoupledSpring};
use crate::vec2::{neg_s, rot_apply_x_s, rot_apply_y_s, Rot2Fx, Vec2Fx};
use crate::world::{
    accs_bounded, add_impulse, core_same, dir_body, dir_contains, dir_index,
    lemma_dir_index_of, lemma_dir_index_valid, lemma_same_handles_contains, Body, BodyDirectory,
};

verus! {

/// First component of the world position of an anchor attached at a
/// local-frame offset of a body.
pub open spec fn anchor_x_s(pos: Vec2Fx, rot: Rot2Fx, local: Vec2Fx) -> int {
    pos.x + rot_apply_x_s(rot, local)
}

/// Second component of the world position of a body-attached anchor.
pub open spec fn anchor_y_s(pos: Vec2Fx, rot: Rot2Fx, local: Vec2Fx) -> int {
    pos.y + rot_apply_y_s(rot, local)
}

/// Squared distance between the two anchor points.
pub open spec fn len_sq_s(pa: Vec2Fx, pb: Vec2Fx) -> int {
    (pb.x - pa.x) * (pb.x - pa.x) + (pb.y - pa.y) * (pb.y - pa.y)
}

/// Current spring length: the integer square root of the squared distance.
pub open spec fn spring_len_s(pa: Vec2Fx, pb: Vec2Fx) -> int {
    sqrt_floor(len_sq_s(pa, pb))
}

/// First component of the unit axis from anchor A to anchor B, scaled by
/// `SCALE`; meaningful when the length is not zero.
pub open spec fn axis_x_s(pa: Vec2Fx, pb: Vec2Fx) -> int {
    fx_div_s(pb.x - pa.x, spring_len_s(pa, pb))
}

/// Second component of the scaled unit axis.
pub open spec fn axis_y_s(pa: Vec2Fx, pb: Vec2Fx) -> int {
    fx_div_s(pb.y - pa.y, spring_len_s(pa, pb))
}

/// Relative velocity of the B anchor with respect to the A anchor,
/// projected on the spring axis.
pub open spec fn axial_rel_vel_s(pa: Vec2Fx, pb: Vec2Fx, va: Vec2Fx, vb: Vec2Fx) -> int {
    scale_down_s(
        (vb.x - va.x) * axis_x_s(pa, pb) + (vb.y - va.y) * axis_y_s(pa, pb),
    )
}

/// Scalar damped-spring force along the axis: the Hookean term plus the
/// damping term.
pub open spec fn scalar_force_s(
    pa: Vec2Fx,
    pb: Vec2Fx,
    va: Vec2Fx,
    vb: Vec2Fx,
    stiffness: i64,
    damping: i64,
    rest_length: i64,
) -> int {
    fx_mul_s(stiffness as int, spring_len_s(pa, pb) - rest_length)
        + fx_mul_s(damping as int, axial_rel_vel_s(pa, pb, va, vb))
}

/// First component of the impulse the B side receives this tick: the force
/// vector `-F * u` times the step duration. A positive force (stretched
/// beyond rest, or separating) pulls B back toward A.
pub open spec fn impulse_on_b_x_s(
    pa: Vec2Fx,
    pb: Vec2Fx,
    va: Vec2Fx,
    vb: Vec2Fx,
    stiffness: i64,
    damping: i64,
    rest_length: i64,
    dt: i64,
) -> int {
    -fx_mul_s(
        fx_mul_s(scalar_force_s(pa, pb, va, vb, stiffness, damping, rest_length), axis_x_s(pa, pb)),
        dt as int,
    )
}

/// Second component of the impulse the B side receives this tick.
pub open spec fn impulse_on_b_y_s(
    pa: Vec2Fx,
    pb: Vec2Fx,
    va: Vec2Fx,
    vb: Vec2Fx,
    stiffness: i64,
    damping: i64,
    rest_length: i64,
    dt: i64,
) -> int {
    -fx_mul_s(
        fx_mul_s(scalar_force_s(pa, pb, va, vb, stiffness, damping, rest_length), axis_y_s(pa, pb)),
        dt as int,
    )
}

/// Resolve a body-attached anchor to world space.
pub fn world_anchor(pos: Vec2Fx, rot: Rot2Fx, local: Vec2Fx) -> (p: Vec2Fx)
    requires
        pos.in_mag(MAX_MAG as int),
        rot.wf(),
        local.in_mag(MAX_MAG as int),
    ensures
        p.x == anchor_x_s(pos, rot, local),
        p.y == anchor_y_s(pos, rot, local),
        p.in_mag(3 * MAX_MAG),
{
    let r = rot.apply(local);
    Vec2Fx { x: pos.x + r.x, y: pos.y + r.y }
}

/// Evaluate one spring: the impulse the B-side anchor's body receives this
/// tick, or `None` when the anchors coincide (degenerate geometry: the
/// axis is undefined, so the spring is skipped for the tick).
pub fn spring_impulse_on_b(
    pa: Vec2Fx,
    va: Vec2Fx,
    pb: Vec2Fx,
    vb: Vec2Fx,
    stiffness: i64,
    damping: i64,
    rest_length: i64,
    dt: i64,
) -> (r: Option<Vec2Fx>)
    requires
        pa.in_mag(3 * MAX_MAG),
        pb.in_mag(3 * MAX_MAG),
        va.in_mag(MAX_MAG as int),
        vb.in_mag(MAX_MAG as int),
        param_ok(stiffness),
        param_ok(damping),
        param_ok(rest_length),
        0 <= dt <= MAX_MAG,
    ensures
        r is Some <==> spring_len_s(pa, pb) != 0,
        r is Some ==> r->0.x == impulse_on_b_x_s(
            pa, pb, va, vb, stiffness, damping, rest_length, dt),
        r is Some ==> r->0.y == impulse_on_b_y_s(
            pa, pb, va, vb, stiffness, damping, rest_length, dt),
        r is Some ==> r->0.in_mag(MAX_IMPULSE as int),
{
    let dx: i64 = pb.x - pa.x;
    let dy: i64 = pb.y - pa.y;
    proof {
        lemma_fx_mul_mag(dx as int, dx as int, 6 * MAX_MAG as int, 6 * MAX_MAG as int);
        lemma_fx_mul_mag(dy as int, dy as int, 6 * MAX_MAG as int, 6 * MAX_MAG as int);
        assert(dx * dx >= 0) by (nonlinear_arith);
        assert(dy * dy >= 0) by (nonlinear_arith);
    }
    let l2: i64 = dx * dx + dy * dy;
    let l: i64 = isqrt(l2);
    if l == 0 {
        return None;
    }
    proof {
        assert(-l <= dx <= l && -l <= dy <= l) by (nonlinear_arith)
            requires
                dx * dx <= l2 as int,
                dy * dy <= l2 as int,
                (l2 as int) < (l + 1) * (l + 1),
                0 <= l,
        ;
    }
    let ux: i64 = fx_div(dx, l);
    let uy: i64 = fx_div(dy, l);
    let stretch: i64 = l - rest_length;
    proof {
        lemma_fx_mul_mag(stiffness as int, stretch as int, MAX_MAG as int, 10 * MAX_MAG as int);
    }
    let fs: i64 = fx_mul(stiffness, stretch);
    let dvx: i64 = vb.x - va.x;
    let dvy: i64 = vb.y - va.y;
    proof {
        lemma_fx_mul_mag(dvx as int, ux as int, 2 * MAX_MAG as int, SCALE as int);
        lemma_fx_mul_mag(dvy as int, uy as int, 2 * MAX_MAG as int, SCALE as int);
    }
    let dot: i64 = dvx * ux + dvy * uy;
    proof {
        lemma_scale_down_mag(dot as int, 4 * MAX_MAG as int * SCALE as int);
    }
    let axial: i64 = scale_down(dot);
    proof {
        lemma_fx_mul_mag(damping as int, axial as int, MAX_MAG as int, 4 * MAX_MAG as int);
    }
    let fd: i64 = fx_mul(damping, axial);
    let f: i64 = fs + fd;
    proof {
        lemma_fx_mul_mag(f as int, ux as int, 14_000_000_000int, SCALE as int);
        lemma_fx_mul_mag(f as int, uy as int, 14_000_000_000int, SCALE as int);
    }
    let fvx: i64 = fx_mul(f, ux);
    let fvy: i64 = fx_mul(f, uy);
    proof {
        lemma_fx_mul_mag(fvx as int, dt as int, 14_000_000_000int, MAX_MAG as int);
        lemma_fx_mul_mag(fvy as int, dt as int, 14_000_000_000int, MAX_MAG as int);
    }
    let ix: i64 = fx_mul(fvx, dt);
    let iy: i64 = fx_mul(fvy, dt);
    Some(Vec2Fx { x: -ix, y: -iy })
}

/// World position of an anchor attached to `b`, as a vector value.
pub open spec fn anchor_of(b: Body, local: Vec2Fx) -> Vec2Fx {
    Vec2Fx {
        x: anchor_x_s(b.position, b.rotation, local) as i64,
        y: anchor_y_s(b.position, b.rotation, local) as i64,
    }
}

/// Both handles of a coupled spring resolve to live bodies.
pub open spec fn coupled_resolves(d: Seq<Body>, s: CoupledSpring) -> bool {
    dir_contains(d, s.body_a) && dir_contains(d, s.body_b)
}

/// World anchor on the A body.
pub open spec fn coupled_anchor_a_s(d: Seq<Body>, s: CoupledSpring) -> Vec2Fx {
    anchor_of(dir_body(d, s.body_a), s.local_anchor_a)
}

/// World anchor on the B body.
pub open spec fn coupled_anchor_b_s(d: Seq<Body>, s: CoupledSpring) -> Vec2Fx {
    anchor_of(dir_body(d, s.body_b), s.local_anchor_b)
}

/// The spring resolves and its anchors do not coincide, so it contributes
/// this tick.
pub open spec fn coupled_defined(d: Seq<Body>, s: CoupledSpring) -> bool {
    &&& coupled_resolves(d, s)
    &&& spring_len_s(coupled_anchor_a_s(d, s), coupled_anchor_b_s(d, s)) != 0
}

/// The impulse the B body of a coupled spring receives this tick.
pub open spec fn coupled_impulse_b_s(d: Seq<Body>, s: CoupledSpring, dt: i64) -> Vec2Fx {
    let pa = coupled_anchor_a_s(d, s);
    let pb = coupled_anchor_b_s(d, s);
    let va = dir_body(d, s.body_a).velocity;
    let vb = dir_body(d, s.body_b).velocity;
    Vec2Fx {
        x: impulse_on_b_x_s(pa, pb, va, vb, s.stiffness, s.damping, s.rest_length, dt) as i64,
        y: impulse_on_b_y_s(pa, pb, va, vb, s.stiffness, s.damping, s.rest_length, dt) as i64,
    }
}

/// The directory after one coupled spring's contribution: B receives the
/// impulse, A the exact opposite; an unresolved or degenerate spring
/// leaves the directory unchanged.
pub open spec fn apply_coupled(d: Seq<Body>, s: CoupledSpring, dt: i64) -> Seq<Body> {
    if coupled_defined(d, s) {
        let ia = dir_index(d, s.body_a);
        let ib = dir_index(d, s.body_b);
        let imp = coupled_impulse_b_s(d, s, dt);
        d.update(ib, add_impulse(d[ib], imp)).update(ia, add_impulse(d[ia], neg_s(imp)))
    } else {
        d
    }
}

/// The body handle of an anchored spring resolves.
pub open spec fn anchored_resolves(d: Seq<Body>, s: AnchoredSpring) -> bool {
    dir_contains(d, s.body)
}

/// World anchor on the body side of an anchored spring.
pub open spec fn anchored_anchor_b_s(d: Seq<Body>, s: AnchoredSpring) -> Vec2Fx {
    anchor_of(dir_body(d, s.body), s.local_anchor)
}

/// The anchored spring resolves and its anchors do not coincide.
pub open spec fn anchored_defined(d: Seq<Body>, s: AnchoredSpring) -> bool {
    &&& anchored_resolves(d, s)
    &&& spring_len_s(s.world_anchor, anchored_anchor_b_s(d, s)) != 0
}

/// The impulse the body of an anchored spring receives this tick. The
/// fixed world point is the A side: it has no velocity and receives no
/// reaction impulse.
pub open spec fn anchored_impulse_s(d: Seq<Body>, s: AnchoredSpring, dt: i64) -> Vec2Fx {
    let pa = s.world_anchor;
    let pb = anchored_anchor_b_s(d, s);
    let va = Vec2Fx { x: 0, y: 0 };
    let vb = dir_body(d, s.body).velocity;
    Vec2Fx {
        x: impulse_on_b_x_s(pa, pb, va, vb, s.stiffness, s.damping, s.rest_length, dt) as i64,
        y: impulse_on_b_y_s(pa, pb, va, vb, s.stiffness, s.damping, s.rest_length, dt) as i64,
    }
}

/// The directory after one anchored spring's contribution: only the body
/// side is touched.
pub open spec fn apply_anchored(d: Seq<Body>, s: AnchoredSpring, dt: i64) -> Seq<Body> {
    if anchored_defined(d, s) {
        let i = dir_index(d, s.body);
        d.update(i, add_impulse(d[i], anchored_impulse_s(d, s, dt)))
    } else {
        d
    }
}

/// A coupled spring after the tick: marked orphaned exactly when a handle
/// no longer resolves; nothing else about the descriptor changes.
pub open spec fn mark_coupled(d: Seq<Body>, s: CoupledSpring) -> CoupledSpring {
    if coupled_resolves(d, s) {
        s
    } else {
        CoupledSpring { orphaned: true, ..s }
    }
}

/// An anchored spring after the tick: marked orphaned exactly when its
/// body no longer resolves.
pub open spec fn mark_anchored(d: Seq<Body>, s: AnchoredSpring) -> AnchoredSpring {
    if anchored_resolves(d, s) {
        s
    } else {
        AnchoredSpring { orphaned: true, ..s }
    }
}

/// The directory after all coupled springs, in order.
pub open spec fn run_coupled(d: Seq<Body>, ss: Seq<CoupledSpring>, dt: i64) -> Seq<Body>
    decreases ss.len(),
{
    if ss.len() == 0 {
        d
    } else {
        apply_coupled(run_coupled(d, ss.drop_last(), dt), ss.last(), dt)
    }
}

/// The directory after all anchored springs, in order.
pub open spec fn run_anchored(d: Seq<Body>, ss: Seq<AnchoredSpring>, dt: i64) -> Seq<Body>
    decreases ss.len(),
{
    if ss.len() == 0 {
        d
    } else {
        apply_anchored(run_anchored(d, ss.drop_last(), dt), ss.last(), dt)
    }
}

/// One coupled spring only adds into accumulators: every body keeps its
/// handle, transform and velocity.
pub proof fn lemma_apply_coupled_core(d: Seq<Body>, s: CoupledSpring, dt: i64)
    ensures
        apply_coupled(d, s, dt).len() == d.len(),
        forall|i: int| 0 <= i < d.len() ==> #[trigger] core_same(apply_coupled(d, s, dt)[i], d[i]),
{
    if coupled_defined(d, s) {
        lemma_dir_index_valid(d, s.body_a);
        lemma_dir_index_valid(d, s.body_b);
    }
}

/// One anchored spring only adds into one accumulator.
pub proof fn lemma_apply_anchored_core(d: Seq<Body>, s: AnchoredSpring, dt: i64)
    ensures
        apply_anchored(d, s, dt).len() == d.len(),
        forall|i: int| 0 <= i < d.len() ==> #[trigger] core_same(apply_anchored(d, s, dt)[i], d[i]),
{
    if anchored_defined(d, s) {
        lemma_dir_index_valid(d, s.body);
    }
}

/// One simulation tick: every live spring's force contribution is
/// computed against the frozen transforms and velocities and accumulated
/// into the endpoint bodies' impulse buffers — additively, so impulses
/// from other force sources in the same tick are preserved. A spring whose
/// handle no longer resolves is skipped and marked orphaned, never
/// dereferenced; a degenerate spring (anchors coincide) is skipped for the
/// tick. No failure aborts the pass: every other spring's contribution is
/// still applied.
#[verifier::loop_isolation(false)]
pub fn tick(
    dir: &mut BodyDirectory,
    coupled: &mut Vec<CoupledSpring>,
    anchored: &mut Vec<AnchoredSpring>,
    dt: i64,
)
    requires
        old(dir).wf(),
        accs_bounded(old(dir)@, ACC_START as int),
        forall|j: int| 0 <= j < old(coupled)@.len() ==> #[trigger] old(coupled)@[j].wf(),
        forall|j: int| 0 <= j < old(anchored)@.len() ==> #[trigger] old(anchored)@[j].wf(),
        old(coupled)@.len() <= MAX_SPRINGS,
        old(anchored)@.len() <= MAX_SPRINGS,
        0 <= dt <= MAX_MAG,
    ensures
        final(dir)@ == run_anchored(
            run_coupled(old(dir)@, old(coupled)@, dt),
            old(anchored)@,
            dt,
        ),
        final(dir).wf(),
        final(dir)@.len() == old(dir)@.len(),
        forall|i: int| 0 <= i < old(dir)@.len() ==> #[trigger] core_same(
            final(dir)@[i],
            old(dir)@[i],
        ),
        final(coupled)@.len() == old(coupled)@.len(),
        forall|j: int| 0 <= j < old(coupled)@.len() ==> final(coupled)@[j] == mark_coupled(
            old(dir)@,
            #[trigger] old(coupled)@[j],
        ),
        final(anchored)@.len() == old(anchored)@.len(),
        forall|j: int| 0 <= j < old(anchored)@.len() ==> final(anchored)@[j] == mark_anchored(
            old(dir)@,
            #[trigger] old(anchored)@[j],
        ),
{
    let nc = coupled.len();
    let mut k: usize = 0;
    while k < nc
        invariant
            0 <= k <= nc,
            coupled@.len() == nc,
            anchored@ == old(anchored)@,
            forall|j: int| k <= j < nc ==> #[trigger] coupled@[j] == old(coupled)@[j],
            forall|j: int| 0 <= j < k ==> #[trigger] coupled@[j] == mark_coupled(
                old(dir)@,
                old(coupled)@[j],
            ),
            dir.wf(),
            dir@.len() == old(dir)@.len(),
            forall|i: int| 0 <= i < dir@.len() ==> #[trigger] core_same(dir@[i], old(dir)@[i]),
            accs_bounded(dir@, ACC_START as int + k as int * MAX_IMPULSE as int),
            dir@ == run_coupled(old(dir)@, old(coupled)@.take(k as int), dt),
        decreases nc - k,
    {
        let ghost d_pre = dir@;
        let s = coupled[k];
        proof {
            assert(s.wf());
            assert forall|i: int| 0 <= i < d_pre.len() implies #[trigger] d_pre[i].handle
                == old(dir)@[i].handle by {
                assert(core_same(d_pre[i], old(dir)@[i]));
            }
            lemma_same_handles_contains(d_pre, old(dir)@, s.body_a);
            lemma_same_handles_contains(d_pre, old(dir)@, s.body_b);
        }
        let ra = dir.resolve(s.body_a);
        let rb = dir.resolve(s.body_b);
        match (ra, rb) {
            (Some(ba), Some(bb)) => {
                proof {
                    lemma_dir_index_valid(d_pre, s.body_a);
                    lemma_dir_index_valid(d_pre, s.body_b);
                    assert(d_pre[dir_index(d_pre, s.body_a)].state_wf());
                    assert(d_pre[dir_index(d_pre, s.body_b)].state_wf());
                }
                let pa = world_anchor(ba.position, ba.rotation, s.local_anchor_a);
                let pb = world_anchor(bb.position, bb.rotation, s.local_anchor_b);
                proof {
                    assert(pa == coupled_anchor_a_s(d_pre, s));
                    assert(pb == coupled_anchor_b_s(d_pre, s));
                }
                match spring_impulse_on_b(
                    pa,
                    ba.velocity,
                    pb,
                    bb.velocity,
                    s.stiffness,
                    s.damping,
                    s.rest_length,
                    dt,
                ) {
                    None => {
                        proof {
                            assert(!coupled_defined(d_pre, s));
                            assert(apply_coupled(d_pre, s, dt) == d_pre);
                        }
                    },
                    Some(imp) => {
                        proof {
                            assert(imp == coupled_impulse_b_s(d_pre, s, dt));
                            assert(coupled_defined(d_pre, s));
                            let ib = dir_index(d_pre, s.body_b);
                            assert(dir_body(d_pre, s.body_b) == d_pre[ib]);
                            assert(d_pre[ib].impulse.in_mag(
                                ACC_START as int + k as int * MAX_IMPULSE as int,
                            ));
                        }
                        let _ = dir.accumulate_impulse(s.body_b, imp);
                        let ghost d_mid = dir@;
                        let ni = imp.neg();
                        proof {
                            let ia = dir_index(d_pre, s.body_a);
                            let ib = dir_index(d_pre, s.body_b);
                            assert(d_pre[ia].handle != d_pre[ib].handle);
                            assert(ia != ib);
                            assert(d_mid == d_pre.update(ib, add_impulse(d_pre[ib], imp)));
                            assert(d_mid[ia] == d_pre[ia]);
                            assert forall|p: int, q: int|
                                0 <= p < q < d_mid.len() implies d_mid[p].handle
                                != d_mid[q].handle by {
                                assert(d_pre[p].handle != d_pre[q].handle);
                            }
                            lemma_dir_index_of(d_mid, s.body_a, ia);
                            assert(d_pre[ia].impulse.in_mag(
                                ACC_START as int + k as int * MAX_IMPULSE as int,
                            ));
                        }
                        let _ = dir.accumulate_impulse(s.body_a, ni);
                        proof {
                            let ia = dir_index(d_pre, s.body_a);
                            let ib = dir_index(d_pre, s.body_b);
                            assert(dir@ == d_mid.update(ia, add_impulse(d_mid[ia], ni)));
                            assert(dir@ == apply_coupled(d_pre, s, dt));
                        }
                    },
                }
            },
            _ => {
                proof {
                    assert(!coupled_resolves(d_pre, s));
                    assert(apply_coupled(d_pre, s, dt) == d_pre);
                    assert(!coupled_resolves(old(dir)@, s));
                }
                coupled[k] = CoupledSpring { orphaned: true, ..s };
            },
        }
        proof {
            let ss = old(coupled)@;
            assert(ss.take(k as int + 1).drop_last() =~= ss.take(k as int));
            assert(ss.take(k as int + 1).last() == ss[k as int]);
            assert(dir@ == run_coupled(old(dir)@, ss.take(k as int + 1), dt));
            lemma_apply_coupled_core(d_pre, ss[k as int], dt);
            assert forall|i: int| 0 <= i < dir@.len() implies #[trigger] core_same(
                dir@[i],
                old(dir)@[i],
            ) by {
                assert(core_same(dir@[i], d_pre[i]));
                assert(core_same(d_pre[i], old(dir)@[i]));
            }
            assert forall|i: int| 0 <= i < dir@.len() implies #[trigger] dir@[i].impulse.in_mag(
                ACC_START as int + (k as int + 1) * MAX_IMPULSE as int,
            ) by {
                assert(d_pre[i].impulse.in_mag(ACC_START as int + k as int * MAX_IMPULSE as int));
            }
        }
        k = k + 1;
    }
    proof {
        assert(old(coupled)@.take(nc as int) =~= old(coupled)@);
    }
    let ghost d_half = dir@;
    let na = anchored.len();
    let mut k2: usize = 0;
    while k2 < na
        invariant
            0 <= k2 <= na,
            anchored@.len() == na,
            coupled@.len() == nc,
            forall|j: int| 0 <= j < nc ==> #[trigger] coupled@[j] == mark_coupled(
                old(dir)@,
                old(coupled)@[j],
            ),
            forall|j: int| k2 <= j < na ==> #[trigger] anchored@[j] == old(anchored)@[j],
            forall|j: int| 0 <= j < k2 ==> #[trigger] anchored@[j] == mark_anchored(
                old(dir)@,
                old(anchored)@[j],
            ),
            dir.wf(),
            dir@.len() == old(dir)@.len(),
            forall|i: int| 0 <= i < dir@.len() ==> #[trigger] core_same(dir@[i], old(dir)@[i]),
            accs_bounded(
                dir@,
                ACC_START as int + (nc as int + k2 as int) * MAX_IMPULSE as int,
            ),
            dir@ == run_anchored(d_half, old(anchored)@.take(k2 as int), dt),
        decreases na - k2,
    {
        let ghost d_pre = dir@;
        let s = anchored[k2];
        proof {
            assert(s.wf());
            assert forall|i: int| 0 <= i < d_pre.len() implies #[trigger] d_pre[i].handle
                == old(dir)@[i].handle by {
                assert(core_same(d_pre[i], old(dir)@[i]));
            }
            lemma_same_handles_contains(d_pre, old(dir)@, s.body);
        }
        match dir.resolve(s.body) {
            Some(bb) => {
                proof {
                    lemma_dir_index_valid(d_pre, s.body);
                    assert(d_pre[dir_index(d_pre, s.body)].state_wf());
                }
                let pb = world_anchor(bb.position, bb.rotation, s.local_anchor);
                let va = Vec2Fx::zero();
                proof {
                    assert(pb == anchored_anchor_b_s(d_pre, s));
                    assert(va == (Vec2Fx { x: 0, y: 0 }));
                }
                match spring_impulse_on_b(
                    s.world_anchor,
                    va,
                    pb,
                    bb.velocity,
                    s.stiffness,
                    s.damping,
                    s.rest_length,
                    dt,
                ) {
                    None => {
                        proof {
                            assert(!anchored_defined(d_pre, s));
                            assert(apply_anchored(d_pre, s, dt) == d_pre);
                        }
                    },
                    Some(imp) => {
                        proof {
                            assert(imp == anchored_impulse_s(d_pre, s, dt));
                            let i = dir_index(d_pre, s.body);
                            assert(dir_body(d_pre, s.body) == d_pre[i]);
                            assert(d_pre[i].impulse.in_mag(
                                ACC_START as int + (nc as int + k2 as int) * MAX_IMPULSE as int,
                            ));
                        }
                        let _ = dir.accumulate_impulse(s.body, imp);
                        proof {
                            assert(dir@ == apply_anchored(d_pre, s, dt));
                        }
                    },
                }
            },
            None => {
                proof {
                    assert(!anchored_resolves(d_pre, s));
                    assert(apply_anchored(d_pre, s, dt) == d_pre);
                    assert(!anchored_resolves(old(dir)@, s));
                }
                anchored[k2] = AnchoredSpring { orphaned: true, ..s };
            },
        }
        proof {
            let ss = old(anchored)@;
            assert(ss.take(k2 as int + 1).drop_last() =~= ss.take(k2 as int));
            assert(ss.take(k2 as int + 1).last() == ss[k2 as int]);
            assert(dir@ == run_anchored(d_half, ss.take(k2 as int + 1), dt));
            lemma_apply_anchored_core(d_pre, ss[k2 as int], dt);
            assert forall|i: int| 0 <= i < dir@.len() implies #[trigger] core_same(
                dir@[i],
                old(dir)@[i],
            ) by {
                assert(core_same(dir@[i], d_pre[i]));
                assert(core_same(d_pre[i], old(dir)@[i]));
            }
            assert forall|i: int| 0 <= i < dir@.len() implies #[trigger] dir@[i].impulse.in_mag(
                ACC_START as int + (nc as int + k2 as int + 1) * MAX_IMPULSE as int,
            ) by {
                assert(d_pre[i].impulse.in_mag(
                    ACC_START as int + (nc as int + k2 as int) * MAX_IMPULSE as int,
                ));
                assert(dir@ == apply_anchored(d_pre, ss[k2 as int], dt));
                if anchored_defined(d_pre, ss[k2 as int]) {
                    lemma_dir_index_valid(d_pre, ss[k2 as int].body);
                    let i0 = dir_index(d_pre, ss[k2 as int].body);
                    if i == i0 {
                        assert(dir@[i] == add_impulse(
                            d_pre[i0],
                            anchored_impulse_s(d_pre, ss[k2 as int], dt),
                        ));
                        assert(anchored_impulse_s(d_pre, ss[k2 as int], dt).in_mag(
                            MAX_IMPULSE as int,
                        ));
                    } else {
                        assert(dir@[i] == d_pre[i]);
                    }
                } else {
                    assert(dir@[i] == d_pre[i]);
                }
            }
        }
        proof {
            // the accumulator bound, restated for the incremented counter
            assert(accs_bounded(
                dir@,
                ACC_START as int + (nc as int + k2 as int + 1) * MAX_IMPULSE as int,
            ));
        }
        k2 = k2 + 1;
    }
    proof {
        assert(old(anchored)@.take(na as int) =~= old(anchored)@);
    }
}

} // verus!
