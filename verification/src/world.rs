//! The rigid-body directory: canonical body state and the per-body
//! impulse accumulators, addressed by stable handle.
//!
//! In the running application the physics engine owns this state; the
//! directory here is the same interface over synthetic bodies, so that the
//! evaluator can be exercised and verified in isolation. Handles are
//! unique; the evaluator only ever adds into the accumulators, and the
//! engine (or its stand-in) reads and clears them once per tick.

use vstd::prelude::*;

use crate::fixed::MAX_MAG;
use crate::vec2::{Rot2Fx, Vec2Fx};

verus! {

/// One rigid body's snapshot for a tick, together with its accumulator.
#[derive(Clone, Copy, Debug, PartialEq, Eq, Structural)]
pub struct Body {
    pub handle: u64,
    pub position: Vec2Fx,
    pub rotation: Rot2Fx,
    pub velocity: Vec2Fx,
    /// The per-tick additive impulse buffer; other force sources add here
    /// too, and the engine consumes and clears it once per step.
    pub impulse: Vec2Fx,
}

impl Body {
    /// Transform and velocity are within the fixed-point working range.
    pub open spec fn state_wf(self) -> bool {
        &&& self.position.in_mag(MAX_MAG as int)
        &&& self.rotation.wf()
        &&& self.velocity.in_mag(MAX_MAG as int)
    }
}

/// Some body in `d` carries handle `h`.
pub open spec fn dir_contains(d: Seq<Body>, h: u64) -> bool {
    exists|i: int| 0 <= i < d.len() && d[i].handle == h
}

/// The position of the body carrying `h`; unique when handles are unique.
pub open spec fn dir_index(d: Seq<Body>, h: u64) -> int {
    choose|i: int| 0 <= i < d.len() && d[i].handle == h
}

/// The body carrying handle `h`.
pub open spec fn dir_body(d: Seq<Body>, h: u64) -> Body {
    d[dir_index(d, h)]
}

/// No two bodies share a handle.
pub open spec fn handles_unique(d: Seq<Body>) -> bool {
    forall|i: int, j: int|
        0 <= i < j < d.len() ==> d[i].handle != d[j].handle
}

/// Handles unique and every body within the working range.
pub open spec fn dir_wf(d: Seq<Body>) -> bool {
    &&& handles_unique(d)
    &&& forall|i: int| 0 <= i < d.len() ==> #[trigger] d[i].state_wf()
}

/// Every accumulator component is within `m` in magnitude.
pub open spec fn accs_bounded(d: Seq<Body>, m: int) -> bool {
    forall|i: int| 0 <= i < d.len() ==> #[trigger] d[i].impulse.in_mag(m)
}

/// The two bodies agree on everything the evaluator reads: only the
/// accumulators may differ.
pub open spec fn core_same(a: Body, b: Body) -> bool {
    &&& a.handle == b.handle
    &&& a.position == b.position
    &&& a.rotation == b.rotation
    &&& a.velocity == b.velocity
}

/// When `dir_contains` holds, `dir_index` names a real position carrying
/// the handle.
pub proof fn lemma_dir_index_valid(d: Seq<Body>, h: u64)
    requires
        dir_contains(d, h),
    ensures
        0 <= dir_index(d, h) < d.len(),
        d[dir_index(d, h)].handle == h,
{
    let i = choose|i: int| 0 <= i < d.len() && d[i].handle == h;
    assert(0 <= i < d.len() && d[i].handle == h);
}

/// Directories that agree on handles position by position resolve the same
/// handles.
pub proof fn lemma_same_handles_contains(d1: Seq<Body>, d2: Seq<Body>, h: u64)
    requires
        d1.len() == d2.len(),
        forall|i: int| 0 <= i < d1.len() ==> #[trigger] d1[i].handle == d2[i].handle,
    ensures
        dir_contains(d1, h) == dir_contains(d2, h),
{
    if dir_contains(d1, h) {
        let i = choose|i: int| 0 <= i < d1.len() && d1[i].handle == h;
        assert(d2[i].handle == h);
        assert(dir_contains(d2, h));
    }
    if dir_contains(d2, h) {
        let i = choose|i: int| 0 <= i < d2.len() && d2[i].handle == h;
        assert(d1[i].handle == h);
        assert(dir_contains(d1, h));
    }
}

/// With unique handles, a position holding `h` is the position `dir_index`
/// names.
pub proof fn lemma_dir_index_of(d: Seq<Body>, h: u64, i: int)
    requires
        handles_unique(d),
        0 <= i < d.len(),
        d[i].handle == h,
    ensures
        dir_contains(d, h),
        dir_index(d, h) == i,
        dir_body(d, h) == d[i],
{
    assert(dir_contains(d, h));
    let j = dir_index(d, h);
    assert(0 <= j < d.len() && d[j].handle == h);
    if i < j {
        assert(d[i].handle != d[j].handle);
    }
    if j < i {
        assert(d[j].handle != d[i].handle);
    }
}

/// The directory of live bodies.
pub struct BodyDirectory {
    bodies: Vec<Body>,
}

impl View for BodyDirectory {
    type V = Seq<Body>;

    closed spec fn view(&self) -> Seq<Body> {
        self.bodies@
    }
}

impl BodyDirectory {
    /// The directory's invariant: unique handles, in-range body state.
    pub open spec fn wf(&self) -> bool {
        dir_wf(self@)
    }

    pub fn new() -> (d: Self)
        ensures
            d@ == Seq::<Body>::empty(),
            d.wf(),
    {
        BodyDirectory { bodies: Vec::new() }
    }

    pub fn len(&self) -> (n: usize)
        ensures
            n == self@.len(),
    {
        self.bodies.len()
    }

    /// Index of the body carrying `h`, if any.
    fn find(&self, h: u64) -> (r: Option<usize>)
        requires
            self.wf(),
        ensures
            r is Some <==> dir_contains(self@, h),
            r is Some ==> r->0 == dir_index(self@, h) && self@[r->0 as int].handle == h,
    {
        let n = self.bodies.len();
        let mut i: usize = 0;
        while i < n
            invariant
                n == self@.len(),
                0 <= i <= n,
                self.wf(),
                forall|j: int| 0 <= j < i ==> self@[j].handle != h,
            decreases n - i,
        {
            if self.bodies[i].handle == h {
                proof {
                    lemma_dir_index_of(self@, h, i as int);
                }
                return Some(i);
            }
            i = i + 1;
        }
        proof {
            assert(!dir_contains(self@, h));
        }
        None
    }

    /// Add a body under a fresh handle, with an empty accumulator; refused
    /// when the handle is already taken.
    pub fn spawn(
        &mut self,
        handle: u64,
        position: Vec2Fx,
        rotation: Rot2Fx,
        velocity: Vec2Fx,
    ) -> (r: bool)
        requires
            old(self).wf(),
            position.in_mag(MAX_MAG as int),
            rotation.wf(),
            velocity.in_mag(MAX_MAG as int),
        ensures
            r == !dir_contains(old(self)@, handle),
            r ==> final(self)@ == old(self)@.push(
                Body { handle, position, rotation, velocity, impulse: Vec2Fx { x: 0, y: 0 } },
            ),
            !r ==> final(self)@ == old(self)@,
            final(self).wf(),
    {
        match self.find(handle) {
            Some(_) => false,
            None => {
                let b = Body { handle, position, rotation, velocity, impulse: Vec2Fx { x: 0, y: 0 } };
                self.bodies.push(b);
                proof {
                    let d0 = old(self)@;
                    let d = self@;
                    assert forall|i: int, j: int| 0 <= i < j < d.len() implies d[i].handle
                        != d[j].handle by {
                        if j < d0.len() {
                            assert(d0[i].handle != d0[j].handle);
                        } else {
                            assert(d[j].handle == handle);
                            assert(d[i] == d0[i]);
                        }
                    }
                    assert forall|i: int| 0 <= i < d.len() implies #[trigger] d[i].state_wf() by {
                        if i < d0.len() {
                            assert(d0[i].state_wf());
                        }
                    }
                }
                true
            },
        }
    }

    /// Destroy the body carrying `h`; its accumulator goes with it, and
    /// every other body keeps its place order and state.
    pub fn remove(&mut self, h: u64) -> (r: bool)
        requires
            old(self).wf(),
        ensures
            r == dir_contains(old(self)@, h),
            r ==> final(self)@ == old(self)@.remove(dir_index(old(self)@, h)),
            !r ==> final(self)@ == old(self)@,
            final(self).wf(),
            !dir_contains(final(self)@, h),
    {
        match self.find(h) {
            None => false,
            Some(i) => {
                self.bodies.remove(i);
                proof {
                    let d0 = old(self)@;
                    let d = self@;
                    let k = i as int;
                    assert forall|p: int, q: int| 0 <= p < q < d.len() implies d[p].handle
                        != d[q].handle by {
                        let p0: int = if p < k { p } else { p + 1 };
                        let q0: int = if q < k { q } else { q + 1 };
                        assert(d[p] == d0[p0] && d[q] == d0[q0]);
                        assert(d0[p0].handle != d0[q0].handle);
                    }
                    assert forall|p: int| 0 <= p < d.len() implies #[trigger] d[p].state_wf() by {
                        let p0: int = if p < k { p } else { p + 1 };
                        assert(d[p] == d0[p0]);
                        assert(d0[p0].state_wf());
                    }
                    assert forall|p: int| 0 <= p < d.len() implies d[p].handle != h by {
                        let p0: int = if p < k { p } else { p + 1 };
                        assert(d[p] == d0[p0]);
                        if p0 < k {
                            assert(d0[p0].handle != d0[k].handle);
                        } else {
                            assert(d0[k].handle != d0[p0].handle);
                        }
                    }
                }
                true
            },
        }
    }

    /// Current transform, velocity and accumulator of the body carrying
    /// `h`, or `None` for a dangling handle.
    pub fn resolve(&self, h: u64) -> (r: Option<Body>)
        requires
            self.wf(),
        ensures
            r is Some <==> dir_contains(self@, h),
            r is Some ==> r->0 == dir_body(self@, h),
    {
        match self.find(h) {
            None => None,
            Some(i) => Some(self.bodies[i]),
        }
    }

    /// Add an impulse into the accumulator of the body carrying `h`;
    /// additive, so contributions from other sources in the same tick are
    /// preserved. Returns whether the handle resolved.
    pub fn accumulate_impulse(&mut self, h: u64, imp: Vec2Fx) -> (r: bool)
        requires
            old(self).wf(),
            dir_contains(old(self)@, h) ==> {
                let acc = dir_body(old(self)@, h).impulse;
                &&& i64::MIN <= acc.x + imp.x <= i64::MAX
                &&& i64::MIN <= acc.y + imp.y <= i64::MAX
            },
        ensures
            r == dir_contains(old(self)@, h),
            r ==> final(self)@ == old(self)@.update(
                dir_index(old(self)@, h),
                add_impulse(dir_body(old(self)@, h), imp),
            ),
            !r ==> final(self)@ == old(self)@,
            final(self).wf(),
    {
        match self.find(h) {
            None => false,
            Some(i) => {
                let b = self.bodies[i];
                let nb = Body {
                    impulse: Vec2Fx { x: b.impulse.x + imp.x, y: b.impulse.y + imp.y },
                    ..b
                };
                self.bodies[i] = nb;
                proof {
                    let d0 = old(self)@;
                    let d = self@;
                    assert forall|p: int, q: int| 0 <= p < q < d.len() implies d[p].handle
                        != d[q].handle by {
                        assert(d0[p].handle != d0[q].handle);
                        assert(d[p].handle == d0[p].handle && d[q].handle == d0[q].handle);
                    }
                    assert forall|p: int| 0 <= p < d.len() implies #[trigger] d[p].state_wf() by {
                        assert(d0[p].state_wf());
                        assert(d[p].position == d0[p].position && d[p].rotation == d0[p].rotation
                            && d[p].velocity == d0[p].velocity);
                    }
                }
                true
            },
        }
    }

    /// The engine's consume step: empty every accumulator.
    pub fn clear_impulses(&mut self)
        requires
            old(self).wf(),
        ensures
            final(self)@.len() == old(self)@.len(),
            forall|i: int| 0 <= i < old(self)@.len() ==> final(self)@[i] == (Body {
                impulse: Vec2Fx { x: 0, y: 0 },
                ..old(self)@[i]
            }),
            final(self).wf(),
    {
        let n = self.bodies.len();
        let mut i: usize = 0;
        while i < n
            invariant
                n == self@.len(),
                0 <= i <= n,
                self@.len() == old(self)@.len(),
                forall|j: int| 0 <= j < i ==> self@[j] == (Body {
                    impulse: Vec2Fx { x: 0, y: 0 },
                    ..old(self)@[j]
                }),
                forall|j: int| i <= j < n ==> self@[j] == old(self)@[j],
            decreases n - i,
        {
            let b = self.bodies[i];
            self.bodies[i] = Body { impulse: Vec2Fx { x: 0, y: 0 }, ..b };
            i = i + 1;
        }
        proof {
            let d0 = old(self)@;
            let d = self@;
            assert forall|p: int, q: int| 0 <= p < q < d.len() implies d[p].handle
                != d[q].handle by {
                assert(d0[p].handle != d0[q].handle);
            }
            assert forall|p: int| 0 <= p < d.len() implies #[trigger] d[p].state_wf() by {
                assert(d0[p].state_wf());
            }
        }
    }
}

/// `b` with `imp` added into its accumulator.
pub open spec fn add_impulse(b: Body, imp: Vec2Fx) -> Body {
    Body {
        impulse: Vec2Fx {
            x: (b.impulse.x + imp.x) as i64,
            y: (b.impulse.y + imp.y) as i64,
        },
        ..b
    }
}

} // verus!
