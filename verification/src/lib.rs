//! A verified 2-D damped-spring subsystem for a rigid-body simulation.
//!
//! Springs connect either two rigid bodies (`CoupledSpring`) or one rigid
//! body and a fixed world point (`AnchoredSpring`). Once per simulation
//! tick the evaluator resolves both anchor points to world space, computes
//! the damped Hookean force along the spring axis, converts it to an
//! impulse for the tick, and accumulates that impulse into the endpoint
//! bodies' impulse accumulators. The physics engine that integrates those
//! impulses is an external collaborator; the `BodyDirectory` here is the
//! directory of body state and accumulators that the evaluator reads and
//! writes.
//!
//! All quantities are fixed-point integers (see `fixed`): the arithmetic
//! is exact, overflow-free by proof, and every force and impulse is pinned
//! down by the contracts.

pub mod evaluator;
pub mod fixed;
pub mod laws;
pub mod spring;
pub mod vec2;
pub mod world;
