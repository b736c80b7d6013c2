//! Model of an asynchronously stepped physics sandbox.
//!
//! The library captures the coordination logic of a real-time sandbox in
//! which a frame loop and an independently paced simulation stepper share
//! one exclusively locked simulation resource.  It provides:
//!
//! - a handle-based entity registry whose handles are never reused and whose
//!   live-handle set always matches the bodies known to the simulation,
//! - bounded channels with back-pressure for timesteps and commands and a
//!   best-effort channel for status telemetry,
//! - the step scheduler's per-tick decision logic (drop the tick on lock
//!   contention, apply at most one command per successful step),
//! - the per-frame synchronization that copies body poses into render
//!   transforms without ever blocking the frame loop, and
//! - a raycast resolver over the model's integer world coordinates.
//!
//! All world coordinates are integers in a fixed milli-unit scale, so that
//! every statement about poses and shapes is exact.

pub mod channels;
pub mod kvlist;
pub mod phys;
pub mod queries;
pub mod raycast;
pub mod raycaster;
pub mod rb_builder;
pub mod registry;
pub mod render;
pub mod scheduler;
pub mod units;
