//! Core logic of a mouse-driven 3D ray pointer: folding pointing-device input
//! into a pose and auxiliary state, resolving which candidate objects the ray
//! hits closest, and choosing the single receiver of routed keyboard events.
//!
//! Floating-point values never enter this crate as numbers. Distances and scroll
//! amounts are carried as their IEEE-754 bit patterns, and angles are integer
//! millidegrees.

pub mod distance;
pub mod hits;
pub mod input;
pub mod pointer;
pub mod router;

pub use distance::Distance;
pub use hits::{resolve_hits, HitSet, PassGuard, RayMarchOutcome};
pub use input::{MouseReport, BTN_LEFT, BTN_RIGHT};
pub use pointer::{Datamap, MouseEvent, PointerState, DEFAULT_SENSITIVITY, PITCH_LIMIT};
pub use router::{deliveries, Delivery, EventRouter, DEFAULT_THRESHOLD_BITS};
