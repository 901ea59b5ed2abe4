//! Broad-phase 2D collision detection: world boxes are gathered each tick,
//! sorted along an adaptively chosen axis and swept for overlapping pairs
//! whose collision layers allow them to interact.
//!
//! Coordinates, translations and scale factors are integers: a caller picks a
//! fixed-point unit fine enough for its world. Integer keys order totally, so
//! the sort needs no rule for incomparable values, and the centre statistics
//! that choose the sweep axis are computed exactly.
//!
//! A tick runs [`world::CollisionWorld::tick`]: it projects every body's local
//! box into world space, copies the bodies that carry a world box and a tag
//! into the snapshot buffer, sorts it along the current axis, sweeps it for
//! pairs, and keeps for the next tick the axis along which the box centres
//! spread most.
pub mod geometry;
pub mod tag;
pub mod snapshot;
pub mod sort;
pub mod sweep;
pub mod world;
