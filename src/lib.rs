//! Spatial bookkeeping for a 2D scene of point-like agents and rectangular zones:
//! resolving pointer clicks into agent selections, and keeping, tick by tick,
//! which agents each live zone holds.
//!
//! All lengths are fixed-point integers: one world unit (or one pixel) is
//! `geometry::UNIT` steps.

pub mod geometry;
pub mod camera;
pub mod agent;
pub mod zone;
