//! Dimensional quality-control grouping: units measured as (width, height)
//! pairs are partitioned, per identifier group, into clusters of mutually
//! compatible sizes under a configurable tolerance range.
//!
//! Measures are carried as fixed-point integers, so that the tolerance
//! geometry is exact: a unit's comparison region is an axis-aligned
//! rectangle, and two regions are compatible when they overlap strictly
//! on both axes.

pub mod engine;
pub mod geometry;
pub mod ingest;
pub mod orchestrator;

pub use engine::Cluster;
pub use geometry::Area;
pub use geometry::GrezziError;
pub use geometry::ToleranceRange;
pub use geometry::Unit;
