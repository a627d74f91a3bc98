//! Tools for deciding when the user has sufficiently deviated from a route.
//!
//! The types in this crate are designed around route deviation detection as a single
//! responsibility. While the most common use for this is triggering route recalculation, the
//! decision to reroute (or display an overlay on screen, or any other action) lies with higher
//! levels.
//!
//! [`deviation_detection`] decides, [`verdict`] states what it decides, and [`laws`] proves what
//! holds of every decision. Numbers are floating-point numbers in the form of [`binary64`], so a
//! caller measures distances and bearings in whatever way suits and hands over the bits.
pub mod angle_laws;
pub mod angles;
pub mod arithmetic_laws;
pub mod binary64;
pub mod deviation_detection;
pub mod guarantees;
pub mod laws;
pub mod magnitude;
pub mod models;
pub mod number_laws;
pub mod rounding;
pub mod verdict;
