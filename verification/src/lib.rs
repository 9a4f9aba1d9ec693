//! A 2D rigid-body physics core: semi-implicit Euler integration of convex
//! polygonal bodies under gravity and applied forces, with pairwise collision
//! detection between convex polygons by the separating-axis method.
//!
//! All coordinates, masses and times are exact rational numbers
//! (`rational::Scalar`), so every contract speaks of exact arithmetic;
//! operations whose reduced result would not fit the bounded representation
//! report that instead of overflowing.

mod adapters;
pub mod body;
pub mod collision;
pub mod engine;
pub mod geometry;
pub mod rational;
pub mod terrain;
pub mod viewport;
