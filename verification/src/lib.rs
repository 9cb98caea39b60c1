//! K-means clustering of points in the plane, on fixed-point coordinates.
//!
//! Coordinates are 32-bit integers: a caller picks a scale (so many units to
//! one) and every quantity of the algorithm is then exact integer arithmetic.
//! Nearness is decided on squared distances, and a centroid is the mean of its
//! cluster with each coordinate rounded down.

pub mod point;
pub mod model;
pub mod engine;
pub mod laws;
pub mod sampling;
pub mod run;
pub mod palette;
