//! Smoothing filters over sparse voxel grids: a box (mean) filter applied
//! separably along each axis, its iterated form as a Gaussian approximation,
//! a median filter over cubic neighbourhoods, and a constant offset of every
//! active voxel.
pub mod coord;
pub mod filter;
pub mod filterable;
pub mod grid;
pub mod laws;
pub mod locality;
pub mod median;
pub mod neighbourhood;
pub mod sample;
pub mod windows;
