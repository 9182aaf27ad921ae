//! Solver for 2D incompressible flow in vorticity-streamfunction form.
pub mod channel;
pub mod channel_model;
pub mod config;
pub mod fft;
pub mod fixed;
pub mod geometry;
pub mod grid;
mod kernels;
pub mod laws;
pub mod model;
mod parallel;
pub mod plane;
pub mod poisson;
pub mod run;
pub mod scalar;
pub mod solver;
pub mod text;
pub mod viz;
