//! Physical memory management.

pub mod bits;
pub mod frame;
pub mod laws;
pub mod layers;
pub mod regions;
