pub mod buffer;
pub mod camera;
pub mod color;
pub mod fx;
pub mod hittable;
pub mod materials;
pub mod math;
pub mod rng;
