//! A progressive Monte Carlo path tracer whose numeric core works on
//! fixed-point scalars (Q32.32 in an `i64`), so that every stage of the
//! pipeline — geometry intersection, path integration, sample accumulation,
//! tone mapping and pixel packing — carries a machine-checked contract.
pub mod accumulator;
pub mod camera;
pub mod exr;
pub mod fx;
pub mod geometry;
pub mod integrator;
pub mod materials;
pub mod ray;
pub mod renderer;
pub mod sampler;
pub mod scene;
pub mod trig;
pub mod utils;
pub mod vec;
