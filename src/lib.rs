//! Integer core of a path-tracing renderer: image geometry and pixel
//! enumeration, the fan-out/fan-in arithmetic of distributed renders, the
//! lattice hashing of the noise generator, the shape of the bounding-volume
//! hierarchy and the recursion-depth rule of the integrator.
pub mod scene;
pub mod renderer;
pub mod perlin;
pub mod coordinator;
pub mod integrator;
pub mod texture;
pub mod bvh;
