//! The exact core of a sphere path tracer: the nearest-hit sweep over a scene,
//! the control of the radiance estimator's bounded loop, and the raster
//! traversal and text encoding of the rendered image. The numeric geometry is
//! supplied by callers through closures and events.

pub mod image;
pub mod radiance;
pub mod scene;
