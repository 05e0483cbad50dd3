//! A small offline ray tracer, verified with Verus.
//!
//! Geometry and color arithmetic is done in fixed point: a value carries
//! its magnitude scaled by `math::SCALE`, so one world unit is `SCALE`
//! raw units.  Every public operation states its result exactly over
//! mathematical integers; the rendering pipeline (camera ray generation,
//! ray-surface intersection, nearest-hit resolution, Lambertian shading,
//! gamma-encoded output) is specified end to end.

pub mod color;
pub mod math;
pub mod render;
pub mod scene;
pub mod vector;

pub use color::Color;
pub use color::Rgba;
pub use math::SCALE;
pub use render::get_color;
pub use render::render;
pub use scene::Element;
pub use scene::Intersectable;
pub use scene::Light;
pub use scene::Plane;
pub use scene::Ray;
pub use scene::Scene;
pub use scene::Sphere;
pub use scene::Surface_normal;
pub use vector::Point;
pub use vector::Vector3;
