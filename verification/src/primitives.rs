//! The closed set of geometric primitives.
//!
//! Each primitive exposes a signed distance (negative inside, zero on the
//! boundary, positive outside), an unsigned distance, and a well-formedness
//! bound on its parameters under which every distance fits `DIST_MAX`.

mod cross;
mod disk;
mod line_segment;
mod plane;
mod ray;
mod rectangle;
mod torus;

pub use cross::Cross;
pub use disk::Disk;
pub use line_segment::LineSegment;
pub use plane::Plane;
pub use ray::Ray;
pub use rectangle::Rectangle;
pub use torus::Torus;
