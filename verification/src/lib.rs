//! The deciding half of a separating-axis collision test for convex shapes
//! in the plane.
//!
//! Numbers travel through this crate as the bit patterns of double-precision
//! values. The crate orders them, flips and clears their signs, and takes
//! every decision of the test; sums, products and roots are the caller's.

pub mod axis;
pub mod poly_box;
pub mod polygon;
pub mod range;
pub mod response;
pub mod scalar;
pub mod vector2d;

pub use axis::{is_separating_axis, Differences, ResponseLite};
pub use poly_box::PolyBox;
pub use polygon::{Edge, Polygon};
pub use range::{flatten_points_on, Range};
pub use response::{Candidate, Response};
pub use scalar::Scalar;
pub use vector2d::Vector2d;
