//! Procedural raster composition of geometric primitives.
//!
//! Points, lines and line-built shapes (triangle, rectangle, pentagon,
//! wireframe cube) and a midpoint circle are scan-converted onto an
//! in-memory pixel canvas.  Shape placement and colors may be randomized.
//! The final canvas is handed to the caller for encoding and persistence.
use vstd::prelude::*;

pub mod canvas;
pub mod compose;
pub mod circle;
pub mod cube;
pub mod drawable;
pub mod line;
pub mod paint;
pub mod pentagon;
pub mod point;
pub mod rectangle;
pub mod rng;
pub mod triangle;

verus! {

pub use canvas::Canvas;
pub use compose::compose;
pub use canvas::Color;
pub use canvas::Displayable;
pub use circle::Circle;
pub use cube::Cube;
pub use drawable::Drawable;
pub use line::Line;
pub use pentagon::Pentagon;
pub use point::Point;
pub use rectangle::Rectangle;
pub use rng::ShapeError;
pub use triangle::Triangle;

} // verus!
