//! Exact 2D geometry: rational numbers kept in lowest terms, points and vectors
//! built on them, and axis-aligned rectangles with containment and collision
//! tests; plus a small character grid and ASCII-art pictures.

pub mod asc_art;
pub mod fraction;
pub mod matrix;
pub mod point;
pub mod rectangle;
pub mod text;

pub use fraction::Fraction;
pub use point::{Point, Vector};
pub use rectangle::Rectangle;
