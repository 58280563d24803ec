//! Newton-fractal rendering core.
//!
//! The library holds the verified pipeline that turns a parsed expression
//! into pixels: the symbolic function algebra with differentiation and
//! C-code emission, the palette language, the root registry, the shadow
//! field and the per-pixel coloring rules.  Values of the complex plane
//! are carried as exact fixed-point integers; the unverified binary around
//! the library converts at the edge.

pub mod color;
pub mod coord;
pub mod emit;
pub mod func;
pub mod palette;
pub mod parse;
pub mod point;
pub mod rat;
pub mod registry;
pub mod render;
pub mod shadow;

pub use color::Color;
pub use point::Point;
