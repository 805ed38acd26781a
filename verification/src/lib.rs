//! Combinators for rectangular blocks of text ("boxes"): horizontal and
//! vertical joining with configurable alignment, padding to a target size,
//! n-ary concatenation, grid layout and framing.
//!
//! A box is `height` rows of `width` characters kept in one flat, row-major
//! buffer. The empty box (both dimensions zero) is the identity of both join
//! operators. Every operation is a pure value transformation; the
//! mathematical meaning of each one is given by the spec functions of
//! [`model`], and the laws the algebra obeys are proved in [`laws`].

pub mod align;
pub mod boxes;
pub mod laws;
pub mod model;

pub use crate::align::Horizontal;
pub use crate::align::Vertical;
pub use crate::boxes::Box;
