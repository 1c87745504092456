//! A text-mode compositor: figures parsed from multi-line text are placed on
//! a fixed-size grid of characters and clipped against its edges.
//!
//! A [`Figure`] is built once from its text. A [`Canvas`] takes figures and
//! positions into its queue and draws them into its cells, seen through an
//! offset that moves what the canvas shows of the plane. The cells are then
//! read row by row by whoever puts them on a screen. What a drawn cell
//! holds is stated in [`compose`].

pub mod canvas;
pub mod compose;
pub mod error;
pub mod figure;
pub mod point;

pub use canvas::{Canvas, CanvasView, Draw};
pub use error::CanvasError;
pub use figure::{Figure, FigureInstruction};
pub use point::Point;
