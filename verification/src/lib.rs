//! Pixel shapes for a text terminal.
//!
//! An [`Object`] owns an ordered sequence of coloured [`Pixel`]s. Its
//! operations change that sequence and say, as a list of [`BackendCall`]s,
//! what has to be written to the terminal; the caller performs the calls in
//! the order given. Every operation is total, and each one is proved against
//! a contract over the sequence of pixels.

pub mod color;
pub mod pixel;
pub mod backend;
pub mod order;
mod sorting;
pub mod object;

pub use backend::BackendCall;
pub use color::Color;
pub use object::Object;
pub use pixel::Pixel;
