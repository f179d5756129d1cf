//! Scatter plots on a grid of characters.
//!
//! A plot is a [`canvas::Canvas`] of single-byte cells. A [`frame::Frame`]
//! holds the bounds of the two axes and draws the axis lines; a
//! [`data::Data`] holds the samples and draws them, either as one mark for
//! each series or as a count of the samples in each cell ([`glyph`]).
//! [`plot::compose`] does both on a fresh canvas, and [`shown`] says what is
//! then to be seen in each cell. A series can be replaced by its cumulative
//! distribution ([`cdf`]). Lines of text become rows of data in [`ingest`],
//! command lines become a configuration in [`args`], and [`legend`] writes
//! the line above the plot.
//!
//! Samples are IEEE 754 binary64 numbers held as bit patterns ([`bits`]).
//! The crate compares and classifies them; it never computes with them. What
//! a plot needs of arithmetic (the range of an axis, the place of a sample
//! along it) is the caller's to supply, and every function here says for any
//! such value what it does with it.

pub mod args;
pub mod bits;
pub mod canvas;
pub mod cdf;
pub mod data;
pub mod frame;
pub mod glyph;
pub mod ingest;
pub mod legend;
pub mod plot;
pub mod shown;
