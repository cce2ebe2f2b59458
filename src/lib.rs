//! Extraction of prominent colours from a pixel buffer.
//!
//! Pixels are bucketed into a histogram of 5-bit colours, the histogram is cut
//! into boxes by a median cut, and the averaged boxes become swatches. The
//! swatches are then matched against perceptual targets (vibrant, muted, ...)
//! to form a palette. All colour arithmetic is exact: hue, saturation and
//! lightness are fractions of integers.

pub mod color;
pub mod filter;
pub mod histogram;
pub mod palette;
pub mod quantizer;
pub mod scoring;
pub mod swatch;
pub mod target;
pub mod vbox;

pub use crate::color::{modify_width, rgb_to_hsl, Hsl, Ratio, Rgb, QUANTIZE_WORD_WIDTH};
pub use crate::filter::{should_ignore_color, DefaultFilter, Filter};
pub use crate::palette::{Palette, PaletteBuilder, DEFAULT_CALCULATE_NUMBER_COLORS};
pub use crate::quantizer::ColorCutQuantizer;
pub use crate::swatch::Swatch;
pub use crate::target::Target;
