//! In-memory images and the decoders and encoders that produce and consume them.

pub mod bmp;
pub mod raw;

use vstd::prelude::*;

verus! {

#[derive(Copy, Clone, Debug, Eq, PartialEq, Structural)]
pub struct ColorRGB8(pub u8, pub u8, pub u8);

#[derive(Copy, Clone, Debug, Eq, PartialEq, Structural)]
pub enum Pixel {
    RGB8(ColorRGB8),
    RGBA8(ColorRGB8, u8),
    GRAY8(u8),
    INDEX8(u8),
}

pub type ScanLine = Vec<Pixel>;

pub type Frame = Vec<ScanLine>;

pub type Palette = Vec<ColorRGB8>;

#[derive(Clone, Debug, Eq, PartialEq)]
pub struct Image {
    pub x_size: usize,
    pub y_size: usize,
    pub palette: Option<Palette>,
    pub pixels: Frame,
}

/// The rows of a frame, each as a sequence of pixels.
pub open spec fn frame_view(f: Seq<ScanLine>) -> Seq<Seq<Pixel>> {
    f.map_values(|row: ScanLine| row@)
}

/// Why an image could not be decoded or encoded.
#[derive(Debug, Clone, Copy, PartialEq, Eq, Structural)]
pub enum ImageError {
    /// The data ends inside a header, the palette or a row.
    Truncated,
    /// The file header does not start with `BM`.
    InvalidMagic,
    /// The info header's size field is not 40.
    InvalidInfoHeaderSize,
    NegativeWidth,
    WidthOverflow,
    HeightOverflow,
    InvalidBitDepth,
    /// More than 256 palette entries declared.
    OversizePalette,
    /// More important colors declared than colors used.
    ImportantOverUsed,
    /// A compressed pixel format.
    UnsupportedCompression,
    /// A pixel refers past the end of the palette.
    ColorBeyondPalette,
    /// A pixel format that is valid but not handled here.
    Unsupported,
}

/// A header that can check its own fields.
pub trait Validate {
    /// The outcome of the check: the first rule the header breaks, if any.
    spec fn check(&self) -> Result<(), ImageError>;

    fn validate(&self) -> (r: Result<(), ImageError>)
        ensures
            r == self.check(),
    ;
}

} // verus!
