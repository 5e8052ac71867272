//! Binary-format decoding: ZIP archive extraction (record parsing, payload
//! decoding, confinement of entry names), 8-bit BMP decoding, and variable-length
//! integer decoders.

pub mod binary;
pub mod conversions;
pub mod image_codec;
pub mod masks;
pub mod text;
pub mod records;
pub mod paths;
pub mod unzip;
