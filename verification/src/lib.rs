//! A codec for the PostGIS raster wire format: a georeferenced raster is
//! turned into a byte string, or into its hexadecimal text, and back again.
//!
//! Every function states what it returns over a mathematical model of the
//! raster, and the round trip through the wire format is proved in `laws`.

pub mod bytes;
pub mod decode;
pub mod encode;
pub mod hex;
pub mod laws;
pub mod lemmas;
pub mod model;
pub mod pixel;
pub mod validate;
pub mod wire;

pub use decode::{decode, decode_from_hex, decode_from_hex_strict, decode_strict};
pub use encode::{encode, encode_to_hex};
pub use hex::{hex_decode, hex_decode_bytes, hex_encode};
pub use model::{
    InMemoryRasterData, OutDbRasterData, PixType, Raster, RasterBand, RasterDataSource,
};
pub use pixel::{CodecError, Endian, PixelTag};
