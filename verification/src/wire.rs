//! The wire format: which bytes stand for a raster, and which raster a byte
//! string stands for.
//!
//! Layout. One marker byte gives the byte order (0 big-endian, 1
//! little-endian) of every later field. Then come the version and the number
//! of bands (two bytes each), the six georeferencing numbers (eight bytes
//! each), the spatial reference identifier (four bytes, two's complement),
//! and the width and height (two bytes each). Each band follows as one flag
//! byte, its nodata value if the flag byte announces one, and its pixels.
//!
//! Samples. A sample of eight bits or more is written as its two's-complement
//! or IEEE-754 bit pattern in the raster's byte order. Samples of one, two
//! and four bits are packed: a run of them fills each byte from the most
//! significant bit down, and the last byte of the run is filled up with zero
//! bits, which a reader ignores. Each row of a grid is a run of its own, and
//! so is the nodata value.

use crate::bytes::{uint_bytes, uint_value};
use crate::hex::{hex_bytes, hex_chars};
use crate::model::{BandModel, PixelsModel, RasterModel};
use crate::pixel::{
    raw_of, sample_modulus, tag_number, tag_of_number, value_of, CodecError, Endian, PixelTag,
};
use vstd::prelude::*;

verus! {

/// The marker byte of big-endian rasters.
pub const MARKER_BIG: u8 = 0;

/// The marker byte of little-endian rasters.
pub const MARKER_LITTLE: u8 = 1;

/// The one version of the format.
pub const VERSION: u16 = 0;

/// Length of the header in bytes.
pub const HEADER_LEN: usize = 61;

/// Bit of the flag byte that says the pixels are in an outside file.
pub const FLAG_OUT_DB: u8 = 128;

/// Bit of the flag byte that says a nodata value follows.
pub const FLAG_HAS_NODATA: u8 = 64;

/// Bit of the flag byte that says every pixel is the nodata value.
pub const FLAG_IS_NODATA: u8 = 32;

/// Whether several samples of the type share a byte.
pub open spec fn is_packed(tag: PixelTag) -> bool {
    tag == PixelTag::Bool1Bit || tag == PixelTag::UInt2 || tag == PixelTag::UInt4
}

/// Number of samples in a chunk, the unit in which samples are written:
/// as many as fill a byte for packed types, one for the others.
pub open spec fn group_size(tag: PixelTag) -> nat {
    match tag {
        PixelTag::Bool1Bit => 8,
        PixelTag::UInt2 => 4,
        PixelTag::UInt4 => 2,
        _ => 1,
    }
}

/// Number of bytes of a chunk.
pub open spec fn chunk_len(tag: PixelTag) -> nat {
    match tag {
        PixelTag::Bool1Bit | PixelTag::UInt2 | PixelTag::UInt4 => 1,
        PixelTag::Int8 | PixelTag::UInt8 => 1,
        PixelTag::Int16 | PixelTag::UInt16 => 2,
        PixelTag::Int32 | PixelTag::UInt32 | PixelTag::Float32 => 4,
        PixelTag::Float64 => 8,
    }
}

/// Weight of the `j`-th sample of a packed byte: the first sample has the
/// most significant bits.
pub open spec fn slot_weight(tag: PixelTag, j: int) -> int {
    match tag {
        PixelTag::Bool1Bit => if j == 0 {
            128
        } else if j == 1 {
            64
        } else if j == 2 {
            32
        } else if j == 3 {
            16
        } else if j == 4 {
            8
        } else if j == 5 {
            4
        } else if j == 6 {
            2
        } else {
            1
        },
        PixelTag::UInt2 => if j == 0 {
            64
        } else if j == 1 {
            16
        } else if j == 2 {
            4
        } else {
            1
        },
        PixelTag::UInt4 => if j == 0 {
            16
        } else {
            1
        },
        _ => 1,
    }
}

/// The `j`-th of the samples `vs`, or 0 where there is none.
pub open spec fn slot(vs: Seq<int>, j: int) -> int {
    if 0 <= j < vs.len() {
        vs[j]
    } else {
        0
    }
}

/// The byte into which the samples `vs` of a packed type are packed.
pub open spec fn packed_byte(tag: PixelTag, vs: Seq<int>) -> int {
    match tag {
        PixelTag::Bool1Bit => slot(vs, 0) * 128 + slot(vs, 1) * 64 + slot(vs, 2) * 32 + slot(vs, 3)
            * 16 + slot(vs, 4) * 8 + slot(vs, 5) * 4 + slot(vs, 6) * 2 + slot(vs, 7),
        PixelTag::UInt2 => slot(vs, 0) * 64 + slot(vs, 1) * 16 + slot(vs, 2) * 4 + slot(vs, 3),
        _ => slot(vs, 0) * 16 + slot(vs, 1),
    }
}

/// The `j`-th sample of a packed byte.
pub open spec fn packed_slot(tag: PixelTag, byte: int, j: int) -> int {
    (byte / slot_weight(tag, j)) % sample_modulus(tag)
}

/// The bytes of one chunk of samples.
pub open spec fn chunk_bytes(tag: PixelTag, endian: Endian, vs: Seq<int>) -> Seq<u8> {
    if is_packed(tag) {
        seq![packed_byte(tag, vs) as u8]
    } else {
        uint_bytes(raw_of(tag, vs[0]) as nat, chunk_len(tag), endian)
    }
}

/// The `count` samples that the bytes of one chunk stand for.
pub open spec fn chunk_values(tag: PixelTag, endian: Endian, chunk: Seq<u8>, count: nat) -> Seq<
    int,
> {
    if is_packed(tag) {
        Seq::new(count, |j: int| packed_slot(tag, chunk[0] as int, j))
    } else {
        seq![value_of(tag, uint_value(chunk, endian) as int)]
    }
}

/// Number of samples in the first chunk of a run of `n` samples.
pub open spec fn first_group(tag: PixelTag, n: nat) -> nat {
    if n < group_size(tag) {
        n
    } else {
        group_size(tag)
    }
}

/// The bytes of a run of samples.
pub open spec fn run_bytes(tag: PixelTag, endian: Endian, vals: Seq<int>) -> Seq<u8>
    decreases vals.len(),
{
    if vals.len() == 0 {
        Seq::empty()
    } else {
        let c = first_group(tag, vals.len());
        chunk_bytes(tag, endian, vals.take(c as int)) + run_bytes(tag, endian, vals.skip(c as int))
    }
}

/// Reads a run of `n` samples from the start of `s`: the samples and the
/// number of bytes that they take.
pub open spec fn parse_run(tag: PixelTag, endian: Endian, s: Seq<u8>, n: nat) -> Result<
    (Seq<int>, int),
    CodecError,
>
    decreases n,
{
    if n == 0 {
        Ok((Seq::empty(), 0))
    } else if s.len() < chunk_len(tag) {
        Err(CodecError::UnexpectedEndOfInput)
    } else {
        let c = first_group(tag, n);
        let head = chunk_values(tag, endian, s.take(chunk_len(tag) as int), c);
        match parse_run(tag, endian, s.skip(chunk_len(tag) as int), (n - c) as nat) {
            Ok((rest, used)) => Ok((head + rest, chunk_len(tag) + used)),
            Err(e) => Err(e),
        }
    }
}

/// The bytes of a grid: its rows, one run after the other.
pub open spec fn rows_bytes(tag: PixelTag, endian: Endian, rows: Seq<Seq<int>>) -> Seq<u8>
    decreases rows.len(),
{
    if rows.len() == 0 {
        Seq::empty()
    } else {
        run_bytes(tag, endian, rows[0]) + rows_bytes(tag, endian, rows.skip(1))
    }
}

/// Reads `height` rows of `width` samples from the start of `s`.
pub open spec fn parse_rows(tag: PixelTag, endian: Endian, s: Seq<u8>, width: nat, height: nat)
    -> Result<(Seq<Seq<int>>, int), CodecError>
    decreases height,
{
    if height == 0 {
        Ok((Seq::empty(), 0))
    } else {
        match parse_run(tag, endian, s, width) {
            Ok((row, used)) => match parse_rows(
                tag,
                endian,
                s.skip(used),
                width,
                (height - 1) as nat,
            ) {
                Ok((rest, more)) => Ok((seq![row] + rest, used + more)),
                Err(e) => Err(e),
            },
            Err(e) => Err(e),
        }
    }
}

/// Reads a path from the start of `s`: the bytes before the first zero
/// byte, and the number of bytes read, the zero included.
pub open spec fn parse_path(s: Seq<u8>) -> Result<(Seq<u8>, int), CodecError>
    decreases s.len(),
{
    if s.len() == 0 {
        Err(CodecError::UnexpectedEndOfInput)
    } else if s[0] == 0 {
        Ok((Seq::empty(), 1))
    } else {
        match parse_path(s.skip(1)) {
            Ok((path, used)) => Ok((seq![s[0]] + path, used + 1)),
            Err(e) => Err(e),
        }
    }
}

/// The flag byte of a band.
pub open spec fn flag_byte(band: BandModel) -> int {
    (if band.pixels is OutDb {
        128int
    } else {
        0
    }) + (if band.nodata is Some {
        64int
    } else {
        0
    }) + (if band.is_nodata_value {
        32int
    } else {
        0
    }) + tag_number(band.tag)
}

/// The bytes of the nodata value of a band: a run of one sample, or nothing.
pub open spec fn nodata_bytes(tag: PixelTag, endian: Endian, nodata: Option<int>) -> Seq<u8> {
    match nodata {
        Some(v) => run_bytes(tag, endian, seq![v]),
        None => Seq::empty(),
    }
}

/// The bytes of the pixels of a band.
pub open spec fn pixels_bytes(tag: PixelTag, endian: Endian, pixels: PixelsModel) -> Seq<u8> {
    match pixels {
        PixelsModel::InMemory { rows } => rows_bytes(tag, endian, rows),
        PixelsModel::OutDb { band, path } => seq![band] + path + seq![0u8],
    }
}

/// The bytes of a band.
pub open spec fn band_bytes(endian: Endian, band: BandModel) -> Seq<u8> {
    seq![flag_byte(band) as u8] + nodata_bytes(band.tag, endian, band.nodata) + pixels_bytes(
        band.tag,
        endian,
        band.pixels,
    )
}

/// Reads the nodata value that the flag byte announces, if it does.
pub open spec fn parse_nodata(tag: PixelTag, endian: Endian, s: Seq<u8>, present: bool) -> Result<
    (Option<int>, int),
    CodecError,
> {
    if present {
        match parse_run(tag, endian, s, 1) {
            Ok((vals, used)) => Ok((Some(vals[0]), used)),
            Err(e) => Err(e),
        }
    } else {
        Ok((None, 0))
    }
}

/// Reads the pixels of a band.
pub open spec fn parse_pixels(
    tag: PixelTag,
    endian: Endian,
    s: Seq<u8>,
    width: nat,
    height: nat,
    out_db: bool,
) -> Result<(PixelsModel, int), CodecError> {
    if out_db {
        if s.len() == 0 {
            Err(CodecError::UnexpectedEndOfInput)
        } else {
            match parse_path(s.skip(1)) {
                Ok((path, used)) => Ok((PixelsModel::OutDb { band: s[0], path }, 1 + used)),
                Err(e) => Err(e),
            }
        }
    } else {
        match parse_rows(tag, endian, s, width, height) {
            Ok((rows, used)) => Ok((PixelsModel::InMemory { rows }, used)),
            Err(e) => Err(e),
        }
    }
}

/// Reads a band of a raster of the given size from the start of `s`.
pub open spec fn parse_band(endian: Endian, s: Seq<u8>, width: nat, height: nat) -> Result<
    (BandModel, int),
    CodecError,
> {
    if s.len() == 0 {
        Err(CodecError::UnexpectedEndOfInput)
    } else {
        let flags = s[0] as int;
        match tag_of_number(flags % 16) {
            None => Err(CodecError::UnsupportedPixelType),
            Some(tag) => match parse_nodata(tag, endian, s.skip(1), (flags / 64) % 2 == 1) {
                Err(e) => Err(e),
                Ok((nodata, used)) => match parse_pixels(
                    tag,
                    endian,
                    s.skip(1 + used),
                    width,
                    height,
                    flags / 128 == 1,
                ) {
                    Err(e) => Err(e),
                    Ok((pixels, more)) => Ok(
                        (
                            BandModel {
                                is_nodata_value: (flags / 32) % 2 == 1,
                                tag,
                                nodata,
                                pixels,
                            },
                            1 + used + more,
                        ),
                    ),
                },
            },
        }
    }
}

/// The bytes of a sequence of bands.
pub open spec fn bands_bytes(endian: Endian, bands: Seq<BandModel>) -> Seq<u8>
    decreases bands.len(),
{
    if bands.len() == 0 {
        Seq::empty()
    } else {
        band_bytes(endian, bands[0]) + bands_bytes(endian, bands.skip(1))
    }
}

/// Reads `count` bands from the start of `s`.
pub open spec fn parse_bands(endian: Endian, s: Seq<u8>, width: nat, height: nat, count: nat)
    -> Result<(Seq<BandModel>, int), CodecError>
    decreases count,
{
    if count == 0 {
        Ok((Seq::empty(), 0))
    } else {
        match parse_band(endian, s, width, height) {
            Ok((band, used)) => match parse_bands(
                endian,
                s.skip(used),
                width,
                height,
                (count - 1) as nat,
            ) {
                Ok((rest, more)) => Ok((seq![band] + rest, used + more)),
                Err(e) => Err(e),
            },
            Err(e) => Err(e),
        }
    }
}

/// The marker byte of a byte order.
pub open spec fn marker_byte(endian: Endian) -> u8 {
    match endian {
        Endian::Big => MARKER_BIG,
        Endian::Little => MARKER_LITTLE,
    }
}

/// The 61 bytes of the header of a raster.
pub open spec fn header_bytes(r: RasterModel) -> Seq<u8> {
    let e = r.endian;
    seq![marker_byte(e)] + uint_bytes(r.version as nat, 2, e) + uint_bytes(
        r.bands.len(),
        2,
        e,
    ) + uint_bytes(r.scale_x as nat, 8, e) + uint_bytes(r.scale_y as nat, 8, e) + uint_bytes(
        r.ip_x as nat,
        8,
        e,
    ) + uint_bytes(r.ip_y as nat, 8, e) + uint_bytes(r.skew_x as nat, 8, e) + uint_bytes(
        r.skew_y as nat,
        8,
        e,
    ) + uint_bytes(raw_of(PixelTag::Int32, r.srid as int) as nat, 4, e) + uint_bytes(
        r.width as nat,
        2,
        e,
    ) + uint_bytes(r.height as nat, 2, e)
}

/// The bytes of a raster: its header, then its bands in order.
pub open spec fn wire_bytes(r: RasterModel) -> Seq<u8> {
    header_bytes(r) + bands_bytes(r.endian, r.bands)
}

/// The field of `w` bytes at offset `at` of `s`, as a number.
pub open spec fn field(s: Seq<u8>, at: int, w: int, endian: Endian) -> int {
    uint_value(s.subrange(at, at + w), endian) as int
}

/// Reads the header: a raster without bands, and the number of bands that
/// follow. The byte order is checked first, then the version, then the
/// length.
pub open spec fn parse_header(s: Seq<u8>) -> Result<(RasterModel, nat), CodecError> {
    if s.len() < 1 {
        Err(CodecError::UnexpectedEndOfInput)
    } else if s[0] != MARKER_BIG && s[0] != MARKER_LITTLE {
        Err(CodecError::InvalidHeader)
    } else {
        let e = if s[0] == MARKER_BIG {
            Endian::Big
        } else {
            Endian::Little
        };
        if s.len() < 3 {
            Err(CodecError::UnexpectedEndOfInput)
        } else if field(s, 1, 2, e) != VERSION {
            Err(CodecError::InvalidHeader)
        } else if s.len() < HEADER_LEN {
            Err(CodecError::UnexpectedEndOfInput)
        } else {
            Ok(
                (
                    RasterModel {
                        endian: e,
                        version: VERSION,
                        scale_x: field(s, 5, 8, e) as u64,
                        scale_y: field(s, 13, 8, e) as u64,
                        ip_x: field(s, 21, 8, e) as u64,
                        ip_y: field(s, 29, 8, e) as u64,
                        skew_x: field(s, 37, 8, e) as u64,
                        skew_y: field(s, 45, 8, e) as u64,
                        srid: value_of(PixelTag::Int32, field(s, 53, 4, e)) as i32,
                        width: field(s, 57, 2, e) as u16,
                        height: field(s, 59, 2, e) as u16,
                        bands: Seq::empty(),
                    },
                    field(s, 3, 2, e) as nat,
                ),
            )
        }
    }
}

/// Reads a raster from the start of `s`: the raster, and the number of
/// bytes that it takes. Bytes after the last band are not looked at.
pub open spec fn parse_raster(s: Seq<u8>) -> Result<(RasterModel, int), CodecError> {
    match parse_header(s) {
        Err(e) => Err(e),
        Ok((head, count)) => match parse_bands(
            head.endian,
            s.skip(HEADER_LEN as int),
            head.width as nat,
            head.height as nat,
            count,
        ) {
            Err(e) => Err(e),
            Ok((bands, used)) => Ok((RasterModel { bands, ..head }, HEADER_LEN + used)),
        },
    }
}

/// What decoding `s` gives: the raster at its start, whatever follows it.
pub open spec fn decoded(s: Seq<u8>) -> Result<RasterModel, CodecError> {
    match parse_raster(s) {
        Ok((r, used)) => Ok(r),
        Err(e) => Err(e),
    }
}

/// What strict decoding of `s` gives: the raster that is all of `s`.
pub open spec fn decoded_strict(s: Seq<u8>) -> Result<RasterModel, CodecError> {
    match parse_raster(s) {
        Ok((r, used)) => if used == s.len() {
            Ok(r)
        } else {
            Err(CodecError::TrailingData)
        },
        Err(e) => Err(e),
    }
}

/// What encoding a raster gives: its bytes if it is well formed.
pub open spec fn encoded(r: RasterModel) -> Result<Seq<u8>, CodecError> {
    if r.well_formed() {
        Ok(wire_bytes(r))
    } else {
        Err(CodecError::MalformedRaster)
    }
}

/// What encoding a raster as text gives: the hexadecimal text of its bytes.
pub open spec fn encoded_text(r: RasterModel) -> Result<Seq<char>, CodecError> {
    match encoded(r) {
        Ok(bytes) => Ok(hex_chars(bytes)),
        Err(e) => Err(e),
    }
}

/// What decoding text gives, the text taken as its bytes: the raster at the
/// start of the bytes that the text stands for.
pub open spec fn decoded_text(text: Seq<u8>) -> Result<RasterModel, CodecError> {
    match hex_bytes(text) {
        Ok(bytes) => decoded(bytes),
        Err(e) => Err(e),
    }
}

/// What strict decoding of text gives.
pub open spec fn decoded_text_strict(text: Seq<u8>) -> Result<RasterModel, CodecError> {
    match hex_bytes(text) {
        Ok(bytes) => decoded_strict(bytes),
        Err(e) => Err(e),
    }
}


} // verus!
