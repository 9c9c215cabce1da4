//! Reading a raster from the wire format.

use crate::bytes::{lemma_byte_limits, lemma_uint_value_bound, read_uint};
use crate::encode::{chunk_len_of, group_of, is_packed_tag};
use crate::hex::hex_decode;
use crate::lemmas::lemma_chunk_limit;
use crate::model::{
    band_models, grid_values, nodata_value, row_values, BandModel, InMemoryRasterData,
    OutDbRasterData, PixType, PixelsModel, Raster, RasterBand, RasterDataSource, RasterModel,
};
use crate::pixel::{sample_modulus, CodecError, Endian, PixelTag, Sample};
use crate::wire::{
    chunk_len, chunk_values, decoded, decoded_strict, decoded_text, decoded_text_strict,
    group_size, is_packed, packed_slot,
    parse_band, parse_bands, parse_header, parse_nodata, parse_path, parse_pixels, parse_raster,
    parse_rows, parse_run, slot_weight, FLAG_HAS_NODATA, FLAG_IS_NODATA, FLAG_OUT_DB, HEADER_LEN,
    MARKER_BIG, MARKER_LITTLE, VERSION,
};
use vstd::prelude::*;

verus! {

/// Weight of the `j`-th sample of a packed byte.
fn slot_weight_of(tag: PixelTag, j: usize) -> (w: u8)
    requires
        is_packed(tag),
        j < group_size(tag),
    ensures
        w == slot_weight(tag, j as int),
        w > 0,
{
    match tag {
        PixelTag::Bool1Bit => match j {
            0 => 128,
            1 => 64,
            2 => 32,
            3 => 16,
            4 => 8,
            5 => 4,
            6 => 2,
            _ => 1,
        },
        PixelTag::UInt2 => match j {
            0 => 64,
            1 => 16,
            2 => 4,
            _ => 1,
        },
        _ => match j {
            0 => 16,
            _ => 1,
        },
    }
}

/// Number of bit patterns of a sample of a packed type.
fn packed_modulus_of(tag: PixelTag) -> (m: u8)
    requires
        is_packed(tag),
    ensures
        m == sample_modulus(tag),
{
    match tag {
        PixelTag::Bool1Bit => 2,
        PixelTag::UInt2 => 4,
        _ => 16,
    }
}

/// Reads a run of `n` samples that starts at `pos`: the samples, and the
/// position after them.
pub(crate) fn read_run<T: Sample>(
    bytes: &[u8],
    pos: usize,
    n: usize,
    tag: PixelTag,
    endian: Endian,
) -> (res: Result<(Vec<T>, usize), CodecError>)
    requires
        T::carries(tag),
        pos <= bytes@.len(),
    ensures
        match res {
            Ok((row, next)) => pos <= next <= bytes@.len() && row.len() == n && parse_run(
                tag,
                endian,
                bytes@.skip(pos as int),
                n as nat,
            ) == Ok::<(Seq<int>, int), CodecError>((row_values(row@), next - pos)),
            Err(e) => parse_run(tag, endian, bytes@.skip(pos as int), n as nat) == Err::<
                (Seq<int>, int),
                CodecError,
            >(e),
        },
{
    let group: usize = group_of(tag);
    let packed: bool = is_packed_tag(tag);
    let width: usize = chunk_len_of(tag);
    let len: usize = bytes.len();
    let ghost whole = parse_run(tag, endian, bytes@.skip(pos as int), n as nat);
    let mut row: Vec<T> = Vec::new();
    let mut at: usize = pos;
    let mut i: usize = 0;
    assert(row_values(row@) =~= Seq::empty());
    assert(forall|rest: Seq<int>| Seq::<int>::empty() + rest =~= rest);
    while i < n
        invariant
            i <= n,
            pos <= at <= len,
            len == bytes@.len(),
            T::carries(tag),
            group == group_size(tag),
            packed == is_packed(tag),
            width == chunk_len(tag),
            row.len() == i,
            whole == parse_run(tag, endian, bytes@.skip(pos as int), n as nat),
            whole == match parse_run(tag, endian, bytes@.skip(at as int), (n - i) as nat) {
                Ok((rest, used)) => Ok::<(Seq<int>, int), CodecError>(
                    (row_values(row@) + rest, at - pos + used),
                ),
                Err(e) => Err(e),
            },
        decreases n - i,
    {
        if len - at < width {
            return Err(CodecError::UnexpectedEndOfInput);
        }
        let left: usize = n - i;
        let count: usize = if left < group {
            left
        } else {
            group
        };
        let ghost input = bytes@.skip(at as int);
        let ghost chunk = input.take(width as int);
        let ghost head = chunk_values(tag, endian, chunk, count as nat);
        let ghost done = row_values(row@);
        assert(chunk =~= bytes@.subrange(at as int, at + width));
        assert(input.skip(width as int) =~= bytes@.skip(at + width));
        if packed {
            let byte: u8 = bytes[at];
            let modulus: u8 = packed_modulus_of(tag);
            let mut j: usize = 0;
            while j < count
                invariant
                    j <= count <= group,
                    T::carries(tag),
                    is_packed(tag),
                    group == group_size(tag),
                    modulus == sample_modulus(tag),
                    byte == chunk[0],
                    row.len() == i + j,
                    row_values(row@) == done + Seq::new(
                        j as nat,
                        |k: int| packed_slot(tag, byte as int, k),
                    ),
                decreases count - j,
            {
                let weight: u8 = slot_weight_of(tag, j);
                let raw: u8 = (byte / weight) % modulus;
                let ghost before = row_values(row@);
                let s: T = T::from_raw(raw as u64, tag);
                row.push(s);
                assert(row_values(row@) =~= before.push(packed_slot(tag, byte as int, j as int)));
                assert(row_values(row@) =~= done + Seq::new(
                    (j + 1) as nat,
                    |k: int| packed_slot(tag, byte as int, k),
                ));
                j = j + 1;
            }
            assert(row_values(row@) == done + head);
        } else {
            let raw: u64 = read_uint(bytes, at, width, endian);
            proof {
                lemma_uint_value_bound(chunk, endian);
                lemma_chunk_limit(tag);
            }
            let s: T = T::from_raw(raw, tag);
            row.push(s);
            assert(row_values(row@) =~= done + head);
        }
        proof {
            let after = parse_run(tag, endian, bytes@.skip(at + width), (n - i - count) as nat);
            if let Ok((rest, used)) = after {
                assert((done + head) + rest =~= done + (head + rest));
            }
        }
        at = at + width;
        i = i + count;
    }
    assert(forall|vals: Seq<int>| vals + Seq::<int>::empty() =~= vals);
    Ok((row, at))
}

/// Reads `height` rows of `width` samples that start at `pos`: the grid,
/// and the position after it.
pub(crate) fn read_rows<T: Sample>(
    bytes: &[u8],
    pos: usize,
    width: usize,
    height: usize,
    tag: PixelTag,
    endian: Endian,
) -> (res: Result<(Vec<Vec<T>>, usize), CodecError>)
    requires
        T::carries(tag),
        pos <= bytes@.len(),
    ensures
        match res {
            Ok((data, next)) => pos <= next <= bytes@.len() && parse_rows(
                tag,
                endian,
                bytes@.skip(pos as int),
                width as nat,
                height as nat,
            ) == Ok::<(Seq<Seq<int>>, int), CodecError>((grid_values(data@), next - pos)),
            Err(e) => parse_rows(
                tag,
                endian,
                bytes@.skip(pos as int),
                width as nat,
                height as nat,
            ) == Err::<(Seq<Seq<int>>, int), CodecError>(e),
        },
{
    let ghost whole = parse_rows(
        tag,
        endian,
        bytes@.skip(pos as int),
        width as nat,
        height as nat,
    );
    let mut data: Vec<Vec<T>> = Vec::new();
    let mut at: usize = pos;
    let mut i: usize = 0;
    assert(grid_values(data@) =~= Seq::empty());
    assert(forall|rest: Seq<Seq<int>>| Seq::<Seq<int>>::empty() + rest =~= rest);
    while i < height
        invariant
            i <= height,
            pos <= at <= bytes@.len(),
            T::carries(tag),
            whole == parse_rows(
                tag,
                endian,
                bytes@.skip(pos as int),
                width as nat,
                height as nat,
            ),
            whole == match parse_rows(
                tag,
                endian,
                bytes@.skip(at as int),
                width as nat,
                (height - i) as nat,
            ) {
                Ok((rest, used)) => Ok::<(Seq<Seq<int>>, int), CodecError>(
                    (grid_values(data@) + rest, at - pos + used),
                ),
                Err(e) => Err(e),
            },
        decreases height - i,
    {
        let ghost done = grid_values(data@);
        match read_run::<T>(bytes, at, width, tag, endian) {
            Err(e) => {
                return Err(e);
            },
            Ok((row, next)) => {
                let ghost vals = row_values(row@);
                assert(bytes@.skip(at as int).skip(next - at) =~= bytes@.skip(next as int));
                data.push(row);
                assert(grid_values(data@) =~= done + seq![vals]);
                proof {
                    let after = parse_rows(
                        tag,
                        endian,
                        bytes@.skip(next as int),
                        width as nat,
                        (height - i - 1) as nat,
                    );
                    if let Ok((rest, used)) = after {
                        assert((done + seq![vals]) + rest =~= done + (seq![vals] + rest));
                    }
                }
                at = next;
                i = i + 1;
            },
        }
    }
    assert(forall|rows: Seq<Seq<int>>| rows + Seq::<Seq<int>>::empty() =~= rows);
    Ok((data, at))
}

/// Reads the nodata value at `pos`, if the flag byte announced one: the
/// value, and the position after it.
pub(crate) fn read_nodata<T: Sample>(
    bytes: &[u8],
    pos: usize,
    present: bool,
    tag: PixelTag,
    endian: Endian,
) -> (res: Result<(Option<T>, usize), CodecError>)
    requires
        T::carries(tag),
        pos <= bytes@.len(),
    ensures
        match res {
            Ok((nodata, next)) => pos <= next <= bytes@.len() && parse_nodata(
                tag,
                endian,
                bytes@.skip(pos as int),
                present,
            ) == Ok::<(Option<int>, int), CodecError>((nodata_value(nodata), next - pos)),
            Err(e) => parse_nodata(tag, endian, bytes@.skip(pos as int), present) == Err::<
                (Option<int>, int),
                CodecError,
            >(e),
        },
{
    if !present {
        return Ok((None, pos));
    }
    match read_run::<T>(bytes, pos, 1, tag, endian) {
        Err(e) => Err(e),
        Ok((row, next)) => Ok((Some(row[0]), next)),
    }
}

/// Reads the path that starts at `pos`: the bytes before the first zero
/// byte, and the position after that zero.
pub(crate) fn read_path(bytes: &[u8], pos: usize) -> (res: Result<(Vec<u8>, usize), CodecError>)
    requires
        pos <= bytes@.len(),
    ensures
        match res {
            Ok((path, next)) => pos <= next <= bytes@.len() && parse_path(bytes@.skip(pos as int))
                == Ok::<(Seq<u8>, int), CodecError>((path@, next - pos)),
            Err(e) => parse_path(bytes@.skip(pos as int)) == Err::<(Seq<u8>, int), CodecError>(e),
        },
{
    let len: usize = bytes.len();
    let ghost whole = parse_path(bytes@.skip(pos as int));
    let mut path: Vec<u8> = Vec::new();
    let mut at: usize = pos;
    assert(forall|rest: Seq<u8>| Seq::<u8>::empty() + rest =~= rest);
    loop
        invariant
            pos <= at <= len,
            len == bytes@.len(),
            whole == parse_path(bytes@.skip(pos as int)),
            whole == match parse_path(bytes@.skip(at as int)) {
                Ok((rest, used)) => Ok::<(Seq<u8>, int), CodecError>(
                    (path@ + rest, at - pos + used),
                ),
                Err(e) => Err(e),
            },
        decreases len - at,
    {
        if at >= len {
            return Err(CodecError::UnexpectedEndOfInput);
        }
        let b: u8 = bytes[at];
        let ghost input = bytes@.skip(at as int);
        assert(input[0] == b);
        assert(input.skip(1) =~= bytes@.skip(at + 1));
        if b == 0 {
            assert(path@ + Seq::<u8>::empty() =~= path@);
            return Ok((path, at + 1));
        }
        let ghost done = path@;
        path.push(b);
        proof {
            if let Ok((rest, used)) = parse_path(bytes@.skip(at + 1)) {
                assert((done + seq![b]) + rest =~= done + (seq![b] + rest));
                assert(path@ =~= done + seq![b]);
            }
        }
        at = at + 1;
    }
}

/// Reads the nodata value of a band of the given pixel type, if the flag
/// byte announced one: the pixel type with that value, and the position
/// after it.
pub(crate) fn read_pixtype(
    bytes: &[u8],
    pos: usize,
    present: bool,
    tag: PixelTag,
    endian: Endian,
) -> (res: Result<(PixType, usize), CodecError>)
    requires
        pos <= bytes@.len(),
    ensures
        match res {
            Ok((pixtype, next)) => pos <= next <= bytes@.len() && pixtype.tag() == tag
                && parse_nodata(tag, endian, bytes@.skip(pos as int), present) == Ok::<
                (Option<int>, int),
                CodecError,
            >((pixtype.nodata(), next - pos)),
            Err(e) => parse_nodata(tag, endian, bytes@.skip(pos as int), present) == Err::<
                (Option<int>, int),
                CodecError,
            >(e),
        },
{
    match tag {
        PixelTag::Bool1Bit => match read_nodata::<bool>(bytes, pos, present, tag, endian) {
            Err(e) => Err(e),
            Ok((n, next)) => Ok((PixType::Bool1Bit(n), next)),
        },
        PixelTag::UInt2 => match read_nodata::<u8>(bytes, pos, present, tag, endian) {
            Err(e) => Err(e),
            Ok((n, next)) => Ok((PixType::UInt2(n), next)),
        },
        PixelTag::UInt4 => match read_nodata::<u8>(bytes, pos, present, tag, endian) {
            Err(e) => Err(e),
            Ok((n, next)) => Ok((PixType::UInt4(n), next)),
        },
        PixelTag::Int8 => match read_nodata::<i8>(bytes, pos, present, tag, endian) {
            Err(e) => Err(e),
            Ok((n, next)) => Ok((PixType::Int8(n), next)),
        },
        PixelTag::UInt8 => match read_nodata::<u8>(bytes, pos, present, tag, endian) {
            Err(e) => Err(e),
            Ok((n, next)) => Ok((PixType::UInt8(n), next)),
        },
        PixelTag::Int16 => match read_nodata::<i16>(bytes, pos, present, tag, endian) {
            Err(e) => Err(e),
            Ok((n, next)) => Ok((PixType::Int16(n), next)),
        },
        PixelTag::UInt16 => match read_nodata::<u16>(bytes, pos, present, tag, endian) {
            Err(e) => Err(e),
            Ok((n, next)) => Ok((PixType::UInt16(n), next)),
        },
        PixelTag::Int32 => match read_nodata::<i32>(bytes, pos, present, tag, endian) {
            Err(e) => Err(e),
            Ok((n, next)) => Ok((PixType::Int32(n), next)),
        },
        PixelTag::UInt32 => match read_nodata::<u32>(bytes, pos, present, tag, endian) {
            Err(e) => Err(e),
            Ok((n, next)) => Ok((PixType::UInt32(n), next)),
        },
        PixelTag::Float32 => match read_nodata::<u32>(bytes, pos, present, tag, endian) {
            Err(e) => Err(e),
            Ok((n, next)) => Ok((PixType::Float32(n), next)),
        },
        PixelTag::Float64 => match read_nodata::<u64>(bytes, pos, present, tag, endian) {
            Err(e) => Err(e),
            Ok((n, next)) => Ok((PixType::Float64(n), next)),
        },
    }
}

/// Reads the grid of a band of the given pixel type.
pub(crate) fn read_grid(
    bytes: &[u8],
    pos: usize,
    pixtype: PixType,
    width: usize,
    height: usize,
    endian: Endian,
) -> (res: Result<(InMemoryRasterData, usize), CodecError>)
    requires
        pos <= bytes@.len(),
    ensures
        match res {
            Ok((grid, next)) => pos <= next <= bytes@.len() && grid.pixtype() == pixtype
                && parse_rows(
                pixtype.tag(),
                endian,
                bytes@.skip(pos as int),
                width as nat,
                height as nat,
            ) == Ok::<(Seq<Seq<int>>, int), CodecError>((grid.rows(), next - pos)),
            Err(e) => parse_rows(
                pixtype.tag(),
                endian,
                bytes@.skip(pos as int),
                width as nat,
                height as nat,
            ) == Err::<(Seq<Seq<int>>, int), CodecError>(e),
        },
{
    match pixtype {
        PixType::Bool1Bit(nodata) => match read_rows::<bool>(
            bytes,
            pos,
            width,
            height,
            PixelTag::Bool1Bit,
            endian,
        ) {
            Err(e) => Err(e),
            Ok((data, next)) => Ok((InMemoryRasterData::Bool1Bit { data, nodata }, next)),
        },
        PixType::UInt2(nodata) => match read_rows::<u8>(
            bytes,
            pos,
            width,
            height,
            PixelTag::UInt2,
            endian,
        ) {
            Err(e) => Err(e),
            Ok((data, next)) => Ok((InMemoryRasterData::UInt2 { data, nodata }, next)),
        },
        PixType::UInt4(nodata) => match read_rows::<u8>(
            bytes,
            pos,
            width,
            height,
            PixelTag::UInt4,
            endian,
        ) {
            Err(e) => Err(e),
            Ok((data, next)) => Ok((InMemoryRasterData::UInt4 { data, nodata }, next)),
        },
        PixType::Int8(nodata) => match read_rows::<i8>(
            bytes,
            pos,
            width,
            height,
            PixelTag::Int8,
            endian,
        ) {
            Err(e) => Err(e),
            Ok((data, next)) => Ok((InMemoryRasterData::Int8 { data, nodata }, next)),
        },
        PixType::UInt8(nodata) => match read_rows::<u8>(
            bytes,
            pos,
            width,
            height,
            PixelTag::UInt8,
            endian,
        ) {
            Err(e) => Err(e),
            Ok((data, next)) => Ok((InMemoryRasterData::UInt8 { data, nodata }, next)),
        },
        PixType::Int16(nodata) => match read_rows::<i16>(
            bytes,
            pos,
            width,
            height,
            PixelTag::Int16,
            endian,
        ) {
            Err(e) => Err(e),
            Ok((data, next)) => Ok((InMemoryRasterData::Int16 { data, nodata }, next)),
        },
        PixType::UInt16(nodata) => match read_rows::<u16>(
            bytes,
            pos,
            width,
            height,
            PixelTag::UInt16,
            endian,
        ) {
            Err(e) => Err(e),
            Ok((data, next)) => Ok((InMemoryRasterData::UInt16 { data, nodata }, next)),
        },
        PixType::Int32(nodata) => match read_rows::<i32>(
            bytes,
            pos,
            width,
            height,
            PixelTag::Int32,
            endian,
        ) {
            Err(e) => Err(e),
            Ok((data, next)) => Ok((InMemoryRasterData::Int32 { data, nodata }, next)),
        },
        PixType::UInt32(nodata) => match read_rows::<u32>(
            bytes,
            pos,
            width,
            height,
            PixelTag::UInt32,
            endian,
        ) {
            Err(e) => Err(e),
            Ok((data, next)) => Ok((InMemoryRasterData::UInt32 { data, nodata }, next)),
        },
        PixType::Float32(nodata) => match read_rows::<u32>(
            bytes,
            pos,
            width,
            height,
            PixelTag::Float32,
            endian,
        ) {
            Err(e) => Err(e),
            Ok((data, next)) => Ok((InMemoryRasterData::Float32 { data, nodata }, next)),
        },
        PixType::Float64(nodata) => match read_rows::<u64>(
            bytes,
            pos,
            width,
            height,
            PixelTag::Float64,
            endian,
        ) {
            Err(e) => Err(e),
            Ok((data, next)) => Ok((InMemoryRasterData::Float64 { data, nodata }, next)),
        },
    }
}

/// Reads the pixels of a band: a reference to an outside file, or a grid.
pub(crate) fn read_pixels(
    bytes: &[u8],
    pos: usize,
    pixtype: PixType,
    width: usize,
    height: usize,
    out_db: bool,
    endian: Endian,
) -> (res: Result<(RasterDataSource, usize), CodecError>)
    requires
        pos <= bytes@.len(),
    ensures
        match res {
            Ok((data, next)) => pos <= next <= bytes@.len() && data.pixtype() == pixtype
                && parse_pixels(
                pixtype.tag(),
                endian,
                bytes@.skip(pos as int),
                width as nat,
                height as nat,
                out_db,
            ) == Ok::<(PixelsModel, int), CodecError>((data.pixels(), next - pos)),
            Err(e) => parse_pixels(
                pixtype.tag(),
                endian,
                bytes@.skip(pos as int),
                width as nat,
                height as nat,
                out_db,
            ) == Err::<(PixelsModel, int), CodecError>(e),
        },
{
    if out_db {
        if pos >= bytes.len() {
            return Err(CodecError::UnexpectedEndOfInput);
        }
        let band: u8 = bytes[pos];
        assert(bytes@.skip(pos as int)[0] == band);
        assert(bytes@.skip(pos as int).skip(1) =~= bytes@.skip(pos + 1));
        match read_path(bytes, pos + 1) {
            Err(e) => Err(e),
            Ok((path, next)) => Ok(
                (RasterDataSource::OutDb(OutDbRasterData { band, path, pixtype }), next),
            ),
        }
    } else {
        match read_grid(bytes, pos, pixtype, width, height, endian) {
            Err(e) => Err(e),
            Ok((grid, next)) => Ok((RasterDataSource::InMemory(grid), next)),
        }
    }
}

/// Reads the band of a raster of the given size that starts at `pos`: the
/// band, and the position after it.
pub(crate) fn read_band(
    bytes: &[u8],
    pos: usize,
    width: u16,
    height: u16,
    endian: Endian,
) -> (res: Result<(RasterBand, usize), CodecError>)
    requires
        pos <= bytes@.len(),
    ensures
        match res {
            Ok((band, next)) => pos <= next <= bytes@.len() && parse_band(
                endian,
                bytes@.skip(pos as int),
                width as nat,
                height as nat,
            ) == Ok::<(BandModel, int), CodecError>((band@, next - pos)),
            Err(e) => parse_band(endian, bytes@.skip(pos as int), width as nat, height as nat)
                == Err::<(BandModel, int), CodecError>(e),
        },
{
    if pos >= bytes.len() {
        return Err(CodecError::UnexpectedEndOfInput);
    }
    let flags: u8 = bytes[pos];
    let ghost input = bytes@.skip(pos as int);
    assert(input[0] == flags);
    assert(input.skip(1) =~= bytes@.skip(pos + 1));
    let tag = match PixelTag::from_tag(flags % 16) {
        Err(e) => {
            return Err(e);
        },
        Ok(tag) => tag,
    };
    let present: bool = (flags / FLAG_HAS_NODATA) % 2 == 1;
    let out_db: bool = flags / FLAG_OUT_DB == 1;
    let is_nodata_value: bool = (flags / FLAG_IS_NODATA) % 2 == 1;
    let (pixtype, mid) = match read_pixtype(bytes, pos + 1, present, tag, endian) {
        Err(e) => {
            return Err(e);
        },
        Ok(found) => found,
    };
    assert(input.skip(1 + (mid - pos - 1)) =~= bytes@.skip(mid as int));
    match read_pixels(bytes, mid, pixtype, width as usize, height as usize, out_db, endian) {
        Err(e) => Err(e),
        Ok((data, next)) => Ok((RasterBand { is_nodata_value, data }, next)),
    }
}

/// Reads the header at the start of `bytes`: a raster without bands, and
/// the number of bands that follow the header.
pub(crate) fn read_header(bytes: &[u8]) -> (res: Result<(Raster, u16), CodecError>)
    ensures
        match res {
            Ok((head, count)) => bytes@.len() >= HEADER_LEN && head.bands@.len() == 0
                && parse_header(bytes@) == Ok::<(RasterModel, nat), CodecError>(
                (head@, count as nat),
            ),
            Err(e) => parse_header(bytes@) == Err::<(RasterModel, nat), CodecError>(e),
        },
{
    if bytes.len() < 1 {
        return Err(CodecError::UnexpectedEndOfInput);
    }
    let marker: u8 = bytes[0];
    let endian = if marker == MARKER_BIG {
        Endian::Big
    } else if marker == MARKER_LITTLE {
        Endian::Little
    } else {
        return Err(CodecError::InvalidHeader);
    };
    if bytes.len() < 3 {
        return Err(CodecError::UnexpectedEndOfInput);
    }
    proof {
        lemma_byte_limits();
        lemma_uint_value_bound(bytes@.subrange(1, 3), endian);
        lemma_uint_value_bound(bytes@.subrange(3, 5), endian);
        lemma_uint_value_bound(bytes@.subrange(53, 57), endian);
        lemma_uint_value_bound(bytes@.subrange(57, 59), endian);
        lemma_uint_value_bound(bytes@.subrange(59, 61), endian);
    }
    let version: u64 = read_uint(bytes, 1, 2, endian);
    if version != 0 {
        return Err(CodecError::InvalidHeader);
    }
    if bytes.len() < HEADER_LEN {
        return Err(CodecError::UnexpectedEndOfInput);
    }
    let count: u64 = read_uint(bytes, 3, 2, endian);
    let scale_x: u64 = read_uint(bytes, 5, 8, endian);
    let scale_y: u64 = read_uint(bytes, 13, 8, endian);
    let ip_x: u64 = read_uint(bytes, 21, 8, endian);
    let ip_y: u64 = read_uint(bytes, 29, 8, endian);
    let skew_x: u64 = read_uint(bytes, 37, 8, endian);
    let skew_y: u64 = read_uint(bytes, 45, 8, endian);
    let srid: i32 = i32::from_raw(read_uint(bytes, 53, 4, endian), PixelTag::Int32);
    let width: u64 = read_uint(bytes, 57, 2, endian);
    let height: u64 = read_uint(bytes, 59, 2, endian);
    let head = Raster {
        endian,
        version: VERSION,
        scale_x,
        scale_y,
        ip_x,
        ip_y,
        skew_x,
        skew_y,
        srid,
        width: width as u16,
        height: height as u16,
        bands: Vec::new(),
    };
    assert(head@.bands =~= Seq::empty());
    Ok((head, count as u16))
}

/// Reads the raster at the start of `bytes`: the raster, and the number of
/// bytes that it takes.
pub(crate) fn read_raster(bytes: &[u8]) -> (res: Result<(Raster, usize), CodecError>)
    ensures
        match res {
            Ok((raster, used)) => used <= bytes@.len() && parse_raster(bytes@) == Ok::<
                (RasterModel, int),
                CodecError,
            >((raster@, used as int)),
            Err(e) => parse_raster(bytes@) == Err::<(RasterModel, int), CodecError>(e),
        },
{
    let (head, count) = match read_header(bytes) {
        Err(e) => {
            return Err(e);
        },
        Ok(found) => found,
    };
    let endian = head.endian;
    let width: u16 = head.width;
    let height: u16 = head.height;
    let ghost whole = parse_bands(
        endian,
        bytes@.skip(HEADER_LEN as int),
        width as nat,
        height as nat,
        count as nat,
    );
    let ghost start = head@;
    let mut bands: Vec<RasterBand> = Vec::new();
    let mut at: usize = HEADER_LEN;
    let mut i: u16 = 0;
    assert(band_models(bands@) =~= Seq::empty());
    assert(forall|rest: Seq<BandModel>| Seq::<BandModel>::empty() + rest =~= rest);
    while i < count
        invariant
            i <= count,
            HEADER_LEN <= at <= bytes@.len(),
            parse_header(bytes@) == Ok::<(RasterModel, nat), CodecError>((start, count as nat)),
            start.endian == endian,
            start.width == width,
            start.height == height,
            whole == parse_bands(
                endian,
                bytes@.skip(HEADER_LEN as int),
                width as nat,
                height as nat,
                count as nat,
            ),
            whole == match parse_bands(
                endian,
                bytes@.skip(at as int),
                width as nat,
                height as nat,
                (count - i) as nat,
            ) {
                Ok((rest, used)) => Ok::<(Seq<BandModel>, int), CodecError>(
                    (band_models(bands@) + rest, at - HEADER_LEN + used),
                ),
                Err(e) => Err(e),
            },
        decreases count - i,
    {
        let ghost done = band_models(bands@);
        match read_band(bytes, at, width, height, endian) {
            Err(e) => {
                return Err(e);
            },
            Ok((band, next)) => {
                let ghost model = band@;
                assert(bytes@.skip(at as int).skip(next - at) =~= bytes@.skip(next as int));
                bands.push(band);
                assert(band_models(bands@) =~= done + seq![model]);
                proof {
                    let after = parse_bands(
                        endian,
                        bytes@.skip(next as int),
                        width as nat,
                        height as nat,
                        (count - i - 1) as nat,
                    );
                    if let Ok((rest, used)) = after {
                        assert((done + seq![model]) + rest =~= done + (seq![model] + rest));
                    }
                }
                at = next;
                i = i + 1;
            },
        }
    }
    assert(forall|all: Seq<BandModel>| all + Seq::<BandModel>::empty() =~= all);
    let raster = Raster {
        endian: head.endian,
        version: head.version,
        scale_x: head.scale_x,
        scale_y: head.scale_y,
        ip_x: head.ip_x,
        ip_y: head.ip_y,
        skew_x: head.skew_x,
        skew_y: head.skew_y,
        srid: head.srid,
        width: head.width,
        height: head.height,
        bands,
    };
    Ok((raster, at))
}

/// Decodes the raster at the start of `bytes`. Bytes after the last band
/// that the header announces are not looked at. The input is read from
/// left to right, and the first fault decides the error: an unknown
/// byte-order marker or version, an unknown pixel-type tag, or an input
/// that ends before the value being read.
pub fn decode(bytes: &[u8]) -> (res: Result<Raster, CodecError>)
    ensures
        match res {
            Ok(raster) => decoded(bytes@) == Ok::<RasterModel, CodecError>(raster@),
            Err(e) => decoded(bytes@) == Err::<RasterModel, CodecError>(e),
        },
{
    match read_raster(bytes) {
        Err(e) => Err(e),
        Ok((raster, used)) => Ok(raster),
    }
}

/// Decodes the raster that is all of `bytes`: as `decode`, but bytes after
/// the last band are an error.
pub fn decode_strict(bytes: &[u8]) -> (res: Result<Raster, CodecError>)
    ensures
        match res {
            Ok(raster) => decoded_strict(bytes@) == Ok::<RasterModel, CodecError>(raster@),
            Err(e) => decoded_strict(bytes@) == Err::<RasterModel, CodecError>(e),
        },
{
    match read_raster(bytes) {
        Err(e) => Err(e),
        Ok((raster, used)) => if used == bytes.len() {
            Ok(raster)
        } else {
            Err(CodecError::TrailingData)
        },
    }
}


/// Decodes the raster at the start of the bytes that hexadecimal text
/// stands for. Digits of either case are read. Text that holds anything but
/// hexadecimal digits is refused, and text of odd length has ended too
/// early; otherwise the result is that of `decode` on the bytes.
pub fn decode_from_hex(text: &str) -> (res: Result<Raster, CodecError>)
    ensures
        match res {
            Ok(raster) => decoded_text(vstd::utf8::encode_utf8(text@)) == Ok::<
                RasterModel,
                CodecError,
            >(raster@),
            Err(e) => decoded_text(vstd::utf8::encode_utf8(text@)) == Err::<
                RasterModel,
                CodecError,
            >(e),
        },
{
    match hex_decode(text) {
        Ok(bytes) => decode(bytes.as_slice()),
        Err(e) => Err(e),
    }
}

/// Decodes the raster that is all of the bytes that hexadecimal text stands
/// for: as `decode_from_hex`, but bytes after the last band are an error.
pub fn decode_from_hex_strict(text: &str) -> (res: Result<Raster, CodecError>)
    ensures
        match res {
            Ok(raster) => decoded_text_strict(vstd::utf8::encode_utf8(text@)) == Ok::<
                RasterModel,
                CodecError,
            >(raster@),
            Err(e) => decoded_text_strict(vstd::utf8::encode_utf8(text@)) == Err::<
                RasterModel,
                CodecError,
            >(e),
        },
{
    match hex_decode(text) {
        Ok(bytes) => decode_strict(bytes.as_slice()),
        Err(e) => Err(e),
    }
}


} // verus!
