//! Writing a raster in the wire format.

use crate::bytes::write_uint;
use crate::hex::hex_encode;
use crate::lemmas::{all_in_range, lemma_packed_round_trip};
use crate::model::{
    grid_values, nodata_value, nodata_well_formed, row_values, row_well_formed, BandModel,
    InMemoryRasterData, PixType, PixelsModel, Raster, RasterBand, RasterDataSource,
};
use crate::pixel::{sample_in_range, CodecError, Endian, PixelTag, Sample};
use crate::wire::{
    band_bytes, bands_bytes, chunk_bytes, chunk_len, encoded, encoded_text, first_group, flag_byte,
    group_size,
    header_bytes, is_packed, nodata_bytes, packed_byte, rows_bytes, run_bytes, slot,
    FLAG_HAS_NODATA, FLAG_IS_NODATA, FLAG_OUT_DB, MARKER_BIG, MARKER_LITTLE,
};
use vstd::prelude::*;

verus! {

/// Number of samples in a chunk of the pixel type.
pub(crate) fn group_of(tag: PixelTag) -> (n: usize)
    ensures
        n == group_size(tag),
{
    match tag {
        PixelTag::Bool1Bit => 8,
        PixelTag::UInt2 => 4,
        PixelTag::UInt4 => 2,
        _ => 1,
    }
}

/// Number of bytes in a chunk of the pixel type.
pub(crate) fn chunk_len_of(tag: PixelTag) -> (n: usize)
    ensures
        n == chunk_len(tag),
{
    match tag {
        PixelTag::Bool1Bit | PixelTag::UInt2 | PixelTag::UInt4 => 1,
        PixelTag::Int8 | PixelTag::UInt8 => 1,
        PixelTag::Int16 | PixelTag::UInt16 => 2,
        PixelTag::Int32 | PixelTag::UInt32 | PixelTag::Float32 => 4,
        PixelTag::Float64 => 8,
    }
}

/// Whether several samples of the pixel type share a byte.
pub(crate) fn is_packed_tag(tag: PixelTag) -> (p: bool)
    ensures
        p == is_packed(tag),
{
    match tag {
        PixelTag::Bool1Bit | PixelTag::UInt2 | PixelTag::UInt4 => true,
        _ => false,
    }
}

/// The `j`-th sample of the chunk that starts at `at`, or 0 where the chunk
/// has none.
fn slot_at<T: Sample>(row: &Vec<T>, at: usize, j: usize, tag: PixelTag) -> (v: u32)
    requires
        T::carries(tag),
        is_packed(tag),
        at <= row.len(),
        all_in_range(tag, row_values(row@)),
    ensures
        v == slot(
            row_values(row@).skip(at as int).take(
                first_group(tag, (row.len() - at) as nat) as int,
            ),
            j as int,
        ),
        v < 16,
{
    let ghost vals = row_values(row@);
    if j < group_of(tag) && j < row.len() - at {
        let raw: u64 = row[at + j].to_raw(tag);
        assert(sample_in_range(tag, vals[at + j]));
        raw as u32
    } else {
        0
    }
}

/// The byte that holds the chunk of packed samples that starts at `at`.
fn pack_byte<T: Sample>(row: &Vec<T>, at: usize, tag: PixelTag) -> (b: u8)
    requires
        T::carries(tag),
        is_packed(tag),
        at < row.len(),
        all_in_range(tag, row_values(row@)),
    ensures
        b == packed_byte(
            tag,
            row_values(row@).skip(at as int).take(
                first_group(tag, (row.len() - at) as nat) as int,
            ),
        ),
{
    let ghost vs = row_values(row@).skip(at as int).take(
        first_group(tag, (row.len() - at) as nat) as int,
    );
    proof {
        assert(all_in_range(tag, vs)) by {
            assert forall|j: int| 0 <= j < vs.len() implies sample_in_range(
                tag,
                #[trigger] vs[j],
            ) by {
                assert(vs[j] == row_values(row@)[at + j]);
            }
        }
        lemma_packed_round_trip(tag, vs);
    }
    let s0: u32 = slot_at(row, at, 0, tag);
    let s1: u32 = slot_at(row, at, 1, tag);
    match tag {
        PixelTag::Bool1Bit => {
            let s2: u32 = slot_at(row, at, 2, tag);
            let s3: u32 = slot_at(row, at, 3, tag);
            let s4: u32 = slot_at(row, at, 4, tag);
            let s5: u32 = slot_at(row, at, 5, tag);
            let s6: u32 = slot_at(row, at, 6, tag);
            let s7: u32 = slot_at(row, at, 7, tag);
            (s0 * 128 + s1 * 64 + s2 * 32 + s3 * 16 + s4 * 8 + s5 * 4 + s6 * 2 + s7) as u8
        },
        PixelTag::UInt2 => {
            let s2: u32 = slot_at(row, at, 2, tag);
            let s3: u32 = slot_at(row, at, 3, tag);
            (s0 * 64 + s1 * 16 + s2 * 4 + s3) as u8
        },
        _ => (s0 * 16 + s1) as u8,
    }
}

/// Appends a run of samples to `out`.
pub(crate) fn write_run<T: Sample>(out: &mut Vec<u8>, row: &Vec<T>, tag: PixelTag, endian: Endian)
    requires
        T::carries(tag),
        all_in_range(tag, row_values(row@)),
    ensures
        final(out)@ == old(out)@ + run_bytes(tag, endian, row_values(row@)),
{
    let ghost before = out@;
    let ghost vals = row_values(row@);
    let group: usize = group_of(tag);
    let packed: bool = is_packed_tag(tag);
    let width: usize = chunk_len_of(tag);
    let mut i: usize = 0;
    assert(vals.skip(0) =~= vals);
    while i < row.len()
        invariant
            i <= row.len(),
            T::carries(tag),
            vals == row_values(row@),
            all_in_range(tag, vals),
            group == group_size(tag),
            packed == is_packed(tag),
            width == chunk_len(tag),
            out@ + run_bytes(tag, endian, vals.skip(i as int)) == before + run_bytes(
                tag,
                endian,
                vals,
            ),
        decreases row.len() - i,
    {
        let left: usize = row.len() - i;
        let count: usize = if left < group {
            left
        } else {
            group
        };
        let ghost rest = vals.skip(i as int);
        let ghost chunk = rest.take(count as int);
        let ghost more = run_bytes(tag, endian, rest.skip(count as int));
        assert(rest.skip(count as int) =~= vals.skip(i + count));
        assert(run_bytes(tag, endian, rest) == chunk_bytes(tag, endian, chunk) + more);
        let ghost mid = out@;
        if packed {
            let b: u8 = pack_byte(row, i, tag);
            out.push(b);
            assert(out@ =~= mid + chunk_bytes(tag, endian, chunk));
        } else {
            let raw: u64 = row[i].to_raw(tag);
            assert(chunk[0] == vals[i as int]);
            write_uint(out, raw, width, endian);
        }
        assert(out@ + more =~= mid + (chunk_bytes(tag, endian, chunk) + more));
        i = i + count;
    }
    assert(out@ + Seq::<u8>::empty() =~= out@);
}

/// Whether every sample of a grid is in the range of the pixel type.
pub open spec fn grid_in_range(tag: PixelTag, rows: Seq<Seq<int>>) -> bool {
    forall|i: int| 0 <= i < rows.len() ==> all_in_range(tag, #[trigger] rows[i])
}

/// Appends the rows of a grid to `out`, one run after the other.
pub(crate) fn write_rows<T: Sample>(
    out: &mut Vec<u8>,
    data: &Vec<Vec<T>>,
    tag: PixelTag,
    endian: Endian,
)
    requires
        T::carries(tag),
        grid_in_range(tag, grid_values(data@)),
    ensures
        final(out)@ == old(out)@ + rows_bytes(tag, endian, grid_values(data@)),
{
    let ghost before = out@;
    let ghost rows = grid_values(data@);
    let mut i: usize = 0;
    assert(rows.skip(0) =~= rows);
    while i < data.len()
        invariant
            i <= data.len(),
            T::carries(tag),
            rows == grid_values(data@),
            grid_in_range(tag, rows),
            out@ + rows_bytes(tag, endian, rows.skip(i as int)) == before + rows_bytes(
                tag,
                endian,
                rows,
            ),
        decreases data.len() - i,
    {
        let ghost rest = rows.skip(i as int);
        let ghost more = rows_bytes(tag, endian, rest.skip(1));
        let ghost mid = out@;
        assert(rest.skip(1) =~= rows.skip(i + 1));
        assert(rest[0] == rows[i as int]);
        write_run(out, &data[i], tag, endian);
        assert(out@ + more =~= mid + (run_bytes(tag, endian, rest[0]) + more));
        i = i + 1;
    }
    assert(out@ + Seq::<u8>::empty() =~= out@);
}

/// Appends a nodata value to `out`, as a run of one sample; nothing where
/// the band has none.
pub(crate) fn write_nodata<T: Sample>(
    out: &mut Vec<u8>,
    nodata: &Option<T>,
    tag: PixelTag,
    endian: Endian,
)
    requires
        T::carries(tag),
        nodata_well_formed(tag, nodata_value(*nodata)),
    ensures
        final(out)@ == old(out)@ + nodata_bytes(tag, endian, nodata_value(*nodata)),
{
    match nodata {
        Some(v) => {
            let mut one: Vec<T> = Vec::new();
            one.push(*v);
            assert(row_values(one@) =~= seq![v.value()]);
            write_run(out, &one, tag, endian);
        },
        None => {
            assert(out@ + Seq::<u8>::empty() =~= out@);
        },
    }
}

impl PixType {
    /// Appends the nodata value of the band to `out`, if it has one.
    pub(crate) fn write_nodata(&self, out: &mut Vec<u8>, endian: Endian)
        requires
            nodata_well_formed(self.tag(), self.nodata()),
        ensures
            final(out)@ == old(out)@ + nodata_bytes(self.tag(), endian, self.nodata()),
    {
        match self {
            PixType::Bool1Bit(n) => write_nodata(out, n, PixelTag::Bool1Bit, endian),
            PixType::UInt2(n) => write_nodata(out, n, PixelTag::UInt2, endian),
            PixType::UInt4(n) => write_nodata(out, n, PixelTag::UInt4, endian),
            PixType::Int8(n) => write_nodata(out, n, PixelTag::Int8, endian),
            PixType::UInt8(n) => write_nodata(out, n, PixelTag::UInt8, endian),
            PixType::Int16(n) => write_nodata(out, n, PixelTag::Int16, endian),
            PixType::UInt16(n) => write_nodata(out, n, PixelTag::UInt16, endian),
            PixType::Int32(n) => write_nodata(out, n, PixelTag::Int32, endian),
            PixType::UInt32(n) => write_nodata(out, n, PixelTag::UInt32, endian),
            PixType::Float32(n) => write_nodata(out, n, PixelTag::Float32, endian),
            PixType::Float64(n) => write_nodata(out, n, PixelTag::Float64, endian),
        }
    }
}

impl InMemoryRasterData {
    /// Appends the samples of the grid to `out`, row by row.
    pub(crate) fn write_rows(&self, out: &mut Vec<u8>, endian: Endian)
        requires
            grid_in_range(self.pixtype().tag(), self.rows()),
        ensures
            final(out)@ == old(out)@ + rows_bytes(self.pixtype().tag(), endian, self.rows()),
    {
        match self {
            InMemoryRasterData::Bool1Bit { data, .. } => write_rows(
                out,
                data,
                PixelTag::Bool1Bit,
                endian,
            ),
            InMemoryRasterData::UInt2 { data, .. } => write_rows(
                out,
                data,
                PixelTag::UInt2,
                endian,
            ),
            InMemoryRasterData::UInt4 { data, .. } => write_rows(
                out,
                data,
                PixelTag::UInt4,
                endian,
            ),
            InMemoryRasterData::Int8 { data, .. } => write_rows(
                out,
                data,
                PixelTag::Int8,
                endian,
            ),
            InMemoryRasterData::UInt8 { data, .. } => write_rows(
                out,
                data,
                PixelTag::UInt8,
                endian,
            ),
            InMemoryRasterData::Int16 { data, .. } => write_rows(
                out,
                data,
                PixelTag::Int16,
                endian,
            ),
            InMemoryRasterData::UInt16 { data, .. } => write_rows(
                out,
                data,
                PixelTag::UInt16,
                endian,
            ),
            InMemoryRasterData::Int32 { data, .. } => write_rows(
                out,
                data,
                PixelTag::Int32,
                endian,
            ),
            InMemoryRasterData::UInt32 { data, .. } => write_rows(
                out,
                data,
                PixelTag::UInt32,
                endian,
            ),
            InMemoryRasterData::Float32 { data, .. } => write_rows(
                out,
                data,
                PixelTag::Float32,
                endian,
            ),
            InMemoryRasterData::Float64 { data, .. } => write_rows(
                out,
                data,
                PixelTag::Float64,
                endian,
            ),
        }
    }
}

/// Appends the bytes of `src` to `out`.
pub(crate) fn write_bytes(out: &mut Vec<u8>, src: &Vec<u8>)
    ensures
        final(out)@ == old(out)@ + src@,
{
    let ghost before = out@;
    let mut k: usize = 0;
    while k < src.len()
        invariant
            k <= src.len(),
            out@ == before + src@.take(k as int),
        decreases src.len() - k,
    {
        out.push(src[k]);
        assert(src@.take(k + 1) =~= src@.take(k as int).push(src@[k as int]));
        k = k + 1;
    }
    assert(src@.take(src.len() as int) =~= src@);
}

/// Whether a band can be written: its nodata value and its samples are in
/// the range of its pixel type.
pub open spec fn band_writable(band: BandModel) -> bool {
    &&& nodata_well_formed(band.tag, band.nodata)
    &&& band.pixels matches PixelsModel::InMemory { rows } ==> grid_in_range(band.tag, rows)
}

/// A well-formed band can be written.
pub proof fn lemma_well_formed_writable(band: BandModel, width: int, height: int)
    requires
        band.well_formed(width, height),
    ensures
        band_writable(band),
{
    if let PixelsModel::InMemory { rows } = band.pixels {
        assert forall|i: int| 0 <= i < rows.len() implies all_in_range(
            band.tag,
            #[trigger] rows[i],
        ) by {
            assert(row_well_formed(band.tag, rows[i], width));
        }
    }
}

impl RasterBand {
    /// The flag byte of the band.
    pub(crate) fn flags(&self) -> (f: u8)
        ensures
            f == flag_byte(self@),
    {
        let pixtype = self.data.get_pixtype();
        let mut f: u8 = pixtype.get_tag().tag();
        if self.data.is_out_db() {
            f = f + FLAG_OUT_DB;
        }
        if pixtype.has_nodata_value() {
            f = f + FLAG_HAS_NODATA;
        }
        if self.is_nodata_value {
            f = f + FLAG_IS_NODATA;
        }
        f
    }

    /// Appends the band to `out`: its flag byte, its nodata value if it has
    /// one, and its pixels.
    pub(crate) fn write(&self, out: &mut Vec<u8>, endian: Endian)
        requires
            band_writable(self@),
        ensures
            final(out)@ == old(out)@ + band_bytes(endian, self@),
    {
        let ghost before = out@;
        let ghost model = self@;
        out.push(self.flags());
        self.data.get_pixtype().write_nodata(out, endian);
        match &self.data {
            RasterDataSource::OutDb(o) => {
                out.push(o.band);
                write_bytes(out, &o.path);
                out.push(0);
            },
            RasterDataSource::InMemory(m) => {
                m.write_rows(out, endian);
            },
        }
        assert(out@ =~= before + band_bytes(endian, model));
    }
}

impl Raster {
    /// Appends the 61 bytes of the header to `out`.
    pub(crate) fn write_header(&self, out: &mut Vec<u8>)
        requires
            self.bands.len() <= 0xffff,
        ensures
            final(out)@ == old(out)@ + header_bytes(self@),
    {
        let ghost before = out@;
        let e = self.endian;
        match e {
            Endian::Big => out.push(MARKER_BIG),
            Endian::Little => out.push(MARKER_LITTLE),
        }
        write_uint(out, self.version as u64, 2, e);
        write_uint(out, self.bands.len() as u64, 2, e);
        write_uint(out, self.scale_x, 8, e);
        write_uint(out, self.scale_y, 8, e);
        write_uint(out, self.ip_x, 8, e);
        write_uint(out, self.ip_y, 8, e);
        write_uint(out, self.skew_x, 8, e);
        write_uint(out, self.skew_y, 8, e);
        write_uint(out, self.srid.to_raw(PixelTag::Int32), 4, e);
        write_uint(out, self.width as u64, 2, e);
        write_uint(out, self.height as u64, 2, e);
        assert(out@ =~= before + header_bytes(self@));
    }
}

/// Encodes a raster. A raster that breaks an invariant of the data model
/// (a version other than 0, no band or more than 65535, a grid that is not
/// `height` rows of `width` samples, a sample or nodata value outside the
/// range of its pixel type, a zero byte in a path) is refused; any other is
/// written as the wire format lays down.
pub fn encode(raster: &Raster) -> (res: Result<Vec<u8>, CodecError>)
    ensures
        match res {
            Ok(bytes) => encoded(raster@) == Ok::<Seq<u8>, CodecError>(bytes@),
            Err(e) => encoded(raster@) == Err::<Seq<u8>, CodecError>(e),
        },
{
    if !raster.is_well_formed() {
        return Err(CodecError::MalformedRaster);
    }
    let mut out: Vec<u8> = Vec::new();
    raster.write_header(&mut out);
    let ghost head = out@;
    let ghost bands = raster@.bands;
    let mut i: usize = 0;
    assert(bands.skip(0) =~= bands);
    while i < raster.bands.len()
        invariant
            i <= raster.bands.len(),
            raster@.well_formed(),
            bands == raster@.bands,
            out@ + bands_bytes(raster.endian, bands.skip(i as int)) == head + bands_bytes(
                raster.endian,
                bands,
            ),
        decreases raster.bands.len() - i,
    {
        let ghost rest = bands.skip(i as int);
        let ghost more = bands_bytes(raster.endian, rest.skip(1));
        let ghost mid = out@;
        assert(rest.skip(1) =~= bands.skip(i + 1));
        assert(rest[0] == raster.bands[i as int]@);
        assert(bands[i as int].well_formed(raster.width as int, raster.height as int));
        proof {
            lemma_well_formed_writable(
                bands[i as int],
                raster.width as int,
                raster.height as int,
            );
        }
        raster.bands[i].write(&mut out, raster.endian);
        assert(out@ + more =~= mid + (band_bytes(raster.endian, rest[0]) + more));
        i = i + 1;
    }
    assert(out@ + Seq::<u8>::empty() =~= out@);
    assert(head =~= header_bytes(raster@));
    Ok(out)
}


/// Encodes a raster as hexadecimal text: the bytes that `encode` gives, two
/// digits for each, written with `0` to `9` and `A` to `F`.
pub fn encode_to_hex(raster: &Raster) -> (res: Result<String, CodecError>)
    ensures
        match res {
            Ok(text) => encoded_text(raster@) == Ok::<Seq<char>, CodecError>(text@),
            Err(e) => encoded_text(raster@) == Err::<Seq<char>, CodecError>(e),
        },
{
    match encode(raster) {
        Ok(bytes) => Ok(hex_encode(bytes.as_slice())),
        Err(e) => Err(e),
    }
}


} // verus!
