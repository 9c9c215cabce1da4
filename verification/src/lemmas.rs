//! Lemmas on the parts of the wire format: what is written is read back,
//! with anything after it, and nothing is read from less than was written.

use crate::bytes::{
    byte_limit, lemma_byte_limits, lemma_uint_bytes_len, lemma_uint_round_trip,
    lemma_uint_value_bound, uint_bytes, uint_value,
};
use crate::model::{
    nodata_well_formed, path_well_formed, row_well_formed, rows_well_formed, BandModel,
    PixelsModel, RasterModel,
};
use crate::pixel::{
    lemma_raw_round_trip, lemma_value_in_range, raw_of, sample_in_range, sample_modulus,
    tag_number, tag_of_number, CodecError, Endian, PixelTag,
};
use crate::wire::{
    band_bytes, bands_bytes, chunk_bytes, chunk_len, chunk_values, field, first_group, flag_byte,
    group_size, header_bytes, is_packed, marker_byte, nodata_bytes, packed_byte, packed_slot,
    parse_band, parse_bands, parse_header, parse_nodata, parse_path, parse_pixels, parse_rows,
    parse_run, pixels_bytes, rows_bytes, run_bytes, slot, HEADER_LEN,
};
use vstd::prelude::*;

verus! {

/// Whether a result is the error of an input that ends too early.
pub open spec fn is_short<T>(r: Result<T, CodecError>) -> bool {
    r matches Err(e) && e == CodecError::UnexpectedEndOfInput
}

/// Whether every value of `vals` is a sample of the pixel type.
pub open spec fn all_in_range(tag: PixelTag, vals: Seq<int>) -> bool {
    forall|j: int| 0 <= j < vals.len() ==> sample_in_range(tag, #[trigger] vals[j])
}

/// A prefix of a concatenation is a prefix of its first part, or the first
/// part and a prefix of the second.
pub proof fn lemma_take_concat(a: Seq<u8>, b: Seq<u8>, k: int)
    requires
        0 <= k <= a.len() + b.len(),
    ensures
        k <= a.len() ==> (a + b).take(k) == a.take(k),
        k >= a.len() ==> (a + b).take(k) == a + b.take(k - a.len()),
{
    if k <= a.len() {
        assert((a + b).take(k) =~= a.take(k));
    }
    if k >= a.len() {
        assert((a + b).take(k) =~= a + b.take(k - a.len()));
    }
}

proof fn lemma_unpack_bits(s0: u8, s1: u8, s2: u8, s3: u8, s4: u8, s5: u8, s6: u8, s7: u8)
    by (bit_vector)
    requires
        s0 <= 1,
        s1 <= 1,
        s2 <= 1,
        s3 <= 1,
        s4 <= 1,
        s5 <= 1,
        s6 <= 1,
        s7 <= 1,
    ensures
        ({
            let b = s0 * 128 + s1 * 64 + s2 * 32 + s3 * 16 + s4 * 8 + s5 * 4 + s6 * 2 + s7;
            &&& 0 <= b < 256
            &&& (b / 128) % 2 == s0
            &&& (b / 64) % 2 == s1
            &&& (b / 32) % 2 == s2
            &&& (b / 16) % 2 == s3
            &&& (b / 8) % 2 == s4
            &&& (b / 4) % 2 == s5
            &&& (b / 2) % 2 == s6
            &&& (b / 1) % 2 == s7
        }),
{
}

proof fn lemma_unpack_pairs(s0: u8, s1: u8, s2: u8, s3: u8)
    by (bit_vector)
    requires
        s0 < 4,
        s1 < 4,
        s2 < 4,
        s3 < 4,
    ensures
        ({
            let b = s0 * 64 + s1 * 16 + s2 * 4 + s3;
            &&& 0 <= b < 256
            &&& (b / 64) % 4 == s0
            &&& (b / 16) % 4 == s1
            &&& (b / 4) % 4 == s2
            &&& (b / 1) % 4 == s3
        }),
{
}

proof fn lemma_unpack_nibbles(s0: u8, s1: u8)
    by (bit_vector)
    requires
        s0 < 16,
        s1 < 16,
    ensures
        ({
            let b = s0 * 16 + s1;
            &&& 0 <= b < 256
            &&& (b / 16) % 16 == s0
            &&& (b / 1) % 16 == s1
        }),
{
}

/// A packed byte holds its samples: each is read back from its place.
pub proof fn lemma_packed_round_trip(tag: PixelTag, vs: Seq<int>)
    requires
        is_packed(tag),
        vs.len() <= group_size(tag),
        all_in_range(tag, vs),
    ensures
        0 <= packed_byte(tag, vs) < 256,
        forall|j: int|
            0 <= j < group_size(tag) ==> #[trigger] packed_slot(tag, packed_byte(tag, vs), j)
                == slot(vs, j),
{
    assert forall|j: int| 0 <= #[trigger] slot(vs, j) < sample_modulus(tag) by {
        if 0 <= j < vs.len() {
            assert(sample_in_range(tag, vs[j]));
        }
    }
    match tag {
        PixelTag::Bool1Bit => {
            lemma_unpack_bits(
                slot(vs, 0) as u8,
                slot(vs, 1) as u8,
                slot(vs, 2) as u8,
                slot(vs, 3) as u8,
                slot(vs, 4) as u8,
                slot(vs, 5) as u8,
                slot(vs, 6) as u8,
                slot(vs, 7) as u8,
            );
        },
        PixelTag::UInt2 => {
            lemma_unpack_pairs(
                slot(vs, 0) as u8,
                slot(vs, 1) as u8,
                slot(vs, 2) as u8,
                slot(vs, 3) as u8,
            );
        },
        _ => {
            lemma_unpack_nibbles(slot(vs, 0) as u8, slot(vs, 1) as u8);
        },
    }
}

/// The number of values that fit in a chunk of an unpacked type is the
/// number of bit patterns of a sample.
pub proof fn lemma_chunk_limit(tag: PixelTag)
    requires
        !is_packed(tag),
    ensures
        byte_limit(chunk_len(tag)) == sample_modulus(tag),
{
    lemma_byte_limits();
}

/// A chunk has the length of its type, and its samples are read back.
pub proof fn lemma_chunk_round_trip(tag: PixelTag, endian: Endian, vs: Seq<int>)
    requires
        1 <= vs.len() <= group_size(tag),
        all_in_range(tag, vs),
    ensures
        chunk_bytes(tag, endian, vs).len() == chunk_len(tag),
        chunk_values(tag, endian, chunk_bytes(tag, endian, vs), vs.len()) == vs,
{
    let chunk = chunk_bytes(tag, endian, vs);
    if is_packed(tag) {
        lemma_packed_round_trip(tag, vs);
        assert forall|j: int| 0 <= j < vs.len() implies chunk_values(
            tag,
            endian,
            chunk,
            vs.len(),
        )[j] == vs[j] by {
            assert(packed_slot(tag, packed_byte(tag, vs), j) == slot(vs, j));
        }
        assert(chunk_values(tag, endian, chunk, vs.len()) =~= vs);
    } else {
        let v = vs[0];
        assert(sample_in_range(tag, v));
        lemma_raw_round_trip(tag, v);
        lemma_chunk_limit(tag);
        let raw = raw_of(tag, v) as nat;
        lemma_uint_bytes_len(raw, chunk_len(tag), endian);
        lemma_uint_round_trip(raw, chunk_len(tag), endian);
        assert(chunk_values(tag, endian, chunk, vs.len()) =~= vs);
    }
}

/// The samples that any chunk stands for are in the range of the type.
pub proof fn lemma_chunk_values_in_range(tag: PixelTag, endian: Endian, chunk: Seq<u8>, count: nat)
    requires
        chunk.len() == chunk_len(tag),
        1 <= count <= group_size(tag),
    ensures
        chunk_values(tag, endian, chunk, count).len() == count,
        all_in_range(tag, chunk_values(tag, endian, chunk, count)),
{
    let vals = chunk_values(tag, endian, chunk, count);
    if is_packed(tag) {
        assert forall|j: int| 0 <= j < vals.len() implies sample_in_range(
            tag,
            #[trigger] vals[j],
        ) by {
            assert(vals[j] == packed_slot(tag, chunk[0] as int, j));
        }
    } else {
        lemma_uint_value_bound(chunk, endian);
        lemma_chunk_limit(tag);
        lemma_value_in_range(tag, uint_value(chunk, endian) as int);
    }
}

/// A run that is written is read back, whatever follows it.
pub proof fn lemma_run_round_trip(tag: PixelTag, endian: Endian, vals: Seq<int>, tail: Seq<u8>)
    requires
        all_in_range(tag, vals),
    ensures
        parse_run(tag, endian, run_bytes(tag, endian, vals) + tail, vals.len()) == Ok::<
            (Seq<int>, int),
            CodecError,
        >((vals, run_bytes(tag, endian, vals).len() as int)),
    decreases vals.len(),
{
    if vals.len() > 0 {
        let c = first_group(tag, vals.len());
        let head = vals.take(c as int);
        let rest = vals.skip(c as int);
        let s = run_bytes(tag, endian, vals) + tail;
        let chunk = chunk_bytes(tag, endian, head);
        let more = run_bytes(tag, endian, rest);
        assert(all_in_range(tag, head));
        assert(all_in_range(tag, rest));
        lemma_chunk_round_trip(tag, endian, head);
        lemma_run_round_trip(tag, endian, rest, tail);
        assert(run_bytes(tag, endian, vals) == chunk + more);
        assert(s.take(chunk_len(tag) as int) =~= chunk);
        assert(s.skip(chunk_len(tag) as int) =~= more + tail);
        assert(head + rest =~= vals);
        assert(rest.len() == vals.len() - c);
        assert(parse_run(tag, endian, s.skip(chunk_len(tag) as int), (vals.len() - c) as nat)
            == Ok::<(Seq<int>, int), CodecError>((rest, more.len() as int)));
        assert(chunk_values(tag, endian, s.take(chunk_len(tag) as int), c) == head);
        assert(run_bytes(tag, endian, vals).len() == chunk_len(tag) + more.len());
    } else {
        assert(vals =~= Seq::empty());
    }
}

/// Nothing is read from less than a whole run.
pub proof fn lemma_run_truncated(tag: PixelTag, endian: Endian, vals: Seq<int>, k: int)
    requires
        all_in_range(tag, vals),
        0 <= k < run_bytes(tag, endian, vals).len(),
    ensures
        is_short(parse_run(tag, endian, run_bytes(tag, endian, vals).take(k), vals.len())),
    decreases vals.len(),
{
    if vals.len() > 0 {
        let c = first_group(tag, vals.len());
        let head = vals.take(c as int);
        let rest = vals.skip(c as int);
        let chunk = chunk_bytes(tag, endian, head);
        let more = run_bytes(tag, endian, rest);
        assert(all_in_range(tag, head));
        assert(all_in_range(tag, rest));
        lemma_chunk_round_trip(tag, endian, head);
        lemma_take_concat(chunk, more, k);
        let s = (chunk + more).take(k);
        if k >= chunk_len(tag) {
            lemma_run_truncated(tag, endian, rest, k - chunk_len(tag));
            assert(s.skip(chunk_len(tag) as int) =~= more.take(k - chunk_len(tag)));
        }
    }
}

/// A grid that is written is read back, whatever follows it.
pub proof fn lemma_rows_round_trip(
    tag: PixelTag,
    endian: Endian,
    rows: Seq<Seq<int>>,
    width: nat,
    tail: Seq<u8>,
)
    requires
        rows_well_formed(tag, rows, width as int, rows.len() as int),
    ensures
        parse_rows(tag, endian, rows_bytes(tag, endian, rows) + tail, width, rows.len()) == Ok::<
            (Seq<Seq<int>>, int),
            CodecError,
        >((rows, rows_bytes(tag, endian, rows).len() as int)),
    decreases rows.len(),
{
    if rows.len() > 0 {
        let first = run_bytes(tag, endian, rows[0]);
        let rest = rows.skip(1);
        let more = rows_bytes(tag, endian, rest);
        let s = rows_bytes(tag, endian, rows) + tail;
        assert(row_well_formed(tag, rows[0], width as int));
        assert forall|i: int| 0 <= i < rest.len() implies row_well_formed(
            tag,
            #[trigger] rest[i],
            width as int,
        ) by {
            assert(rest[i] == rows[i + 1]);
        }
        assert(all_in_range(tag, rows[0]));
        assert(rows_well_formed(tag, rest, width as int, rest.len() as int));
        lemma_run_round_trip(tag, endian, rows[0], more + tail);
        lemma_rows_round_trip(tag, endian, rest, width, tail);
        assert(rows_bytes(tag, endian, rows) == first + more);
        assert(s =~= first + (more + tail));
        assert(parse_run(tag, endian, s, width) == Ok::<(Seq<int>, int), CodecError>(
            (rows[0], first.len() as int),
        ));
        assert(s.skip(first.len() as int) =~= more + tail);
        assert(parse_rows(tag, endian, s.skip(first.len() as int), width, rest.len()) == Ok::<
            (Seq<Seq<int>>, int),
            CodecError,
        >((rest, more.len() as int)));
        assert(seq![rows[0]] + rest =~= rows);
        assert(rows_bytes(tag, endian, rows).len() == first.len() + more.len());
    } else {
        assert(rows =~= Seq::empty());
    }
}

/// Nothing is read from less than a whole grid.
pub proof fn lemma_rows_truncated(
    tag: PixelTag,
    endian: Endian,
    rows: Seq<Seq<int>>,
    width: nat,
    k: int,
)
    requires
        rows_well_formed(tag, rows, width as int, rows.len() as int),
        0 <= k < rows_bytes(tag, endian, rows).len(),
    ensures
        is_short(parse_rows(tag, endian, rows_bytes(tag, endian, rows).take(k), width, rows.len())),
    decreases rows.len(),
{
    if rows.len() > 0 {
        let first = run_bytes(tag, endian, rows[0]);
        let rest = rows.skip(1);
        let more = rows_bytes(tag, endian, rest);
        let s = rows_bytes(tag, endian, rows).take(k);
        assert(row_well_formed(tag, rows[0], width as int));
        assert forall|i: int| 0 <= i < rest.len() implies row_well_formed(
            tag,
            #[trigger] rest[i],
            width as int,
        ) by {
            assert(rest[i] == rows[i + 1]);
        }
        lemma_take_concat(first, more, k);
        if k < first.len() {
            lemma_run_truncated(tag, endian, rows[0], k);
        } else {
            lemma_run_round_trip(tag, endian, rows[0], more.take(k - first.len()));
            lemma_rows_truncated(tag, endian, rest, width, k - first.len());
            assert(s.skip(first.len() as int) =~= more.take(k - first.len()));
        }
    }
}

/// A path that is written is read back, whatever follows it.
pub proof fn lemma_path_round_trip(path: Seq<u8>, tail: Seq<u8>)
    requires
        path_well_formed(path),
    ensures
        parse_path(path + seq![0u8] + tail) == Ok::<(Seq<u8>, int), CodecError>(
            (path, path.len() as int + 1),
        ),
    decreases path.len(),
{
    let s = path + seq![0u8] + tail;
    if path.len() > 0 {
        let rest = path.skip(1);
        assert(path[0] != 0);
        assert forall|k: int| 0 <= k < rest.len() implies #[trigger] rest[k] != 0 by {
            assert(rest[k] == path[k + 1]);
        }
        lemma_path_round_trip(rest, tail);
        assert(s.skip(1) =~= rest + seq![0u8] + tail);
        assert(seq![s[0]] + rest =~= path);
    } else {
        assert(path =~= Seq::empty());
    }
}

/// Nothing is read from a path without its terminating zero.
pub proof fn lemma_path_truncated(path: Seq<u8>, k: int)
    requires
        path_well_formed(path),
        0 <= k <= path.len(),
    ensures
        is_short(parse_path((path + seq![0u8]).take(k))),
    decreases path.len(),
{
    let s = (path + seq![0u8]).take(k);
    if k > 0 {
        let rest = path.skip(1);
        assert(path[0] != 0);
        assert forall|j: int| 0 <= j < rest.len() implies #[trigger] rest[j] != 0 by {
            assert(rest[j] == path[j + 1]);
        }
        lemma_path_truncated(rest, k - 1);
        assert(s.skip(1) =~= (rest + seq![0u8]).take(k - 1));
    }
}

/// Whether the pixels of a band fit a raster of the given size.
pub open spec fn pixels_well_formed(tag: PixelTag, pixels: PixelsModel, width: int, height: int)
    -> bool {
    match pixels {
        PixelsModel::InMemory { rows } => rows_well_formed(tag, rows, width, height),
        PixelsModel::OutDb { band, path } => path_well_formed(path),
    }
}

/// Pixels that are written are read back, whatever follows them.
pub proof fn lemma_pixels_round_trip(
    tag: PixelTag,
    endian: Endian,
    pixels: PixelsModel,
    width: nat,
    height: nat,
    tail: Seq<u8>,
)
    requires
        pixels_well_formed(tag, pixels, width as int, height as int),
    ensures
        parse_pixels(
            tag,
            endian,
            pixels_bytes(tag, endian, pixels) + tail,
            width,
            height,
            pixels is OutDb,
        ) == Ok::<(PixelsModel, int), CodecError>(
            (pixels, pixels_bytes(tag, endian, pixels).len() as int),
        ),
{
    let s = pixels_bytes(tag, endian, pixels) + tail;
    match pixels {
        PixelsModel::InMemory { rows } => {
            lemma_rows_round_trip(tag, endian, rows, width, tail);
        },
        PixelsModel::OutDb { band, path } => {
            lemma_path_round_trip(path, tail);
            assert(s.skip(1) =~= path + seq![0u8] + tail);
            assert(s[0] == band);
        },
    }
}

/// Nothing is read from less than all the pixels of a band.
pub proof fn lemma_pixels_truncated(
    tag: PixelTag,
    endian: Endian,
    pixels: PixelsModel,
    width: nat,
    height: nat,
    k: int,
)
    requires
        pixels_well_formed(tag, pixels, width as int, height as int),
        0 <= k < pixels_bytes(tag, endian, pixels).len(),
    ensures
        is_short(
            parse_pixels(
                tag,
                endian,
                pixels_bytes(tag, endian, pixels).take(k),
                width,
                height,
                pixels is OutDb,
            ),
        ),
{
    let s = pixels_bytes(tag, endian, pixels).take(k);
    match pixels {
        PixelsModel::InMemory { rows } => {
            lemma_rows_truncated(tag, endian, rows, width, k);
        },
        PixelsModel::OutDb { band, path } => {
            if k > 0 {
                lemma_path_truncated(path, k - 1);
                assert(s.skip(1) =~= (path + seq![0u8]).take(k - 1));
            }
        },
    }
}

/// A nodata value that is written is read back, whatever follows it.
pub proof fn lemma_nodata_round_trip(
    tag: PixelTag,
    endian: Endian,
    nodata: Option<int>,
    tail: Seq<u8>,
)
    requires
        nodata_well_formed(tag, nodata),
    ensures
        parse_nodata(tag, endian, nodata_bytes(tag, endian, nodata) + tail, nodata is Some)
            == Ok::<(Option<int>, int), CodecError>(
            (nodata, nodata_bytes(tag, endian, nodata).len() as int),
        ),
{
    match nodata {
        Some(v) => {
            lemma_run_round_trip(tag, endian, seq![v], tail);
        },
        None => {},
    }
}

/// Nothing is read from less than a whole nodata value.
pub proof fn lemma_nodata_truncated(tag: PixelTag, endian: Endian, nodata: Option<int>, k: int)
    requires
        nodata_well_formed(tag, nodata),
        0 <= k < nodata_bytes(tag, endian, nodata).len(),
    ensures
        is_short(
            parse_nodata(tag, endian, nodata_bytes(tag, endian, nodata).take(k), nodata is Some),
        ),
{
    match nodata {
        Some(v) => {
            lemma_run_truncated(tag, endian, seq![v], k);
        },
        None => {},
    }
}

/// The flag byte of a band is a byte from which each part is read back.
pub proof fn lemma_flag_byte(band: BandModel)
    ensures
        0 <= flag_byte(band) < 256,
        tag_of_number(flag_byte(band) % 16) == Some(band.tag),
        ((flag_byte(band) / 64) % 2 == 1) == (band.nodata is Some),
        ((flag_byte(band) / 32) % 2 == 1) == band.is_nodata_value,
        (flag_byte(band) / 128 == 1) == (band.pixels is OutDb),
{
    let t = tag_number(band.tag);
    assert(0 <= t < 16);
}

/// A band that is written is read back, whatever follows it.
pub proof fn lemma_band_round_trip(
    endian: Endian,
    band: BandModel,
    width: nat,
    height: nat,
    tail: Seq<u8>,
)
    requires
        band.well_formed(width as int, height as int),
    ensures
        parse_band(endian, band_bytes(endian, band) + tail, width, height) == Ok::<
            (BandModel, int),
            CodecError,
        >((band, band_bytes(endian, band).len() as int)),
{
    let n = nodata_bytes(band.tag, endian, band.nodata);
    let p = pixels_bytes(band.tag, endian, band.pixels);
    let s = band_bytes(endian, band) + tail;
    lemma_flag_byte(band);
    assert(s[0] as int == flag_byte(band));
    assert(s.skip(1) =~= n + (p + tail));
    lemma_nodata_round_trip(band.tag, endian, band.nodata, p + tail);
    assert(s.skip(1 + n.len() as int) =~= p + tail);
    lemma_pixels_round_trip(band.tag, endian, band.pixels, width, height, tail);
}

/// Nothing is read from less than a whole band.
pub proof fn lemma_band_truncated(endian: Endian, band: BandModel, width: nat, height: nat, k: int)
    requires
        band.well_formed(width as int, height as int),
        0 <= k < band_bytes(endian, band).len(),
    ensures
        is_short(parse_band(endian, band_bytes(endian, band).take(k), width, height)),
{
    let n = nodata_bytes(band.tag, endian, band.nodata);
    let p = pixels_bytes(band.tag, endian, band.pixels);
    let s = band_bytes(endian, band).take(k);
    lemma_flag_byte(band);
    if k > 0 {
        assert(s[0] as int == flag_byte(band));
        assert(s.skip(1) =~= (n + p).take(k - 1));
        lemma_take_concat(n, p, k - 1);
        if k - 1 < n.len() {
            lemma_nodata_truncated(band.tag, endian, band.nodata, k - 1);
        } else {
            let cut = p.take(k - 1 - n.len());
            lemma_nodata_round_trip(band.tag, endian, band.nodata, cut);
            assert(s.skip(1 + n.len() as int) =~= cut);
            lemma_pixels_truncated(band.tag, endian, band.pixels, width, height, k - 1 - n.len());
        }
    }
}

/// Whether every band fits a raster of the given size.
pub open spec fn bands_well_formed(bands: Seq<BandModel>, width: int, height: int) -> bool {
    forall|i: int| 0 <= i < bands.len() ==> (#[trigger] bands[i]).well_formed(width, height)
}

/// Bands that are written are read back, whatever follows them.
pub proof fn lemma_bands_round_trip(
    endian: Endian,
    bands: Seq<BandModel>,
    width: nat,
    height: nat,
    tail: Seq<u8>,
)
    requires
        bands_well_formed(bands, width as int, height as int),
    ensures
        parse_bands(endian, bands_bytes(endian, bands) + tail, width, height, bands.len()) == Ok::<
            (Seq<BandModel>, int),
            CodecError,
        >((bands, bands_bytes(endian, bands).len() as int)),
    decreases bands.len(),
{
    if bands.len() > 0 {
        let first = band_bytes(endian, bands[0]);
        let rest = bands.skip(1);
        let more = bands_bytes(endian, rest);
        let s = bands_bytes(endian, bands) + tail;
        assert(bands[0].well_formed(width as int, height as int));
        assert forall|i: int| 0 <= i < rest.len() implies (#[trigger] rest[i]).well_formed(
            width as int,
            height as int,
        ) by {
            assert(rest[i] == bands[i + 1]);
        }
        lemma_band_round_trip(endian, bands[0], width, height, more + tail);
        lemma_bands_round_trip(endian, rest, width, height, tail);
        assert(s =~= first + (more + tail));
        assert(s.skip(first.len() as int) =~= more + tail);
        assert(seq![bands[0]] + rest =~= bands);
    } else {
        assert(bands =~= Seq::empty());
    }
}

/// Nothing is read from less than all the bands.
pub proof fn lemma_bands_truncated(
    endian: Endian,
    bands: Seq<BandModel>,
    width: nat,
    height: nat,
    k: int,
)
    requires
        bands_well_formed(bands, width as int, height as int),
        0 <= k < bands_bytes(endian, bands).len(),
    ensures
        is_short(
            parse_bands(endian, bands_bytes(endian, bands).take(k), width, height, bands.len()),
        ),
    decreases bands.len(),
{
    if bands.len() > 0 {
        let first = band_bytes(endian, bands[0]);
        let rest = bands.skip(1);
        let more = bands_bytes(endian, rest);
        let s = bands_bytes(endian, bands).take(k);
        assert(bands[0].well_formed(width as int, height as int));
        assert forall|i: int| 0 <= i < rest.len() implies (#[trigger] rest[i]).well_formed(
            width as int,
            height as int,
        ) by {
            assert(rest[i] == bands[i + 1]);
        }
        lemma_take_concat(first, more, k);
        if k < first.len() {
            lemma_band_truncated(endian, bands[0], width, height, k);
        } else {
            lemma_band_round_trip(endian, bands[0], width, height, more.take(k - first.len()));
            lemma_bands_truncated(endian, rest, width, height, k - first.len());
            assert(s.skip(first.len() as int) =~= more.take(k - first.len()));
        }
    }
}


/// A number written between two byte strings is read back from its place.
pub proof fn lemma_field_at(a: Seq<u8>, x: nat, w: nat, endian: Endian, b: Seq<u8>)
    requires
        x < byte_limit(w),
    ensures
        (a + uint_bytes(x, w, endian)).len() == a.len() + w,
        field(a + uint_bytes(x, w, endian) + b, a.len() as int, w as int, endian) == x,
{
    let m = uint_bytes(x, w, endian);
    lemma_uint_bytes_len(x, w, endian);
    lemma_uint_round_trip(x, w, endian);
    assert((a + m + b).subrange(a.len() as int, (a.len() + w) as int) =~= m);
}

/// Concatenation is associative.
pub proof fn lemma_concat_assoc(a: Seq<u8>, b: Seq<u8>, c: Seq<u8>)
    ensures
        a + b + c == a + (b + c),
{
    assert(a + b + c =~= a + (b + c));
}

/// The raster without its bands.
pub open spec fn without_bands(r: RasterModel) -> RasterModel {
    RasterModel { bands: Seq::empty(), ..r }
}

/// A header that is written is read back, whatever follows it.
pub proof fn lemma_header_round_trip(r: RasterModel, tail: Seq<u8>)
    requires
        r.version == 0,
        r.bands.len() <= 0xffff,
    ensures
        header_bytes(r).len() == HEADER_LEN,
        parse_header(header_bytes(r) + tail) == Ok::<(RasterModel, nat), CodecError>(
            (without_bands(r), r.bands.len()),
        ),
{
    let e = r.endian;
    let srid = raw_of(PixelTag::Int32, r.srid as int) as nat;
    lemma_byte_limits();
    lemma_raw_round_trip(PixelTag::Int32, r.srid as int);
    let f1 = uint_bytes(r.version as nat, 2, e);
    let f2 = uint_bytes(r.bands.len(), 2, e);
    let f3 = uint_bytes(r.scale_x as nat, 8, e);
    let f4 = uint_bytes(r.scale_y as nat, 8, e);
    let f5 = uint_bytes(r.ip_x as nat, 8, e);
    let f6 = uint_bytes(r.ip_y as nat, 8, e);
    let f7 = uint_bytes(r.skew_x as nat, 8, e);
    let f8 = uint_bytes(r.skew_y as nat, 8, e);
    let f9 = uint_bytes(srid, 4, e);
    let f10 = uint_bytes(r.width as nat, 2, e);
    let f11 = uint_bytes(r.height as nat, 2, e);
    let a0 = seq![marker_byte(e)];
    let a1 = a0 + f1;
    let a2 = a1 + f2;
    let a3 = a2 + f3;
    let a4 = a3 + f4;
    let a5 = a4 + f5;
    let a6 = a5 + f6;
    let a7 = a6 + f7;
    let a8 = a7 + f8;
    let a9 = a8 + f9;
    let a10 = a9 + f10;
    let b10 = tail;
    let b9 = f11 + b10;
    let b8 = f10 + b9;
    let b7 = f9 + b8;
    let b6 = f8 + b7;
    let b5 = f7 + b6;
    let b4 = f6 + b5;
    let b3 = f5 + b4;
    let b2 = f4 + b3;
    let b1 = f3 + b2;
    let b0 = f2 + b1;
    let s = header_bytes(r) + tail;
    assert(s == a10 + f11 + b10);
    lemma_field_at(a10, r.height as nat, 2, e, b10);
    lemma_concat_assoc(a10, f11, b10);
    lemma_field_at(a9, r.width as nat, 2, e, b9);
    lemma_concat_assoc(a9, f10, b9);
    lemma_field_at(a8, srid, 4, e, b8);
    lemma_concat_assoc(a8, f9, b8);
    lemma_field_at(a7, r.skew_y as nat, 8, e, b7);
    lemma_concat_assoc(a7, f8, b7);
    lemma_field_at(a6, r.skew_x as nat, 8, e, b6);
    lemma_concat_assoc(a6, f7, b6);
    lemma_field_at(a5, r.ip_y as nat, 8, e, b5);
    lemma_concat_assoc(a5, f6, b5);
    lemma_field_at(a4, r.ip_x as nat, 8, e, b4);
    lemma_concat_assoc(a4, f5, b4);
    lemma_field_at(a3, r.scale_y as nat, 8, e, b3);
    lemma_concat_assoc(a3, f4, b3);
    lemma_field_at(a2, r.scale_x as nat, 8, e, b2);
    lemma_concat_assoc(a2, f3, b2);
    lemma_field_at(a1, r.bands.len(), 2, e, b1);
    lemma_concat_assoc(a1, f2, b1);
    lemma_field_at(a0, r.version as nat, 2, e, b0);
    assert(s == a0 + f1 + b0);
    assert(a0.len() == 1);
    assert(header_bytes(r).len() == HEADER_LEN);
    assert(s[0] == marker_byte(e));
}

/// Nothing is read from less than a whole header.
pub proof fn lemma_header_truncated(r: RasterModel, k: int)
    requires
        r.version == 0,
        r.bands.len() <= 0xffff,
        0 <= k < HEADER_LEN,
    ensures
        is_short(parse_header(header_bytes(r).take(k))),
{
    let h = header_bytes(r);
    let s = h.take(k);
    lemma_header_round_trip(r, Seq::empty());
    assert(h + Seq::<u8>::empty() =~= h);
    if k >= 3 {
        assert(s[0] == h[0]);
        assert(s.subrange(1, 3) =~= h.subrange(1, 3));
    } else if k >= 1 {
        assert(s[0] == h[0]);
    }
}


/// A run that is read has the length asked for, and its samples are in the
/// range of the pixel type.
pub proof fn lemma_parsed_run(tag: PixelTag, endian: Endian, s: Seq<u8>, n: nat)
    ensures
        parse_run(tag, endian, s, n) matches Ok((vals, used)) ==> vals.len() == n && all_in_range(
            tag,
            vals,
        ) && 0 <= used <= s.len(),
    decreases n,
{
    if n > 0 && s.len() >= chunk_len(tag) {
        let c = first_group(tag, n);
        let chunk = s.take(chunk_len(tag) as int);
        let head = chunk_values(tag, endian, chunk, c);
        lemma_chunk_values_in_range(tag, endian, chunk, c);
        lemma_parsed_run(tag, endian, s.skip(chunk_len(tag) as int), (n - c) as nat);
        if let Ok((rest, used)) = parse_run(
            tag,
            endian,
            s.skip(chunk_len(tag) as int),
            (n - c) as nat,
        ) {
            let vals = head + rest;
            assert forall|j: int| 0 <= j < vals.len() implies sample_in_range(
                tag,
                #[trigger] vals[j],
            ) by {
                if j < head.len() {
                    assert(vals[j] == head[j]);
                } else {
                    assert(vals[j] == rest[j - head.len()]);
                }
            }
        }
    }
}

/// A grid that is read has the size asked for, and its samples are in the
/// range of the pixel type.
pub proof fn lemma_parsed_rows(tag: PixelTag, endian: Endian, s: Seq<u8>, width: nat, height: nat)
    ensures
        parse_rows(tag, endian, s, width, height) matches Ok((rows, used)) ==> rows_well_formed(
            tag,
            rows,
            width as int,
            height as int,
        ) && 0 <= used <= s.len(),
    decreases height,
{
    if height > 0 {
        lemma_parsed_run(tag, endian, s, width);
        if let Ok((row, used)) = parse_run(tag, endian, s, width) {
            lemma_parsed_rows(tag, endian, s.skip(used), width, (height - 1) as nat);
            if let Ok((rest, more)) = parse_rows(
                tag,
                endian,
                s.skip(used),
                width,
                (height - 1) as nat,
            ) {
                let rows = seq![row] + rest;
                assert forall|i: int| 0 <= i < rows.len() implies row_well_formed(
                    tag,
                    #[trigger] rows[i],
                    width as int,
                ) by {
                    if i > 0 {
                        assert(rows[i] == rest[i - 1]);
                    }
                }
            }
        }
    }
}

/// A path that is read holds no zero byte.
pub proof fn lemma_parsed_path(s: Seq<u8>)
    ensures
        parse_path(s) matches Ok((path, used)) ==> path_well_formed(path) && 0 <= used <= s.len(),
    decreases s.len(),
{
    if s.len() > 0 && s[0] != 0 {
        lemma_parsed_path(s.skip(1));
        if let Ok((rest, used)) = parse_path(s.skip(1)) {
            let path = seq![s[0]] + rest;
            assert forall|k: int| 0 <= k < path.len() implies #[trigger] path[k] != 0 by {
                if k > 0 {
                    assert(path[k] == rest[k - 1]);
                }
            }
        }
    }
}

/// A band that is read fits the raster that it was read for.
pub proof fn lemma_parsed_band(endian: Endian, s: Seq<u8>, width: nat, height: nat)
    ensures
        parse_band(endian, s, width, height) matches Ok((band, used)) ==> band.well_formed(
            width as int,
            height as int,
        ) && 0 <= used <= s.len(),
{
    if s.len() > 0 {
        let flags = s[0] as int;
        if let Some(tag) = tag_of_number(flags % 16) {
            lemma_parsed_run(tag, endian, s.skip(1), 1);
            if let Ok((nodata, used)) = parse_nodata(
                tag,
                endian,
                s.skip(1),
                (flags / 64) % 2 == 1,
            ) {
                if let Some(v) = nodata {
                    let vals = parse_run(tag, endian, s.skip(1), 1)->Ok_0.0;
                    assert(sample_in_range(tag, vals[0]));
                }
                let rest = s.skip(1 + used);
                lemma_parsed_rows(tag, endian, rest, width, height);
                if rest.len() > 0 {
                    lemma_parsed_path(rest.skip(1));
                }
            }
        }
    }
}

/// Bands that are read are as many as were asked for, and each fits the
/// raster.
pub proof fn lemma_parsed_bands(endian: Endian, s: Seq<u8>, width: nat, height: nat, count: nat)
    ensures
        parse_bands(endian, s, width, height, count) matches Ok((bands, used)) ==> bands.len()
            == count && bands_well_formed(bands, width as int, height as int) && 0 <= used
            <= s.len(),
    decreases count,
{
    if count > 0 {
        lemma_parsed_band(endian, s, width, height);
        if let Ok((band, used)) = parse_band(endian, s, width, height) {
            lemma_parsed_bands(endian, s.skip(used), width, height, (count - 1) as nat);
            if let Ok((rest, more)) = parse_bands(
                endian,
                s.skip(used),
                width,
                height,
                (count - 1) as nat,
            ) {
                let bands = seq![band] + rest;
                assert forall|i: int| 0 <= i < bands.len() implies (#[trigger] bands[i])
                    .well_formed(width as int, height as int) by {
                    if i > 0 {
                        assert(bands[i] == rest[i - 1]);
                    }
                }
            }
        }
    }
}


} // verus!
