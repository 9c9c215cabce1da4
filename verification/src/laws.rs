//! What holds of the codec as a whole.

use crate::bytes::{lemma_byte_limits, lemma_uint_value_bound};
use crate::hex::{hex_chars, hex_text, law_hex_round_trip, lemma_hex_chars_ascii, lemma_hex_prefix};
use crate::lemmas::{
    is_short, lemma_band_round_trip, lemma_bands_round_trip, lemma_bands_truncated,
    lemma_concat_assoc, lemma_header_round_trip, lemma_header_truncated, lemma_parsed_bands,
    lemma_take_concat,
};
use crate::model::{BandModel, RasterModel};
use crate::pixel::{tag_of_number, CodecError, Endian};
use crate::wire::{
    band_bytes, bands_bytes, decoded, decoded_strict, decoded_text, decoded_text_strict, encoded,
    encoded_text, flag_byte, header_bytes,
    parse_band, parse_header, parse_raster, pixels_bytes, wire_bytes, HEADER_LEN,
};
use vstd::prelude::*;

verus! {

/// The bytes of a well-formed raster, followed by anything, are read as that
/// raster, and as many bytes are read as were written.
pub proof fn lemma_raster_round_trip(r: RasterModel, tail: Seq<u8>)
    requires
        r.well_formed(),
    ensures
        parse_raster(wire_bytes(r) + tail) == Ok::<(RasterModel, int), CodecError>(
            (r, wire_bytes(r).len() as int),
        ),
{
    let h = header_bytes(r);
    let b = bands_bytes(r.endian, r.bands);
    let s = wire_bytes(r) + tail;
    lemma_concat_assoc(h, b, tail);
    lemma_header_round_trip(r, b + tail);
    assert(s.skip(HEADER_LEN as int) =~= b + tail);
    lemma_bands_round_trip(r.endian, r.bands, r.width as nat, r.height as nat, tail);
}

/// Round trip: a well-formed raster is encoded, and decoding what it is
/// encoded to gives the same raster back, band for band, with the same
/// pixel types, nodata values and samples. Strict decoding does so too.
pub proof fn law_round_trip(r: RasterModel)
    requires
        r.well_formed(),
    ensures
        encoded(r) == Ok::<Seq<u8>, CodecError>(wire_bytes(r)),
        decoded(wire_bytes(r)) == Ok::<RasterModel, CodecError>(r),
        decoded_strict(wire_bytes(r)) == Ok::<RasterModel, CodecError>(r),
{
    lemma_raster_round_trip(r, Seq::empty());
    assert(wire_bytes(r) + Seq::<u8>::empty() =~= wire_bytes(r));
}

/// Bytes after the last band do not change what is decoded; strict decoding
/// refuses them.
pub proof fn law_trailing_bytes(r: RasterModel, tail: Seq<u8>)
    requires
        r.well_formed(),
    ensures
        decoded(wire_bytes(r) + tail) == Ok::<RasterModel, CodecError>(r),
        tail.len() > 0 ==> decoded_strict(wire_bytes(r) + tail) == Err::<RasterModel, CodecError>(
            CodecError::TrailingData,
        ),
        tail.len() == 0 ==> decoded_strict(wire_bytes(r) + tail) == Ok::<RasterModel, CodecError>(
            r,
        ),
{
    lemma_raster_round_trip(r, tail);
}

/// Truncation: decoding a proper prefix of the bytes of a well-formed raster
/// fails, because the input ends too early. No raster comes out of it.
pub proof fn law_truncation(r: RasterModel, k: int)
    requires
        r.well_formed(),
        0 <= k < wire_bytes(r).len(),
    ensures
        decoded(wire_bytes(r).take(k)) == Err::<RasterModel, CodecError>(
            CodecError::UnexpectedEndOfInput,
        ),
        decoded_strict(wire_bytes(r).take(k)) == Err::<RasterModel, CodecError>(
            CodecError::UnexpectedEndOfInput,
        ),
{
    let h = header_bytes(r);
    let b = bands_bytes(r.endian, r.bands);
    let s = wire_bytes(r).take(k);
    lemma_header_round_trip(r, Seq::empty());
    lemma_take_concat(h, b, k);
    if k < HEADER_LEN {
        lemma_header_truncated(r, k);
    } else {
        let cut = b.take(k - HEADER_LEN);
        lemma_header_round_trip(r, cut);
        assert(s.skip(HEADER_LEN as int) =~= cut);
        lemma_bands_truncated(r.endian, r.bands, r.width as nat, r.height as nat, k - HEADER_LEN);
        assert(is_short(parse_raster(s)));
    }
    assert(is_short(parse_raster(s)));
}

/// Nodata: the nodata value of a band is read back as it was written, and
/// where a band has none, nothing is written for it: the pixels follow the
/// flag byte at once.
pub proof fn law_nodata(endian: Endian, band: BandModel, width: nat, height: nat)
    requires
        band.well_formed(width as int, height as int),
    ensures
        parse_band(endian, band_bytes(endian, band), width, height) matches Ok((back, used))
            && back.nodata == band.nodata,
        band.nodata is None ==> band_bytes(endian, band) == seq![flag_byte(band) as u8]
            + pixels_bytes(band.tag, endian, band.pixels),
{
    lemma_band_round_trip(endian, band, width, height, Seq::empty());
    assert(band_bytes(endian, band) + Seq::<u8>::empty() =~= band_bytes(endian, band));
    if band.nodata is None {
        assert(band_bytes(endian, band) =~= seq![flag_byte(band) as u8] + pixels_bytes(
            band.tag,
            endian,
            band.pixels,
        ));
    }
}

/// Unknown pixel types: where the header announces a band and the tag in
/// the band's flag byte is none that the format defines, decoding fails;
/// the band is never read as one of another type.
pub proof fn law_unknown_tag(s: Seq<u8>)
    requires
        parse_header(s) matches Ok((head, count)) && count >= 1,
        s.len() > HEADER_LEN,
        tag_of_number((s[HEADER_LEN as int] as int) % 16) is None,
    ensures
        decoded(s) == Err::<RasterModel, CodecError>(CodecError::UnsupportedPixelType),
        decoded_strict(s) == Err::<RasterModel, CodecError>(CodecError::UnsupportedPixelType),
{
    let rest = s.skip(HEADER_LEN as int);
    assert(rest[0] == s[HEADER_LEN as int]);
}

/// Round trip through text: a well-formed raster is encoded as the
/// hexadecimal text of its bytes, and decoding that text gives the same
/// raster back.
pub proof fn law_hex_round_trip_raster(r: RasterModel)
    requires
        r.well_formed(),
    ensures
        encoded_text(r) == Ok::<Seq<char>, CodecError>(hex_chars(wire_bytes(r))),
        vstd::utf8::encode_utf8(hex_chars(wire_bytes(r))) == hex_text(wire_bytes(r)),
        decoded_text(hex_text(wire_bytes(r))) == Ok::<RasterModel, CodecError>(r),
        decoded_text_strict(hex_text(wire_bytes(r))) == Ok::<RasterModel, CodecError>(r),
{
    law_round_trip(r);
    law_hex_round_trip(wire_bytes(r));
    lemma_hex_chars_ascii(wire_bytes(r));
}

/// Truncation of text: decoding a proper prefix of the hexadecimal text of
/// a well-formed raster fails, because the input ends too early.
pub proof fn law_hex_truncation(r: RasterModel, k: int)
    requires
        r.well_formed(),
        0 <= k < hex_text(wire_bytes(r)).len(),
    ensures
        decoded_text(hex_text(wire_bytes(r)).take(k)) == Err::<RasterModel, CodecError>(
            CodecError::UnexpectedEndOfInput,
        ),
        decoded_text_strict(hex_text(wire_bytes(r)).take(k)) == Err::<RasterModel, CodecError>(
            CodecError::UnexpectedEndOfInput,
        ),
{
    lemma_hex_prefix(wire_bytes(r), k);
    if k % 2 == 0 {
        law_truncation(r, k / 2);
    }
}


/// What is decoded keeps the invariants of the data model, but for the
/// number of bands, which may be 0: a decoded raster with a band is well
/// formed, so that it can be encoded again. No more bytes are read than
/// there are.
pub proof fn law_decoded_well_formed(s: Seq<u8>)
    ensures
        parse_raster(s) matches Ok((r, used)) ==> {
            &&& HEADER_LEN <= used <= s.len()
            &&& r.bands.len() >= 1 ==> r.well_formed()
            &&& r.bands.len() >= 1 ==> encoded(r) is Ok
        },
{
    if let Ok((head, count)) = parse_header(s) {
        lemma_byte_limits();
        lemma_uint_value_bound(s.subrange(3, 5), head.endian);
        lemma_parsed_bands(
            head.endian,
            s.skip(HEADER_LEN as int),
            head.width as nat,
            head.height as nat,
            count,
        );
    }
}


} // verus!
