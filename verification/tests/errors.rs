use raster_wkb::{
    decode, decode_from_hex, decode_strict, encode, encode_to_hex, CodecError, Endian,
    InMemoryRasterData, OutDbRasterData, PixType, Raster, RasterBand, RasterDataSource,
};

fn raster_of(width: u16, height: u16, bands: Vec<RasterBand>) -> Raster {
    Raster {
        endian: Endian::Big,
        version: 0,
        scale_x: 0,
        scale_y: 0,
        ip_x: 0,
        ip_y: 0,
        skew_x: 0,
        skew_y: 0,
        srid: 0,
        width,
        height,
        bands,
    }
}

fn in_memory(data: InMemoryRasterData) -> RasterBand {
    RasterBand { is_nodata_value: false, data: RasterDataSource::InMemory(data) }
}

fn good_band() -> RasterBand {
    in_memory(InMemoryRasterData::UInt8 { data: vec![vec![1, 2], vec![3, 4]], nodata: None })
}

fn good_bytes() -> Vec<u8> {
    encode(&raster_of(2, 2, vec![good_band()])).unwrap()
}

#[test]
fn a_raster_without_bands_is_malformed() {
    let raster = raster_of(2, 2, Vec::new());
    assert!(!raster.is_well_formed());
    assert_eq!(encode(&raster), Err(CodecError::MalformedRaster));
    assert_eq!(encode_to_hex(&raster), Err(CodecError::MalformedRaster));
}

#[test]
fn a_version_other_than_zero_is_malformed() {
    let mut raster = raster_of(2, 2, vec![good_band()]);
    assert!(raster.is_well_formed());
    raster.version = 1;
    assert!(!raster.is_well_formed());
    assert_eq!(encode(&raster), Err(CodecError::MalformedRaster));
}

#[test]
fn ragged_rows_are_malformed() {
    let raster = raster_of(
        2,
        2,
        vec![in_memory(InMemoryRasterData::UInt8 { data: vec![vec![1, 2], vec![3]], nodata: None })],
    );
    assert_eq!(encode(&raster), Err(CodecError::MalformedRaster));
}

#[test]
fn a_grid_of_the_wrong_height_is_malformed() {
    let raster = raster_of(
        2,
        2,
        vec![in_memory(InMemoryRasterData::UInt8 { data: vec![vec![1, 2]], nodata: None })],
    );
    assert_eq!(encode(&raster), Err(CodecError::MalformedRaster));
}

#[test]
fn bands_of_different_sizes_are_malformed() {
    let raster = raster_of(
        2,
        2,
        vec![
            good_band(),
            in_memory(InMemoryRasterData::Int16 {
                data: vec![vec![1, 2, 3], vec![4, 5, 6]],
                nodata: None,
            }),
        ],
    );
    assert_eq!(encode(&raster), Err(CodecError::MalformedRaster));
}

#[test]
fn samples_outside_the_pixel_type_are_malformed() {
    let two_bit = raster_of(
        2,
        1,
        vec![in_memory(InMemoryRasterData::UInt2 { data: vec![vec![3, 4]], nodata: None })],
    );
    assert_eq!(encode(&two_bit), Err(CodecError::MalformedRaster));
    let four_bit = raster_of(
        2,
        1,
        vec![in_memory(InMemoryRasterData::UInt4 { data: vec![vec![16, 0]], nodata: None })],
    );
    assert_eq!(encode(&four_bit), Err(CodecError::MalformedRaster));
    let nodata = raster_of(
        2,
        1,
        vec![in_memory(InMemoryRasterData::UInt2 { data: vec![vec![3, 0]], nodata: Some(4) })],
    );
    assert_eq!(encode(&nodata), Err(CodecError::MalformedRaster));
    let out_db = raster_of(
        2,
        1,
        vec![RasterBand {
            is_nodata_value: false,
            data: RasterDataSource::OutDb(OutDbRasterData {
                band: 0,
                path: b"x".to_vec(),
                pixtype: PixType::UInt4(Some(200)),
            }),
        }],
    );
    assert_eq!(encode(&out_db), Err(CodecError::MalformedRaster));
}

#[test]
fn a_path_with_a_zero_byte_is_malformed() {
    let raster = raster_of(
        2,
        1,
        vec![RasterBand {
            is_nodata_value: false,
            data: RasterDataSource::OutDb(OutDbRasterData {
                band: 0,
                path: vec![b'a', 0, b'b'],
                pixtype: PixType::UInt8(None),
            }),
        }],
    );
    assert_eq!(encode(&raster), Err(CodecError::MalformedRaster));
}

#[test]
fn too_many_bands_are_malformed() {
    let band = in_memory(InMemoryRasterData::UInt8 { data: Vec::new(), nodata: None });
    let most = raster_of(0, 0, vec![band.clone(); 65535]);
    let bytes = encode(&most).unwrap();
    assert_eq!(bytes.len(), 61 + 65535);
    assert_eq!(decode_strict(&bytes), Ok(most));
    let more = raster_of(0, 0, vec![band; 65536]);
    assert_eq!(encode(&more), Err(CodecError::MalformedRaster));
}

#[test]
fn an_unknown_marker_is_an_invalid_header() {
    let mut bytes = good_bytes();
    bytes[0] = 2;
    assert_eq!(decode(&bytes), Err(CodecError::InvalidHeader));
    assert_eq!(decode(&[7]), Err(CodecError::InvalidHeader));
    bytes[0] = 255;
    assert_eq!(decode_strict(&bytes), Err(CodecError::InvalidHeader));
}

#[test]
fn an_unknown_version_is_an_invalid_header() {
    let mut bytes = good_bytes();
    bytes[2] = 1;
    assert_eq!(decode(&bytes), Err(CodecError::InvalidHeader));
    assert_eq!(decode(&bytes[..3]), Err(CodecError::InvalidHeader));
    assert_eq!(decode(&[1, 1, 0]), Err(CodecError::InvalidHeader));
    assert_eq!(decode(&[1, 0, 0]), Err(CodecError::UnexpectedEndOfInput));
}

#[test]
fn empty_input_ends_too_early() {
    assert_eq!(decode(&[]), Err(CodecError::UnexpectedEndOfInput));
    assert_eq!(decode_strict(&[]), Err(CodecError::UnexpectedEndOfInput));
    assert_eq!(decode_from_hex(""), Err(CodecError::UnexpectedEndOfInput));
}

#[test]
fn an_unknown_pixel_type_is_refused() {
    for tag in [9u8, 12, 13, 14, 15] {
        let mut bytes = good_bytes();
        bytes[61] = tag;
        assert_eq!(decode(&bytes), Err(CodecError::UnsupportedPixelType));
        assert_eq!(decode_strict(&bytes), Err(CodecError::UnsupportedPixelType));
        bytes[61] = tag | 0xE0;
        assert_eq!(decode(&bytes), Err(CodecError::UnsupportedPixelType));
        assert_eq!(decode(&bytes[..62]), Err(CodecError::UnsupportedPixelType));
    }
}

#[test]
fn an_unknown_pixel_type_in_a_later_band_is_refused() {
    let raster = raster_of(2, 2, vec![good_band(), good_band()]);
    let mut bytes = encode(&raster).unwrap();
    bytes[61 + 5] = 9;
    assert_eq!(decode(&bytes), Err(CodecError::UnsupportedPixelType));
}

#[test]
fn a_header_that_announces_more_bands_than_follow_ends_too_early() {
    let mut bytes = good_bytes();
    bytes[4] = 2;
    assert_eq!(decode(&bytes), Err(CodecError::UnexpectedEndOfInput));
}

#[test]
fn a_path_without_its_zero_ends_too_early() {
    let mut bytes = good_bytes();
    bytes.truncate(61);
    bytes.extend_from_slice(&[0x84, 0, b'a', b'b']);
    assert_eq!(decode(&bytes), Err(CodecError::UnexpectedEndOfInput));
    bytes.push(0);
    let raster = decode_strict(&bytes).unwrap();
    assert_eq!(
        raster.bands[0].data,
        RasterDataSource::OutDb(OutDbRasterData {
            band: 0,
            path: b"ab".to_vec(),
            pixtype: PixType::UInt8(None),
        })
    );
}

#[test]
fn a_header_without_bands_is_read_but_cannot_be_written() {
    let mut bytes = good_bytes();
    bytes.truncate(61);
    bytes[4] = 0;
    let raster = decode_strict(&bytes).unwrap();
    assert_eq!(raster, raster_of(2, 2, Vec::new()));
    assert_eq!(encode(&raster), Err(CodecError::MalformedRaster));
}

#[test]
fn trailing_data_is_reported_by_strict_decoding_only() {
    let mut bytes = good_bytes();
    bytes.push(0);
    assert!(decode(&bytes).is_ok());
    assert_eq!(decode_strict(&bytes), Err(CodecError::TrailingData));
}

#[test]
fn the_first_fault_decides_the_error() {
    assert_eq!(decode_from_hex("02zz"), Err(CodecError::InvalidHex));
    assert_eq!(decode_from_hex("020"), Err(CodecError::UnexpectedEndOfInput));
    assert_eq!(decode_from_hex("02"), Err(CodecError::InvalidHeader));
    assert_eq!(decode(&[2, 0, 1]), Err(CodecError::InvalidHeader));
}
