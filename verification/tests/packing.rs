use raster_wkb::{
    decode, decode_strict, encode, CodecError, Endian, InMemoryRasterData, Raster, RasterBand,
    RasterDataSource,
};

fn raster_of(endian: Endian, width: u16, height: u16, data: InMemoryRasterData) -> Raster {
    Raster {
        endian,
        version: 0,
        scale_x: 0,
        scale_y: 0,
        ip_x: 0,
        ip_y: 0,
        skew_x: 0,
        skew_y: 0,
        srid: 0,
        width,
        height,
        bands: vec![RasterBand { is_nodata_value: false, data: RasterDataSource::InMemory(data) }],
    }
}

fn header_of(endian: Endian, width: u16, height: u16) -> Vec<u8> {
    let mut bytes = vec![0u8; 61];
    match endian {
        Endian::Big => {
            bytes[0] = 0;
            bytes[4] = 1;
            bytes[57..59].copy_from_slice(&width.to_be_bytes());
            bytes[59..61].copy_from_slice(&height.to_be_bytes());
        }
        Endian::Little => {
            bytes[0] = 1;
            bytes[3] = 1;
            bytes[57..59].copy_from_slice(&width.to_le_bytes());
            bytes[59..61].copy_from_slice(&height.to_le_bytes());
        }
    }
    bytes
}

#[test]
fn bits_are_packed_from_the_top_and_rows_are_padded() {
    let raster = raster_of(
        Endian::Big,
        3,
        2,
        InMemoryRasterData::Bool1Bit {
            data: vec![vec![true, false, true], vec![false, true, true]],
            nodata: None,
        },
    );
    let bytes = encode(&raster).unwrap();
    assert_eq!(&bytes[61..], &[0x00, 0b1010_0000, 0b0110_0000]);
    assert_eq!(decode_strict(&bytes), Ok(raster));
}

#[test]
fn a_row_of_bits_may_take_several_bytes() {
    let row: Vec<bool> = (0..11).map(|i| i % 3 == 0).collect();
    let raster = raster_of(
        Endian::Little,
        11,
        1,
        InMemoryRasterData::Bool1Bit { data: vec![row], nodata: Some(true) },
    );
    let bytes = encode(&raster).unwrap();
    assert_eq!(&bytes[61..], &[0x40, 0b1000_0000, 0b1001_0010, 0b0100_0000]);
    assert_eq!(decode_strict(&bytes), Ok(raster));
}

#[test]
fn two_bit_samples_are_packed_four_to_a_byte() {
    let raster = raster_of(
        Endian::Big,
        5,
        2,
        InMemoryRasterData::UInt2 {
            data: vec![vec![3, 0, 1, 2, 1], vec![0, 0, 0, 3, 2]],
            nodata: Some(2),
        },
    );
    let bytes = encode(&raster).unwrap();
    assert_eq!(&bytes[61..], &[0x41, 0b1000_0000, 0xC6, 0x40, 0x03, 0x80]);
    assert_eq!(decode_strict(&bytes), Ok(raster));
}

#[test]
fn four_bit_samples_are_packed_two_to_a_byte() {
    let raster = raster_of(
        Endian::Big,
        3,
        2,
        InMemoryRasterData::UInt4 { data: vec![vec![9, 15, 1], vec![0, 7, 8]], nodata: Some(5) },
    );
    let bytes = encode(&raster).unwrap();
    assert_eq!(&bytes[61..], &[0x42, 0x50, 0x9F, 0x10, 0x07, 0x80]);
    assert_eq!(decode_strict(&bytes), Ok(raster));
}

#[test]
fn padding_bits_are_ignored_when_read() {
    let mut bytes = header_of(Endian::Big, 3, 1);
    bytes.extend_from_slice(&[0x40, 0b1111_1111, 0b1011_1111]);
    let expected = raster_of(
        Endian::Big,
        3,
        1,
        InMemoryRasterData::Bool1Bit { data: vec![vec![true, false, true]], nodata: Some(true) },
    );
    assert_eq!(decode_strict(&bytes), Ok(expected.clone()));
    let canonical = encode(&expected).unwrap();
    assert_eq!(&canonical[61..], &[0x40, 0b1000_0000, 0b1010_0000]);
}

#[test]
fn reserved_flag_bit_is_ignored_when_read() {
    let mut bytes = header_of(Endian::Little, 1, 1);
    bytes.extend_from_slice(&[0x14, 77]);
    let expected =
        raster_of(Endian::Little, 1, 1, InMemoryRasterData::UInt8 { data: vec![vec![77]], nodata: None });
    assert_eq!(decode_strict(&bytes), Ok(expected));
}

#[test]
fn packed_rows_of_any_width_round_trip() {
    for width in 0u16..20 {
        let bits: Vec<bool> = (0..width).map(|i| (i * 7 + 3) % 5 < 2).collect();
        let pairs: Vec<u8> = (0..width).map(|i| ((i * 3 + 1) % 4) as u8).collect();
        let nibbles: Vec<u8> = (0..width).map(|i| ((i * 11 + 5) % 16) as u8).collect();
        let cases = [
            (InMemoryRasterData::Bool1Bit { data: vec![bits.clone(), bits], nodata: None }, 8),
            (InMemoryRasterData::UInt2 { data: vec![pairs.clone(), pairs], nodata: None }, 4),
            (InMemoryRasterData::UInt4 { data: vec![nibbles.clone(), nibbles], nodata: None }, 2),
        ];
        for (data, per_byte) in cases {
            let raster = raster_of(Endian::Big, width, 2, data);
            let bytes = encode(&raster).unwrap();
            let row_len = (width as usize + per_byte - 1) / per_byte;
            assert_eq!(bytes.len(), 61 + 1 + 2 * row_len);
            assert_eq!(decode_strict(&bytes), Ok(raster));
            for k in 0..bytes.len() {
                assert_eq!(decode(&bytes[..k]), Err(CodecError::UnexpectedEndOfInput));
            }
        }
    }
}

#[test]
fn what_is_decoded_can_be_encoded_again() {
    let mut bytes = header_of(Endian::Little, 5, 2);
    bytes.extend_from_slice(&[0x71, 0xFF, 0x1B, 0x7F, 0xE4, 0xBF, 0xEE]);
    let raster = decode(&bytes).unwrap();
    assert!(raster.is_well_formed());
    assert_eq!(raster.bands[0].is_nodata_value, true);
    assert_eq!(
        raster.bands[0].data,
        RasterDataSource::InMemory(InMemoryRasterData::UInt2 {
            data: vec![vec![0, 1, 2, 3, 1], vec![3, 2, 1, 0, 2]],
            nodata: Some(3),
        })
    );
    let again = encode(&raster).unwrap();
    assert_eq!(&again[..61], &bytes[..61]);
    assert_eq!(&again[61..], &[0x61, 0xC0, 0x1B, 0x40, 0xE4, 0x80]);
    assert_eq!(decode_strict(&again), Ok(raster));
}
