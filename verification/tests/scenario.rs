use raster_wkb::{
    decode, decode_from_hex, decode_from_hex_strict, decode_strict, encode, encode_to_hex,
    hex_decode, hex_encode, CodecError, Endian, InMemoryRasterData, Raster, RasterBand,
    RasterDataSource,
};

const SCENARIO_HEX: &str = "0000000001407F4000000000003FF00000000000004048F1EB851EB85240211EB851EB851F00000000000000000000000000000000000010E6000200020422283800";

fn scenario() -> Raster {
    Raster {
        endian: Endian::Big,
        version: 0,
        scale_x: 500.0f64.to_bits(),
        scale_y: 1.0f64.to_bits(),
        ip_x: 49.89f64.to_bits(),
        ip_y: 8.56f64.to_bits(),
        skew_x: 0.0f64.to_bits(),
        skew_y: 0.0f64.to_bits(),
        srid: 4326,
        width: 2,
        height: 2,
        bands: vec![RasterBand {
            is_nodata_value: false,
            data: RasterDataSource::InMemory(InMemoryRasterData::UInt8 {
                data: vec![vec![34, 40], vec![56, 0]],
                nodata: None,
            }),
        }],
    }
}

#[test]
fn scenario_encodes_to_fixed_hex() {
    assert_eq!(encode_to_hex(&scenario()), Ok(String::from(SCENARIO_HEX)));
}

#[test]
fn scenario_encoding_is_deterministic() {
    assert_eq!(encode_to_hex(&scenario()), encode_to_hex(&scenario()));
    assert_eq!(encode(&scenario()), encode(&scenario()));
}

#[test]
fn scenario_bytes_layout() {
    let bytes = encode(&scenario()).unwrap();
    assert_eq!(bytes.len(), 61 + 1 + 4);
    assert_eq!(bytes[0], 0);
    assert_eq!(&bytes[1..3], &[0, 0]);
    assert_eq!(&bytes[3..5], &[0, 1]);
    assert_eq!(&bytes[5..13], &500.0f64.to_be_bytes());
    assert_eq!(&bytes[13..21], &1.0f64.to_be_bytes());
    assert_eq!(&bytes[21..29], &49.89f64.to_be_bytes());
    assert_eq!(&bytes[29..37], &8.56f64.to_be_bytes());
    assert_eq!(&bytes[37..45], &0.0f64.to_be_bytes());
    assert_eq!(&bytes[45..53], &0.0f64.to_be_bytes());
    assert_eq!(&bytes[53..57], &4326i32.to_be_bytes());
    assert_eq!(&bytes[57..59], &[0, 2]);
    assert_eq!(&bytes[59..61], &[0, 2]);
    assert_eq!(&bytes[61..], &[4, 34, 40, 56, 0]);
}

#[test]
fn scenario_decodes_from_fixed_hex() {
    let raster = decode_from_hex(SCENARIO_HEX).unwrap();
    assert_eq!(raster, scenario());
    assert_eq!(f64::from_bits(raster.scale_x), 500.0);
    assert_eq!(f64::from_bits(raster.scale_y), 1.0);
    assert_eq!(f64::from_bits(raster.ip_x), 49.89);
    assert_eq!(f64::from_bits(raster.ip_y), 8.56);
    assert_eq!(raster.skew_x, 0);
    assert_eq!(raster.skew_y, 0);
    assert_eq!(raster.srid, 4326);
    assert_eq!(raster.endian, Endian::Big);
    assert_eq!(raster.version, 0);
    match &raster.bands[0].data {
        RasterDataSource::InMemory(InMemoryRasterData::UInt8 { data, nodata }) => {
            assert_eq!(data, &vec![vec![34u8, 40], vec![56, 0]]);
            assert_eq!(*nodata, None);
        }
        other => panic!("unexpected band {:?}", other),
    }
}

#[test]
fn scenario_round_trips_through_bytes() {
    let bytes = encode(&scenario()).unwrap();
    assert_eq!(decode(&bytes), Ok(scenario()));
    assert_eq!(decode_strict(&bytes), Ok(scenario()));
}

#[test]
fn scenario_round_trips_through_hex() {
    let text = encode_to_hex(&scenario()).unwrap();
    assert_eq!(decode_from_hex(&text), Ok(scenario()));
    assert_eq!(decode_from_hex_strict(&text), Ok(scenario()));
}

#[test]
fn lowercase_hex_is_read() {
    let text = SCENARIO_HEX.to_lowercase();
    assert_eq!(decode_from_hex(&text), Ok(scenario()));
}

#[test]
fn every_proper_prefix_of_the_bytes_ends_too_early() {
    let bytes = encode(&scenario()).unwrap();
    for k in 0..bytes.len() {
        assert_eq!(decode(&bytes[..k]), Err(CodecError::UnexpectedEndOfInput));
        assert_eq!(decode_strict(&bytes[..k]), Err(CodecError::UnexpectedEndOfInput));
    }
}

#[test]
fn every_proper_prefix_of_the_hex_ends_too_early() {
    let text = encode_to_hex(&scenario()).unwrap();
    for k in 0..text.len() {
        assert_eq!(decode_from_hex(&text[..k]), Err(CodecError::UnexpectedEndOfInput));
    }
}

#[test]
fn trailing_bytes_are_ignored_unless_strict() {
    let mut bytes = encode(&scenario()).unwrap();
    bytes.push(0xAB);
    bytes.push(0xCD);
    assert_eq!(decode(&bytes), Ok(scenario()));
    assert_eq!(decode_strict(&bytes), Err(CodecError::TrailingData));
    let text = format!("{}ABCD", SCENARIO_HEX);
    assert_eq!(decode_from_hex(&text), Ok(scenario()));
    assert_eq!(decode_from_hex_strict(&text), Err(CodecError::TrailingData));
}

#[test]
fn hex_digits_are_uppercase_high_nibble_first() {
    assert_eq!(hex_encode(&[0x00, 0x0F, 0xA5, 0xFF, 0x10]), "000FA5FF10");
    assert_eq!(hex_encode(&[]), "");
}

#[test]
fn hex_decode_reads_both_cases() {
    assert_eq!(hex_decode("000fA5Ff10"), Ok(vec![0x00, 0x0F, 0xA5, 0xFF, 0x10]));
    assert_eq!(hex_decode(""), Ok(vec![]));
}

#[test]
fn hex_decode_refuses_other_characters() {
    assert_eq!(hex_decode("0G"), Err(CodecError::InvalidHex));
    assert_eq!(hex_decode("0 1"), Err(CodecError::InvalidHex));
    assert_eq!(hex_decode("é0"), Err(CodecError::InvalidHex));
    assert_eq!(hex_decode("0x"), Err(CodecError::InvalidHex));
    assert_eq!(decode_from_hex("zz"), Err(CodecError::InvalidHex));
}

#[test]
fn hex_decode_of_odd_length_ends_too_early() {
    assert_eq!(hex_decode("ABC"), Err(CodecError::UnexpectedEndOfInput));
    assert_eq!(hex_decode("A"), Err(CodecError::UnexpectedEndOfInput));
}

#[test]
fn hex_round_trips_every_byte() {
    let bytes: Vec<u8> = (0..=255u8).collect();
    let text = hex_encode(&bytes);
    assert_eq!(text.len(), 512);
    assert_eq!(hex_decode(&text), Ok(bytes));
}
