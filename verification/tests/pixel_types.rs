use raster_wkb::{
    decode, decode_from_hex, decode_strict, encode, encode_to_hex, CodecError, Endian,
    InMemoryRasterData, OutDbRasterData, PixType, PixelTag, Raster, RasterBand, RasterDataSource,
};

fn raster_of(endian: Endian, width: u16, height: u16, bands: Vec<RasterBand>) -> Raster {
    Raster {
        endian,
        version: 0,
        scale_x: 2.5f64.to_bits(),
        scale_y: (-2.5f64).to_bits(),
        ip_x: 1000.25f64.to_bits(),
        ip_y: (-0.0f64).to_bits(),
        skew_x: f64::MAX.to_bits(),
        skew_y: f64::MIN_POSITIVE.to_bits(),
        srid: -1,
        width,
        height,
        bands,
    }
}

fn in_memory(data: InMemoryRasterData) -> RasterBand {
    RasterBand { is_nodata_value: false, data: RasterDataSource::InMemory(data) }
}

fn check_round_trip(data: InMemoryRasterData) {
    for endian in [Endian::Big, Endian::Little] {
        let raster = raster_of(endian, 2, 2, vec![in_memory(data.clone())]);
        let bytes = encode(&raster).unwrap();
        assert_eq!(decode(&bytes), Ok(raster.clone()));
        assert_eq!(decode_strict(&bytes), Ok(raster.clone()));
        let text = encode_to_hex(&raster).unwrap();
        assert_eq!(decode_from_hex(&text), Ok(raster.clone()));
        for k in 0..bytes.len() {
            assert_eq!(decode(&bytes[..k]), Err(CodecError::UnexpectedEndOfInput));
        }
    }
}

#[test]
fn bool_1bit_round_trips() {
    for nodata in [None, Some(false), Some(true)] {
        check_round_trip(InMemoryRasterData::Bool1Bit {
            data: vec![vec![false, true], vec![true, false]],
            nodata,
        });
    }
}

#[test]
fn uint2_round_trips() {
    for nodata in [None, Some(0), Some(3)] {
        check_round_trip(InMemoryRasterData::UInt2 { data: vec![vec![0, 3], vec![1, 2]], nodata });
    }
}

#[test]
fn uint4_round_trips() {
    for nodata in [None, Some(0), Some(15)] {
        check_round_trip(InMemoryRasterData::UInt4 { data: vec![vec![0, 15], vec![7, 8]], nodata });
    }
}

#[test]
fn int8_round_trips() {
    for nodata in [None, Some(i8::MIN), Some(i8::MAX), Some(0), Some(-1)] {
        check_round_trip(InMemoryRasterData::Int8 {
            data: vec![vec![i8::MIN, i8::MAX], vec![0, -1]],
            nodata,
        });
    }
}

#[test]
fn uint8_round_trips() {
    for nodata in [None, Some(u8::MIN), Some(u8::MAX)] {
        check_round_trip(InMemoryRasterData::UInt8 {
            data: vec![vec![u8::MIN, u8::MAX], vec![0, 128]],
            nodata,
        });
    }
}

#[test]
fn int16_round_trips() {
    for nodata in [None, Some(i16::MIN), Some(i16::MAX), Some(0), Some(-1)] {
        check_round_trip(InMemoryRasterData::Int16 {
            data: vec![vec![i16::MIN, i16::MAX], vec![0, -1]],
            nodata,
        });
    }
}

#[test]
fn uint16_round_trips() {
    for nodata in [None, Some(u16::MIN), Some(u16::MAX)] {
        check_round_trip(InMemoryRasterData::UInt16 {
            data: vec![vec![u16::MIN, u16::MAX], vec![0, 0x1234]],
            nodata,
        });
    }
}

#[test]
fn int32_round_trips() {
    for nodata in [None, Some(i32::MIN), Some(i32::MAX), Some(0), Some(-1)] {
        check_round_trip(InMemoryRasterData::Int32 {
            data: vec![vec![i32::MIN, i32::MAX], vec![0, -1]],
            nodata,
        });
    }
}

#[test]
fn uint32_round_trips() {
    for nodata in [None, Some(u32::MIN), Some(u32::MAX)] {
        check_round_trip(InMemoryRasterData::UInt32 {
            data: vec![vec![u32::MIN, u32::MAX], vec![0, 0x1234_5678]],
            nodata,
        });
    }
}

#[test]
fn float32_round_trips() {
    for nodata in [None, Some(f32::MIN.to_bits()), Some(f32::NAN.to_bits()), Some(0.0f32.to_bits())] {
        check_round_trip(InMemoryRasterData::Float32 {
            data: vec![
                vec![f32::MIN.to_bits(), f32::MAX.to_bits()],
                vec![0.0f32.to_bits(), (-0.0f32).to_bits()],
            ],
            nodata,
        });
    }
}

#[test]
fn float64_round_trips() {
    for nodata in [None, Some(f64::MIN.to_bits()), Some(f64::NAN.to_bits()), Some(u64::MAX)] {
        check_round_trip(InMemoryRasterData::Float64 {
            data: vec![
                vec![f64::MIN.to_bits(), f64::MAX.to_bits()],
                vec![0.0f64.to_bits(), f64::INFINITY.to_bits()],
            ],
            nodata,
        });
    }
}

#[test]
fn float_samples_keep_their_values() {
    let raster = raster_of(
        Endian::Little,
        2,
        1,
        vec![in_memory(InMemoryRasterData::Float64 {
            data: vec![vec![1.5f64.to_bits(), (-3.25f64).to_bits()]],
            nodata: Some((-9999.0f64).to_bits()),
        })],
    );
    let back = decode(&encode(&raster).unwrap()).unwrap();
    match &back.bands[0].data {
        RasterDataSource::InMemory(InMemoryRasterData::Float64 { data, nodata }) => {
            assert_eq!(f64::from_bits(data[0][0]), 1.5);
            assert_eq!(f64::from_bits(data[0][1]), -3.25);
            assert_eq!(nodata.map(f64::from_bits), Some(-9999.0));
        }
        other => panic!("unexpected band {:?}", other),
    }
    assert_eq!(f64::from_bits(back.scale_y), -2.5);
    assert_eq!(back.srid, -1);
}

#[test]
fn nodata_value_is_written_only_when_present() {
    let with = raster_of(
        Endian::Big,
        1,
        1,
        vec![in_memory(InMemoryRasterData::Int16 { data: vec![vec![7]], nodata: Some(-2) })],
    );
    let without = raster_of(
        Endian::Big,
        1,
        1,
        vec![in_memory(InMemoryRasterData::Int16 { data: vec![vec![7]], nodata: None })],
    );
    let with_bytes = encode(&with).unwrap();
    let without_bytes = encode(&without).unwrap();
    assert_eq!(&with_bytes[61..], &[0x45, 0xFF, 0xFE, 0x00, 0x07]);
    assert_eq!(&without_bytes[61..], &[0x05, 0x00, 0x07]);
    assert_eq!(decode(&with_bytes), Ok(with));
    assert_eq!(decode(&without_bytes), Ok(without));
}

#[test]
fn is_nodata_flag_round_trips() {
    let raster = raster_of(
        Endian::Big,
        1,
        1,
        vec![RasterBand {
            is_nodata_value: true,
            data: RasterDataSource::InMemory(InMemoryRasterData::UInt8 {
                data: vec![vec![9]],
                nodata: Some(9),
            }),
        }],
    );
    let bytes = encode(&raster).unwrap();
    assert_eq!(&bytes[61..], &[0x64, 9, 9]);
    assert_eq!(decode(&bytes), Ok(raster));
}

#[test]
fn little_endian_layout() {
    let raster = Raster {
        endian: Endian::Little,
        version: 0,
        scale_x: 500.0f64.to_bits(),
        scale_y: 1.0f64.to_bits(),
        ip_x: 49.89f64.to_bits(),
        ip_y: 8.56f64.to_bits(),
        skew_x: 0,
        skew_y: 0,
        srid: 4326,
        width: 2,
        height: 2,
        bands: vec![in_memory(InMemoryRasterData::Int16 {
            data: vec![vec![i16::MIN, i16::MAX], vec![0, -1]],
            nodata: None,
        })],
    };
    let expected = "01000001000000000000407F40000000000000F03F52B81E85EBF148401F85EB51B81E214000000000000000000000000000000000E610000002000200050080FF7F0000FFFF";
    assert_eq!(encode_to_hex(&raster), Ok(String::from(expected)));
    assert_eq!(decode_from_hex(expected), Ok(raster));
}

#[test]
fn several_bands_keep_their_order() {
    let raster = raster_of(
        Endian::Big,
        3,
        2,
        vec![
            in_memory(InMemoryRasterData::UInt8 {
                data: vec![vec![1, 2, 3], vec![4, 5, 6]],
                nodata: Some(0),
            }),
            in_memory(InMemoryRasterData::Bool1Bit {
                data: vec![vec![true, false, true], vec![false, false, true]],
                nodata: None,
            }),
            RasterBand {
                is_nodata_value: false,
                data: RasterDataSource::OutDb(OutDbRasterData {
                    band: 2,
                    path: b"/data/tile.tif".to_vec(),
                    pixtype: PixType::Float32(Some(1.0f32.to_bits())),
                }),
            },
            in_memory(InMemoryRasterData::Int32 {
                data: vec![vec![-1, 0, 1], vec![i32::MIN, 5, i32::MAX]],
                nodata: None,
            }),
        ],
    );
    let bytes = encode(&raster).unwrap();
    assert_eq!(&bytes[3..5], &[0, 4]);
    let back = decode_strict(&bytes).unwrap();
    assert_eq!(back, raster);
    assert_eq!(back.bands[2].data.get_pixtype(), PixType::Float32(Some(1.0f32.to_bits())));
    for k in 0..bytes.len() {
        assert_eq!(decode(&bytes[..k]), Err(CodecError::UnexpectedEndOfInput));
    }
}

#[test]
fn out_db_band_layout() {
    let raster = raster_of(
        Endian::Big,
        640,
        480,
        vec![RasterBand {
            is_nodata_value: false,
            data: RasterDataSource::OutDb(OutDbRasterData {
                band: 3,
                path: b"a.tif".to_vec(),
                pixtype: PixType::UInt16(Some(0xBEEF)),
            }),
        }],
    );
    let bytes = encode(&raster).unwrap();
    assert_eq!(&bytes[61..], &[0xC6, 0xBE, 0xEF, 3, b'a', b'.', b't', b'i', b'f', 0]);
    assert_eq!(decode_strict(&bytes), Ok(raster.clone()));
    assert!(raster.bands[0].data.is_out_db());
    let no_nodata = raster_of(
        Endian::Little,
        1,
        1,
        vec![RasterBand {
            is_nodata_value: true,
            data: RasterDataSource::OutDb(OutDbRasterData {
                band: 255,
                path: Vec::new(),
                pixtype: PixType::Float64(None),
            }),
        }],
    );
    let bytes = encode(&no_nodata).unwrap();
    assert_eq!(&bytes[61..], &[0xAB, 255, 0]);
    assert_eq!(decode_strict(&bytes), Ok(no_nodata));
}

#[test]
fn empty_grids_round_trip() {
    for (width, height) in [(0u16, 0u16), (0, 3), (3, 0)] {
        let rows: Vec<Vec<u16>> = (0..height).map(|_| Vec::new()).collect();
        let rows = if width == 0 { rows } else { Vec::new() };
        let raster = raster_of(
            Endian::Big,
            width,
            height,
            vec![in_memory(InMemoryRasterData::UInt16 { data: rows, nodata: None })],
        );
        let bytes = encode(&raster).unwrap();
        assert_eq!(bytes.len(), 62);
        assert_eq!(decode_strict(&bytes), Ok(raster));
    }
}

#[test]
fn tag_numbers() {
    let tags = [
        (PixelTag::Bool1Bit, 0u8),
        (PixelTag::UInt2, 1),
        (PixelTag::UInt4, 2),
        (PixelTag::Int8, 3),
        (PixelTag::UInt8, 4),
        (PixelTag::Int16, 5),
        (PixelTag::UInt16, 6),
        (PixelTag::Int32, 7),
        (PixelTag::UInt32, 8),
        (PixelTag::Float32, 10),
        (PixelTag::Float64, 11),
    ];
    for (tag, number) in tags {
        assert_eq!(tag.tag(), number);
        assert_eq!(PixelTag::from_tag(number), Ok(tag));
    }
    for number in [9u8, 12, 13, 14, 15, 16, 200, 255] {
        assert_eq!(PixelTag::from_tag(number), Err(CodecError::UnsupportedPixelType));
    }
}

#[test]
fn pixtype_accessors() {
    let data = InMemoryRasterData::UInt4 { data: vec![vec![1]], nodata: Some(2) };
    assert_eq!(data.get_pixtype(), PixType::UInt4(Some(2)));
    assert_eq!(data.get_pixtype().get_tag(), PixelTag::UInt4);
    assert!(data.get_pixtype().has_nodata_value());
    assert!(!PixType::Int8(None).has_nodata_value());
    assert!(!RasterDataSource::InMemory(data).is_out_db());
}
