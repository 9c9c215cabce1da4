// The layout agrees with what the `wkb_raster` crate writes and reads wherever a
// band has a nodata value and samples of eight bits or more.

use raster_wkb::{
    decode_from_hex, encode_to_hex, Endian, InMemoryRasterData, OutDbRasterData, PixType, Raster,
    RasterBand, RasterDataSource,
};
use std::path::PathBuf;

fn ours(endian: Endian, data: RasterDataSource) -> Raster {
    Raster {
        endian,
        version: 0,
        scale_x: 500.0f64.to_bits(),
        scale_y: 1.0f64.to_bits(),
        ip_x: 49.89f64.to_bits(),
        ip_y: 8.56f64.to_bits(),
        skew_x: 0.0f64.to_bits(),
        skew_y: (-0.5f64).to_bits(),
        srid: 4326,
        width: 2,
        height: 2,
        bands: vec![RasterBand { is_nodata_value: false, data }],
    }
}

fn theirs(endian: wkb_raster::Endian, data: wkb_raster::RasterDataSource) -> wkb_raster::Raster {
    wkb_raster::Raster {
        endian,
        version: 0,
        scale_x: 500.0,
        scale_y: 1.0,
        ip_x: 49.89,
        ip_y: 8.56,
        skew_x: 0.0,
        skew_y: -0.5,
        srid: 4326,
        width: 2,
        height: 2,
        bands: vec![wkb_raster::RasterBand { is_nodata_value: false, data }],
    }
}

fn check_same(data: InMemoryRasterData, other: wkb_raster::InMemoryRasterData) {
    let pairs = [(Endian::Big, wkb_raster::Endian::Big), (Endian::Little, wkb_raster::Endian::Little)];
    for (endian, other_endian) in pairs {
        let mine = ours(endian, RasterDataSource::InMemory(data.clone()));
        let outside = theirs(other_endian, wkb_raster::RasterDataSource::InMemory(other.clone()));
        let text = encode_to_hex(&mine).unwrap();
        assert_eq!(text, outside.clone().to_wkb_string());
        assert_eq!(wkb_raster::Raster::from_wkb_string(text.as_bytes()), Ok(outside));
        assert_eq!(decode_from_hex(&text), Ok(mine));
    }
}

#[test]
fn agrees_on_uint8_with_nodata() {
    check_same(
        InMemoryRasterData::UInt8 { data: vec![vec![34, 40], vec![56, 0]], nodata: Some(255) },
        wkb_raster::InMemoryRasterData::UInt8 {
            data: vec![vec![34, 40], vec![56, 0]],
            nodata: Some(255),
        },
    );
}

#[test]
fn agrees_on_int8_with_nodata() {
    check_same(
        InMemoryRasterData::Int8 { data: vec![vec![-128, 127], vec![0, -1]], nodata: Some(-7) },
        wkb_raster::InMemoryRasterData::Int8 {
            data: vec![vec![-128, 127], vec![0, -1]],
            nodata: Some(-7),
        },
    );
}

#[test]
fn agrees_on_int16_with_nodata() {
    check_same(
        InMemoryRasterData::Int16 {
            data: vec![vec![i16::MIN, i16::MAX], vec![0, -1]],
            nodata: Some(-9999),
        },
        wkb_raster::InMemoryRasterData::Int16 {
            data: vec![vec![i16::MIN, i16::MAX], vec![0, -1]],
            nodata: Some(-9999),
        },
    );
}

#[test]
fn agrees_on_uint16_with_nodata() {
    check_same(
        InMemoryRasterData::UInt16 { data: vec![vec![0, u16::MAX], vec![1, 0x1234]], nodata: Some(9) },
        wkb_raster::InMemoryRasterData::UInt16 {
            data: vec![vec![0, u16::MAX], vec![1, 0x1234]],
            nodata: Some(9),
        },
    );
}

#[test]
fn agrees_on_int32_with_nodata() {
    check_same(
        InMemoryRasterData::Int32 {
            data: vec![vec![i32::MIN, i32::MAX], vec![0, -1]],
            nodata: Some(-1),
        },
        wkb_raster::InMemoryRasterData::Int32 {
            data: vec![vec![i32::MIN, i32::MAX], vec![0, -1]],
            nodata: Some(-1),
        },
    );
}

#[test]
fn agrees_on_uint32_with_nodata() {
    check_same(
        InMemoryRasterData::UInt32 {
            data: vec![vec![0, u32::MAX], vec![1, 0x1234_5678]],
            nodata: Some(u32::MAX),
        },
        wkb_raster::InMemoryRasterData::UInt32 {
            data: vec![vec![0, u32::MAX], vec![1, 0x1234_5678]],
            nodata: Some(u32::MAX),
        },
    );
}

#[test]
fn agrees_on_float32_with_nodata() {
    let values = [[1.5f32, -2.25], [f32::MAX, f32::MIN_POSITIVE]];
    check_same(
        InMemoryRasterData::Float32 {
            data: values.iter().map(|row| row.iter().map(|v| v.to_bits()).collect()).collect(),
            nodata: Some((-9999.0f32).to_bits()),
        },
        wkb_raster::InMemoryRasterData::Float32 {
            data: values.iter().map(|row| row.to_vec()).collect(),
            nodata: Some(-9999.0),
        },
    );
}

#[test]
fn agrees_on_float64_with_nodata() {
    let values = [[1.5f64, -2.25], [f64::MAX, f64::MIN_POSITIVE]];
    check_same(
        InMemoryRasterData::Float64 {
            data: values.iter().map(|row| row.iter().map(|v| v.to_bits()).collect()).collect(),
            nodata: Some((-9999.0f64).to_bits()),
        },
        wkb_raster::InMemoryRasterData::Float64 {
            data: values.iter().map(|row| row.to_vec()).collect(),
            nodata: Some(-9999.0),
        },
    );
}

#[test]
fn agrees_on_out_db_band_with_nodata() {
    let pairs = [(Endian::Big, wkb_raster::Endian::Big), (Endian::Little, wkb_raster::Endian::Little)];
    for (endian, other_endian) in pairs {
        let mine = ours(
            endian,
            RasterDataSource::OutDb(OutDbRasterData {
                band: 3,
                path: b"/data/dem.tif".to_vec(),
                pixtype: PixType::Int16(Some(-32768)),
            }),
        );
        let outside = theirs(
            other_endian,
            wkb_raster::RasterDataSource::Offline(wkb_raster::OfflineRasterData {
                band: 3,
                path: PathBuf::from("/data/dem.tif"),
                pixtype: wkb_raster::PixType::Int16(Some(-32768)),
            }),
        );
        let text = encode_to_hex(&mine).unwrap();
        assert_eq!(text, outside.clone().to_wkb_string());
        assert_eq!(wkb_raster::Raster::from_wkb_string(text.as_bytes()), Ok(outside));
        assert_eq!(decode_from_hex(&text), Ok(mine));
    }
}

#[test]
fn wkb_raster_writes_a_placeholder_where_nodata_is_absent() {
    let mine = ours(
        Endian::Big,
        RasterDataSource::InMemory(InMemoryRasterData::UInt8 {
            data: vec![vec![34, 40], vec![56, 0]],
            nodata: None,
        }),
    );
    let outside = theirs(
        wkb_raster::Endian::Big,
        wkb_raster::RasterDataSource::InMemory(wkb_raster::InMemoryRasterData::UInt8 {
            data: vec![vec![34, 40], vec![56, 0]],
            nodata: None,
        }),
    );
    let text = encode_to_hex(&mine).unwrap();
    let other = outside.to_wkb_string();
    assert_eq!(other.len(), text.len() + 2);
    assert_eq!(&other[..124], &text[..124]);
    assert_eq!(&other[124..126], "00");
    assert_eq!(&other[126..], &text[124..]);
}
