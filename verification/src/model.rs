//! The raster data model, and the mathematical model that the contracts of
//! the codec speak of.

use crate::pixel::{sample_in_range, Endian, PixelTag, Sample};
use vstd::prelude::*;

verus! {

/// A pixel type together with the nodata value of a band, if it has one.
/// The value has the sample type of the pixel type; floating-point values
/// are held as their IEEE-754 bit patterns.
#[derive(Clone, Copy, Debug, PartialEq, Eq)]
pub enum PixType {
    Bool1Bit(Option<bool>),
    UInt2(Option<u8>),
    UInt4(Option<u8>),
    Int8(Option<i8>),
    UInt8(Option<u8>),
    Int16(Option<i16>),
    UInt16(Option<u16>),
    Int32(Option<i32>),
    UInt32(Option<u32>),
    Float32(Option<u32>),
    Float64(Option<u64>),
}

/// Pixels that are carried in the raster itself: one row-major grid of
/// samples, and the nodata value of the band, if it has one. Samples of
/// `Float32` and `Float64` are held as their IEEE-754 bit patterns.
#[derive(Clone, Debug, PartialEq, Eq)]
pub enum InMemoryRasterData {
    Bool1Bit { data: Vec<Vec<bool>>, nodata: Option<bool> },
    UInt2 { data: Vec<Vec<u8>>, nodata: Option<u8> },
    UInt4 { data: Vec<Vec<u8>>, nodata: Option<u8> },
    Int8 { data: Vec<Vec<i8>>, nodata: Option<i8> },
    UInt8 { data: Vec<Vec<u8>>, nodata: Option<u8> },
    Int16 { data: Vec<Vec<i16>>, nodata: Option<i16> },
    UInt16 { data: Vec<Vec<u16>>, nodata: Option<u16> },
    Int32 { data: Vec<Vec<i32>>, nodata: Option<i32> },
    UInt32 { data: Vec<Vec<u32>>, nodata: Option<u32> },
    Float32 { data: Vec<Vec<u32>>, nodata: Option<u32> },
    Float64 { data: Vec<Vec<u64>>, nodata: Option<u64> },
}

/// Pixels that live in a file outside the raster.
#[derive(Clone, Debug, PartialEq, Eq)]
pub struct OutDbRasterData {
    /// Number of the band to use among those of the file, counted from 0.
    pub band: u8,
    /// Path of the file, as bytes without the terminating zero.
    pub path: Vec<u8>,
    /// Pixel type and nodata value of the band.
    pub pixtype: PixType,
}

/// Where the pixels of a band are.
#[derive(Clone, Debug, PartialEq, Eq)]
pub enum RasterDataSource {
    OutDb(OutDbRasterData),
    InMemory(InMemoryRasterData),
}

/// One band of a raster.
#[derive(Clone, Debug, PartialEq, Eq)]
pub struct RasterBand {
    /// Says that every pixel of the band is the nodata value.
    pub is_nodata_value: bool,
    pub data: RasterDataSource,
}

/// A georeferenced raster. The six georeferencing numbers are held as
/// IEEE-754 double-precision bit patterns, which the codec carries through
/// unchanged.
#[derive(Clone, Debug, PartialEq, Eq)]
pub struct Raster {
    /// Byte order of the encoded raster.
    pub endian: Endian,
    /// Format version: 0.
    pub version: u16,
    /// Pixel width in georeferenced units.
    pub scale_x: u64,
    /// Pixel height in georeferenced units.
    pub scale_y: u64,
    /// X ordinate of the upper-left corner of the upper-left pixel.
    pub ip_x: u64,
    /// Y ordinate of the upper-left corner of the upper-left pixel.
    pub ip_y: u64,
    /// Rotation about the Y axis.
    pub skew_x: u64,
    /// Rotation about the X axis.
    pub skew_y: u64,
    /// Spatial reference identifier.
    pub srid: i32,
    /// Number of pixel columns of every band.
    pub width: u16,
    /// Number of pixel rows of every band.
    pub height: u16,
    /// The bands, in the order in which they are written.
    pub bands: Vec<RasterBand>,
}

/// The pixels of a band, as mathematical values.
pub enum PixelsModel {
    /// Rows of sample values, top row first.
    InMemory { rows: Seq<Seq<int>> },
    /// A band of an outside file.
    OutDb { band: u8, path: Seq<u8> },
}

/// A band, as mathematical values.
pub struct BandModel {
    pub is_nodata_value: bool,
    pub tag: PixelTag,
    pub nodata: Option<int>,
    pub pixels: PixelsModel,
}

/// A raster, as mathematical values.
pub struct RasterModel {
    pub endian: Endian,
    pub version: u16,
    pub scale_x: u64,
    pub scale_y: u64,
    pub ip_x: u64,
    pub ip_y: u64,
    pub skew_x: u64,
    pub skew_y: u64,
    pub srid: i32,
    pub width: u16,
    pub height: u16,
    pub bands: Seq<BandModel>,
}

/// The values of a row of samples.
pub open spec fn row_values<T: Sample>(row: Seq<T>) -> Seq<int> {
    Seq::new(row.len(), |j: int| row[j].value())
}

/// The values of a grid of samples.
pub open spec fn grid_values<T: Sample>(data: Seq<Vec<T>>) -> Seq<Seq<int>> {
    Seq::new(data.len(), |i: int| row_values(data[i]@))
}

/// The value of a nodata sample, if there is one.
pub open spec fn nodata_value<T: Sample>(nodata: Option<T>) -> Option<int> {
    match nodata {
        Some(v) => Some(v.value()),
        None => None,
    }
}

impl PixType {
    /// The pixel type.
    pub open spec fn tag(self) -> PixelTag {
        match self {
            PixType::Bool1Bit(_) => PixelTag::Bool1Bit,
            PixType::UInt2(_) => PixelTag::UInt2,
            PixType::UInt4(_) => PixelTag::UInt4,
            PixType::Int8(_) => PixelTag::Int8,
            PixType::UInt8(_) => PixelTag::UInt8,
            PixType::Int16(_) => PixelTag::Int16,
            PixType::UInt16(_) => PixelTag::UInt16,
            PixType::Int32(_) => PixelTag::Int32,
            PixType::UInt32(_) => PixelTag::UInt32,
            PixType::Float32(_) => PixelTag::Float32,
            PixType::Float64(_) => PixelTag::Float64,
        }
    }

    /// The nodata value, if there is one.
    pub open spec fn nodata(self) -> Option<int> {
        match self {
            PixType::Bool1Bit(n) => nodata_value(n),
            PixType::UInt2(n) => nodata_value(n),
            PixType::UInt4(n) => nodata_value(n),
            PixType::Int8(n) => nodata_value(n),
            PixType::UInt8(n) => nodata_value(n),
            PixType::Int16(n) => nodata_value(n),
            PixType::UInt16(n) => nodata_value(n),
            PixType::Int32(n) => nodata_value(n),
            PixType::UInt32(n) => nodata_value(n),
            PixType::Float32(n) => nodata_value(n),
            PixType::Float64(n) => nodata_value(n),
        }
    }
}

impl InMemoryRasterData {
    /// The pixel type and the nodata value of the band.
    pub open spec fn pixtype(self) -> PixType {
        match self {
            InMemoryRasterData::Bool1Bit { nodata, .. } => PixType::Bool1Bit(nodata),
            InMemoryRasterData::UInt2 { nodata, .. } => PixType::UInt2(nodata),
            InMemoryRasterData::UInt4 { nodata, .. } => PixType::UInt4(nodata),
            InMemoryRasterData::Int8 { nodata, .. } => PixType::Int8(nodata),
            InMemoryRasterData::UInt8 { nodata, .. } => PixType::UInt8(nodata),
            InMemoryRasterData::Int16 { nodata, .. } => PixType::Int16(nodata),
            InMemoryRasterData::UInt16 { nodata, .. } => PixType::UInt16(nodata),
            InMemoryRasterData::Int32 { nodata, .. } => PixType::Int32(nodata),
            InMemoryRasterData::UInt32 { nodata, .. } => PixType::UInt32(nodata),
            InMemoryRasterData::Float32 { nodata, .. } => PixType::Float32(nodata),
            InMemoryRasterData::Float64 { nodata, .. } => PixType::Float64(nodata),
        }
    }

    /// The sample values, row by row.
    pub open spec fn rows(self) -> Seq<Seq<int>> {
        match self {
            InMemoryRasterData::Bool1Bit { data, .. } => grid_values(data@),
            InMemoryRasterData::UInt2 { data, .. } => grid_values(data@),
            InMemoryRasterData::UInt4 { data, .. } => grid_values(data@),
            InMemoryRasterData::Int8 { data, .. } => grid_values(data@),
            InMemoryRasterData::UInt8 { data, .. } => grid_values(data@),
            InMemoryRasterData::Int16 { data, .. } => grid_values(data@),
            InMemoryRasterData::UInt16 { data, .. } => grid_values(data@),
            InMemoryRasterData::Int32 { data, .. } => grid_values(data@),
            InMemoryRasterData::UInt32 { data, .. } => grid_values(data@),
            InMemoryRasterData::Float32 { data, .. } => grid_values(data@),
            InMemoryRasterData::Float64 { data, .. } => grid_values(data@),
        }
    }
}

impl RasterDataSource {
    /// The pixel type and the nodata value of the band.
    pub open spec fn pixtype(self) -> PixType {
        match self {
            RasterDataSource::OutDb(o) => o.pixtype,
            RasterDataSource::InMemory(m) => m.pixtype(),
        }
    }

    /// The pixels, as mathematical values.
    pub open spec fn pixels(self) -> PixelsModel {
        match self {
            RasterDataSource::OutDb(o) => PixelsModel::OutDb { band: o.band, path: o.path@ },
            RasterDataSource::InMemory(m) => PixelsModel::InMemory { rows: m.rows() },
        }
    }
}

impl View for RasterBand {
    type V = BandModel;

    open spec fn view(&self) -> BandModel {
        BandModel {
            is_nodata_value: self.is_nodata_value,
            tag: self.data.pixtype().tag(),
            nodata: self.data.pixtype().nodata(),
            pixels: self.data.pixels(),
        }
    }
}

/// The models of a sequence of bands.
pub open spec fn band_models(bands: Seq<RasterBand>) -> Seq<BandModel> {
    Seq::new(bands.len(), |i: int| bands[i]@)
}

impl View for Raster {
    type V = RasterModel;

    open spec fn view(&self) -> RasterModel {
        RasterModel {
            endian: self.endian,
            version: self.version,
            scale_x: self.scale_x,
            scale_y: self.scale_y,
            ip_x: self.ip_x,
            ip_y: self.ip_y,
            skew_x: self.skew_x,
            skew_y: self.skew_y,
            srid: self.srid,
            width: self.width,
            height: self.height,
            bands: band_models(self.bands@),
        }
    }
}

/// Whether a row has `width` samples, each in the range of `tag`.
pub open spec fn row_well_formed(tag: PixelTag, row: Seq<int>, width: int) -> bool {
    &&& row.len() == width
    &&& forall|j: int| 0 <= j < row.len() ==> sample_in_range(tag, #[trigger] row[j])
}

/// Whether a grid has `height` rows that are well formed.
pub open spec fn rows_well_formed(tag: PixelTag, rows: Seq<Seq<int>>, width: int, height: int)
    -> bool {
    &&& rows.len() == height
    &&& forall|i: int| 0 <= i < rows.len() ==> row_well_formed(tag, #[trigger] rows[i], width)
}

/// Whether the nodata value, if there is one, is in the range of `tag`.
pub open spec fn nodata_well_formed(tag: PixelTag, nodata: Option<int>) -> bool {
    match nodata {
        Some(v) => sample_in_range(tag, v),
        None => true,
    }
}

/// Whether a path can be written with a terminating zero: it holds none.
pub open spec fn path_well_formed(path: Seq<u8>) -> bool {
    forall|k: int| 0 <= k < path.len() ==> #[trigger] path[k] != 0
}

impl BandModel {
    /// Whether the band can be part of a raster of the given size: its
    /// nodata value and its samples are in the range of its pixel type, and
    /// its grid is `height` rows of `width` samples.
    pub open spec fn well_formed(self, width: int, height: int) -> bool {
        &&& nodata_well_formed(self.tag, self.nodata)
        &&& match self.pixels {
            PixelsModel::InMemory { rows } => rows_well_formed(self.tag, rows, width, height),
            PixelsModel::OutDb { band, path } => path_well_formed(path),
        }
    }
}

impl RasterModel {
    /// The invariants of a raster: version 0, at least one band and no
    /// more than the format can count, and every band well formed for the
    /// raster's width and height.
    pub open spec fn well_formed(self) -> bool {
        &&& self.version == 0
        &&& 1 <= self.bands.len() <= 0xffff
        &&& forall|i: int|
            0 <= i < self.bands.len() ==> (#[trigger] self.bands[i]).well_formed(
                self.width as int,
                self.height as int,
            )
    }
}

} // verus!
