//! Checking the invariants of a raster before it is written.

use crate::model::{
    grid_values, nodata_value, nodata_well_formed, path_well_formed, row_values, row_well_formed,
    rows_well_formed, InMemoryRasterData, PixType, Raster, RasterBand, RasterDataSource,
};
use crate::pixel::{sample_in_range, sample_modulus, PixelTag, Sample};
use vstd::prelude::*;

verus! {

/// Whether the bit pattern `raw` has no more bits than a sample of `tag`.
pub(crate) fn fits_sample(raw: u64, tag: PixelTag) -> (ok: bool)
    ensures
        ok == (raw < sample_modulus(tag)),
{
    match tag {
        PixelTag::Bool1Bit => raw < 2,
        PixelTag::UInt2 => raw < 4,
        PixelTag::UInt4 => raw < 16,
        PixelTag::Int8 | PixelTag::UInt8 => raw < 0x100,
        PixelTag::Int16 | PixelTag::UInt16 => raw < 0x1_0000,
        PixelTag::Int32 | PixelTag::UInt32 | PixelTag::Float32 => raw < 0x1_0000_0000,
        PixelTag::Float64 => true,
    }
}

/// Whether a row has `width` samples, each in the range of `tag`.
pub(crate) fn row_is_well_formed<T: Sample>(row: &Vec<T>, tag: PixelTag, width: u16) -> (ok: bool)
    requires
        T::carries(tag),
    ensures
        ok == row_well_formed(tag, row_values(row@), width as int),
{
    if row.len() != width as usize {
        return false;
    }
    let ghost vals = row_values(row@);
    let mut j: usize = 0;
    while j < row.len()
        invariant
            j <= row.len(),
            T::carries(tag),
            vals == row_values(row@),
            row.len() == width,
            forall|k: int| 0 <= k < j ==> sample_in_range(tag, #[trigger] vals[k]),
        decreases row.len() - j,
    {
        let raw: u64 = row[j].to_raw(tag);
        if !fits_sample(raw, tag) {
            assert(!sample_in_range(tag, vals[j as int]));
            return false;
        }
        j = j + 1;
    }
    true
}

/// Whether a grid has `height` rows of `width` samples in the range of `tag`.
pub(crate) fn grid_is_well_formed<T: Sample>(
    data: &Vec<Vec<T>>,
    tag: PixelTag,
    width: u16,
    height: u16,
) -> (ok: bool)
    requires
        T::carries(tag),
    ensures
        ok == rows_well_formed(tag, grid_values(data@), width as int, height as int),
{
    if data.len() != height as usize {
        return false;
    }
    let ghost rows = grid_values(data@);
    let mut i: usize = 0;
    while i < data.len()
        invariant
            i <= data.len(),
            T::carries(tag),
            rows == grid_values(data@),
            data.len() == height,
            forall|k: int| 0 <= k < i ==> row_well_formed(tag, #[trigger] rows[k], width as int),
        decreases data.len() - i,
    {
        if !row_is_well_formed(&data[i], tag, width) {
            assert(!row_well_formed(tag, rows[i as int], width as int));
            return false;
        }
        i = i + 1;
    }
    true
}

/// Whether a nodata value, if there is one, is in the range of `tag`.
pub(crate) fn nodata_is_well_formed<T: Sample>(nodata: &Option<T>, tag: PixelTag) -> (ok: bool)
    requires
        T::carries(tag),
    ensures
        ok == nodata_well_formed(tag, nodata_value(*nodata)),
{
    match nodata {
        Some(v) => {
            let raw: u64 = v.to_raw(tag);
            fits_sample(raw, tag)
        },
        None => true,
    }
}

/// Whether a path holds no zero byte.
pub(crate) fn path_is_well_formed(path: &Vec<u8>) -> (ok: bool)
    ensures
        ok == path_well_formed(path@),
{
    let mut k: usize = 0;
    while k < path.len()
        invariant
            k <= path.len(),
            forall|j: int| 0 <= j < k ==> #[trigger] path@[j] != 0,
        decreases path.len() - k,
    {
        if path[k] == 0 {
            return false;
        }
        k = k + 1;
    }
    true
}

impl PixType {
    /// The pixel type.
    pub fn get_tag(&self) -> (tag: PixelTag)
        ensures
            tag == self.tag(),
    {
        match self {
            PixType::Bool1Bit(_) => PixelTag::Bool1Bit,
            PixType::UInt2(_) => PixelTag::UInt2,
            PixType::UInt4(_) => PixelTag::UInt4,
            PixType::Int8(_) => PixelTag::Int8,
            PixType::UInt8(_) => PixelTag::UInt8,
            PixType::Int16(_) => PixelTag::Int16,
            PixType::UInt16(_) => PixelTag::UInt16,
            PixType::Int32(_) => PixelTag::Int32,
            PixType::UInt32(_) => PixelTag::UInt32,
            PixType::Float32(_) => PixelTag::Float32,
            PixType::Float64(_) => PixelTag::Float64,
        }
    }

    /// Whether the band has a nodata value.
    pub fn has_nodata_value(&self) -> (has: bool)
        ensures
            has == (self.nodata() is Some),
    {
        match self {
            PixType::Bool1Bit(n) => n.is_some(),
            PixType::UInt2(n) => n.is_some(),
            PixType::UInt4(n) => n.is_some(),
            PixType::Int8(n) => n.is_some(),
            PixType::UInt8(n) => n.is_some(),
            PixType::Int16(n) => n.is_some(),
            PixType::UInt16(n) => n.is_some(),
            PixType::Int32(n) => n.is_some(),
            PixType::UInt32(n) => n.is_some(),
            PixType::Float32(n) => n.is_some(),
            PixType::Float64(n) => n.is_some(),
        }
    }

    /// Whether the nodata value, if there is one, is in the range of the
    /// pixel type.
    pub fn is_well_formed(&self) -> (ok: bool)
        ensures
            ok == nodata_well_formed(self.tag(), self.nodata()),
    {
        match self {
            PixType::Bool1Bit(n) => nodata_is_well_formed(n, PixelTag::Bool1Bit),
            PixType::UInt2(n) => nodata_is_well_formed(n, PixelTag::UInt2),
            PixType::UInt4(n) => nodata_is_well_formed(n, PixelTag::UInt4),
            PixType::Int8(n) => nodata_is_well_formed(n, PixelTag::Int8),
            PixType::UInt8(n) => nodata_is_well_formed(n, PixelTag::UInt8),
            PixType::Int16(n) => nodata_is_well_formed(n, PixelTag::Int16),
            PixType::UInt16(n) => nodata_is_well_formed(n, PixelTag::UInt16),
            PixType::Int32(n) => nodata_is_well_formed(n, PixelTag::Int32),
            PixType::UInt32(n) => nodata_is_well_formed(n, PixelTag::UInt32),
            PixType::Float32(n) => nodata_is_well_formed(n, PixelTag::Float32),
            PixType::Float64(n) => nodata_is_well_formed(n, PixelTag::Float64),
        }
    }
}

impl InMemoryRasterData {
    /// The pixel type and the nodata value of the band.
    pub fn get_pixtype(&self) -> (p: PixType)
        ensures
            p == self.pixtype(),
    {
        match self {
            InMemoryRasterData::Bool1Bit { nodata, .. } => PixType::Bool1Bit(*nodata),
            InMemoryRasterData::UInt2 { nodata, .. } => PixType::UInt2(*nodata),
            InMemoryRasterData::UInt4 { nodata, .. } => PixType::UInt4(*nodata),
            InMemoryRasterData::Int8 { nodata, .. } => PixType::Int8(*nodata),
            InMemoryRasterData::UInt8 { nodata, .. } => PixType::UInt8(*nodata),
            InMemoryRasterData::Int16 { nodata, .. } => PixType::Int16(*nodata),
            InMemoryRasterData::UInt16 { nodata, .. } => PixType::UInt16(*nodata),
            InMemoryRasterData::Int32 { nodata, .. } => PixType::Int32(*nodata),
            InMemoryRasterData::UInt32 { nodata, .. } => PixType::UInt32(*nodata),
            InMemoryRasterData::Float32 { nodata, .. } => PixType::Float32(*nodata),
            InMemoryRasterData::Float64 { nodata, .. } => PixType::Float64(*nodata),
        }
    }

    /// Whether the grid has `height` rows of `width` samples, each in the
    /// range of the pixel type.
    pub fn grid_is_well_formed(&self, width: u16, height: u16) -> (ok: bool)
        ensures
            ok == rows_well_formed(
                self.pixtype().tag(),
                self.rows(),
                width as int,
                height as int,
            ),
    {
        match self {
            InMemoryRasterData::Bool1Bit { data, .. } => grid_is_well_formed(
                data,
                PixelTag::Bool1Bit,
                width,
                height,
            ),
            InMemoryRasterData::UInt2 { data, .. } => grid_is_well_formed(
                data,
                PixelTag::UInt2,
                width,
                height,
            ),
            InMemoryRasterData::UInt4 { data, .. } => grid_is_well_formed(
                data,
                PixelTag::UInt4,
                width,
                height,
            ),
            InMemoryRasterData::Int8 { data, .. } => grid_is_well_formed(
                data,
                PixelTag::Int8,
                width,
                height,
            ),
            InMemoryRasterData::UInt8 { data, .. } => grid_is_well_formed(
                data,
                PixelTag::UInt8,
                width,
                height,
            ),
            InMemoryRasterData::Int16 { data, .. } => grid_is_well_formed(
                data,
                PixelTag::Int16,
                width,
                height,
            ),
            InMemoryRasterData::UInt16 { data, .. } => grid_is_well_formed(
                data,
                PixelTag::UInt16,
                width,
                height,
            ),
            InMemoryRasterData::Int32 { data, .. } => grid_is_well_formed(
                data,
                PixelTag::Int32,
                width,
                height,
            ),
            InMemoryRasterData::UInt32 { data, .. } => grid_is_well_formed(
                data,
                PixelTag::UInt32,
                width,
                height,
            ),
            InMemoryRasterData::Float32 { data, .. } => grid_is_well_formed(
                data,
                PixelTag::Float32,
                width,
                height,
            ),
            InMemoryRasterData::Float64 { data, .. } => grid_is_well_formed(
                data,
                PixelTag::Float64,
                width,
                height,
            ),
        }
    }
}

impl RasterDataSource {
    /// Whether the pixels are in a file outside the raster.
    pub fn is_out_db(&self) -> (out: bool)
        ensures
            out == (self.pixels() is OutDb),
    {
        match self {
            RasterDataSource::OutDb(_) => true,
            RasterDataSource::InMemory(_) => false,
        }
    }

    /// The pixel type and the nodata value of the band.
    pub fn get_pixtype(&self) -> (p: PixType)
        ensures
            p == self.pixtype(),
    {
        match self {
            RasterDataSource::OutDb(o) => o.pixtype,
            RasterDataSource::InMemory(m) => m.get_pixtype(),
        }
    }
}

impl RasterBand {
    /// Whether the band can be part of a raster of the given size.
    pub fn is_well_formed(&self, width: u16, height: u16) -> (ok: bool)
        ensures
            ok == self@.well_formed(width as int, height as int),
    {
        if !self.data.get_pixtype().is_well_formed() {
            return false;
        }
        match &self.data {
            RasterDataSource::OutDb(o) => path_is_well_formed(&o.path),
            RasterDataSource::InMemory(m) => m.grid_is_well_formed(width, height),
        }
    }
}

impl Raster {
    /// Whether the raster keeps the invariants of the data model, so that
    /// it can be encoded.
    pub fn is_well_formed(&self) -> (ok: bool)
        ensures
            ok == self@.well_formed(),
    {
        if self.version != 0 || self.bands.len() == 0 || self.bands.len() > 0xffff {
            return false;
        }
        let mut i: usize = 0;
        while i < self.bands.len()
            invariant
                i <= self.bands.len(),
                self.version == 0,
                1 <= self.bands.len() <= 0xffff,
                forall|k: int|
                    0 <= k < i ==> (#[trigger] self@.bands[k]).well_formed(
                        self.width as int,
                        self.height as int,
                    ),
            decreases self.bands.len() - i,
        {
            if !self.bands[i].is_well_formed(self.width, self.height) {
                assert(self@.bands[i as int] == self.bands[i as int]@);
                return false;
            }
            assert(self@.bands[i as int] == self.bands[i as int]@);
            i = i + 1;
        }
        true
    }
}

} // verus!
