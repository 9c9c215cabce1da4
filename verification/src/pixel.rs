//! Pixel types: their wire tags, their sample ranges, and the Rust types
//! that hold their samples.

use vstd::prelude::*;

verus! {

/// What can go wrong while a raster is written or read.
#[derive(Clone, Copy, Debug, PartialEq, Eq, Structural)]
pub enum CodecError {
    /// The raster breaks an invariant of the data model and cannot be written.
    MalformedRaster,
    /// A pixel-type tag that the format does not define.
    UnsupportedPixelType,
    /// The byte-order marker is unknown, or the version is not supported.
    InvalidHeader,
    /// The input ends before the value that is being read.
    UnexpectedEndOfInput,
    /// Bytes follow the last band (reported by strict decoding only).
    TrailingData,
    /// The text holds a character that is no hexadecimal digit.
    InvalidHex,
}

/// Byte order of every multi-byte field of an encoded raster.
#[derive(Clone, Copy, Debug, PartialEq, Eq, Structural)]
pub enum Endian {
    Big,
    Little,
}

/// The pixel types of the format. Each has a tag of its own on the wire.
#[derive(Clone, Copy, Debug, PartialEq, Eq, Structural)]
pub enum PixelTag {
    Bool1Bit,
    UInt2,
    UInt4,
    Int8,
    UInt8,
    Int16,
    UInt16,
    Int32,
    UInt32,
    Float32,
    Float64,
}

/// The number that stands for a pixel type in a band's flag byte.
pub open spec fn tag_number(tag: PixelTag) -> int {
    match tag {
        PixelTag::Bool1Bit => 0,
        PixelTag::UInt2 => 1,
        PixelTag::UInt4 => 2,
        PixelTag::Int8 => 3,
        PixelTag::UInt8 => 4,
        PixelTag::Int16 => 5,
        PixelTag::UInt16 => 6,
        PixelTag::Int32 => 7,
        PixelTag::UInt32 => 8,
        PixelTag::Float32 => 10,
        PixelTag::Float64 => 11,
    }
}

/// The pixel type that a tag number stands for, if there is one.
pub open spec fn tag_of_number(n: int) -> Option<PixelTag> {
    if n == 0 {
        Some(PixelTag::Bool1Bit)
    } else if n == 1 {
        Some(PixelTag::UInt2)
    } else if n == 2 {
        Some(PixelTag::UInt4)
    } else if n == 3 {
        Some(PixelTag::Int8)
    } else if n == 4 {
        Some(PixelTag::UInt8)
    } else if n == 5 {
        Some(PixelTag::Int16)
    } else if n == 6 {
        Some(PixelTag::UInt16)
    } else if n == 7 {
        Some(PixelTag::Int32)
    } else if n == 8 {
        Some(PixelTag::UInt32)
    } else if n == 10 {
        Some(PixelTag::Float32)
    } else if n == 11 {
        Some(PixelTag::Float64)
    } else {
        None
    }
}

/// Number of distinct bit patterns of one sample: two to the power of the
/// sample's width in bits.
pub open spec fn sample_modulus(tag: PixelTag) -> int {
    match tag {
        PixelTag::Bool1Bit => 2,
        PixelTag::UInt2 => 4,
        PixelTag::UInt4 => 16,
        PixelTag::Int8 | PixelTag::UInt8 => 0x100,
        PixelTag::Int16 | PixelTag::UInt16 => 0x1_0000,
        PixelTag::Int32 | PixelTag::UInt32 | PixelTag::Float32 => 0x1_0000_0000,
        PixelTag::Float64 => 0x1_0000_0000_0000_0000,
    }
}

/// Whether samples of the type are two's-complement signed integers.
pub open spec fn is_signed(tag: PixelTag) -> bool {
    tag == PixelTag::Int8 || tag == PixelTag::Int16 || tag == PixelTag::Int32
}

/// Whether `v` is a sample value of the pixel type. Booleans are 0 and 1;
/// floating-point samples are held as their IEEE-754 bit patterns.
pub open spec fn sample_in_range(tag: PixelTag, v: int) -> bool {
    if is_signed(tag) {
        -(sample_modulus(tag) / 2) <= v < sample_modulus(tag) / 2
    } else {
        0 <= v < sample_modulus(tag)
    }
}

/// The bit pattern that is written for the sample value `v`.
pub open spec fn raw_of(tag: PixelTag, v: int) -> int {
    if v < 0 {
        v + sample_modulus(tag)
    } else {
        v
    }
}

/// The sample value that the bit pattern `raw` stands for.
pub open spec fn value_of(tag: PixelTag, raw: int) -> int {
    if is_signed(tag) && raw >= sample_modulus(tag) / 2 {
        raw - sample_modulus(tag)
    } else {
        raw
    }
}

/// A bit pattern read back from the wire is the value that was written.
pub proof fn lemma_raw_round_trip(tag: PixelTag, v: int)
    requires
        sample_in_range(tag, v),
    ensures
        0 <= raw_of(tag, v) < sample_modulus(tag),
        value_of(tag, raw_of(tag, v)) == v,
{
}

/// Every bit pattern of the right width stands for a sample value.
pub proof fn lemma_value_in_range(tag: PixelTag, raw: int)
    requires
        0 <= raw < sample_modulus(tag),
    ensures
        sample_in_range(tag, value_of(tag, raw)),
        raw_of(tag, value_of(tag, raw)) == raw,
{
}

impl PixelTag {
    /// The tag number of this pixel type.
    pub fn tag(self) -> (n: u8)
        ensures
            n == tag_number(self),
    {
        match self {
            PixelTag::Bool1Bit => 0,
            PixelTag::UInt2 => 1,
            PixelTag::UInt4 => 2,
            PixelTag::Int8 => 3,
            PixelTag::UInt8 => 4,
            PixelTag::Int16 => 5,
            PixelTag::UInt16 => 6,
            PixelTag::Int32 => 7,
            PixelTag::UInt32 => 8,
            PixelTag::Float32 => 10,
            PixelTag::Float64 => 11,
        }
    }

    /// The pixel type with tag number `n`. A number that the format does
    /// not define is an error: it never stands for another type.
    pub fn from_tag(n: u8) -> (res: Result<PixelTag, CodecError>)
        ensures
            res == match tag_of_number(n as int) {
                Some(tag) => Ok::<PixelTag, CodecError>(tag),
                None => Err(CodecError::UnsupportedPixelType),
            },
    {
        match n {
            0 => Ok(PixelTag::Bool1Bit),
            1 => Ok(PixelTag::UInt2),
            2 => Ok(PixelTag::UInt4),
            3 => Ok(PixelTag::Int8),
            4 => Ok(PixelTag::UInt8),
            5 => Ok(PixelTag::Int16),
            6 => Ok(PixelTag::UInt16),
            7 => Ok(PixelTag::Int32),
            8 => Ok(PixelTag::UInt32),
            10 => Ok(PixelTag::Float32),
            11 => Ok(PixelTag::Float64),
            _ => Err(CodecError::UnsupportedPixelType),
        }
    }
}

/// A Rust type that holds the samples of one or more pixel types.
pub trait Sample: Copy + Sized {
    /// The sample as a mathematical integer.
    spec fn value(self) -> int;

    /// Whether this type holds the samples of `tag`.
    spec fn carries(tag: PixelTag) -> bool;

    /// The bit pattern of the sample, and with it whether the sample is in
    /// the range of `tag`.
    fn to_raw(self, tag: PixelTag) -> (raw: u64)
        requires
            Self::carries(tag),
        ensures
            raw == raw_of(tag, self.value()),
            sample_in_range(tag, self.value()) <==> raw < sample_modulus(tag),
    ;

    /// The sample that the bit pattern `raw` stands for.
    fn from_raw(raw: u64, tag: PixelTag) -> (s: Self)
        requires
            Self::carries(tag),
            raw < sample_modulus(tag),
        ensures
            s.value() == value_of(tag, raw as int),
    ;
}

impl Sample for bool {
    open spec fn value(self) -> int {
        if self {
            1
        } else {
            0
        }
    }

    open spec fn carries(tag: PixelTag) -> bool {
        tag == PixelTag::Bool1Bit
    }

    fn to_raw(self, tag: PixelTag) -> (raw: u64) {
        if self {
            1
        } else {
            0
        }
    }

    fn from_raw(raw: u64, tag: PixelTag) -> (s: Self) {
        raw == 1
    }
}

impl Sample for u8 {
    open spec fn value(self) -> int {
        self as int
    }

    open spec fn carries(tag: PixelTag) -> bool {
        tag == PixelTag::UInt2 || tag == PixelTag::UInt4 || tag == PixelTag::UInt8
    }

    fn to_raw(self, tag: PixelTag) -> (raw: u64) {
        self as u64
    }

    fn from_raw(raw: u64, tag: PixelTag) -> (s: Self) {
        raw as u8
    }
}

impl Sample for i8 {
    open spec fn value(self) -> int {
        self as int
    }

    open spec fn carries(tag: PixelTag) -> bool {
        tag == PixelTag::Int8
    }

    fn to_raw(self, tag: PixelTag) -> (raw: u64) {
        if self < 0 {
            (self as i16 + 0x100) as u64
        } else {
            self as u64
        }
    }

    fn from_raw(raw: u64, tag: PixelTag) -> (s: Self) {
        if raw >= 0x80 {
            (raw as i16 - 0x100) as i8
        } else {
            raw as i8
        }
    }
}

impl Sample for u16 {
    open spec fn value(self) -> int {
        self as int
    }

    open spec fn carries(tag: PixelTag) -> bool {
        tag == PixelTag::UInt16
    }

    fn to_raw(self, tag: PixelTag) -> (raw: u64) {
        self as u64
    }

    fn from_raw(raw: u64, tag: PixelTag) -> (s: Self) {
        raw as u16
    }
}

impl Sample for i16 {
    open spec fn value(self) -> int {
        self as int
    }

    open spec fn carries(tag: PixelTag) -> bool {
        tag == PixelTag::Int16
    }

    fn to_raw(self, tag: PixelTag) -> (raw: u64) {
        if self < 0 {
            (self as i32 + 0x1_0000) as u64
        } else {
            self as u64
        }
    }

    fn from_raw(raw: u64, tag: PixelTag) -> (s: Self) {
        if raw >= 0x8000 {
            (raw as i32 - 0x1_0000) as i16
        } else {
            raw as i16
        }
    }
}

impl Sample for u32 {
    open spec fn value(self) -> int {
        self as int
    }

    open spec fn carries(tag: PixelTag) -> bool {
        tag == PixelTag::UInt32 || tag == PixelTag::Float32
    }

    fn to_raw(self, tag: PixelTag) -> (raw: u64) {
        self as u64
    }

    fn from_raw(raw: u64, tag: PixelTag) -> (s: Self) {
        raw as u32
    }
}

impl Sample for i32 {
    open spec fn value(self) -> int {
        self as int
    }

    open spec fn carries(tag: PixelTag) -> bool {
        tag == PixelTag::Int32
    }

    fn to_raw(self, tag: PixelTag) -> (raw: u64) {
        if self < 0 {
            (self as i64 + 0x1_0000_0000) as u64
        } else {
            self as u64
        }
    }

    fn from_raw(raw: u64, tag: PixelTag) -> (s: Self) {
        if raw >= 0x8000_0000 {
            (raw as i64 - 0x1_0000_0000) as i32
        } else {
            raw as i32
        }
    }
}

impl Sample for u64 {
    open spec fn value(self) -> int {
        self as int
    }

    open spec fn carries(tag: PixelTag) -> bool {
        tag == PixelTag::Float64
    }

    fn to_raw(self, tag: PixelTag) -> (raw: u64) {
        self
    }

    fn from_raw(raw: u64, tag: PixelTag) -> (s: Self) {
        raw
    }
}

} // verus!
