//! TIFF entry values and their data types.

use vstd::prelude::*;

verus! {

/// The TIFF data types this reader materializes or tolerates, with their
/// canonical 16-bit codes (`BYTE`=1 ... `IFD8`=18).
#[allow(non_camel_case_types)]
#[derive(Debug, PartialEq, Eq, Structural, Copy, Clone)]
pub enum DataType {
    BYTE,
    ASCII,
    SHORT,
    LONG,
    RATIONAL,
    SBYTE,
    UNDEFINED,
    SSHORT,
    SLONG,
    SRATIONAL,
    FLOAT,
    DOUBLE,
    LONG8,
    SLONG8,
    IFD8,
}

/// The data type a 16-bit type code denotes, if any.
pub open spec fn spec_type_of(code: u16) -> Option<DataType> {
    match code {
        1u16 => Some(DataType::BYTE),
        2u16 => Some(DataType::ASCII),
        3u16 => Some(DataType::SHORT),
        4u16 => Some(DataType::LONG),
        5u16 => Some(DataType::RATIONAL),
        6u16 => Some(DataType::SBYTE),
        7u16 => Some(DataType::UNDEFINED),
        8u16 => Some(DataType::SSHORT),
        9u16 => Some(DataType::SLONG),
        10u16 => Some(DataType::SRATIONAL),
        11u16 => Some(DataType::FLOAT),
        12u16 => Some(DataType::DOUBLE),
        16u16 => Some(DataType::LONG8),
        17u16 => Some(DataType::SLONG8),
        18u16 => Some(DataType::IFD8),
        _ => None,
    }
}

/// The canonical 16-bit code of a data type.
pub open spec fn spec_code_of(dt: DataType) -> u16 {
    match dt {
        DataType::BYTE => 1u16,
        DataType::ASCII => 2u16,
        DataType::SHORT => 3u16,
        DataType::LONG => 4u16,
        DataType::RATIONAL => 5u16,
        DataType::SBYTE => 6u16,
        DataType::UNDEFINED => 7u16,
        DataType::SSHORT => 8u16,
        DataType::SLONG => 9u16,
        DataType::SRATIONAL => 10u16,
        DataType::FLOAT => 11u16,
        DataType::DOUBLE => 12u16,
        DataType::LONG8 => 16u16,
        DataType::SLONG8 => 17u16,
        DataType::IFD8 => 18u16,
    }
}

/// The size in bytes of one element of a data type.
pub open spec fn spec_size_of(dt: DataType) -> u64 {
    match dt {
        DataType::BYTE | DataType::ASCII | DataType::SBYTE | DataType::UNDEFINED => 1u64,
        DataType::SHORT | DataType::SSHORT => 2u64,
        DataType::LONG | DataType::SLONG | DataType::FLOAT => 4u64,
        DataType::RATIONAL
        | DataType::SRATIONAL
        | DataType::DOUBLE
        | DataType::LONG8
        | DataType::SLONG8
        | DataType::IFD8 => 8u64,
    }
}

impl DataType {
    /// The data type of a 16-bit type code; `None` for an unknown code.
    pub fn from_u16(data_type: u16) -> (r: Option<DataType>)
        ensures
            r == spec_type_of(data_type),
    {
        match data_type {
            1u16 => Some(DataType::BYTE),
            2u16 => Some(DataType::ASCII),
            3u16 => Some(DataType::SHORT),
            4u16 => Some(DataType::LONG),
            5u16 => Some(DataType::RATIONAL),
            6u16 => Some(DataType::SBYTE),
            7u16 => Some(DataType::UNDEFINED),
            8u16 => Some(DataType::SSHORT),
            9u16 => Some(DataType::SLONG),
            10u16 => Some(DataType::SRATIONAL),
            11u16 => Some(DataType::FLOAT),
            12u16 => Some(DataType::DOUBLE),
            16u16 => Some(DataType::LONG8),
            17u16 => Some(DataType::SLONG8),
            18u16 => Some(DataType::IFD8),
            _ => None,
        }
    }

    /// The canonical 16-bit code of this data type.
    pub fn as_u16(&self) -> (r: u16)
        ensures
            r == spec_code_of(*self),
    {
        match *self {
            DataType::BYTE => 1,
            DataType::ASCII => 2,
            DataType::SHORT => 3,
            DataType::LONG => 4,
            DataType::RATIONAL => 5,
            DataType::SBYTE => 6,
            DataType::UNDEFINED => 7,
            DataType::SSHORT => 8,
            DataType::SLONG => 9,
            DataType::SRATIONAL => 10,
            DataType::FLOAT => 11,
            DataType::DOUBLE => 12,
            DataType::LONG8 => 16,
            DataType::SLONG8 => 17,
            DataType::IFD8 => 18,
        }
    }

    /// The size in bytes of one element of this data type.
    pub fn size(&self) -> (r: u64)
        ensures
            r == spec_size_of(*self),
    {
        match *self {
            DataType::BYTE | DataType::ASCII | DataType::SBYTE | DataType::UNDEFINED => 1,
            DataType::SHORT | DataType::SSHORT => 2,
            DataType::LONG | DataType::SLONG | DataType::FLOAT => 4,
            DataType::RATIONAL
            | DataType::SRATIONAL
            | DataType::DOUBLE
            | DataType::LONG8
            | DataType::SLONG8
            | DataType::IFD8 => 8,
        }
    }
}

/// A materialized TIFF entry value. Scalar variants hold a single element,
/// vector variants hold `count > 1` elements. Signed and floating-point
/// types are never materialized: the parser reports them as broken entries,
/// as the format overlay has no use for them.
#[derive(Debug, PartialEq)]
pub enum Data {
    Byte(u8),
    Ascii(String),
    Short(u16),
    Long(u32),
    Rational { numer: u32, denom: u32 },
    Undefined(u8),
    Long8(u64),
    Ifd8(u64),
    ByteVec(Vec<u8>),
    ShortVec(Vec<u16>),
    LongVec(Vec<u32>),
    RationalVec(Vec<(u32, u32)>),
    UndefinedVec(Vec<u8>),
    Long8Vec(Vec<u64>),
    Ifd8Vec(Vec<u64>),
}

/// The mathematical shape of a `Data` value: strings as character sequences,
/// vectors as sequences.
pub enum DataView {
    Byte(u8),
    Ascii(Seq<char>),
    Short(u16),
    Long(u32),
    Rational { numer: u32, denom: u32 },
    Undefined(u8),
    Long8(u64),
    Ifd8(u64),
    ByteVec(Seq<u8>),
    ShortVec(Seq<u16>),
    LongVec(Seq<u32>),
    RationalVec(Seq<(u32, u32)>),
    UndefinedVec(Seq<u8>),
    Long8Vec(Seq<u64>),
    Ifd8Vec(Seq<u64>),
}

impl View for Data {
    type V = DataView;

    open spec fn view(&self) -> DataView {
        match self {
            Data::Byte(b) => DataView::Byte(*b),
            Data::Ascii(s) => DataView::Ascii(s@),
            Data::Short(v) => DataView::Short(*v),
            Data::Long(v) => DataView::Long(*v),
            Data::Rational { numer, denom } => DataView::Rational {
                numer: *numer,
                denom: *denom,
            },
            Data::Undefined(b) => DataView::Undefined(*b),
            Data::Long8(v) => DataView::Long8(*v),
            Data::Ifd8(v) => DataView::Ifd8(*v),
            Data::ByteVec(v) => DataView::ByteVec(v@),
            Data::ShortVec(v) => DataView::ShortVec(v@),
            Data::LongVec(v) => DataView::LongVec(v@),
            Data::RationalVec(v) => DataView::RationalVec(v@),
            Data::UndefinedVec(v) => DataView::UndefinedVec(v@),
            Data::Long8Vec(v) => DataView::Long8Vec(v@),
            Data::Ifd8Vec(v) => DataView::Ifd8Vec(v@),
        }
    }
}

} // verus!
