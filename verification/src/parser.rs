//! The structural TIFF parser: header detection, directory sizing, entry
//! materialization and directory-body decoding.
//!
//! Every exec function mirrors a spec function that states, byte for byte,
//! what the parse yields; out-of-line values are returned as a plan of
//! `(tag, count, type, offset, length)` records for the caller to load.

use crate::bytes::{be_value, lemma_pow256_values, pow256, word, Bytes};
use crate::data::{spec_code_of, spec_size_of, spec_type_of, Data, DataType, DataView};
use crate::error::TiffError;
use crate::ifd::Ifd;
use vstd::prelude::*;

verus! {

/// The sanity cap on entry counts: a directory with more entries, or an
/// entry with more elements, is reported as broken structure.
pub const MAX_IFD_ENTRIES: u64 = 0x10_0000;

/// The parser flavor: Classic TIFF or BigTIFF, each in either byte order.
#[derive(Debug, PartialEq, Eq, Structural, Copy, Clone)]
pub enum Parser {
    Classic(Bytes),
    Big(Bytes),
}

/// The fixed sizes, in bytes, of the directory pieces of one flavor.
#[derive(Debug, PartialEq, Eq, Structural, Copy, Clone)]
pub struct Size {
    /// Bytes of the directory header that carries the entry count.
    pub ifd_header: u64,
    /// Bytes of one directory entry.
    pub ent_size: u64,
    /// Bytes of the pointer to the next directory.
    pub next_ifd_ofs_size: u64,
}

/// An out-of-line entry: its value lies at `offset`, `length` bytes long,
/// to be materialized later as `count` elements of `data_type`.
#[derive(Debug, PartialEq, Eq, Structural, Copy, Clone)]
pub struct DataOffset {
    pub tag: u16,
    pub count: u64,
    pub data_type: DataType,
    pub offset: u64,
    pub length: u64,
}

/// Byte order of a flavor.
pub open spec fn spec_endian(p: Parser) -> Bytes {
    match p {
        Parser::Classic(e) => e,
        Parser::Big(e) => e,
    }
}

/// Directory header size of a flavor: 2 bytes Classic, 8 BigTIFF.
pub open spec fn spec_header_size(p: Parser) -> u64 {
    if p is Classic {
        2u64
    } else {
        8u64
    }
}

/// Entry size of a flavor: 12 bytes Classic, 20 BigTIFF.
pub open spec fn spec_ent_size(p: Parser) -> u64 {
    if p is Classic {
        12u64
    } else {
        20u64
    }
}

/// Next-directory pointer size of a flavor: 4 bytes Classic, 8 BigTIFF.
pub open spec fn spec_ptr_size(p: Parser) -> u64 {
    if p is Classic {
        4u64
    } else {
        8u64
    }
}

/// Inline value slot of an entry: 4 bytes Classic, 8 BigTIFF.
pub open spec fn spec_inline_size(p: Parser) -> u64 {
    if p is Classic {
        4u64
    } else {
        8u64
    }
}

/// What header detection yields on the given bytes: the flavor and the
/// offset of the first directory, or the exact error.
pub open spec fn spec_header(s: Seq<u8>) -> Result<(Parser, u64), TiffError> {
    if s.len() < 2 {
        Err(TiffError::InsufficientBuffer(2))
    } else {
        let mark = be_value(s.subrange(0, 2));
        if mark != 0x4949 && mark != 0x4D4D {
            Err(TiffError::HeaderBroken)
        } else {
            let e = if mark == 0x4949 {
                Bytes::Intel
            } else {
                Bytes::Moto
            };
            if s.len() < 4 {
                Err(TiffError::InsufficientBuffer(4))
            } else {
                let version = word(e, s.subrange(2, 4));
                if version == 42 {
                    if s.len() < 8 {
                        Err(TiffError::InsufficientBuffer(8))
                    } else {
                        Ok((Parser::Classic(e), word(e, s.subrange(4, 8)) as u64))
                    }
                } else if version == 43 {
                    if s.len() < 16 {
                        Err(TiffError::InsufficientBuffer(16))
                    } else {
                        let always_8 = word(e, s.subrange(4, 6));
                        let always_0 = word(e, s.subrange(6, 8));
                        if always_8 == 8 && always_0 == 0 {
                            Ok((Parser::Big(e), word(e, s.subrange(8, 16)) as u64))
                        } else {
                            Err(TiffError::HeaderBroken)
                        }
                    }
                } else {
                    Err(TiffError::HeaderBroken)
                }
            }
        }
    }
}

/// What entry materialization yields: the value of `c` elements of type `dt`
/// read from the start of `s`, or the exact error. Scalar variants are used
/// when `c == 1`, vector variants otherwise; signed and floating-point types
/// are reported broken.
pub open spec fn spec_entry(e: Bytes, c: u64, dt: DataType, s: Seq<u8>) -> Result<
    DataView,
    TiffError,
> {
    match dt {
        DataType::BYTE => if c == 1 {
            if s.len() >= 1 {
                Ok(DataView::Byte(s[0]))
            } else {
                Err(TiffError::EntryBroken(1))
            }
        } else {
            if c <= s.len() {
                Ok(DataView::ByteVec(s.subrange(0, c as int)))
            } else {
                Err(TiffError::EntryBroken(1))
            }
        },
        DataType::UNDEFINED => if c == 1 {
            if s.len() >= 1 {
                Ok(DataView::Undefined(s[0]))
            } else {
                Err(TiffError::EntryBroken(7))
            }
        } else {
            if c <= s.len() {
                Ok(DataView::UndefinedVec(s.subrange(0, c as int)))
            } else {
                Err(TiffError::EntryBroken(7))
            }
        },
        DataType::SHORT => if c == 1 {
            if s.len() >= 2 {
                Ok(DataView::Short(word(e, s.subrange(0, 2)) as u16))
            } else {
                Err(TiffError::EntryBroken(3))
            }
        } else {
            if 2 * c <= s.len() {
                Ok(
                    DataView::ShortVec(
                        Seq::new(c as nat, |k: int| word(e, s.subrange(2 * k, 2 * k + 2)) as u16),
                    ),
                )
            } else {
                Err(TiffError::EntryBroken(3))
            }
        },
        DataType::LONG => if c == 1 {
            if s.len() >= 4 {
                Ok(DataView::Long(word(e, s.subrange(0, 4)) as u32))
            } else {
                Err(TiffError::EntryBroken(4))
            }
        } else {
            if 4 * c <= s.len() {
                Ok(
                    DataView::LongVec(
                        Seq::new(c as nat, |k: int| word(e, s.subrange(4 * k, 4 * k + 4)) as u32),
                    ),
                )
            } else {
                Err(TiffError::EntryBroken(4))
            }
        },
        DataType::LONG8 => if c == 1 {
            if s.len() >= 8 {
                Ok(DataView::Long8(word(e, s.subrange(0, 8)) as u64))
            } else {
                Err(TiffError::EntryBroken(16))
            }
        } else {
            if 8 * c <= s.len() {
                Ok(
                    DataView::Long8Vec(
                        Seq::new(c as nat, |k: int| word(e, s.subrange(8 * k, 8 * k + 8)) as u64),
                    ),
                )
            } else {
                Err(TiffError::EntryBroken(16))
            }
        },
        DataType::IFD8 => if c == 1 {
            if s.len() >= 8 {
                Ok(DataView::Ifd8(word(e, s.subrange(0, 8)) as u64))
            } else {
                Err(TiffError::EntryBroken(18))
            }
        } else {
            if 8 * c <= s.len() {
                Ok(
                    DataView::Ifd8Vec(
                        Seq::new(c as nat, |k: int| word(e, s.subrange(8 * k, 8 * k + 8)) as u64),
                    ),
                )
            } else {
                Err(TiffError::EntryBroken(18))
            }
        },
        DataType::ASCII => if c <= s.len() {
            Ok(DataView::Ascii(crate::bytes::ascii_of(s.subrange(0, c as int))))
        } else {
            Err(TiffError::EntryBroken(2))
        },
        DataType::RATIONAL => if c == 1 {
            if s.len() >= 8 {
                Ok(
                    DataView::Rational {
                        numer: word(e, s.subrange(0, 4)) as u32,
                        denom: word(e, s.subrange(4, 8)) as u32,
                    },
                )
            } else {
                Err(TiffError::EntryBroken(5))
            }
        } else {
            if 8 * c <= s.len() {
                Ok(
                    DataView::RationalVec(
                        Seq::new(
                            c as nat,
                            |k: int|
                                (
                                    word(e, s.subrange(8 * k, 8 * k + 4)) as u32,
                                    word(e, s.subrange(8 * k + 4, 8 * k + 8)) as u32,
                                ),
                        ),
                    ),
                )
            } else {
                Err(TiffError::EntryBroken(5))
            }
        },
        _ => Err(TiffError::EntryBroken(spec_code_of(dt))),
    }
}

/// The view of an entry materialization result.
pub open spec fn entry_result_view(r: Result<Data, TiffError>) -> Result<DataView, TiffError> {
    match r {
        Ok(d) => Ok(d@),
        Err(e) => Err(e),
    }
}

/// The tag of directory entry `j` in a body.
pub open spec fn spec_tag_at(p: Parser, s: Seq<u8>, j: int) -> u16 {
    let at = j * spec_ent_size(p);
    word(spec_endian(p), s.subrange(at, at + 2)) as u16
}

/// The 16-bit type code of directory entry `j` in a body.
pub open spec fn spec_code_at(p: Parser, s: Seq<u8>, j: int) -> u16 {
    let at = j * spec_ent_size(p);
    word(spec_endian(p), s.subrange(at + 2, at + 4)) as u16
}

/// The element count of directory entry `j`: a four-byte word for Classic,
/// an eight-byte word for BigTIFF.
pub open spec fn spec_count_at(p: Parser, s: Seq<u8>, j: int) -> u64 {
    let at = j * spec_ent_size(p);
    if p is Classic {
        word(spec_endian(p), s.subrange(at + 4, at + 8)) as u64
    } else {
        word(spec_endian(p), s.subrange(at + 4, at + 12)) as u64
    }
}

/// The inline value slot of directory entry `j`: the last four (Classic) or
/// eight (BigTIFF) bytes of the entry.
pub open spec fn spec_slot_at(p: Parser, s: Seq<u8>, j: int) -> Seq<u8> {
    let at = j * spec_ent_size(p);
    if p is Classic {
        s.subrange(at + 8, at + 12)
    } else {
        s.subrange(at + 12, at + 20)
    }
}

/// What decoding the first `j` entries of a directory body yields: the map
/// of inline values and the ordered plan of out-of-line loads, or the first
/// error. An entry with an unknown type code is skipped silently; one whose
/// count is past the sanity cap is broken structure.
pub open spec fn spec_entries(p: Parser, s: Seq<u8>, j: nat) -> Result<
    (Map<u16, DataView>, Seq<DataOffset>),
    TiffError,
>
    decreases j,
{
    if j == 0 {
        Ok((Map::empty(), Seq::empty()))
    } else {
        match spec_entries(p, s, (j - 1) as nat) {
            Err(er) => Err(er),
            Ok(acc) => {
                let tag = spec_tag_at(p, s, j - 1);
                let code = spec_code_at(p, s, j - 1);
                let count = spec_count_at(p, s, j - 1);
                let slot = spec_slot_at(p, s, j - 1);
                match spec_type_of(code) {
                    None => Ok(acc),
                    Some(dt) => {
                        if count > MAX_IFD_ENTRIES {
                            Err(TiffError::StructureBroken)
                        } else {
                            let len = spec_size_of(dt) * count;
                            if len <= spec_inline_size(p) {
                                match spec_entry(spec_endian(p), count, dt, slot) {
                                    Err(er) => Err(er),
                                    Ok(d) => Ok((acc.0.insert(tag, d), acc.1)),
                                }
                            } else {
                                let offset = word(spec_endian(p), slot) as u64;
                                Ok(
                                    (
                                        acc.0,
                                        acc.1.push(
                                            DataOffset {
                                                tag,
                                                count,
                                                data_type: dt,
                                                offset,
                                                length: len as u64,
                                            },
                                        ),
                                    ),
                                )
                            }
                        }
                    }
                }
            }
        }
    }
}

/// The next-directory offset stored after `count` entries: `None` on the
/// terminating zero.
pub open spec fn spec_next_ifd(p: Parser, s: Seq<u8>, count: u64) -> Option<u64> {
    let at = count * spec_ent_size(p);
    let v = word(spec_endian(p), s.subrange(at as int, at + spec_ptr_size(p)));
    if v == 0 {
        None
    } else {
        Some(v as u64)
    }
}

/// What decoding a whole directory body of `count` entries yields.
pub open spec fn spec_ifd_body(p: Parser, count: u64, s: Seq<u8>) -> Result<
    (Map<u16, DataView>, Seq<DataOffset>, Option<u64>),
    TiffError,
> {
    if count > MAX_IFD_ENTRIES {
        Err(TiffError::StructureBroken)
    } else if s.len() < count * spec_ent_size(p) + spec_ptr_size(p) {
        Err(TiffError::InsufficientBuffer((count * spec_ent_size(p) + spec_ptr_size(p)) as u64))
    } else {
        match spec_entries(p, s, count as nat) {
            Err(er) => Err(er),
            Ok(acc) => Ok((acc.0, acc.1, spec_next_ifd(p, s, count))),
        }
    }
}

/// The view of a directory body decoding result.
pub open spec fn body_result_view(r: Result<(Ifd, Vec<DataOffset>, Option<u64>), TiffError>) -> Result<
    (Map<u16, DataView>, Seq<DataOffset>, Option<u64>),
    TiffError,
> {
    match r {
        Ok((ifd, u, next)) => Ok((ifd@, u@, next)),
        Err(e) => Err(e),
    }
}

/// The eight header bytes of a Classic TIFF with the given byte order and
/// first-directory offset: the byte-order mark, the version 42, then the
/// offset in that byte order.
pub open spec fn classic_header_bytes(e: Bytes, off: u32) -> Seq<u8> {
    crate::bytes::be_encode(
        if e is Intel {
            0x4949int
        } else {
            0x4D4Dint
        },
        2,
    ) + crate::bytes::encode(e, 42, 2) + crate::bytes::encode(e, off as int, 4)
}

/// Header round trip: detection on the synthetic Classic header of any byte
/// order and any 32-bit offset yields the Classic flavor of that byte order
/// and exactly that offset.
pub proof fn lemma_header_classic_round_trip(e: Bytes, off: u32)
    ensures
        spec_header(classic_header_bytes(e, off)) == Ok::<(Parser, u64), TiffError>(
            (Parser::Classic(e), off as u64),
        ),
{
    lemma_pow256_values();
    let mark: int = if e is Intel {
        0x4949
    } else {
        0x4D4D
    };
    crate::bytes::lemma_word_round_trip(Bytes::Moto, mark, 2);
    crate::bytes::lemma_word_round_trip(e, 42, 2);
    crate::bytes::lemma_word_round_trip(e, off as int, 4);
    let s = classic_header_bytes(e, off);
    assert(s.len() == 8);
    assert(s.subrange(0, 2) =~= crate::bytes::be_encode(mark, 2));
    assert(s.subrange(2, 4) =~= crate::bytes::encode(e, 42, 2));
    assert(s.subrange(4, 8) =~= crate::bytes::encode(e, off as int, 4));
}

/// Once entry decoding has failed, decoding more entries fails the same way.
pub proof fn lemma_entries_err(p: Parser, s: Seq<u8>, j: nat, n: nat)
    requires
        j <= n,
        spec_entries(p, s, j) is Err,
    ensures
        spec_entries(p, s, n) == spec_entries(p, s, j),
    decreases n,
{
    if n > j {
        lemma_entries_err(p, s, j, (n - 1) as nat);
    }
}

impl Parser {
    /// Byte order of this flavor.
    pub fn endian(&self) -> (r: Bytes)
        ensures
            r == spec_endian(*self),
    {
        match *self {
            Parser::Classic(e) => e,
            Parser::Big(e) => e,
        }
    }

    /// Detects the header: the byte-order mark at bytes 0 and 1, the version
    /// discriminant at 2 and 3 (42 Classic, 43 BigTIFF), then the offset of
    /// the first directory (bytes 4 to 7, or 8 to 15 for BigTIFF after the
    /// mandatory `(8, 0)` placeholder).
    pub fn header(i: &[u8]) -> (r: Result<(Parser, u64), TiffError>)
        ensures
            r == spec_header(i@),
    {
        proof {
            lemma_pow256_values();
        }
        if i.len() < 2 {
            return Err(TiffError::InsufficientBuffer(2));
        }
        let mark = Bytes::Moto.word_at(i, 0, 2);
        if mark != 0x4949 && mark != 0x4D4D {
            return Err(TiffError::HeaderBroken);
        }
        let e = if mark == 0x4949 {
            Bytes::Intel
        } else {
            Bytes::Moto
        };
        if i.len() < 4 {
            return Err(TiffError::InsufficientBuffer(4));
        }
        let version = e.word_at(i, 2, 2);
        if version == 42 {
            if i.len() < 8 {
                return Err(TiffError::InsufficientBuffer(8));
            }
            let next_ifd = e.word_at(i, 4, 4);
            Ok((Parser::Classic(e), next_ifd))
        } else if version == 43 {
            if i.len() < 16 {
                return Err(TiffError::InsufficientBuffer(16));
            }
            let always_8 = e.word_at(i, 4, 2);
            let always_0 = e.word_at(i, 6, 2);
            if always_8 == 8 && always_0 == 0 {
                let next_ifd = e.word_at(i, 8, 8);
                Ok((Parser::Big(e), next_ifd))
            } else {
                Err(TiffError::HeaderBroken)
            }
        } else {
            Err(TiffError::HeaderBroken)
        }
    }

    /// The fixed directory sizes of this flavor.
    pub fn size(&self) -> (r: Size)
        ensures
            r.ifd_header == spec_header_size(*self),
            r.ent_size == spec_ent_size(*self),
            r.next_ifd_ofs_size == spec_ptr_size(*self),
    {
        match *self {
            Parser::Classic(_) => Size { ifd_header: 2, next_ifd_ofs_size: 4, ent_size: 12 },
            Parser::Big(_) => Size { ifd_header: 8, next_ifd_ofs_size: 8, ent_size: 20 },
        }
    }

    /// Reads the directory entry count: a two-byte word for Classic, an
    /// eight-byte word for BigTIFF.
    pub fn ifd_count(&self, i: &[u8]) -> (r: Result<u64, TiffError>)
        ensures
            r matches Ok(c) ==> i@.len() >= spec_header_size(*self) && c == word(
                spec_endian(*self),
                i@.subrange(0, spec_header_size(*self) as int),
            ),
            r matches Err(e) ==> i@.len() < spec_header_size(*self) && e
                == TiffError::InsufficientBuffer(spec_header_size(*self)),
    {
        proof {
            lemma_pow256_values();
        }
        match *self {
            Parser::Classic(e) => {
                if i.len() < 2 {
                    Err(TiffError::InsufficientBuffer(2))
                } else {
                    Ok(e.word_at(i, 0, 2))
                }
            }
            Parser::Big(e) => {
                if i.len() < 8 {
                    Err(TiffError::InsufficientBuffer(8))
                } else {
                    Ok(e.word_at(i, 0, 8))
                }
            }
        }
    }

    /// Materializes one entry value: `c` elements of type `dt` from the
    /// start of the buffer.
    pub fn entry(&self, c: u64, dt: DataType, i: &[u8]) -> (r: Result<Data, TiffError>)
        ensures
            entry_result_view(r) == spec_entry(spec_endian(*self), c, dt, i@),
    {
        let e = self.endian();
        match (dt, c) {
            (DataType::BYTE, 1u64) => match e.u8(i) {
                Some(v) => Ok(Data::Byte(v)),
                None => Err(TiffError::EntryBroken(1)),
            },
            (DataType::BYTE, n) => match e.u8_vec(n, i) {
                Some(v) => Ok(Data::ByteVec(v)),
                None => Err(TiffError::EntryBroken(1)),
            },
            (DataType::UNDEFINED, 1u64) => match e.u8(i) {
                Some(v) => Ok(Data::Undefined(v)),
                None => Err(TiffError::EntryBroken(7)),
            },
            (DataType::UNDEFINED, n) => match e.u8_vec(n, i) {
                Some(v) => Ok(Data::UndefinedVec(v)),
                None => Err(TiffError::EntryBroken(7)),
            },
            (DataType::SHORT, 1u64) => match e.u16(i) {
                Some(v) => Ok(Data::Short(v)),
                None => Err(TiffError::EntryBroken(3)),
            },
            (DataType::SHORT, n) => match e.u16_vec(n, i) {
                Some(v) => {
                    proof {
                        assert(v@ =~= Seq::new(
                            n as nat,
                            |k: int| word(spec_endian(*self), i@.subrange(2 * k, 2 * k + 2)) as u16,
                        ));
                    }
                    Ok(Data::ShortVec(v))
                }
                None => Err(TiffError::EntryBroken(3)),
            },
            (DataType::LONG, 1u64) => match e.u32(i) {
                Some(v) => Ok(Data::Long(v)),
                None => Err(TiffError::EntryBroken(4)),
            },
            (DataType::LONG, n) => match e.u32_vec(n, i) {
                Some(v) => {
                    proof {
                        assert(v@ =~= Seq::new(
                            n as nat,
                            |k: int| word(spec_endian(*self), i@.subrange(4 * k, 4 * k + 4)) as u32,
                        ));
                    }
                    Ok(Data::LongVec(v))
                }
                None => Err(TiffError::EntryBroken(4)),
            },
            (DataType::LONG8, 1u64) => match e.u64(i) {
                Some(v) => Ok(Data::Long8(v)),
                None => Err(TiffError::EntryBroken(16)),
            },
            (DataType::LONG8, n) => match e.u64_vec(n, i) {
                Some(v) => {
                    proof {
                        assert(v@ =~= Seq::new(
                            n as nat,
                            |k: int| word(spec_endian(*self), i@.subrange(8 * k, 8 * k + 8)) as u64,
                        ));
                    }
                    Ok(Data::Long8Vec(v))
                }
                None => Err(TiffError::EntryBroken(16)),
            },
            (DataType::IFD8, 1u64) => match e.u64(i) {
                Some(v) => Ok(Data::Ifd8(v)),
                None => Err(TiffError::EntryBroken(18)),
            },
            (DataType::IFD8, n) => match e.u64_vec(n, i) {
                Some(v) => {
                    proof {
                        assert(v@ =~= Seq::new(
                            n as nat,
                            |k: int| word(spec_endian(*self), i@.subrange(8 * k, 8 * k + 8)) as u64,
                        ));
                    }
                    Ok(Data::Ifd8Vec(v))
                }
                None => Err(TiffError::EntryBroken(18)),
            },
            (DataType::ASCII, n) => match e.ascii(n, i) {
                Some(v) => Ok(Data::Ascii(v)),
                None => Err(TiffError::EntryBroken(2)),
            },
            (DataType::RATIONAL, 1u64) => match e.rational(i) {
                Some((numer, denom)) => Ok(Data::Rational { numer, denom }),
                None => Err(TiffError::EntryBroken(5)),
            },
            (DataType::RATIONAL, n) => match e.rational_vec(n, i) {
                Some(v) => {
                    proof {
                        assert(v@ =~= Seq::new(
                            n as nat,
                            |k: int|
                                (
                                    word(spec_endian(*self), i@.subrange(8 * k, 8 * k + 4)) as u32,
                                    word(
                                        spec_endian(*self),
                                        i@.subrange(8 * k + 4, 8 * k + 8),
                                    ) as u32,
                                ),
                        ));
                    }
                    Ok(Data::RationalVec(v))
                }
                None => Err(TiffError::EntryBroken(5)),
            },
            (other, _) => Err(TiffError::EntryBroken(other.as_u16())),
        }
    }
}

impl Parser {
    /// Decodes a directory body of `count` entries: inline values are
    /// materialized into the directory, out-of-line values are returned as an
    /// ordered load plan, and the trailing next-directory pointer is read.
    pub fn ifd_body(&self, count: u64, i: &[u8]) -> (r: Result<
        (Ifd, Vec<DataOffset>, Option<u64>),
        TiffError,
    >)
        ensures
            body_result_view(r) == spec_ifd_body(*self, count, i@),
    {
        if count > MAX_IFD_ENTRIES {
            return Err(TiffError::StructureBroken);
        }
        let size = self.size();
        let z = size.ent_size;
        let needed = count * z + size.next_ifd_ofs_size;
        if (i.len() as u64) < needed {
            return Err(TiffError::InsufficientBuffer(needed));
        }
        let e = self.endian();
        let n = count as usize;
        let zu = z as usize;
        let mut ifd = Ifd::new();
        let mut unloaded: Vec<DataOffset> = Vec::new();
        let mut j: usize = 0;
        while j < n
            invariant
                j <= n,
                n == count,
                count <= MAX_IFD_ENTRIES,
                z == spec_ent_size(*self),
                zu == z,
                e == spec_endian(*self),
                i@.len() >= count * z + spec_ptr_size(*self),
                spec_entries(*self, i@, j as nat) matches Ok(acc) && acc.0 == ifd@ && acc.1
                    == unloaded@,
            decreases n - j,
        {
            proof {
                lemma_pow256_values();
                assert((j + 1) * zu <= n * zu) by (nonlinear_arith)
                    requires
                        j < n,
                        0 <= zu,
                ;
                assert(n * zu == count * z);
            }
            let at = j * zu;
            let tag = e.word_at(i, at, 2) as u16;
            let code = e.word_at(i, at + 2, 2) as u16;
            proof {
                assert(at == (j as int) * spec_ent_size(*self));
                assert(spec_tag_at(*self, i@, j as int) == tag);
                assert(spec_code_at(*self, i@, j as int) == code);
            }
            match DataType::from_u16(code) {
                None => {
                    proof {
                        assert(spec_entries(*self, i@, (j + 1) as nat) matches Ok(acc) && acc.0
                            == ifd@ && acc.1 == unloaded@);
                    }
                }
                Some(dt) => {
                    let cnt = match *self {
                        Parser::Classic(_) => e.word_at(i, at + 4, 4),
                        Parser::Big(_) => e.word_at(i, at + 4, 8),
                    };
                    proof {
                        assert(spec_count_at(*self, i@, j as int) == cnt);
                    }
                    if cnt > MAX_IFD_ENTRIES {
                        proof {
                            assert(spec_entries(*self, i@, (j + 1) as nat) == Err::<
                                (Map<u16, DataView>, Seq<DataOffset>),
                                TiffError,
                            >(TiffError::StructureBroken));
                            lemma_entries_err(*self, i@, (j + 1) as nat, count as nat);
                        }
                        return Err(TiffError::StructureBroken);
                    }
                    let len = dt.size() * cnt;
                    let inline = match *self {
                        Parser::Classic(_) => 4u64,
                        Parser::Big(_) => 8u64,
                    };
                    if len <= inline {
                        let slot = match *self {
                            Parser::Classic(_) => vstd::slice::slice_subrange(i, at + 8, at + 12),
                            Parser::Big(_) => vstd::slice::slice_subrange(i, at + 12, at + 20),
                        };
                        proof {
                            assert(slot@ == spec_slot_at(*self, i@, j as int));
                        }
                        match self.entry(cnt, dt, slot) {
                            Ok(d) => {
                                ifd.insert(tag, d);
                                proof {
                                    assert(spec_entries(*self, i@, (j + 1) as nat) matches Ok(acc)
                                        && acc.0 == ifd@ && acc.1 == unloaded@);
                                }
                            }
                            Err(er) => {
                                proof {
                                    assert(spec_entries(*self, i@, (j + 1) as nat) == Err::<
                                        (Map<u16, DataView>, Seq<DataOffset>),
                                        TiffError,
                                    >(er));
                                    lemma_entries_err(*self, i@, (j + 1) as nat, count as nat);
                                }
                                return Err(er);
                            }
                        }
                    } else {
                        let offset = match *self {
                            Parser::Classic(_) => e.word_at(i, at + 8, 4),
                            Parser::Big(_) => e.word_at(i, at + 12, 8),
                        };
                        let rec = DataOffset { tag, count: cnt, data_type: dt, offset, length: len };
                        unloaded.push(rec);
                        proof {
                            assert(offset == word(spec_endian(*self), spec_slot_at(*self, i@, j as int)) as u64);
                            assert(spec_entries(*self, i@, (j + 1) as nat) matches Ok(acc) && acc.0
                                == ifd@ && acc.1 == unloaded@);
                        }
                    }
                }
            }
            j = j + 1;
        }
        let at = n * zu;
        let ptr = size.next_ifd_ofs_size as usize;
        proof {
            assert(n * zu == count * z);
        }
        let v = e.word_at(i, at, ptr);
        let next = if v == 0 {
            None
        } else {
            Some(v)
        };
        proof {
            assert(spec_next_ifd(*self, i@, count) == next);
        }
        Ok((ifd, unloaded, next))
    }
}

impl Size {
    /// The byte length of a directory body holding `c` entries: the entries
    /// themselves followed by the next-directory pointer.
    pub fn ifd_body(&self, c: u64) -> (r: u64)
        requires
            c * self.ent_size + self.next_ifd_ofs_size <= u64::MAX,
        ensures
            r == c * self.ent_size + self.next_ifd_ofs_size,
    {
        c * self.ent_size + self.next_ifd_ofs_size
    }
}

} // verus!
