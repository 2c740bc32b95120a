use eozin::bytes::Bytes;
use eozin::data::{Data, DataType};
use eozin::error::TiffError;
use eozin::parser::{DataOffset, Parser};

#[test]
fn parser_test_header_classic_intel() {
    let buf = [0x49, 0x49, 0x2A, 0x00, 0x09, 0x00, 0x00, 0x00];
    let result = Parser::header(&buf);
    match result {
        Ok((parser, next_ifd)) => {
            assert_eq!(parser, Parser::Classic(Bytes::Intel));
            assert_eq!(next_ifd, 9);
        }
        _ => {
            assert!(false, "Failed to parse header");
        }
    }
}

#[test]
fn decoder_test_header_classic_intel() {
    let buf = [0x49, 0x49, 0x2A, 0x00, 0x09, 0x00, 0x00, 0x00];
    let actual = Parser::header(&buf);
    match actual {
        Ok((parser, next_ifd)) => {
            assert_eq!(parser, Parser::Classic(Bytes::Intel));
            assert_eq!(next_ifd, 9);
        }
        _ => {
            assert!(false, "Failed to parse header");
        }
    }
}

#[test]
fn header_big_moto() {
    let buf = [
        0x4D, 0x4D, 0x00, 0x2B, 0x00, 0x08, 0x00, 0x00, 0x00, 0x00, 0x00, 0x00, 0x00, 0x00, 0x00,
        0x10,
    ];
    assert_eq!(Parser::header(&buf), Ok((Parser::Big(Bytes::Moto), 16)));
}

#[test]
fn header_unknown_endian() {
    let buf = [0x4A, 0x49, 0x2A, 0x00, 0x09, 0x00, 0x00, 0x00];
    assert_eq!(Parser::header(&buf), Err(TiffError::HeaderBroken));
}

#[test]
fn header_unknown_version() {
    let buf = [0x49, 0x49, 0x2C, 0x00, 0x09, 0x00, 0x00, 0x00];
    assert_eq!(Parser::header(&buf), Err(TiffError::HeaderBroken));
}

#[test]
fn header_bad_bigtiff_placeholder() {
    let buf = [
        0x4D, 0x4D, 0x00, 0x2B, 0x00, 0x07, 0x00, 0x00, 0x00, 0x00, 0x00, 0x00, 0x00, 0x00, 0x00,
        0x10,
    ];
    assert_eq!(Parser::header(&buf), Err(TiffError::HeaderBroken));
}

#[test]
fn header_too_short() {
    assert_eq!(Parser::header(&[0x49]), Err(TiffError::InsufficientBuffer(2)));
    let six = [0x49, 0x49, 0x2A, 0x00, 0x09, 0x00];
    assert_eq!(Parser::header(&six), Err(TiffError::InsufficientBuffer(8)));
    let big_short = [0x4D, 0x4D, 0x00, 0x2B, 0x00, 0x08, 0x00, 0x00];
    assert_eq!(Parser::header(&big_short), Err(TiffError::InsufficientBuffer(16)));
}

#[test]
fn bytes_u16_both_orders() {
    assert_eq!(Bytes::Intel.u16(&[0xCD, 0xAB]), Some(0xABCD));
    assert_eq!(Bytes::Moto.u16(&[0xCD, 0xAB]), Some(0xCDAB));
    assert_eq!(Bytes::Intel.u16(&[0x01]), None);
}

#[test]
fn bytes_u32_both_orders() {
    assert_eq!(Bytes::Intel.u32(&[0x78, 0x56, 0x34, 0x12]), Some(0x12345678));
    assert_eq!(Bytes::Moto.u32(&[0x12, 0x34, 0x56, 0x78]), Some(0x12345678));
    assert_eq!(Bytes::Moto.u32(&[0x12, 0x34, 0x56]), None);
}

#[test]
fn bytes_u64_both_orders() {
    let le = [0xEF, 0xCD, 0xAB, 0x89, 0x67, 0x45, 0x23, 0x01];
    assert_eq!(Bytes::Intel.u64(&le), Some(0x0123456789ABCDEF));
    let be = [0x01, 0x23, 0x45, 0x67, 0x89, 0xAB, 0xCD, 0xEF];
    assert_eq!(Bytes::Moto.u64(&be), Some(0x0123456789ABCDEF));
    assert_eq!(Bytes::Intel.u64(&le[..7]), None);
}

#[test]
fn bytes_round_trip_concrete() {
    // decode(encode(v)) == v for a value encoded by hand in both orders
    let v: u64 = 0xA1B2C3D4E5F60708;
    let le = v.to_le_bytes();
    let be = v.to_be_bytes();
    assert_eq!(Bytes::Intel.u64(&le), Some(v));
    assert_eq!(Bytes::Moto.u64(&be), Some(v));
    let w: u16 = 0xBEEF;
    assert_eq!(Bytes::Intel.u16(&w.to_le_bytes()), Some(w));
    assert_eq!(Bytes::Moto.u16(&w.to_be_bytes()), Some(w));
    let x: u32 = 0xCAFEBABE;
    assert_eq!(Bytes::Intel.u32(&x.to_le_bytes()), Some(x));
    assert_eq!(Bytes::Moto.u32(&x.to_be_bytes()), Some(x));
}

#[test]
fn bytes_vectors() {
    assert_eq!(Bytes::Intel.u16_vec(2, &[0x01, 0x00, 0x02, 0x00]), Some(vec![1u16, 2u16]));
    assert_eq!(Bytes::Intel.u16_vec(3, &[0x01, 0x00, 0x02, 0x00]), None);
    assert_eq!(Bytes::Moto.u32_vec(1, &[0x00, 0x00, 0x01, 0x00]), Some(vec![256u32]));
    assert_eq!(Bytes::Intel.u8_vec(3, &[7, 8, 9, 10]), Some(vec![7u8, 8, 9]));
    assert_eq!(Bytes::Intel.u8_vec(5, &[7, 8, 9, 10]), None);
    assert_eq!(
        Bytes::Intel.u64_vec(1, &[1, 0, 0, 0, 0, 0, 0, 0]),
        Some(vec![1u64])
    );
}

#[test]
fn bytes_ascii_keeps_every_byte() {
    assert_eq!(Bytes::Intel.ascii(3, b"abc"), Some(String::from("abc")));
    assert_eq!(Bytes::Intel.ascii(4, b"abc"), None);
    assert_eq!(Bytes::Intel.ascii(2, &[0x61, 0x00]), Some(String::from("a\u{0}")));
}

#[test]
fn bytes_rational_pairs() {
    let buf = [0x01, 0x00, 0x00, 0x00, 0x02, 0x00, 0x00, 0x00];
    assert_eq!(Bytes::Intel.rational(&buf), Some((1, 2)));
    assert_eq!(Bytes::Intel.rational(&buf[..7]), None);
    let two = [
        0x01, 0x00, 0x00, 0x00, 0x02, 0x00, 0x00, 0x00, 0x03, 0x00, 0x00, 0x00, 0x04, 0x00, 0x00,
        0x00,
    ];
    assert_eq!(Bytes::Intel.rational_vec(2, &two), Some(vec![(1, 2), (3, 4)]));
    assert_eq!(Bytes::Intel.rational_vec(3, &two), None);
}

#[test]
fn data_type_codes() {
    assert_eq!(DataType::from_u16(1), Some(DataType::BYTE));
    assert_eq!(DataType::from_u16(3), Some(DataType::SHORT));
    assert_eq!(DataType::from_u16(16), Some(DataType::LONG8));
    assert_eq!(DataType::from_u16(13), None);
    assert_eq!(DataType::from_u16(0), None);
    assert_eq!(DataType::SHORT.as_u16(), 3);
    assert_eq!(DataType::IFD8.as_u16(), 18);
    assert_eq!(DataType::BYTE.size(), 1);
    assert_eq!(DataType::SHORT.size(), 2);
    assert_eq!(DataType::LONG.size(), 4);
    assert_eq!(DataType::RATIONAL.size(), 8);
    assert_eq!(DataType::DOUBLE.size(), 8);
}

#[test]
fn parser_sizes() {
    let c = Parser::Classic(Bytes::Intel).size();
    assert_eq!((c.ifd_header, c.ent_size, c.next_ifd_ofs_size), (2, 12, 4));
    assert_eq!(c.ifd_body(5), 5 * 12 + 4);
    let b = Parser::Big(Bytes::Moto).size();
    assert_eq!((b.ifd_header, b.ent_size, b.next_ifd_ofs_size), (8, 20, 8));
    assert_eq!(b.ifd_body(5), 5 * 20 + 8);
}

#[test]
fn parser_ifd_count() {
    let p = Parser::Classic(Bytes::Intel);
    assert_eq!(p.ifd_count(&[0x03, 0x00]), Ok(3));
    assert_eq!(p.ifd_count(&[0x03]), Err(TiffError::InsufficientBuffer(2)));
    let b = Parser::Big(Bytes::Moto);
    assert_eq!(b.ifd_count(&[0, 0, 0, 0, 0, 0, 0, 9]), Ok(9));
    assert_eq!(b.ifd_count(&[0, 0, 0]), Err(TiffError::InsufficientBuffer(8)));
}

#[test]
fn parser_entry_materialization() {
    let p = Parser::Classic(Bytes::Intel);
    assert_eq!(p.entry(1, DataType::SHORT, &[0x07, 0x00]), Ok(Data::Short(7)));
    assert_eq!(
        p.entry(2, DataType::SHORT, &[0x07, 0x00, 0x08, 0x00]),
        Ok(Data::ShortVec(vec![7, 8]))
    );
    assert_eq!(p.entry(1, DataType::LONG, &[0xAC, 0x08, 0x00, 0x00]), Ok(Data::Long(2220)));
    assert_eq!(p.entry(1, DataType::BYTE, &[0x2A]), Ok(Data::Byte(42)));
    assert_eq!(p.entry(3, DataType::UNDEFINED, &[1, 2, 3]), Ok(Data::UndefinedVec(vec![1, 2, 3])));
    assert_eq!(
        p.entry(4, DataType::ASCII, &[0x61, 0x62, 0x63, 0x00]),
        Ok(Data::Ascii(String::from("abc\u{0}")))
    );
    // signed and floating-point entries are reported broken, with the code
    assert_eq!(p.entry(1, DataType::SBYTE, &[0x01]), Err(TiffError::EntryBroken(6)));
    assert_eq!(p.entry(1, DataType::FLOAT, &[0, 0, 0, 0]), Err(TiffError::EntryBroken(11)));
    // a short buffer is a broken entry too
    assert_eq!(p.entry(1, DataType::SHORT, &[0x07]), Err(TiffError::EntryBroken(3)));
}

#[test]
fn parser_ifd_body_inline_and_unloaded() {
    // two entries: an inline LONG 2220 under tag 256, and an out-of-line
    // eight-byte ASCII under tag 270 at offset 38; next directory at 0
    let p = Parser::Classic(Bytes::Intel);
    let body = [
        0x00, 0x01, 0x04, 0x00, 0x01, 0x00, 0x00, 0x00, 0xAC, 0x08, 0x00, 0x00, // entry 1
        0x0E, 0x01, 0x02, 0x00, 0x08, 0x00, 0x00, 0x00, 0x26, 0x00, 0x00, 0x00, // entry 2
        0x00, 0x00, 0x00, 0x00, // next directory pointer
    ];
    let (ifd, unloaded, next) = p.ifd_body(2, &body).expect("body should parse");
    assert_eq!(next, None);
    assert_eq!(ifd.len(), 1);
    assert_eq!(ifd.get(256), Some(&Data::Long(2220)));
    assert_eq!(unloaded.len(), 1);
    assert_eq!(
        unloaded[0],
        DataOffset { tag: 270, count: 8, data_type: DataType::ASCII, offset: 38, length: 8 }
    );
}

#[test]
fn parser_ifd_body_skips_unknown_type() {
    // one entry of unknown type code 255: skipped silently; next at 0x40
    let p = Parser::Classic(Bytes::Intel);
    let body = [
        0x00, 0x01, 0xFF, 0x00, 0x01, 0x00, 0x00, 0x00, 0xAC, 0x08, 0x00, 0x00, // entry 1
        0x40, 0x00, 0x00, 0x00, // next directory pointer
    ];
    let (ifd, unloaded, next) = p.ifd_body(1, &body).expect("body should parse");
    assert_eq!(ifd.len(), 0);
    assert_eq!(unloaded.len(), 0);
    assert_eq!(next, Some(0x40));
}

#[test]
fn parser_ifd_body_guards() {
    let p = Parser::Classic(Bytes::Intel);
    assert!(matches!(p.ifd_body(0x10_0001, &[]), Err(TiffError::StructureBroken)));
    assert!(matches!(p.ifd_body(1, &[0u8; 4]), Err(TiffError::InsufficientBuffer(16))));
}

#[test]
fn error_descriptions() {
    assert_eq!(TiffError::HeaderBroken.describe(), "tiff header broken");
    assert_eq!(TiffError::InsufficientBuffer(8).describe(), "buffer length not enough");
    assert_eq!(
        eozin::error::EozinError::NotAWsi.describe(),
        "not a whole slide image"
    );
    assert_eq!(
        eozin::error::EozinError::from(TiffError::StructureBroken),
        eozin::error::EozinError::Tiff(TiffError::StructureBroken)
    );
}

#[test]
fn parser_ifd_body_big_flavor() {
    // one BigTIFF entry: tag 324, LONG8, count 1, value 7 in the inline slot
    let p = Parser::Big(Bytes::Moto);
    let body = [
        0x01, 0x44, 0x00, 0x10, 0x00, 0x00, 0x00, 0x00, 0x00, 0x00, 0x00, 0x01, 0x00, 0x00, 0x00,
        0x00, 0x00, 0x00, 0x00, 0x07, // entry 1
        0x00, 0x00, 0x00, 0x00, 0x00, 0x00, 0x00, 0x00, // next directory pointer
    ];
    let (ifd, unloaded, next) = p.ifd_body(1, &body).expect("body should parse");
    assert_eq!(ifd.get(324), Some(&Data::Long8(7)));
    assert_eq!(unloaded.len(), 0);
    assert_eq!(next, None);
}
