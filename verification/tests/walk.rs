use eozin::data::Data;
use eozin::error::TiffError;
use eozin::ifd::Ifd;
use eozin::walker::TiffWalker;

// A minimal Classic little-endian container: one directory at offset 8 with
// an inline image-width entry and an out-of-line eight-byte description at
// offset 38, then the terminating zero pointer.
fn small_classic_tiff() -> Vec<u8> {
    let mut f = Vec::new();
    f.extend_from_slice(&[0x49, 0x49, 0x2A, 0x00]); // Intel, version 42
    f.extend_from_slice(&[0x08, 0x00, 0x00, 0x00]); // first directory at 8
    f.extend_from_slice(&[0x02, 0x00]); // two entries
    // tag 256, LONG, count 1, value 2220 (inline)
    f.extend_from_slice(&[0x00, 0x01, 0x04, 0x00, 0x01, 0x00, 0x00, 0x00, 0xAC, 0x08, 0x00, 0x00]);
    // tag 270, ASCII, count 8, at offset 38
    f.extend_from_slice(&[0x0E, 0x01, 0x02, 0x00, 0x08, 0x00, 0x00, 0x00, 0x26, 0x00, 0x00, 0x00]);
    f.extend_from_slice(&[0x00, 0x00, 0x00, 0x00]); // no next directory
    f.extend_from_slice(b"abcdefg\0"); // the out-of-line value
    f
}

fn walk_bytes(file: &[u8]) -> Result<Vec<Ifd>, TiffError> {
    let mut walker = TiffWalker::new();
    while !walker.finished() {
        let (start, end) = match walker.request() {
            Some(range) => range,
            None => break,
        };
        let buf = &file[start as usize..end as usize];
        walker.step(buf)?;
    }
    Ok(walker.into_tiff())
}

#[test]
fn walker_decodes_a_small_container() {
    let file = small_classic_tiff();
    let tiff = walk_bytes(&file).expect("the container decodes");
    assert_eq!(tiff.len(), 1);
    assert_eq!(tiff[0].get(256), Some(&Data::Long(2220)));
    assert_eq!(tiff[0].get(270), Some(&Data::Ascii(String::from("abcdefg\u{0}"))));
    assert_eq!(tiff[0].len(), 2);
}

#[test]
fn walker_requests_in_traversal_order() {
    let file = small_classic_tiff();
    let mut walker = TiffWalker::new();
    assert_eq!(walker.request(), Some((0, 16)));
    walker.step(&file[0..16]).expect("header");
    assert_eq!(walker.request(), Some((8, 10)));
    walker.step(&file[8..10]).expect("entry count");
    assert_eq!(walker.request(), Some((10, 38)));
    walker.step(&file[10..38]).expect("directory body");
    assert_eq!(walker.request(), Some((38, 46)));
    walker.step(&file[38..46]).expect("out-of-line value");
    assert!(walker.finished());
    assert_eq!(walker.request(), None);
}

#[test]
fn walker_rejects_a_broken_header() {
    let mut walker = TiffWalker::new();
    let junk = [0u8; 16];
    assert_eq!(walker.step(&junk), Err(TiffError::HeaderBroken));
    assert!(walker.finished());
}

#[test]
fn walker_refuses_a_directory_cycle() {
    // the directory's next pointer leads back to the directory itself
    let mut f = Vec::new();
    f.extend_from_slice(&[0x49, 0x49, 0x2A, 0x00]);
    f.extend_from_slice(&[0x08, 0x00, 0x00, 0x00]);
    f.extend_from_slice(&[0x01, 0x00]);
    f.extend_from_slice(&[0x00, 0x01, 0x04, 0x00, 0x01, 0x00, 0x00, 0x00, 0xAC, 0x08, 0x00, 0x00]);
    f.extend_from_slice(&[0x08, 0x00, 0x00, 0x00]); // next directory: 8 again
    assert!(matches!(walk_bytes(&f), Err(TiffError::StructureBroken)));
}

#[test]
fn walker_follows_two_directories() {
    // two one-entry directories: the first at 8 links to the second at 26
    let mut f = Vec::new();
    f.extend_from_slice(&[0x49, 0x49, 0x2A, 0x00]);
    f.extend_from_slice(&[0x08, 0x00, 0x00, 0x00]);
    // directory 1 at 8
    f.extend_from_slice(&[0x01, 0x00]);
    f.extend_from_slice(&[0x00, 0x01, 0x03, 0x00, 0x01, 0x00, 0x00, 0x00, 0x0A, 0x00, 0x00, 0x00]);
    f.extend_from_slice(&[0x1A, 0x00, 0x00, 0x00]); // next at 26
    // directory 2 at 26
    f.extend_from_slice(&[0x01, 0x00]);
    f.extend_from_slice(&[0x01, 0x01, 0x03, 0x00, 0x01, 0x00, 0x00, 0x00, 0x14, 0x00, 0x00, 0x00]);
    f.extend_from_slice(&[0x00, 0x00, 0x00, 0x00]);
    let tiff = walk_bytes(&f).expect("both directories decode");
    assert_eq!(tiff.len(), 2);
    assert_eq!(tiff[0].get(256), Some(&Data::Short(10)));
    assert_eq!(tiff[1].get(257), Some(&Data::Short(20)));
}

#[test]
fn walker_big_tiff_header() {
    // a BigTIFF whose first directory holds no entries
    let mut f = Vec::new();
    f.extend_from_slice(&[
        0x4D, 0x4D, 0x00, 0x2B, 0x00, 0x08, 0x00, 0x00, 0x00, 0x00, 0x00, 0x00, 0x00, 0x00, 0x00,
        0x10,
    ]);
    f.extend_from_slice(&[0x00, 0x00, 0x00, 0x00, 0x00, 0x00, 0x00, 0x00]); // zero entries
    f.extend_from_slice(&[0x00, 0x00, 0x00, 0x00, 0x00, 0x00, 0x00, 0x00]); // no next
    let tiff = walk_bytes(&f).expect("the empty directory decodes");
    assert_eq!(tiff.len(), 1);
    assert_eq!(tiff[0].len(), 0);
}

#[test]
fn walker_loads_values_in_plan_order() {
    // two out-of-line values: both are requested, in entry order
    let mut f = Vec::new();
    f.extend_from_slice(&[0x49, 0x49, 0x2A, 0x00]);
    f.extend_from_slice(&[0x08, 0x00, 0x00, 0x00]);
    f.extend_from_slice(&[0x02, 0x00]);
    // tag 324, LONG, count 2, at offset 38
    f.extend_from_slice(&[0x44, 0x01, 0x04, 0x00, 0x02, 0x00, 0x00, 0x00, 0x26, 0x00, 0x00, 0x00]);
    // tag 325, LONG, count 2, at offset 46
    f.extend_from_slice(&[0x45, 0x01, 0x04, 0x00, 0x02, 0x00, 0x00, 0x00, 0x2E, 0x00, 0x00, 0x00]);
    f.extend_from_slice(&[0x00, 0x00, 0x00, 0x00]);
    f.extend_from_slice(&[0x0A, 0x00, 0x00, 0x00, 0x14, 0x00, 0x00, 0x00]); // offsets 10, 20
    f.extend_from_slice(&[0x01, 0x00, 0x00, 0x00, 0x02, 0x00, 0x00, 0x00]); // counts 1, 2
    let tiff = walk_bytes(&f).expect("the container decodes");
    assert_eq!(tiff.len(), 1);
    assert_eq!(tiff[0].get(324), Some(&Data::LongVec(vec![10, 20])));
    assert_eq!(tiff[0].get(325), Some(&Data::LongVec(vec![1, 2])));
}
