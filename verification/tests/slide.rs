use eozin::aperio::{is_leica, level_count, Aperio, Tile};
use eozin::data::Data;
use eozin::eozin::Eozin;
use eozin::error::EozinError;
use eozin::ifd::Ifd;
use eozin::jpeg::set_app14_as_unknown;
use eozin::property::{has_tiled_image, tiled_ifd};
use eozin::region::RegionHelper;

fn level_ifd(compression: u16, jpeg_tables: Option<Vec<u8>>) -> Ifd {
    // a 2220 by 2220 level tiled 240 by 240: ceil(2220/240) = 10, 100 tiles
    let mut ifd = Ifd::new();
    ifd.insert(256, Data::Long(2220));
    ifd.insert(257, Data::Long(2220));
    ifd.insert(322, Data::Long(240));
    ifd.insert(323, Data::Long(240));
    ifd.insert(259, Data::Short(compression));
    let mut offsets = Vec::new();
    let mut counts = Vec::new();
    for k in 0..100u64 {
        offsets.push(1000 * k);
        counts.push(500 + k);
    }
    ifd.insert(324, Data::Long8Vec(offsets));
    ifd.insert(325, Data::Long8Vec(counts));
    if let Some(tables) = jpeg_tables {
        ifd.insert(347, Data::UndefinedVec(tables));
    }
    ifd
}

#[test]
fn tiled_ifd_reads_the_six_tags() {
    let ifd = level_ifd(7, None);
    let t = tiled_ifd(&ifd).expect("directory qualifies");
    assert_eq!((t.width, t.height), (2220, 2220));
    assert_eq!((t.tile_width, t.tile_height), (240, 240));
    assert_eq!(t.offsets.len(), 100);
    assert_eq!(t.byte_counts.len(), 100);
}

#[test]
fn tiled_ifd_rejects_mismatched_tables() {
    let mut ifd = level_ifd(7, None);
    ifd.insert(324, Data::Long8Vec(vec![1, 2, 3]));
    assert!(tiled_ifd(&ifd).is_none());
    let mut plain = Ifd::new();
    plain.insert(256, Data::Long(10));
    assert!(tiled_ifd(&plain).is_none());
}

#[test]
fn open_counts_levels_and_caches_geometry() {
    let mut plain = Ifd::new();
    plain.insert(256, Data::Long(1));
    let tiff = vec![level_ifd(7, None), plain, level_ifd(7, None)];
    assert_eq!(level_count(&tiff), 2);
    let a = Aperio::from_tiff(tiff).expect("two levels");
    assert_eq!(a.level_count, 2);
    assert_eq!(a.dimensions, (2220, 2220));
    assert_eq!(a.level_dimensions, vec![(2220, 2220), (2220, 2220)]);
    assert_eq!(a.level_tile_sizes, vec![(240, 240), (240, 240)]);
}

#[test]
fn open_without_tiled_directory_is_not_a_wsi() {
    let mut plain = Ifd::new();
    plain.insert(256, Data::Long(1));
    match Aperio::from_tiff(vec![plain]) {
        Err(e) => assert_eq!(e, EozinError::NotAWsi),
        Ok(_) => panic!("a plain directory must not open"),
    }
}

#[test]
fn tile_index_is_row_major() {
    // tile (x=3, y=2) of a 10-across grid is tile 23
    let a = Aperio::from_tiff(vec![level_ifd(33003, None)]).expect("one level");
    let (addr, len) = a.tile_read_plan(0, 3, 2).expect("tile in range");
    assert_eq!(addr, 23 * 1000);
    assert_eq!(len, 500 + 23);
}

#[test]
fn tile_plan_out_of_index() {
    let a = Aperio::from_tiff(vec![level_ifd(33003, None)]).expect("one level");
    assert_eq!(a.tile_read_plan(1, 0, 0), Err(EozinError::OutOfIndex));
    assert_eq!(a.tile_read_plan(0, 0, 10), Err(EozinError::OutOfIndex));
    assert_eq!(a.tile_read_plan(0, 9, 9), Ok((99 * 1000, 599)));
}

#[test]
fn assemble_jpeg_concatenates_tables_and_tile() {
    let tables = vec![0xFF, 0xD8, 0x01, 0x02, 0xFF, 0xD9];
    let a = Aperio::from_tiff(vec![level_ifd(7, Some(tables))]).expect("one level");
    let buf = vec![0xFF, 0xD8, 0xAA, 0xBB];
    let tile = a.assemble_tile(0, buf).expect("jpeg tile");
    // len(T) - 2 + len(buf) - 2, starting with T minus its end-of-image marker
    assert_eq!(tile.buffer(), &vec![0xFF, 0xD8, 0x01, 0x02, 0xAA, 0xBB]);
    assert!(matches!(tile, Tile::Jpeg(_)));
}

#[test]
fn assemble_jp2k_passes_through() {
    let a = Aperio::from_tiff(vec![level_ifd(33003, None)]).expect("one level");
    let tile = a.assemble_tile(0, vec![9, 8, 7]).expect("jp2k tile");
    assert_eq!(tile.buffer(), &vec![9, 8, 7]);
    assert!(matches!(tile, Tile::Jp2k(_)));
    let b = Aperio::from_tiff(vec![level_ifd(33005, None)]).expect("one level");
    let tile = b.assemble_tile(0, vec![1]).expect("jp2k tile");
    assert_eq!(tile.buffer(), &vec![1]);
}

#[test]
fn assemble_unknown_compression() {
    // compression 7 without tables, and an unknown code, are both refused
    let a = Aperio::from_tiff(vec![level_ifd(7, None)]).expect("one level");
    match a.assemble_tile(0, vec![0xFF, 0xD8, 0xAA]) {
        Err(e) => assert_eq!(e, EozinError::UnknownCompression(7)),
        Ok(_) => panic!("compression 7 without tables must be refused"),
    }
    let b = Aperio::from_tiff(vec![level_ifd(5, None)]).expect("one level");
    match b.assemble_tile(0, vec![1, 2, 3]) {
        Err(e) => assert_eq!(e, EozinError::UnknownCompression(5)),
        Ok(_) => panic!("unknown compression must be refused"),
    }
}

#[test]
fn assemble_insufficient_tile() {
    let tables = vec![0xFF, 0xD8, 0x01, 0x02, 0xFF, 0xD9];
    let a = Aperio::from_tiff(vec![level_ifd(7, Some(tables))]).expect("one level");
    match a.assemble_tile(0, vec![0xFF]) {
        Err(e) => assert_eq!(e, EozinError::InsufficientTile),
        Ok(_) => panic!("a one-byte payload must be refused"),
    }
}

#[test]
fn region_planner_sample_window() {
    // the 256-tile window from (100, 50) to (600, 300)
    let h = RegionHelper::new(256, 256, 100, 600, 50, 300);
    let qs = h.query();
    assert_eq!(qs.len(), 6);
    assert_eq!(qs[0], ((0, 0), Some((100, 50, 256, 256)), (0, 0)));
    assert_eq!(qs[1], ((1, 0), Some((0, 50, 256, 256)), (156, 0)));
    assert_eq!(qs[2], ((2, 0), Some((0, 50, 88, 256)), (412, 0)));
    assert_eq!(qs[3], ((0, 1), Some((100, 0, 256, 44)), (0, 206)));
    assert_eq!(qs[4], ((1, 1), Some((0, 0, 256, 44)), (156, 206)));
    assert_eq!(qs[5], ((2, 1), Some((0, 0, 88, 44)), (412, 206)));
}

#[test]
fn region_planner_full_tile_has_no_crop() {
    // a window spanning three tiles in each direction uses the middle whole
    let h = RegionHelper::new(10, 10, 5, 25, 5, 25);
    let qs = h.query();
    assert_eq!(qs.len(), 9);
    assert_eq!(qs[4], ((1, 1), None, (5, 5)));
}

#[test]
fn region_planner_tile_aligned_window() {
    // an exactly tile-aligned window emits whole-tile crop boxes only
    let h = RegionHelper::new(16, 16, 16, 48, 0, 16);
    let qs = h.query();
    assert_eq!(qs.len(), 2);
    assert_eq!(qs[0], ((1, 0), Some((0, 0, 16, 16)), (0, 0)));
    assert_eq!(qs[1], ((2, 0), Some((0, 0, 16, 16)), (16, 0)));
}

#[test]
fn region_planner_empty_window() {
    let h = RegionHelper::new(64, 64, 128, 128, 0, 0);
    assert_eq!(h.query().len(), 0);
}

#[test]
fn read_region_plan_checks_bounds() {
    let z = Eozin::from_tiff(vec![level_ifd(7, None)]).expect("one level");
    let qs = z.read_region_plan((100, 50), 0, (500, 250)).expect("window in bounds");
    assert_eq!(qs.len(), 6);
    assert_eq!(z.read_region_plan((0, 0), 1, (1, 1)), Err(EozinError::OutOfIndex));
    assert_eq!(z.read_region_plan((2220, 0), 0, (1, 1)), Err(EozinError::OutOfIndex));
    assert_eq!(z.read_region_plan((0, 0), 0, (2221, 1)), Err(EozinError::OutOfIndex));
    let whole = z.read_region_plan((0, 0), 0, (2220, 2220)).expect("whole level");
    assert_eq!(whole.len(), 100);
}

#[test]
fn eozin_facade_mirrors_aperio() {
    let z = Eozin::from_tiff(vec![level_ifd(33003, None)]).expect("one level");
    assert_eq!(z.level_count, 1);
    assert_eq!(z.dimensions, (2220, 2220));
    assert_eq!(z.level_dimensions, vec![(2220, 2220)]);
    assert_eq!(z.level_tile_sizes, vec![(240, 240)]);
    assert_eq!(z.tile_read_plan(0, 3, 2), Ok((23000, 523)));
    let tile = z.assemble_tile(0, vec![4, 5]).expect("jp2k tile");
    assert_eq!(tile.buffer(), &vec![4, 5]);
}

#[test]
fn fixup_rewrites_transform_to_unknown() {
    // an APP14 segment with transform YCCK: byte 15 becomes zero
    let mut stream = vec![
        0xFF, 0xEE, 0x00, 0x0E, 0x41, 0x64, 0x6F, 0x62, 0x65, 0x00, 0x64, 0x00, 0x00, 0x00, 0x00,
        0x02,
    ];
    set_app14_as_unknown(&mut stream);
    assert_eq!(stream.len(), 16);
    assert_eq!(stream[15], 0x00);
    assert_eq!(&stream[..15], &[
        0xFF, 0xEE, 0x00, 0x0E, 0x41, 0x64, 0x6F, 0x62, 0x65, 0x00, 0x64, 0x00, 0x00, 0x00, 0x00,
    ]);
}

#[test]
fn fixup_splices_before_last_huffman_marker() {
    let mut stream = vec![0x00, 0xFF, 0xC4, 0x12];
    set_app14_as_unknown(&mut stream);
    assert_eq!(stream.len(), 20);
    let expected = vec![
        0x00, 0xFF, 0xEE, 0x00, 0x0E, 0x41, 0x64, 0x6F, 0x62, 0x65, 0x00, 0x64, 0x00, 0x00, 0x00,
        0x00, 0x00, 0xFF, 0xC4, 0x12,
    ];
    assert_eq!(stream, expected);
}

#[test]
fn fixup_is_idempotent_on_concrete_streams() {
    let mut spliced = vec![0x00, 0xFF, 0xC4, 0x12];
    set_app14_as_unknown(&mut spliced);
    let once = spliced.clone();
    set_app14_as_unknown(&mut spliced);
    assert_eq!(spliced, once);

    let mut rewritten = vec![
        0xFF, 0xEE, 0x00, 0x0E, 0x41, 0x64, 0x6F, 0x62, 0x65, 0x00, 0x64, 0x00, 0x00, 0x00, 0x00,
        0x02,
    ];
    set_app14_as_unknown(&mut rewritten);
    let once = rewritten.clone();
    set_app14_as_unknown(&mut rewritten);
    assert_eq!(rewritten, once);
}

#[test]
fn fixup_leaves_plain_streams_alone() {
    let mut stream = vec![0x01, 0x02, 0x03, 0xFF, 0xD9];
    set_app14_as_unknown(&mut stream);
    assert_eq!(stream, vec![0x01, 0x02, 0x03, 0xFF, 0xD9]);
    let mut empty: Vec<u8> = Vec::new();
    set_app14_as_unknown(&mut empty);
    assert!(empty.is_empty());
}

#[test]
fn fixup_applies_at_open_time() {
    // the level's stored tables end with transform Unknown after open
    let tables = vec![
        0xFF, 0xEE, 0x00, 0x0E, 0x41, 0x64, 0x6F, 0x62, 0x65, 0x00, 0x64, 0x00, 0x00, 0x00, 0x00,
        0x02, 0xFF, 0xD9,
    ];
    let a = Aperio::from_tiff(vec![level_ifd(7, Some(tables))]).expect("one level");
    let tile = a.assemble_tile(0, vec![0xFF, 0xD8]).expect("jpeg tile");
    // tables minus the trailing end-of-image marker, transform now zero
    assert_eq!(tile.buffer()[15], 0x00);
    assert_eq!(tile.buffer().len(), 16);
}

#[test]
fn leica_probe_matches_namespace() {
    let namespace = "<scn xmlns=\"http://www.leica-microsystems.com/scn/2010/10/01\"/>\u{0}";
    let mut ifd = level_ifd(7, None);
    ifd.insert(270, Data::Ascii(String::from(namespace)));
    assert!(is_leica(&vec![ifd]));

    let old_namespace = "<scn xmlns=\"http://www.leica-microsystems.com/scn/2010/03/10\"/>";
    let mut ifd = level_ifd(7, None);
    ifd.insert(270, Data::Ascii(String::from(old_namespace)));
    assert!(is_leica(&vec![ifd]));
}

#[test]
fn leica_probe_rejects_others() {
    // no description at all
    assert!(!is_leica(&vec![level_ifd(7, None)]));
    // a description naming another vendor
    let mut ifd = level_ifd(7, None);
    ifd.insert(270, Data::Ascii(String::from("Aperio Image Library")));
    assert!(!is_leica(&vec![ifd]));
    // the namespace on a directory without tiles
    let mut plain = Ifd::new();
    plain.insert(
        270,
        Data::Ascii(String::from("http://www.leica-microsystems.com/scn/2010/10/01")),
    );
    assert!(!is_leica(&vec![plain]));
    // an empty container
    assert!(!is_leica(&Vec::new()));
}

#[test]
fn has_tiled_image_checks_the_tag() {
    assert!(has_tiled_image(&level_ifd(7, None)));
    assert!(!has_tiled_image(&Ifd::new()));
}

#[test]
fn ifd_map_replaces_on_repeated_tag() {
    let mut ifd = Ifd::new();
    assert_eq!(ifd.len(), 0);
    assert!(!ifd.contains_key(259));
    ifd.insert(259, Data::Short(7));
    ifd.insert(259, Data::Short(5));
    assert_eq!(ifd.len(), 1);
    assert_eq!(ifd.get(259), Some(&Data::Short(5)));
    assert_eq!(ifd.get(260), None);
}

#[test]
fn tile_index_only_checks_the_linear_bound() {
    // the lookup linearizes (x, y) row-major and checks only the resulting
    // index against the tables, so a column past the row width reaches the
    // next row's tiles
    let a = Aperio::from_tiff(vec![level_ifd(33003, None)]).expect("one level");
    assert_eq!(a.tile_read_plan(0, 12, 0), a.tile_read_plan(0, 2, 1));
    assert_eq!(a.tile_read_plan(0, 0, 9), Ok((90 * 1000, 590)));
    assert_eq!(a.tile_read_plan(0, 10, 9), Err(EozinError::OutOfIndex));
}

#[test]
fn region_planner_single_tile_window() {
    // a window strictly inside one tile crops that tile alone
    let h = RegionHelper::new(100, 100, 30, 70, 10, 20);
    let qs = h.query();
    assert_eq!(qs.len(), 1);
    assert_eq!(qs[0], ((0, 0), Some((30, 10, 70, 20)), (0, 0)));
}
