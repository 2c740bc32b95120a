//! The whole-slide-image overlay: the pyramid of tiled levels of an Aperio
//! container, tile payload lookup and reconstruction, region planning, and
//! the Leica compatibility probe.

use crate::data::{Data, DataView};
use crate::error::EozinError;
use crate::ifd::Ifd;
use crate::jpeg::{fixup_spec, set_app14_as_unknown};
use crate::property::{
    ceil_div, expect_short, spec_expect_short, spec_tiled_ifd_of, spec_tiled_ifd_ok, spec_u8vec,
    tiled_ifd, u8vec, TiledIfd,
};
use crate::region::{spec_region_helper, RegionHelper, TileQuery};
use crate::tag::{COMPRESSION, IMAGE_DESCRIPTION, JPEG_TABLES, TILE_OFFSETS};
use vstd::prelude::*;

verus! {

/// A compressed tile payload, ready for an outside decoder: a standalone
/// JPEG, or a JPEG 2000 codestream returned verbatim.
#[non_exhaustive]
pub enum Tile {
    Jpeg(Vec<u8>),
    Jp2k(Vec<u8>),
}

impl Tile {
    /// The bytes a tile carries, whatever its codec.
    pub open spec fn spec_buffer(&self) -> Seq<u8> {
        match self {
            Tile::Jpeg(v) => v@,
            Tile::Jp2k(v) => v@,
        }
    }

    /// The bytes a tile carries, whatever its codec.
    pub fn buffer(&self) -> (r: &Vec<u8>)
        ensures
            r@ == self.spec_buffer(),
    {
        match self {
            Tile::Jpeg(v) => v,
            Tile::Jp2k(v) => v,
        }
    }
}

/// One pyramid level: its compression code, the fixed shared JPEG tables
/// stream when the directory carries one, and the tiled directory view.
pub struct AperioLevel {
    pub compression: u16,
    pub jpeg_tables: Option<Vec<u8>>,
    pub t: TiledIfd,
}

/// The mathematical shape of one pyramid level.
pub struct AperioLevelView {
    pub compression: u16,
    pub jpeg_tables: Option<Seq<u8>>,
    pub t: crate::property::TiledIfdView,
}

impl View for AperioLevel {
    type V = AperioLevelView;

    open spec fn view(&self) -> AperioLevelView {
        AperioLevelView {
            compression: self.compression,
            jpeg_tables: match self.jpeg_tables {
                Some(v) => Some(v@),
                None => None,
            },
            t: self.t@,
        }
    }
}

/// Whether a directory yields a pyramid level: it has a tile-offset table,
/// a scalar short compression code, and a well-formed tiled view.
pub open spec fn spec_qualifies(m: Map<u16, DataView>) -> bool {
    &&& m.dom().contains(TILE_OFFSETS)
    &&& m.dom().contains(COMPRESSION)
    &&& spec_expect_short(m[COMPRESSION]) is Some
    &&& spec_tiled_ifd_ok(m)
}

/// The level a qualifying directory yields: the JPEG tables stream, if one
/// is carried as bytes, is taken with its APP14 segment already normalized.
pub open spec fn spec_level_of(m: Map<u16, DataView>) -> AperioLevelView {
    AperioLevelView {
        compression: spec_expect_short(m[COMPRESSION])->Some_0,
        jpeg_tables: if m.dom().contains(JPEG_TABLES) && spec_u8vec(m[JPEG_TABLES]) is Some {
            Some(fixup_spec(spec_u8vec(m[JPEG_TABLES])->Some_0))
        } else {
            None
        },
        t: spec_tiled_ifd_of(m),
    }
}

/// The levels of a directory sequence, in file order.
pub open spec fn spec_levels(tiff: Seq<Ifd>) -> Seq<AperioLevelView>
    decreases tiff.len(),
{
    if tiff.len() == 0 {
        Seq::empty()
    } else {
        spec_levels(tiff.drop_last()) + if spec_qualifies(tiff.last()@) {
            seq![spec_level_of(tiff.last()@)]
        } else {
            Seq::empty()
        }
    }
}

/// What tile reconstruction yields for level `lv` and fetched payload
/// `buf`. With shared JPEG tables and TIFF JPEG compression (code 7) the
/// result is the tables minus their trailing end-of-image marker followed by
/// the payload minus its leading start-of-image marker; a payload or table
/// stream too short for its marker is refused. JPEG 2000 payloads (codes
/// 33003 and 33005) pass through verbatim; any other code is refused.
pub open spec fn spec_assemble_post(
    levels: Seq<AperioLevel>,
    lv: int,
    buf: Seq<u8>,
    r: Result<Tile, EozinError>,
) -> bool {
    &&& lv >= levels.len() ==> r == Err::<Tile, EozinError>(EozinError::OutOfIndex)
    &&& lv < levels.len() ==> {
        let level = levels[lv];
        match level.jpeg_tables {
            Some(tb) => {
                &&& level.compression == 7 && tb@.len() >= 2 && buf.len() >= 2 ==> (
                r matches Ok(t) && t is Jpeg && t.spec_buffer() == tb@.subrange(0, tb@.len() - 2)
                    + buf.subrange(2, buf.len() as int))
                &&& level.compression == 7 && (tb@.len() < 2 || buf.len() < 2) ==> r == Err::<
                    Tile,
                    EozinError,
                >(EozinError::InsufficientTile)
                &&& level.compression != 7 && (level.compression == 33003 || level.compression
                    == 33005) ==> (r matches Ok(t) && t is Jp2k && t.spec_buffer() == buf)
                &&& level.compression != 7 && level.compression != 33003 && level.compression
                    != 33005 ==> r == Err::<Tile, EozinError>(
                    EozinError::UnknownCompression(level.compression),
                )
            },
            None => {
                &&& level.compression == 33003 || level.compression == 33005 ==> (r matches Ok(t)
                    && t is Jp2k && t.spec_buffer() == buf)
                &&& level.compression != 33003 && level.compression != 33005 ==> r == Err::<
                    Tile,
                    EozinError,
                >(EozinError::UnknownCompression(level.compression))
            },
        }
    }
}

/// An opened Aperio container: the decoded directories, the pyramid levels,
/// and the level geometry served to callers.
pub struct Aperio {
    pub data: Vec<Ifd>,
    pub levels: Vec<AperioLevel>,
    pub level_count: u64,
    pub dimensions: (u64, u64),
    pub level_dimensions: Vec<(u64, u64)>,
    pub level_tile_sizes: Vec<(u64, u64)>,
}

impl Aperio {
    /// Well-formedness: the cached geometry mirrors the levels one for one,
    /// every level's tiled view is well formed, and the dimensions are those
    /// of the first level.
    pub open spec fn wf(self) -> bool {
        &&& 1 <= self.levels@.len()
        &&& self.level_count == self.levels@.len()
        &&& self.level_dimensions@.len() == self.levels@.len()
        &&& self.level_tile_sizes@.len() == self.levels@.len()
        &&& forall|k: int| 0 <= k < self.levels@.len() ==> (#[trigger] self.levels@[k]).t.wf()
        &&& forall|k: int|
            0 <= k < self.levels@.len() ==> self.level_dimensions@[k] == ((
            #[trigger] self.levels@[k]).t.width, self.levels@[k].t.height)
        &&& forall|k: int|
            0 <= k < self.levels@.len() ==> self.level_tile_sizes@[k] == ((
            #[trigger] self.levels@[k]).t.tile_width, self.levels@[k].t.tile_height)
        &&& self.dimensions == (self.levels@[0].t.width, self.levels@[0].t.height)
    }

    /// Assembles the pyramid from decoded directories: every directory that
    /// qualifies yields one level, in file order; a container without a
    /// single level is not a whole slide image.
    pub fn from_tiff(data: Vec<Ifd>) -> (r: Result<Aperio, EozinError>)
        ensures
            r is Ok <==> spec_levels(data@).len() > 0,
            r matches Ok(a) ==> {
                &&& a.wf()
                &&& a.data@ == data@
                &&& a.levels@.len() == spec_levels(data@).len()
                &&& forall|k: int|
                    0 <= k < a.levels@.len() ==> (#[trigger] a.levels@[k])@ == spec_levels(
                        data@,
                    )[k]
            },
            r matches Err(e) ==> e == EozinError::NotAWsi,
    {
        let n = data.len();
        let mut levels: Vec<AperioLevel> = Vec::new();
        let mut level_dimensions: Vec<(u64, u64)> = Vec::new();
        let mut level_tile_sizes: Vec<(u64, u64)> = Vec::new();
        let mut i: usize = 0;
        while i < n
            invariant
                i <= n == data@.len(),
                levels@.len() == spec_levels(data@.subrange(0, i as int)).len(),
                forall|k: int|
                    0 <= k < levels@.len() ==> (#[trigger] levels@[k])@ == spec_levels(
                        data@.subrange(0, i as int),
                    )[k],
                forall|k: int| 0 <= k < levels@.len() ==> (#[trigger] levels@[k]).t.wf(),
                level_dimensions@.len() == levels@.len(),
                level_tile_sizes@.len() == levels@.len(),
                forall|k: int|
                    0 <= k < levels@.len() ==> level_dimensions@[k] == ((
                    #[trigger] levels@[k]).t.width, levels@[k].t.height),
                forall|k: int|
                    0 <= k < levels@.len() ==> level_tile_sizes@[k] == ((
                    #[trigger] levels@[k]).t.tile_width, levels@[k].t.tile_height),
            decreases n - i,
        {
            let ifd = &data[i];
            proof {
                assert(data@.subrange(0, i + 1).drop_last() =~= data@.subrange(0, i as int));
                assert(data@.subrange(0, i + 1).last() == data@[i as int]);
            }
            if ifd.contains_key(TILE_OFFSETS) {
                let maybe_cmp = match ifd.get(COMPRESSION) {
                    Some(d) => expect_short(d),
                    None => None,
                };
                let jpeg_tables: Option<Vec<u8>> = match ifd.get(JPEG_TABLES) {
                    Some(d) => match u8vec(d) {
                        Some(v) => {
                            let mut copy = copy_bytes(v);
                            set_app14_as_unknown(&mut copy);
                            Some(copy)
                        }
                        None => None,
                    },
                    None => None,
                };
                let maybe_t = tiled_ifd(ifd);
                match (maybe_cmp, maybe_t) {
                    (Some(compression), Some(t)) => {
                        level_dimensions.push((t.width, t.height));
                        level_tile_sizes.push((t.tile_width, t.tile_height));
                        let lv = AperioLevel { compression, jpeg_tables, t };
                        levels.push(lv);
                        proof {
                            assert(spec_qualifies(data@[i as int]@));
                            assert(levels@.last()@ == spec_level_of(data@[i as int]@));
                            assert(spec_levels(data@.subrange(0, i + 1)) =~= spec_levels(
                                data@.subrange(0, i as int),
                            ) + seq![spec_level_of(data@[i as int]@)]);
                        }
                    }
                    _ => {
                        proof {
                            assert(!spec_qualifies(data@[i as int]@));
                            assert(spec_levels(data@.subrange(0, i + 1)) =~= spec_levels(
                                data@.subrange(0, i as int),
                            ));
                        }
                    }
                }
            } else {
                proof {
                    assert(!spec_qualifies(data@[i as int]@));
                    assert(spec_levels(data@.subrange(0, i + 1)) =~= spec_levels(
                        data@.subrange(0, i as int),
                    ));
                }
            }
            i = i + 1;
        }
        proof {
            assert(data@.subrange(0, n as int) =~= data@);
        }
        if levels.len() == 0 {
            return Err(EozinError::NotAWsi);
        }
        let dimensions = level_dimensions[0];
        let level_count = levels.len() as u64;
        Ok(Aperio { data, levels, level_count, dimensions, level_dimensions, level_tile_sizes })
    }

    /// The byte range of tile `(x, y)` of a level: the offset and byte count
    /// stored for the tile's row-major index. Fails exactly when the level
    /// or the computed index is outside the known grid.
    pub fn tile_read_plan(&self, lv: usize, x: usize, y: usize) -> (r: Result<
        (u64, u64),
        EozinError,
    >)
        requires
            self.wf(),
        ensures
            r is Ok <==> lv < self.levels@.len() && {
                let t = self.levels@[lv as int].t;
                ceil_div(t.width as int, t.tile_width as int) * y + x < t.offsets@.len()
            },
            r matches Ok(p) ==> {
                let t = self.levels@[lv as int].t;
                let id = ceil_div(t.width as int, t.tile_width as int) * y + x;
                p.0 == t.offsets@[id] && p.1 == t.byte_counts@[id]
            },
            r matches Err(e) ==> e == EozinError::OutOfIndex,
    {
        if lv >= self.levels.len() {
            return Err(EozinError::OutOfIndex);
        }
        let t = &self.levels[lv].t;
        let num_tiles_across = (((t.width as u128) + (t.tile_width as u128) - 1) / (
        t.tile_width as u128)) as u128;
        proof {
            crate::property::lemma_ceil_div_bound(t.width as int, t.tile_width as int);
            assert(num_tiles_across * (y as u128) + (x as u128) < u128::MAX) by (nonlinear_arith)
                requires
                    0 <= num_tiles_across < 0x1_0000_0000_0000_0000,
                    0 <= (y as u128) < 0x1_0000_0000_0000_0000,
                    0 <= (x as u128) < 0x1_0000_0000_0000_0000,
            ;
        }
        let tile_id = num_tiles_across * (y as u128) + (x as u128);
        if tile_id >= (t.offsets.len() as u128) {
            return Err(EozinError::OutOfIndex);
        }
        let id = tile_id as usize;
        Ok((t.offsets[id], t.byte_counts[id]))
    }

    /// Reconstructs the deliverable tile from a fetched payload. With shared
    /// JPEG tables and TIFF JPEG compression the payload is the tables minus
    /// their trailing end-of-image marker, followed by the tile minus its
    /// leading start-of-image marker. JPEG 2000 payloads pass through
    /// verbatim; any other compression code is refused.
    pub fn assemble_tile(&self, lv: usize, buf: Vec<u8>) -> (r: Result<Tile, EozinError>)
        requires
            self.wf(),
        ensures
            spec_assemble_post(self.levels@, lv as int, buf@, r),
    {
        if lv >= self.levels.len() {
            return Err(EozinError::OutOfIndex);
        }
        let level = &self.levels[lv];
        let has_tables = level.jpeg_tables.is_some();
        if has_tables && level.compression == 7 {
            let tables = match &level.jpeg_tables {
                Some(tb) => tb,
                None => {
                    return Err(EozinError::InsufficientTile);
                }
            };
            if tables.len() < 2 || buf.len() < 2 {
                return Err(EozinError::InsufficientTile);
            }
            let head = tables.len() - 2;
            let mut out: Vec<u8> = Vec::new();
            let mut m: usize = 0;
            while m < head
                invariant
                    m <= head,
                    head == tables@.len() - 2,
                    out@ == tables@.subrange(0, m as int),
                decreases head - m,
            {
                let b = tables[m];
                out.push(b);
                m = m + 1;
                proof {
                    assert(out@ =~= tables@.subrange(0, m as int));
                }
            }
            let n = buf.len();
            let mut m: usize = 2;
            while m < n
                invariant
                    2 <= m <= n == buf@.len(),
                    head == tables@.len() - 2,
                    out@ == tables@.subrange(0, head as int) + buf@.subrange(2, m as int),
                decreases n - m,
            {
                let b = buf[m];
                out.push(b);
                m = m + 1;
                proof {
                    assert(out@ =~= tables@.subrange(0, head as int) + buf@.subrange(2, m as int));
                }
            }
            proof {
                assert(out@ =~= tables@.subrange(0, head as int) + buf@.subrange(
                    2,
                    buf@.len() as int,
                ));
            }
            Ok(Tile::Jpeg(out))
        } else if level.compression == 33003 || level.compression == 33005 {
            Ok(Tile::Jp2k(buf))
        } else {
            Err(EozinError::UnknownCompression(level.compression))
        }
    }

    /// Plans a region read: checks the window against the level bounds and
    /// decomposes it along the level's tile grid.
    pub fn read_region_plan(
        &self,
        location: (usize, usize),
        level: usize,
        size: (usize, usize),
    ) -> (r: Result<Vec<TileQuery>, EozinError>)
        requires
            self.wf(),
        ensures
            r is Ok <==> level < self.levels@.len() && {
                let t = self.levels@[level as int].t;
                location.0 + size.0 <= t.width && location.1 + size.1 <= t.height
            },
            r matches Ok(qs) ==> {
                let t = self.levels@[level as int].t;
                qs@ == spec_region_helper(
                    t.tile_width,
                    t.tile_height,
                    location.0 as u64,
                    (location.0 + size.0) as u64,
                    location.1 as u64,
                    (location.1 + size.1) as u64,
                ).spec_plan()
            },
            r matches Err(e) ==> e == EozinError::OutOfIndex,
    {
        if level >= self.levels.len() {
            return Err(EozinError::OutOfIndex);
        }
        let t = &self.levels[level].t;
        let x0 = location.0 as u64;
        let y0 = location.1 as u64;
        if x0 > t.width || y0 > t.height {
            return Err(EozinError::OutOfIndex);
        }
        if (size.0 as u64) > t.width - x0 || (size.1 as u64) > t.height - y0 {
            return Err(EozinError::OutOfIndex);
        }
        let x1 = x0 + size.0 as u64;
        let y1 = y0 + size.1 as u64;
        let helper = RegionHelper::new(t.tile_width, t.tile_height, x0, x1, y0, y1);
        Ok(helper.query())
    }
}

/// Copies a byte vector.
fn copy_bytes(v: &Vec<u8>) -> (r: Vec<u8>)
    ensures
        r@ == v@,
{
    let n = v.len();
    let mut out: Vec<u8> = Vec::new();
    let mut k: usize = 0;
    while k < n
        invariant
            k <= n == v@.len(),
            out@ == v@.subrange(0, k as int),
        decreases n - k,
    {
        let b = v[k];
        out.push(b);
        k = k + 1;
        proof {
            assert(out@ =~= v@.subrange(0, k as int));
        }
    }
    proof {
        assert(out@ =~= v@);
    }
    out
}

/// For every opened container, the cached level count equals the length of
/// the level-dimension table and the length of the level-tile-size table.
pub proof fn lemma_level_tables_aligned(a: Aperio)
    requires
        a.wf(),
    ensures
        a.level_count == a.level_dimensions@.len(),
        a.level_dimensions@.len() == a.level_tile_sizes@.len(),
{
}

/// Whether `needle` occurs as a contiguous run of characters in `hay`.
pub open spec fn contains_seq(hay: Seq<char>, needle: Seq<char>) -> bool {
    exists|k: int|
        0 <= k <= hay.len() - needle.len() && #[trigger] hay.subrange(k, k + needle.len())
            == needle
}

/// Whether `hay` holds `needle` as a substring, by character comparison.
fn contains_literal(hay: &str, needle: &str) -> (r: bool)
    ensures
        r == contains_seq(hay@, needle@),
{
    let h = hay.unicode_len();
    let n = needle.unicode_len();
    if n > h {
        return false;
    }
    let mut k: usize = 0;
    while k <= h - n
        invariant
            n <= h == hay@.len(),
            n == needle@.len(),
            k <= h - n + 1,
            forall|m: int| 0 <= m < k ==> #[trigger] hay@.subrange(m, m + needle@.len()) != needle@,
        decreases h - n - k + 1,
    {
        let mut t: usize = 0;
        let mut matches = true;
        while matches && t < n
            invariant
                n <= h == hay@.len(),
                n == needle@.len(),
                k <= h - n,
                t <= n,
                matches ==> forall|m: int| 0 <= m < t ==> hay@[k + m] == needle@[m],
                !matches ==> t < n && hay@[k + t] != needle@[t as int],
            decreases n - t + (if matches { 1int } else { 0int }),
        {
            if hay.get_char(k + t) != needle.get_char(t) {
                matches = false;
            } else {
                t = t + 1;
            }
        }
        if matches {
            proof {
                assert(hay@.subrange(k as int, k + needle@.len()) =~= needle@);
            }
            return true;
        }
        proof {
            if hay@.subrange(k as int, k + needle@.len()) == needle@ {
                assert(hay@.subrange(k as int, k + needle@.len())[t as int] == hay@[k + t]);
            }
        }
        k = k + 1;
    }
    proof {
        if contains_seq(hay@, needle@) {
            let w = choose|w: int|
                0 <= w <= hay@.len() - needle@.len() && #[trigger] hay@.subrange(
                    w,
                    w + needle@.len(),
                ) == needle@;
            assert(hay@.subrange(w, w + needle@.len()) != needle@);
        }
    }
    false
}

/// Whether the container is a Leica slide: the first directory is tiled and
/// its image description holds one of the two Leica XML namespace literals.
pub open spec fn spec_is_leica(tiff: Seq<Ifd>) -> bool {
    &&& tiff.len() > 0
    &&& tiff[0]@.dom().contains(TILE_OFFSETS)
    &&& tiff[0]@.dom().contains(IMAGE_DESCRIPTION)
    &&& tiff[0]@[IMAGE_DESCRIPTION] matches DataView::Ascii(s) && (contains_seq(
        s,
        "http://www.leica-microsystems.com/scn/2010/03/10"@,
    ) || contains_seq(s, "http://www.leica-microsystems.com/scn/2010/10/01"@))
}

/// Probes for Leica compatibility: the first directory must carry a
/// tile-offset table and an image description naming one of the two Leica
/// XML namespaces.
pub fn is_leica(tiff: &Vec<Ifd>) -> (r: bool)
    ensures
        r == spec_is_leica(tiff@),
{
    if tiff.len() == 0 {
        return false;
    }
    let ifd = &tiff[0];
    if !ifd.contains_key(TILE_OFFSETS) {
        return false;
    }
    match ifd.get(IMAGE_DESCRIPTION) {
        Some(Data::Ascii(s)) => {
            let first = contains_literal(
                s.as_str(),
                "http://www.leica-microsystems.com/scn/2010/03/10",
            );
            let second = contains_literal(
                s.as_str(),
                "http://www.leica-microsystems.com/scn/2010/10/01",
            );
            first || second
        }
        _ => false,
    }
}

/// How many directories of the sequence carry a tile-offset table.
pub open spec fn spec_tiled_count(tiff: Seq<Ifd>) -> int
    decreases tiff.len(),
{
    if tiff.len() == 0 {
        0int
    } else {
        spec_tiled_count(tiff.drop_last()) + if tiff.last()@.dom().contains(TILE_OFFSETS) {
            1int
        } else {
            0int
        }
    }
}

/// Counts the directories that carry a tile-offset table.
pub fn level_count(tiff: &Vec<Ifd>) -> (r: u64)
    ensures
        r == spec_tiled_count(tiff@),
{
    let n = tiff.len();
    let mut c: u64 = 0;
    let mut i: usize = 0;
    while i < n
        invariant
            i <= n == tiff@.len(),
            c == spec_tiled_count(tiff@.subrange(0, i as int)),
            c <= i,
        decreases n - i,
    {
        proof {
            assert(tiff@.subrange(0, i + 1).drop_last() =~= tiff@.subrange(0, i as int));
            assert(tiff@.subrange(0, i + 1).last() == tiff@[i as int]);
        }
        if crate::property::has_tiled_image(&tiff[i]) {
            c = c + 1;
        }
        i = i + 1;
    }
    proof {
        assert(tiff@.subrange(0, n as int) =~= tiff@);
    }
    c
}

} // verus!
