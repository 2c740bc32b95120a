//! The view of one image file directory as a tiled pyramid level.

use crate::data::{Data, DataView};
use crate::ifd::Ifd;
use crate::tag::{IMAGE_LENGTH, IMAGE_WIDTH, TILE_BYTE_COUNTS, TILE_LENGTH, TILE_OFFSETS, TILE_WIDTH};
use vstd::prelude::*;

verus! {

/// One tiled level: its dimensions, its tile size, and the parallel tables
/// of tile payload offsets and byte counts, in row-major tile order.
pub struct TiledIfd {
    pub width: u64,
    pub height: u64,
    pub tile_width: u64,
    pub tile_height: u64,
    pub offsets: Vec<u64>,
    pub byte_counts: Vec<u64>,
}

/// The mathematical shape of a tiled level.
pub struct TiledIfdView {
    pub width: u64,
    pub height: u64,
    pub tile_width: u64,
    pub tile_height: u64,
    pub offsets: Seq<u64>,
    pub byte_counts: Seq<u64>,
}

impl View for TiledIfd {
    type V = TiledIfdView;

    open spec fn view(&self) -> TiledIfdView {
        TiledIfdView {
            width: self.width,
            height: self.height,
            tile_width: self.tile_width,
            tile_height: self.tile_height,
            offsets: self.offsets@,
            byte_counts: self.byte_counts@,
        }
    }
}

/// `a / b` rounded up.
pub open spec fn ceil_div(a: int, b: int) -> int {
    (a + b - 1) / b
}

impl TiledIfd {
    /// How many tiles the grid holds: columns times rows.
    pub open spec fn spec_tile_count(self) -> int {
        ceil_div(self.width as int, self.tile_width as int) * ceil_div(
            self.height as int,
            self.tile_height as int,
        )
    }

    /// Well-formedness: positive tile sizes, and offset and byte-count
    /// tables that are parallel and exactly cover the tile grid.
    pub open spec fn wf(self) -> bool {
        &&& 1 <= self.tile_width
        &&& 1 <= self.tile_height
        &&& self.offsets@.len() == self.byte_counts@.len()
        &&& self.offsets@.len() == self.spec_tile_count()
    }
}

/// For every level, the offset table and the byte-count table have the same
/// length, and that length is the tile count of the grid: the number of tile
/// columns times the number of tile rows, each rounded up.
pub proof fn lemma_tables_cover_grid(t: TiledIfd)
    requires
        t.wf(),
    ensures
        t.offsets@.len() == t.byte_counts@.len(),
        t.offsets@.len() == ceil_div(t.width as int, t.tile_width as int) * ceil_div(
            t.height as int,
            t.tile_height as int,
        ),
{
}

/// The unsigned 64-bit reading of a scalar entry value, if it has one.
pub open spec fn spec_to_u64(v: DataView) -> Option<u64> {
    match v {
        DataView::Undefined(b) => Some(b as u64),
        DataView::Byte(b) => Some(b as u64),
        DataView::Short(b) => Some(b as u64),
        DataView::Long(b) => Some(b as u64),
        DataView::Long8(b) => Some(b),
        _ => None,
    }
}

/// The unsigned 64-bit vector reading of an entry value, if it has one.
pub open spec fn spec_u64vec(v: DataView) -> Option<Seq<u64>> {
    match v {
        DataView::LongVec(s) => Some(Seq::new(s.len(), |k: int| s[k] as u64)),
        DataView::Long8Vec(s) => Some(s),
        _ => None,
    }
}

/// The byte-vector reading of an entry value, if it has one.
pub open spec fn spec_u8vec(v: DataView) -> Option<Seq<u8>> {
    match v {
        DataView::UndefinedVec(s) => Some(s),
        DataView::ByteVec(s) => Some(s),
        _ => None,
    }
}

/// The 16-bit reading of an entry value, if it is a scalar short.
pub open spec fn spec_expect_short(v: DataView) -> Option<u16> {
    match v {
        DataView::Short(b) => Some(b),
        _ => None,
    }
}

/// The unsigned 64-bit reading a tag of the directory yields, if any.
pub open spec fn spec_tag_u64(m: Map<u16, DataView>, tag: u16) -> Option<u64> {
    if m.dom().contains(tag) {
        spec_to_u64(m[tag])
    } else {
        None
    }
}

/// The unsigned 64-bit vector reading a tag of the directory yields, if any.
pub open spec fn spec_tag_u64vec(m: Map<u16, DataView>, tag: u16) -> Option<Seq<u64>> {
    if m.dom().contains(tag) {
        spec_u64vec(m[tag])
    } else {
        None
    }
}

/// Whether a directory describes a well-formed tiled level: the six tags are
/// present and readable, the tile sizes are positive, and the two tables
/// have exactly one entry per grid tile.
pub open spec fn spec_tiled_ifd_ok(m: Map<u16, DataView>) -> bool {
    &&& spec_tag_u64(m, IMAGE_WIDTH) is Some
    &&& spec_tag_u64(m, IMAGE_LENGTH) is Some
    &&& spec_tag_u64(m, TILE_WIDTH) matches Some(tw) && 1 <= tw
    &&& spec_tag_u64(m, TILE_LENGTH) matches Some(th) && 1 <= th
    &&& spec_tag_u64vec(m, TILE_OFFSETS) is Some
    &&& spec_tag_u64vec(m, TILE_BYTE_COUNTS) is Some
    &&& spec_tag_u64vec(m, TILE_OFFSETS)->Some_0.len() == spec_tag_u64vec(
        m,
        TILE_BYTE_COUNTS,
    )->Some_0.len()
    &&& spec_tag_u64vec(m, TILE_OFFSETS)->Some_0.len() == ceil_div(
        spec_tag_u64(m, IMAGE_WIDTH)->Some_0 as int,
        spec_tag_u64(m, TILE_WIDTH)->Some_0 as int,
    ) * ceil_div(
        spec_tag_u64(m, IMAGE_LENGTH)->Some_0 as int,
        spec_tag_u64(m, TILE_LENGTH)->Some_0 as int,
    )
}

/// The tiled level a qualifying directory describes.
pub open spec fn spec_tiled_ifd_of(m: Map<u16, DataView>) -> TiledIfdView {
    TiledIfdView {
        width: spec_tag_u64(m, IMAGE_WIDTH)->Some_0,
        height: spec_tag_u64(m, IMAGE_LENGTH)->Some_0,
        tile_width: spec_tag_u64(m, TILE_WIDTH)->Some_0,
        tile_height: spec_tag_u64(m, TILE_LENGTH)->Some_0,
        offsets: spec_tag_u64vec(m, TILE_OFFSETS)->Some_0,
        byte_counts: spec_tag_u64vec(m, TILE_BYTE_COUNTS)->Some_0,
    }
}

/// The unsigned 64-bit reading of a scalar entry value.
pub fn to_u64(d: &Data) -> (r: Option<u64>)
    ensures
        r == spec_to_u64(d@),
{
    match d {
        Data::Undefined(b) => Some(*b as u64),
        Data::Byte(b) => Some(*b as u64),
        Data::Short(b) => Some(*b as u64),
        Data::Long(b) => Some(*b as u64),
        Data::Long8(b) => Some(*b),
        _ => None,
    }
}

/// The unsigned 64-bit vector reading of an entry value: a vector of
/// four-byte words is widened, a vector of eight-byte words is copied.
pub fn u64vec(d: &Data) -> (r: Option<Vec<u64>>)
    ensures
        match r {
            Some(v) => spec_u64vec(d@) == Some(v@),
            None => spec_u64vec(d@) is None,
        },
{
    match d {
        Data::LongVec(v) => {
            let n = v.len();
            let mut out: Vec<u64> = Vec::new();
            let mut k: usize = 0;
            while k < n
                invariant
                    k <= n == v@.len(),
                    out@.len() == k,
                    forall|m: int| 0 <= m < k ==> out@[m] == v@[m] as u64,
                decreases n - k,
            {
                let x = v[k];
                out.push(x as u64);
                k = k + 1;
            }
            proof {
                assert(out@ =~= Seq::new(v@.len(), |m: int| v@[m] as u64));
            }
            Some(out)
        }
        Data::Long8Vec(v) => {
            let n = v.len();
            let mut out: Vec<u64> = Vec::new();
            let mut k: usize = 0;
            while k < n
                invariant
                    k <= n == v@.len(),
                    out@ == v@.subrange(0, k as int),
                decreases n - k,
            {
                let x = v[k];
                out.push(x);
                k = k + 1;
                proof {
                    assert(out@ =~= v@.subrange(0, k as int));
                }
            }
            proof {
                assert(out@ =~= v@);
            }
            Some(out)
        }
        _ => None,
    }
}

/// The byte-vector reading of an entry value.
pub fn u8vec(d: &Data) -> (r: Option<&Vec<u8>>)
    ensures
        match r {
            Some(v) => spec_u8vec(d@) == Some(v@),
            None => spec_u8vec(d@) is None,
        },
{
    match d {
        Data::UndefinedVec(v) => Some(v),
        Data::ByteVec(v) => Some(v),
        _ => None,
    }
}

/// The 16-bit reading of an entry value that is a scalar short.
pub fn expect_short(d: &Data) -> (r: Option<u16>)
    ensures
        r == spec_expect_short(d@),
{
    match d {
        Data::Short(b) => Some(*b),
        _ => None,
    }
}

/// Reads a directory as a tiled level: dimensions from the image width and
/// length tags, tile sizes, and the two parallel tables. Yields the level
/// exactly when the directory qualifies, so every level is well formed.
pub fn tiled_ifd(ifd: &Ifd) -> (r: Option<TiledIfd>)
    ensures
        r is Some <==> spec_tiled_ifd_ok(ifd@),
        r matches Some(t) ==> t@ == spec_tiled_ifd_of(ifd@) && t.wf(),
{
    let width = match ifd.get(IMAGE_WIDTH) {
        Some(d) => match to_u64(d) {
            Some(v) => v,
            None => {
                return None;
            }
        },
        None => {
            return None;
        }
    };
    let height = match ifd.get(IMAGE_LENGTH) {
        Some(d) => match to_u64(d) {
            Some(v) => v,
            None => {
                return None;
            }
        },
        None => {
            return None;
        }
    };
    let tile_width = match ifd.get(TILE_WIDTH) {
        Some(d) => match to_u64(d) {
            Some(v) => v,
            None => {
                return None;
            }
        },
        None => {
            return None;
        }
    };
    let tile_height = match ifd.get(TILE_LENGTH) {
        Some(d) => match to_u64(d) {
            Some(v) => v,
            None => {
                return None;
            }
        },
        None => {
            return None;
        }
    };
    if tile_width < 1 || tile_height < 1 {
        return None;
    }
    let offsets = match ifd.get(TILE_OFFSETS) {
        Some(d) => match u64vec(d) {
            Some(v) => v,
            None => {
                return None;
            }
        },
        None => {
            return None;
        }
    };
    let byte_counts = match ifd.get(TILE_BYTE_COUNTS) {
        Some(d) => match u64vec(d) {
            Some(v) => v,
            None => {
                return None;
            }
        },
        None => {
            return None;
        }
    };
    if offsets.len() != byte_counts.len() {
        return None;
    }
    let across = ((width as u128) + (tile_width as u128) - 1) / (tile_width as u128);
    let down = ((height as u128) + (tile_height as u128) - 1) / (tile_height as u128);
    proof {
        lemma_ceil_div_bound(width as int, tile_width as int);
        lemma_ceil_div_bound(height as int, tile_height as int);
        assert(across * down <= u128::MAX) by (nonlinear_arith)
            requires
                0 <= across < 0x1_0000_0000_0000_0000,
                0 <= down < 0x1_0000_0000_0000_0000,
        ;
    }
    let expected = across * down;
    if (offsets.len() as u128) != expected {
        return None;
    }
    Some(TiledIfd { width, height, tile_width, tile_height, offsets, byte_counts })
}

/// Rounding `a / b` up never exceeds the larger of `a` and zero.
pub proof fn lemma_ceil_div_bound(a: int, b: int)
    requires
        0 <= a < 0x1_0000_0000_0000_0000,
        1 <= b,
    ensures
        0 <= ceil_div(a, b) < 0x1_0000_0000_0000_0000,
{
    vstd::arithmetic::div_mod::lemma_div_pos_is_pos(a + b - 1, b);
    if a == 0 {
        vstd::arithmetic::div_mod::lemma_basic_div(b - 1, b);
    } else {
        assert(a + b - 1 <= a * b) by (nonlinear_arith)
            requires
                1 <= a,
                1 <= b,
        ;
        vstd::arithmetic::div_mod::lemma_div_is_ordered(a + b - 1, a * b, b);
        vstd::arithmetic::div_mod::lemma_div_by_multiple(a, b);
    }
}

/// Whether the directory carries a tile-offset table at all.
pub fn has_tiled_image(d: &Ifd) -> (r: bool)
    ensures
        r == d@.dom().contains(TILE_OFFSETS),
{
    d.contains_key(TILE_OFFSETS)
}

} // verus!
