//! The front door of the reader: a facade that dispatches on the container
//! format and caches the pyramid geometry. Aperio is the one format served.

use crate::aperio::{spec_assemble_post, spec_levels, Aperio, Tile};
use crate::error::EozinError;
use crate::ifd::Ifd;
use crate::property::ceil_div;
use crate::region::{spec_region_helper, TileQuery};
use vstd::prelude::*;

verus! {

/// The supported container formats.
pub enum Format {
    FormatAperio(Aperio),
}

/// An opened slide: the format-specific reader and the cached geometry.
pub struct Eozin {
    pub format: Format,
    pub level_count: u64,
    pub dimensions: (u64, u64),
    pub level_dimensions: Vec<(u64, u64)>,
    pub level_tile_sizes: Vec<(u64, u64)>,
}

impl Eozin {
    /// The Aperio reader behind the facade.
    pub open spec fn aperio(self) -> Aperio {
        match self.format {
            Format::FormatAperio(a) => a,
        }
    }

    /// Well-formedness: the cached geometry is the reader's.
    pub open spec fn wf(self) -> bool {
        &&& self.aperio().wf()
        &&& self.level_count == self.aperio().level_count
        &&& self.dimensions == self.aperio().dimensions
        &&& self.level_dimensions@ == self.aperio().level_dimensions@
        &&& self.level_tile_sizes@ == self.aperio().level_tile_sizes@
    }

    /// Opens the decoded directories as a slide.
    pub fn from_tiff(data: Vec<Ifd>) -> (r: Result<Eozin, EozinError>)
        ensures
            r is Ok <==> spec_levels(data@).len() > 0,
            r matches Ok(z) ==> {
                &&& z.wf()
                &&& z.aperio().data@ == data@
                &&& z.aperio().levels@.len() == spec_levels(data@).len()
                &&& forall|k: int|
                    0 <= k < z.aperio().levels@.len() ==> (#[trigger] z.aperio().levels@[k])@
                        == spec_levels(data@)[k]
            },
            r matches Err(e) ==> e == EozinError::NotAWsi,
    {
        match Aperio::from_tiff(data) {
            Ok(a) => {
                let level_count = a.level_count;
                let dimensions = a.dimensions;
                let level_dimensions = copy_pairs(&a.level_dimensions);
                let level_tile_sizes = copy_pairs(&a.level_tile_sizes);
                Ok(
                    Eozin {
                        level_count,
                        dimensions,
                        level_dimensions,
                        level_tile_sizes,
                        format: Format::FormatAperio(a),
                    },
                )
            }
            Err(e) => Err(e),
        }
    }

    /// The byte range of tile `(x, y)` of a level; see the Aperio reader.
    pub fn tile_read_plan(&self, lv: usize, x: usize, y: usize) -> (r: Result<
        (u64, u64),
        EozinError,
    >)
        requires
            self.wf(),
        ensures
            r is Ok <==> lv < self.aperio().levels@.len() && {
                let t = self.aperio().levels@[lv as int].t;
                ceil_div(t.width as int, t.tile_width as int) * y + x < t.offsets@.len()
            },
            r matches Ok(p) ==> {
                let t = self.aperio().levels@[lv as int].t;
                let id = ceil_div(t.width as int, t.tile_width as int) * y + x;
                p.0 == t.offsets@[id] && p.1 == t.byte_counts@[id]
            },
            r matches Err(e) ==> e == EozinError::OutOfIndex,
    {
        match &self.format {
            Format::FormatAperio(a) => a.tile_read_plan(lv, x, y),
        }
    }

    /// Reconstructs the deliverable tile from a fetched payload; see the
    /// Aperio reader.
    pub fn assemble_tile(&self, lv: usize, buf: Vec<u8>) -> (r: Result<Tile, EozinError>)
        requires
            self.wf(),
        ensures
            spec_assemble_post(self.aperio().levels@, lv as int, buf@, r),
    {
        match &self.format {
            Format::FormatAperio(a) => a.assemble_tile(lv, buf),
        }
    }

    /// Plans a region read against a level's bounds and tile grid; see the
    /// Aperio reader.
    pub fn read_region_plan(
        &self,
        location: (usize, usize),
        level: usize,
        size: (usize, usize),
    ) -> (r: Result<Vec<TileQuery>, EozinError>)
        requires
            self.wf(),
        ensures
            r is Ok <==> level < self.aperio().levels@.len() && {
                let t = self.aperio().levels@[level as int].t;
                location.0 + size.0 <= t.width && location.1 + size.1 <= t.height
            },
            r matches Ok(qs) ==> {
                let t = self.aperio().levels@[level as int].t;
                qs@ == spec_region_helper(
                    t.tile_width,
                    t.tile_height,
                    location.0 as u64,
                    (location.0 + size.0) as u64,
                    location.1 as u64,
                    (location.1 + size.1) as u64,
                ).spec_plan()
            },
            r matches Err(e) ==> e == EozinError::OutOfIndex,
    {
        match &self.format {
            Format::FormatAperio(a) => a.read_region_plan(location, level, size),
        }
    }
}

/// Copies a vector of pairs.
fn copy_pairs(v: &Vec<(u64, u64)>) -> (r: Vec<(u64, u64)>)
    ensures
        r@ == v@,
{
    let n = v.len();
    let mut out: Vec<(u64, u64)> = Vec::new();
    let mut k: usize = 0;
    while k < n
        invariant
            k <= n == v@.len(),
            out@ == v@.subrange(0, k as int),
        decreases n - k,
    {
        let b = v[k];
        out.push(b);
        k = k + 1;
        proof {
            assert(out@ =~= v@.subrange(0, k as int));
        }
    }
    proof {
        assert(out@ =~= v@);
    }
    out
}

} // verus!
