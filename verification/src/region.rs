//! Decomposition of an axis-aligned read window into tile fetches.
//!
//! A window from `(x0, y0)` to `(x1, y1)` at a level with tile size
//! `tw` by `th` is split along the tile grid. Each touched tile yields one
//! query: the tile's grid index, a crop box in tile-local coordinates
//! (`None` when the tile is used whole), and the paste position of the
//! cropped pixels in the destination image.

use vstd::arithmetic::div_mod::{
    lemma_div_is_ordered, lemma_fundamental_div_mod, lemma_fundamental_div_mod_converse_div,
    lemma_fundamental_div_mod_converse_mod, lemma_mod_division_less_than_divisor,
};
use vstd::prelude::*;

verus! {

/// One tile fetch of a region read: the tile's grid index, the crop box
/// `(left, top, right, bottom)` inside the tile (`None` when the whole tile
/// is used), and the paste position in the destination.
pub type TileQuery = ((u64, u64), Option<(u64, u64, u64, u64)>, (u64, u64));

/// The tiling state that splitting the given window corners along the tile
/// grid yields.
pub open spec fn spec_region_helper(tw: u64, th: u64, x0: u64, x1: u64, y0: u64, y1: u64) -> RegionHelper {
    RegionHelper {
        tw,
        th,
        i0: (x0 as int / tw as int) as u64,
        i1: (x1 as int / tw as int) as u64,
        j0: (y0 as int / th as int) as u64,
        j1: (y1 as int / th as int) as u64,
        dx0: (x0 as int % tw as int) as u64,
        dx1: (x1 as int % tw as int) as u64,
        dy0: (y0 as int % th as int) as u64,
        dy1: (y1 as int % th as int) as u64,
    }
}

/// The tiling state of one region read: the tile size, the grid indices of
/// the window corners, and the offsets of the corners within their tiles.
/// The window runs from `(i0 * tw + dx0, j0 * th + dy0)` inclusive to
/// `(i1 * tw + dx1, j1 * th + dy1)` exclusive.
pub struct RegionHelper {
    pub tw: u64,
    pub th: u64,
    pub i0: u64,
    pub i1: u64,
    pub j0: u64,
    pub j1: u64,
    pub dx0: u64,
    pub dx1: u64,
    pub dy0: u64,
    pub dy1: u64,
}

impl RegionHelper {
    /// Left edge of the window in level coordinates.
    pub open spec fn x0(self) -> int {
        self.i0 * self.tw + self.dx0
    }

    /// Right edge (exclusive) of the window in level coordinates.
    pub open spec fn x1(self) -> int {
        self.i1 * self.tw + self.dx1
    }

    /// Top edge of the window in level coordinates.
    pub open spec fn y0(self) -> int {
        self.j0 * self.th + self.dy0
    }

    /// Bottom edge (exclusive) of the window in level coordinates.
    pub open spec fn y1(self) -> int {
        self.j1 * self.th + self.dy1
    }

    /// Well-formedness: positive tile sizes, in-tile offsets, an ordered
    /// window, and corners that came from 64-bit coordinates.
    pub open spec fn wf(self) -> bool {
        &&& 1 <= self.tw
        &&& 1 <= self.th
        &&& self.dx0 < self.tw
        &&& self.dx1 < self.tw
        &&& self.dy0 < self.th
        &&& self.dy1 < self.th
        &&& self.i0 <= self.i1
        &&& self.j0 <= self.j1
        &&& self.x0() <= self.x1() <= u64::MAX
        &&& self.y0() <= self.y1() <= u64::MAX
    }

    /// One past the last tile column the window touches.
    pub open spec fn i_end(self) -> int {
        if self.dx1 == 0 {
            self.i1 as int
        } else {
            self.i1 + 1
        }
    }

    /// One past the last tile row the window touches.
    pub open spec fn j_end(self) -> int {
        if self.dy1 == 0 {
            self.j1 as int
        } else {
            self.j1 + 1
        }
    }

    /// How many tile columns the plan spans.
    pub open spec fn cols(self) -> int {
        self.i_end() - self.i0
    }

    /// How many tile rows the plan spans.
    pub open spec fn rows(self) -> int {
        self.j_end() - self.j0
    }

    /// Left edge of the crop box in tile column `i`.
    pub open spec fn left(self, i: int) -> int {
        if i == self.i0 {
            self.dx0 as int
        } else {
            0
        }
    }

    /// Right edge of the crop box in tile column `i`.
    pub open spec fn right(self, i: int) -> int {
        if i == self.i1 {
            self.dx1 as int
        } else {
            self.tw as int
        }
    }

    /// Top edge of the crop box in tile row `j`.
    pub open spec fn top(self, j: int) -> int {
        if j == self.j0 {
            self.dy0 as int
        } else {
            0
        }
    }

    /// Bottom edge of the crop box in tile row `j`.
    pub open spec fn bottom(self, j: int) -> int {
        if j == self.j1 {
            self.dy1 as int
        } else {
            self.th as int
        }
    }

    /// Horizontal paste position of tile column `i`.
    pub open spec fn px(self, i: int) -> int {
        if i == self.i0 {
            0
        } else {
            i * self.tw - self.x0()
        }
    }

    /// Vertical paste position of tile row `j`.
    pub open spec fn py(self, j: int) -> int {
        if j == self.j0 {
            0
        } else {
            j * self.th - self.y0()
        }
    }

    /// Whether the window uses tile `(i, j)` whole, with no crop.
    pub open spec fn full_tile(self, i: int, j: int) -> bool {
        self.i0 < i < self.i1 && self.j0 < j < self.j1
    }

    /// The query the plan emits for tile `(i, j)`.
    pub open spec fn plan_at(self, i: int, j: int) -> TileQuery {
        (
            (i as u64, j as u64),
            if self.full_tile(i, j) {
                None
            } else {
                Some(
                    (
                        self.left(i) as u64,
                        self.top(j) as u64,
                        self.right(i) as u64,
                        self.bottom(j) as u64,
                    ),
                )
            },
            (self.px(i) as u64, self.py(j) as u64),
        )
    }

    /// The whole plan, row by row (`j` outer, `i` inner).
    pub open spec fn spec_plan(self) -> Seq<TileQuery> {
        Seq::new(
            (self.rows() * self.cols()) as nat,
            |t: int|
                self.plan_at(self.i0 + t % self.cols(), self.j0 + t / self.cols()),
        )
    }

    /// Leftmost level coordinate of the pixels tile column `i` contributes.
    pub open spec fn cell_lo_x(self, i: int) -> int {
        if i == self.i0 {
            self.x0()
        } else {
            i * self.tw
        }
    }

    /// One past the rightmost level coordinate tile column `i` contributes.
    pub open spec fn cell_hi_x(self, i: int) -> int {
        if i == self.i1 {
            self.x1()
        } else {
            (i + 1) * self.tw
        }
    }

    /// Topmost level coordinate of the pixels tile row `j` contributes.
    pub open spec fn cell_lo_y(self, j: int) -> int {
        if j == self.j0 {
            self.y0()
        } else {
            j * self.th
        }
    }

    /// One past the bottommost level coordinate tile row `j` contributes.
    pub open spec fn cell_hi_y(self, j: int) -> int {
        if j == self.j1 {
            self.y1()
        } else {
            (j + 1) * self.th
        }
    }

    /// Whether the query `q` pastes a pixel onto destination point `(u, v)`:
    /// the point lies in the crop rectangle translated to the paste position.
    pub open spec fn item_covers(self, q: TileQuery, u: int, v: int) -> bool {
        let l = match q.1 {
            None => 0int,
            Some(c) => c.0 as int,
        };
        let tp = match q.1 {
            None => 0int,
            Some(c) => c.1 as int,
        };
        let r = match q.1 {
            None => self.tw as int,
            Some(c) => c.2 as int,
        };
        let b = match q.1 {
            None => self.th as int,
            Some(c) => c.3 as int,
        };
        &&& q.2.0 <= u < q.2.0 + (r - l)
        &&& q.2.1 <= v < q.2.1 + (b - tp)
    }

    /// Splits the window corners along the tile grid by floored division.
    pub fn new(tw: u64, th: u64, x0: u64, x1: u64, y0: u64, y1: u64) -> (r: RegionHelper)
        requires
            1 <= tw,
            1 <= th,
            x0 <= x1,
            y0 <= y1,
        ensures
            r.wf(),
            r.tw == tw,
            r.th == th,
            r.x0() == x0,
            r.x1() == x1,
            r.y0() == y0,
            r.y1() == y1,
            r == spec_region_helper(tw, th, x0, x1, y0, y1),
    {
        let i0 = x0 / tw;
        let dx0 = x0 % tw;
        let i1 = x1 / tw;
        let dx1 = x1 % tw;
        let j0 = y0 / th;
        let dy0 = y0 % th;
        let j1 = y1 / th;
        let dy1 = y1 % th;
        proof {
            lemma_fundamental_div_mod(x0 as int, tw as int);
            lemma_fundamental_div_mod(x1 as int, tw as int);
            lemma_fundamental_div_mod(y0 as int, th as int);
            lemma_fundamental_div_mod(y1 as int, th as int);
            lemma_mod_division_less_than_divisor(x0 as int, tw as int);
            lemma_mod_division_less_than_divisor(x1 as int, tw as int);
            lemma_mod_division_less_than_divisor(y0 as int, th as int);
            lemma_mod_division_less_than_divisor(y1 as int, th as int);
            lemma_div_is_ordered(x0 as int, x1 as int, tw as int);
            lemma_div_is_ordered(y0 as int, y1 as int, th as int);
            assert(x0 == tw * (x0 as int / tw as int) + (x0 as int % tw as int));
            assert(i0 == x0 as int / tw as int && dx0 == x0 as int % tw as int);
            assert(i0 * tw == tw * i0) by (nonlinear_arith);
            assert(i1 * tw == tw * i1) by (nonlinear_arith);
            assert(j0 * th == th * j0) by (nonlinear_arith);
            assert(j1 * th == th * j1) by (nonlinear_arith);
        }
        RegionHelper { tw, th, i0, i1, j0, j1, dx0, dx1, dy0, dy1 }
    }

    /// Emits the plan: tiles in row-major order, `j` outer, `i` inner.
    pub fn query(&self) -> (qs: Vec<TileQuery>)
        requires
            self.wf(),
        ensures
            qs@ == self.spec_plan(),
    {
        proof {
            if self.dx1 != 0 {
                assert(self.i1 <= self.i1 * self.tw) by (nonlinear_arith)
                    requires
                        1 <= self.tw,
                        0 <= self.i1,
                ;
            }
            if self.dy1 != 0 {
                assert(self.j1 <= self.j1 * self.th) by (nonlinear_arith)
                    requires
                        1 <= self.th,
                        0 <= self.j1,
                ;
            }
        }
        let i_end = if self.dx1 == 0 {
            self.i1
        } else {
            self.i1 + 1
        };
        let j_end = if self.dy1 == 0 {
            self.j1
        } else {
            self.j1 + 1
        };
        let mut qs: Vec<TileQuery> = Vec::new();
        let mut j = self.j0;
        while j < j_end
            invariant
                self.wf(),
                i_end == self.i_end(),
                j_end == self.j_end(),
                self.j0 <= j <= j_end,
                qs@.len() == (j - self.j0) * self.cols(),
                forall|t: int| 0 <= t < qs@.len() ==> qs@[t] == self.spec_plan()[t],
            decreases j_end - j,
        {
            let mut i = self.i0;
            while i < i_end
                invariant
                    self.wf(),
                    i_end == self.i_end(),
                    j_end == self.j_end(),
                    self.j0 <= j < j_end,
                    self.i0 <= i <= i_end,
                    qs@.len() == (j - self.j0) * self.cols() + (i - self.i0),
                    forall|t: int| 0 <= t < qs@.len() ==> qs@[t] == self.spec_plan()[t],
                decreases i_end - i,
            {
                let crop = if self.i0 < i && i < self.i1 && self.j0 < j && j < self.j1 {
                    None
                } else {
                    let left = if self.i0 == i {
                        self.dx0
                    } else {
                        0
                    };
                    let right = if i == self.i1 {
                        self.dx1
                    } else {
                        self.tw
                    };
                    let top = if self.j0 == j {
                        self.dy0
                    } else {
                        0
                    };
                    let bottom = if j == self.j1 {
                        self.dy1
                    } else {
                        self.th
                    };
                    Some((left, top, right, bottom))
                };
                proof {
                    assert(self.i0 < i ==> self.tw * (i - self.i0) <= self.i1 * self.tw)
                        by (nonlinear_arith)
                        requires
                            self.i0 <= i <= self.i1,
                            1 <= self.tw,
                    ;
                    assert(self.i0 < i ==> self.tw * 1 <= self.tw * (i - self.i0))
                        by (nonlinear_arith)
                        requires
                            self.i0 <= i,
                            1 <= self.tw,
                    ;
                    assert(self.j0 < j ==> self.th * (j - self.j0) <= self.j1 * self.th)
                        by (nonlinear_arith)
                        requires
                            self.j0 <= j <= self.j1,
                            1 <= self.th,
                    ;
                    assert(self.j0 < j ==> self.th * 1 <= self.th * (j - self.j0))
                        by (nonlinear_arith)
                        requires
                            self.j0 <= j,
                            1 <= self.th,
                    ;
                }
                let x = if self.i0 == i {
                    0
                } else {
                    self.tw * (i - self.i0) - self.dx0
                };
                let y = if self.j0 == j {
                    0
                } else {
                    self.th * (j - self.j0) - self.dy0
                };
                let ghost t = (j - self.j0) * self.cols() + (i - self.i0);
                proof {
                    assert(self.tw * (i - self.i0) == i * self.tw - self.i0 * self.tw)
                        by (nonlinear_arith);
                    assert(self.th * (j - self.j0) == j * self.th - self.j0 * self.th)
                        by (nonlinear_arith);
                    assert(x == self.px(i as int));
                    assert(y == self.py(j as int));
                    assert(0 <= i - self.i0 < self.cols());
                    lemma_fundamental_div_mod_converse_div(
                        t,
                        self.cols(),
                        j - self.j0,
                        i - self.i0,
                    );
                    lemma_fundamental_div_mod_converse_mod(
                        t,
                        self.cols(),
                        j - self.j0,
                        i - self.i0,
                    );
                    assert(t < self.rows() * self.cols()) by (nonlinear_arith)
                        requires
                            t == (j - self.j0) * self.cols() + (i - self.i0),
                            0 <= i - self.i0 < self.cols(),
                            0 <= j - self.j0 < self.rows(),
                    ;
                    assert(0 <= t) by (nonlinear_arith)
                        requires
                            t == (j - self.j0) * self.cols() + (i - self.i0),
                            0 <= i - self.i0,
                            0 <= j - self.j0,
                            0 <= self.cols(),
                    ;
                    assert(self.spec_plan()[t] == self.plan_at(i as int, j as int));
                }
                qs.push(((i, j), crop, (x, y)));
                i = i + 1;
            }
            proof {
                assert((j + 1 - self.j0) * self.cols() == (j - self.j0) * self.cols()
                    + self.cols()) by (nonlinear_arith);
            }
            j = j + 1;
        }
        proof {
            assert(qs@.len() == self.rows() * self.cols()) by (nonlinear_arith)
                requires
                    qs@.len() == (j_end - self.j0) * self.cols(),
                    j_end == self.j_end(),
                    self.rows() == self.j_end() - self.j0,
            ;
            assert(qs@ =~= self.spec_plan());
        }
        qs
    }
}

/// The pixels of tile column `i` span the level interval from `cell_lo_x`
/// to `cell_hi_x`: the paste position and the crop width restate exactly
/// that interval, shifted by the window's left edge.
proof fn lemma_col_interval(h: RegionHelper, i: int)
    requires
        h.wf(),
        h.i0 <= i < h.i_end(),
    ensures
        h.px(i) == h.cell_lo_x(i) - h.x0(),
        h.px(i) + (h.right(i) - h.left(i)) == h.cell_hi_x(i) - h.x0(),
        h.x0() <= h.cell_lo_x(i),
        h.cell_hi_x(i) <= h.x1(),
        i * h.tw <= h.cell_lo_x(i),
        h.cell_hi_x(i) <= (i + 1) * h.tw,
        0 <= h.px(i) <= u64::MAX,
{
    assert((i + 1) * h.tw == i * h.tw + h.tw) by (nonlinear_arith);
    assert((h.i0 + 1) * h.tw == h.i0 * h.tw + h.tw) by (nonlinear_arith);
    assert((h.i1 + 1) * h.tw == h.i1 * h.tw + h.tw) by (nonlinear_arith);
    if i > h.i0 {
        assert((h.i0 + 1) * h.tw <= i * h.tw) by (nonlinear_arith)
            requires
                h.i0 + 1 <= i,
                0 <= h.tw,
        ;
    }
    if i < h.i1 {
        assert((i + 1) * h.tw <= h.i1 * h.tw) by (nonlinear_arith)
            requires
                i + 1 <= h.i1,
                0 <= h.tw,
        ;
    }
    assert(i * h.tw <= h.i1 * h.tw) by (nonlinear_arith)
        requires
            i <= h.i1,
            0 <= h.tw,
    ;
}

/// The pixels of tile row `j` span the level interval from `cell_lo_y`
/// to `cell_hi_y`, shifted by the window's top edge.
proof fn lemma_row_interval(h: RegionHelper, j: int)
    requires
        h.wf(),
        h.j0 <= j < h.j_end(),
    ensures
        h.py(j) == h.cell_lo_y(j) - h.y0(),
        h.py(j) + (h.bottom(j) - h.top(j)) == h.cell_hi_y(j) - h.y0(),
        h.y0() <= h.cell_lo_y(j),
        h.cell_hi_y(j) <= h.y1(),
        j * h.th <= h.cell_lo_y(j),
        h.cell_hi_y(j) <= (j + 1) * h.th,
        0 <= h.py(j) <= u64::MAX,
{
    assert((j + 1) * h.th == j * h.th + h.th) by (nonlinear_arith);
    assert((h.j0 + 1) * h.th == h.j0 * h.th + h.th) by (nonlinear_arith);
    assert((h.j1 + 1) * h.th == h.j1 * h.th + h.th) by (nonlinear_arith);
    if j > h.j0 {
        assert((h.j0 + 1) * h.th <= j * h.th) by (nonlinear_arith)
            requires
                h.j0 + 1 <= j,
                0 <= h.th,
        ;
    }
    if j < h.j1 {
        assert((j + 1) * h.th <= h.j1 * h.th) by (nonlinear_arith)
            requires
                j + 1 <= h.j1,
                0 <= h.th,
        ;
    }
    assert(j * h.th <= h.j1 * h.th) by (nonlinear_arith)
        requires
            j <= h.j1,
            0 <= h.th,
    ;
}

/// A plan item covers a destination point exactly when the point's level
/// coordinate falls in the item's column and row intervals.
proof fn lemma_item_covers_cell(h: RegionHelper, i: int, j: int, u: int, v: int)
    requires
        h.wf(),
        h.i0 <= i < h.i_end(),
        h.j0 <= j < h.j_end(),
    ensures
        h.item_covers(h.plan_at(i, j), u, v) <==> (h.cell_lo_x(i) <= h.x0() + u < h.cell_hi_x(i)
            && h.cell_lo_y(j) <= h.y0() + v < h.cell_hi_y(j)),
{
    lemma_col_interval(h, i);
    lemma_row_interval(h, j);
}

/// The plan cell of a plan index: its tile column and row, and that the
/// plan at the index is the plan of that cell.
proof fn lemma_plan_index(h: RegionHelper, t: int)
    requires
        h.wf(),
        0 <= t < h.spec_plan().len(),
    ensures
        h.i0 <= h.i0 + t % h.cols() < h.i_end(),
        h.j0 <= h.j0 + t / h.cols() < h.j_end(),
        h.spec_plan()[t] == h.plan_at(h.i0 + t % h.cols(), h.j0 + t / h.cols()),
        t == (t / h.cols()) * h.cols() + t % h.cols(),
{
    let c = h.cols();
    let r = h.rows();
    assert(0 < c && 0 < r) by (nonlinear_arith)
        requires
            0 <= c,
            0 <= r,
            t < r * c,
            0 <= t,
    ;
    lemma_mod_division_less_than_divisor(t, c);
    lemma_fundamental_div_mod(t, c);
    assert(r * c - 1 == (r - 1) * c + (c - 1)) by (nonlinear_arith);
    lemma_div_is_ordered(t, r * c - 1, c);
    lemma_fundamental_div_mod_converse_div(r * c - 1, c, r - 1, c - 1);
}

/// Region tiling, coverage: every point of the destination rectangle of
/// size `(x1 - x0, y1 - y0)` receives pixels from some item of the plan.
pub proof fn lemma_plan_covers(h: RegionHelper, u: int, v: int)
    requires
        h.wf(),
        0 <= u < h.x1() - h.x0(),
        0 <= v < h.y1() - h.y0(),
    ensures
        exists|t: int|
            0 <= t < h.spec_plan().len() && h.item_covers(#[trigger] h.spec_plan()[t], u, v),
{
    let x = h.x0() + u;
    let y = h.y0() + v;
    let i = x / (h.tw as int);
    let j = y / (h.th as int);
    lemma_fundamental_div_mod(x, h.tw as int);
    lemma_mod_division_less_than_divisor(x, h.tw as int);
    lemma_fundamental_div_mod(y, h.th as int);
    lemma_mod_division_less_than_divisor(y, h.th as int);
    lemma_fundamental_div_mod_converse_div(h.x0(), h.tw as int, h.i0 as int, h.dx0 as int);
    lemma_fundamental_div_mod_converse_div(h.x1(), h.tw as int, h.i1 as int, h.dx1 as int);
    lemma_fundamental_div_mod_converse_div(h.y0(), h.th as int, h.j0 as int, h.dy0 as int);
    lemma_fundamental_div_mod_converse_div(h.y1(), h.th as int, h.j1 as int, h.dy1 as int);
    lemma_div_is_ordered(h.x0(), x, h.tw as int);
    lemma_div_is_ordered(x, h.x1(), h.tw as int);
    lemma_div_is_ordered(h.y0(), y, h.th as int);
    lemma_div_is_ordered(y, h.y1(), h.th as int);
    assert(h.i0 <= i <= h.i1);
    assert(h.j0 <= j <= h.j1);
    assert(x == h.tw * i + x % (h.tw as int));
    if h.dx1 == 0 && i == h.i1 {
        assert(x >= h.tw * i);
        assert(h.tw * h.i1 == h.i1 * h.tw) by (nonlinear_arith);
        assert(false);
    }
    if h.dy1 == 0 && j == h.j1 {
        assert(y >= h.th * j);
        assert(h.th * h.j1 == h.j1 * h.th) by (nonlinear_arith);
        assert(false);
    }
    assert(i < h.i_end() && j < h.j_end());
    assert(h.tw * i == i * h.tw) by (nonlinear_arith);
    assert(h.th * j == j * h.th) by (nonlinear_arith);
    assert((i + 1) * h.tw == i * h.tw + h.tw) by (nonlinear_arith);
    assert((j + 1) * h.th == j * h.th + h.th) by (nonlinear_arith);
    assert(h.cell_lo_x(i) <= x < h.cell_hi_x(i));
    assert(h.cell_lo_y(j) <= y < h.cell_hi_y(j));
    lemma_item_covers_cell(h, i, j, u, v);
    let t = (j - h.j0) * h.cols() + (i - h.i0);
    assert(0 <= t < h.rows() * h.cols()) by (nonlinear_arith)
        requires
            t == (j - h.j0) * h.cols() + (i - h.i0),
            0 <= i - h.i0 < h.cols(),
            0 <= j - h.j0 < h.rows(),
    ;
    lemma_fundamental_div_mod_converse_div(t, h.cols(), j - h.j0, i - h.i0);
    lemma_fundamental_div_mod_converse_mod(t, h.cols(), j - h.j0, i - h.i0);
    assert(h.spec_plan()[t] == h.plan_at(i, j));
    assert(h.item_covers(h.spec_plan()[t], u, v));
}

/// Region tiling, disjointness: no destination point receives pixels from
/// two different items of the plan.
pub proof fn lemma_plan_disjoint(h: RegionHelper, t1: int, t2: int, u: int, v: int)
    requires
        h.wf(),
        0 <= t1 < h.spec_plan().len(),
        0 <= t2 < h.spec_plan().len(),
        h.item_covers(h.spec_plan()[t1], u, v),
        h.item_covers(h.spec_plan()[t2], u, v),
    ensures
        t1 == t2,
{
    let x = h.x0() + u;
    let y = h.y0() + v;
    lemma_plan_index(h, t1);
    lemma_plan_index(h, t2);
    let i1_ = h.i0 + t1 % h.cols();
    let j1_ = h.j0 + t1 / h.cols();
    let i2_ = h.i0 + t2 % h.cols();
    let j2_ = h.j0 + t2 / h.cols();
    lemma_item_covers_cell(h, i1_, j1_, u, v);
    lemma_item_covers_cell(h, i2_, j2_, u, v);
    lemma_col_interval(h, i1_);
    lemma_col_interval(h, i2_);
    lemma_row_interval(h, j1_);
    lemma_row_interval(h, j2_);
    lemma_fundamental_div_mod_converse_div(x, h.tw as int, i1_, x - i1_ * h.tw);
    lemma_fundamental_div_mod_converse_div(x, h.tw as int, i2_, x - i2_ * h.tw);
    lemma_fundamental_div_mod_converse_div(y, h.th as int, j1_, y - j1_ * h.th);
    lemma_fundamental_div_mod_converse_div(y, h.th as int, j2_, y - j2_ * h.th);
    assert(i1_ == i2_ && j1_ == j2_);
}

/// Region tiling, containment: a plan item pastes pixels only inside the
/// destination rectangle of size `(x1 - x0, y1 - y0)`.
pub proof fn lemma_plan_within(h: RegionHelper, t: int, u: int, v: int)
    requires
        h.wf(),
        0 <= t < h.spec_plan().len(),
        h.item_covers(h.spec_plan()[t], u, v),
    ensures
        0 <= u < h.x1() - h.x0(),
        0 <= v < h.y1() - h.y0(),
{
    lemma_plan_index(h, t);
    let i = h.i0 + t % h.cols();
    let j = h.j0 + t / h.cols();
    lemma_item_covers_cell(h, i, j, u, v);
    lemma_col_interval(h, i);
    lemma_row_interval(h, j);
}

} // verus!
