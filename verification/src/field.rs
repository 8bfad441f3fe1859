use vstd::prelude::*;
use vstd::arithmetic::div_mod::{
    lemma_fundamental_div_mod, lemma_fundamental_div_mod_converse, lemma_div_is_ordered,
    lemma_div_multiples_vanish, lemma_div_pos_is_pos, lemma_mod_bound,
};
use vstd::arithmetic::mul::{lemma_mul_inequality, lemma_mul_upper_bound, lemma_mul_nonnegative};
use crate::rng::SimRng;

verus! {

/// Largest value any field cell may hold (1000.0); deposits saturate here so
/// that every quantity stays bounded over unbounded run length.
pub const MAX_FIELD: i64 = 1_000_000;

/// Mask value of an obstacle cell, and the repulsion value forced onto
/// obstacle cells each tick (1.0).
pub const OBSTACLE: i64 = 1000;

/// Value forced at the four emitter cells at the start of every tick (10.0).
pub const EMITTER_VALUE: i64 = 10_000;

/// Per-mil kept by pickup and delivery after decay (decay rate 0.05).
pub const KEEP_PD: i64 = 950;

/// Per-mil kept by repulsion after decay (decay rate 0.15).
pub const KEEP_REPULSION: i64 = 850;

/// Per-mil kept by vein after decay (decay rate 0.003).
pub const KEEP_VEIN: i64 = 997;

/// Reads a grid cell, with 0 for any index outside the buffer.
pub open spec fn at(f: Seq<i64>, i: int) -> int {
    if 0 <= i < f.len() {
        f[i] as int
    } else {
        0
    }
}

/// A cell is treated as an obstacle when its mask value is above one half.
pub open spec fn obstructed(obst: Seq<i64>, i: int) -> bool {
    at(obst, i) > 500
}

/// Interior cells: both coordinates at least one away from the rectangle edge.
pub open spec fn interior(w: int, h: int, i: int) -> bool {
    &&& 1 <= i % w < w - 1
    &&& 1 <= i / w < h - 1
}

/// Border cells: row 0, row h-1, column 0 or column w-1.
pub open spec fn is_border(w: int, h: int, i: int) -> bool {
    ||| i % w == 0
    ||| i % w == w - 1
    ||| i / w == 0
    ||| i / w == h - 1
}

/// One random rectangular block: origin column, origin row, width and height
/// in cells, drawn from the tuned ranges, which keep every block at least 20
/// cells clear of the left/top edges and 22 of the right/bottom ones.
pub open spec fn block_ok(w: int, h: int, r: (int, int, int, int)) -> bool {
    &&& 20 <= r.0 < w - 40
    &&& 20 <= r.1 < h - 40
    &&& 5 <= r.2 < 20
    &&& 5 <= r.3 < 20
}

/// Whether cell j lies inside rectangle r.
pub open spec fn covered_by(r: (int, int, int, int), w: int, j: int) -> bool {
    &&& r.0 <= j % w < r.0 + r.2
    &&& r.1 <= j / w < r.1 + r.3
}

/// Whether any of the rectangles covers cell j.
pub open spec fn covered(rects: Seq<(int, int, int, int)>, w: int, j: int) -> bool {
    exists|k: int| 0 <= k < rects.len() && covered_by(#[trigger] rects[k], w, j)
}

/// A randomized obstacle layout: exactly the one-cell border plus between 12
/// and 19 rectangular blocks within the tuned ranges; every other cell free.
pub open spec fn blocks_layout(obst: Seq<i64>, w: int, h: int) -> bool {
    exists|rects: Seq<(int, int, int, int)>|
        #![trigger rects.len()]
        {
            &&& 12 <= rects.len() < 20
            &&& (forall|k: int| 0 <= k < rects.len() ==> block_ok(w, h, #[trigger] rects[k]))
            &&& (forall|j: int|
                0 <= j < obst.len() ==> ((#[trigger] obst[j]) == OBSTACLE <==> is_border(w, h, j)
                    || covered(rects, w, j)))
        }
}

/// The cells of one rectangle stamped up to (but excluding) row yy, plus the
/// cells of row yy before column xx.
pub open spec fn partial_block(bx: int, by: int, bw: int, yy: int, xx: int, w: int, j: int) -> bool {
    ||| (bx <= j % w < bx + bw && by <= j / w < yy)
    ||| (j / w == yy && bx <= j % w < xx)
}

/// Appending a rectangle extends the covered set by exactly its cells.
pub proof fn lemma_covered_push(rects: Seq<(int, int, int, int)>, r: (int, int, int, int), w: int, j: int)
    ensures
        covered(rects.push(r), w, j) <==> (covered(rects, w, j) || covered_by(r, w, j)),
{
    if covered(rects, w, j) {
        let k = choose|k: int| 0 <= k < rects.len() && covered_by(#[trigger] rects[k], w, j);
        assert(rects.push(r)[k] == rects[k]);
        assert(covered_by(rects.push(r)[k], w, j));
    }
    if covered_by(r, w, j) {
        assert(rects.push(r)[rects.len() as int] == r);
        assert(covered_by(rects.push(r)[rects.len() as int], w, j));
    }
    if covered(rects.push(r), w, j) {
        let k = choose|k: int|
            0 <= k < rects.push(r).len() && covered_by(#[trigger] rects.push(r)[k], w, j);
        if k < rects.len() {
            assert(rects[k] == rects.push(r)[k]);
            assert(covered_by(rects[k], w, j));
        } else {
            assert(rects.push(r)[k] == r);
        }
    }
}

/// One thousand times the value a diffusing cell takes before decay and
/// truncation: the old value plus 0.15 times the four-neighbour Laplacian,
/// so 400 parts of the centre plus 150 parts of each neighbour.
pub open spec fn diffuse_base(f: Seq<i64>, w: int, i: int) -> int {
    400 * at(f, i) + 150 * (at(f, i - 1) + at(f, i + 1) + at(f, i - w) + at(f, i + w))
}

/// A diffusing cell after one step: diffusion, then multiplicative decay
/// keeping `keep` per mil, both in truncating fixed-point arithmetic.
pub open spec fn diffused(f: Seq<i64>, w: int, i: int, keep: int) -> int {
    ((diffuse_base(f, w, i) / 1000) * keep) / 1000
}

/// Pickup/delivery cell after one step: interior non-obstacle cells diffuse
/// and decay; border and obstacle cells are never touched by the stencil.
pub open spec fn stepped_cell(f: Seq<i64>, obst: Seq<i64>, w: int, h: int, keep: int, i: int) -> int {
    if interior(w, h, i) && !obstructed(obst, i) {
        diffused(f, w, i, keep)
    } else {
        at(f, i)
    }
}

/// Repulsion cell after one step: interior obstacle cells are forced to
/// exactly OBSTACLE regardless of their prior value.
pub open spec fn stepped_repulsion_cell(f: Seq<i64>, obst: Seq<i64>, w: int, h: int, i: int) -> int {
    if interior(w, h, i) {
        if obstructed(obst, i) {
            OBSTACLE as int
        } else {
            diffused(f, w, i, KEEP_REPULSION as int)
        }
    } else {
        at(f, i)
    }
}

/// Vein cell after one step: no diffusion, only a slow multiplicative decay
/// on interior non-obstacle cells.
pub open spec fn stepped_vein_cell(f: Seq<i64>, obst: Seq<i64>, w: int, h: int, i: int) -> int {
    if interior(w, h, i) && !obstructed(obst, i) {
        (at(f, i) * (KEEP_VEIN as int)) / 1000
    } else {
        at(f, i)
    }
}

/// The whole new buffer of a diffusing grid after one step.
pub open spec fn stepped_grid(f: Seq<i64>, obst: Seq<i64>, w: int, h: int, keep: int) -> Seq<i64> {
    Seq::new(f.len(), |i: int| stepped_cell(f, obst, w, h, keep, i) as i64)
}

/// The whole new repulsion buffer after one step.
pub open spec fn stepped_repulsion_grid(f: Seq<i64>, obst: Seq<i64>, w: int, h: int) -> Seq<i64> {
    Seq::new(f.len(), |i: int| stepped_repulsion_cell(f, obst, w, h, i) as i64)
}

/// The whole new vein buffer after one step.
pub open spec fn stepped_vein_grid(f: Seq<i64>, obst: Seq<i64>, w: int, h: int) -> Seq<i64> {
    Seq::new(f.len(), |i: int| stepped_vein_cell(f, obst, w, h, i) as i64)
}

/// The pickup grid with its two fixed emitter cells forced high.
pub open spec fn emitted_pickup(f: Seq<i64>, w: int) -> Seq<i64> {
    f.update(12 * w + 12, EMITTER_VALUE).update(13 * w + 12, EMITTER_VALUE)
}

/// The delivery grid with its two fixed emitter cells forced high.
pub open spec fn emitted_delivery(f: Seq<i64>, w: int, h: int) -> Seq<i64> {
    f.update((h - 12) * w + (w - 12), EMITTER_VALUE).update((h - 13) * w + (w - 12), EMITTER_VALUE)
}

/// Every cell is a non-negative potential no larger than the saturation cap.
pub open spec fn grid_ok(g: Seq<i64>) -> bool {
    forall|i: int| 0 <= i < g.len() ==> 0 <= #[trigger] g[i] <= MAX_FIELD
}

/// The obstacle mask holds only 0 (free) or OBSTACLE (wall).
pub open spec fn mask_ok(g: Seq<i64>) -> bool {
    forall|i: int| 0 <= i < g.len() ==> (#[trigger] g[i] == 0 || g[i] == OBSTACLE)
}

/// Grid cell containing the milli-unit position (x, y).
pub open spec fn cell_index(w: int, x: int, y: int) -> int {
    (y / 1000) * w + x / 1000
}

/// A deposit of `amt` at the cell containing position (x, y), saturating at
/// MAX_FIELD; positions outside the grid deposit nothing.
pub open spec fn deposit(g: Seq<i64>, w: int, h: int, x: int, y: int, amt: int) -> Seq<i64> {
    if 0 <= x && 0 <= y && x / 1000 < w && y / 1000 < h {
        let i = cell_index(w, x, y);
        let v = g[i] + amt;
        g.update(i, if v > MAX_FIELD { MAX_FIELD } else { v as i64 })
    } else {
        g
    }
}

pub proof fn lemma_grid_index(w: int, h: int, x: int, y: int)
    requires
        1 <= w,
        0 <= x < w,
        0 <= y < h,
    ensures
        (y * w + x) % w == x,
        (y * w + x) / w == y,
        0 <= y * w + x < w * h,
{
    lemma_fundamental_div_mod_converse(y * w + x, w, y, x);
    lemma_mul_nonnegative(y, w);
    lemma_mul_inequality(y, h - 1, w);
    assert((h - 1) * w == w * h - w) by (nonlinear_arith);
}

/// Coordinates of a flat index inside a w-by-h grid.
pub proof fn lemma_flat_coords(w: int, h: int, j: int)
    requires
        1 <= w,
        0 <= h,
        0 <= j < w * h,
    ensures
        0 <= j % w < w,
        0 <= j / w < h,
        j == (j / w) * w + j % w,
{
    lemma_fundamental_div_mod(j, w);
    lemma_mod_bound(j, w);
    lemma_div_pos_is_pos(j, w);
    assert(w * (j / w) == (j / w) * w) by (nonlinear_arith);
    if j / w >= h {
        lemma_mul_inequality(h, j / w, w);
        assert(h * w == w * h) by (nonlinear_arith);
    }
}

/// The flat buffer of a well-formed grid is comfortably small.
pub proof fn lemma_size_bound(w: int, h: int)
    requires
        0 <= w <= 1024,
        0 <= h <= 1024,
    ensures
        w * h <= 1024 * 1024,
        forall|y: int, x: int|
            0 <= y < h && 0 <= x < w ==> 0 <= #[trigger] (y * w + x) < 1024 * 1024,
{
    lemma_mul_upper_bound(w, 1024, h, 1024);
    assert forall|y: int, x: int| 0 <= y < h && 0 <= x < w implies 0 <= #[trigger] (y * w + x)
        < 1024 * 1024 by {
        lemma_mul_nonnegative(y, w);
        lemma_mul_upper_bound(y, 1023, w, 1024);
    }
}

/// Truncating scale-down by 1000 stays within a bound 1000 times smaller.
pub proof fn lemma_scale_div_bound(a: int, m: int)
    requires
        0 <= a,
        a <= 1000 * m,
        0 <= m,
    ensures
        0 <= a / 1000 <= m,
{
    lemma_div_pos_is_pos(a, 1000);
    lemma_div_is_ordered(a, 1000 * m, 1000);
    lemma_div_multiples_vanish(m, 1000);
}

/// Bounds for one diffusion-decay step of a cell of a well-bounded grid.
pub proof fn lemma_diffused_bounds(f: Seq<i64>, w: int, i: int, keep: int)
    requires
        grid_ok(f),
        0 <= keep <= 1000,
    ensures
        0 <= diffuse_base(f, w, i) <= 1000 * (MAX_FIELD as int),
        0 <= diffused(f, w, i, keep) <= MAX_FIELD as int,
{
    let m = MAX_FIELD as int;
    assert(0 <= at(f, i) <= m);
    assert(0 <= at(f, i - 1) <= m);
    assert(0 <= at(f, i + 1) <= m);
    assert(0 <= at(f, i - w) <= m);
    assert(0 <= at(f, i + w) <= m);
    let b = diffuse_base(f, w, i);
    lemma_scale_div_bound(b, m);
    lemma_mul_upper_bound(b / 1000, m, keep, 1000);
    lemma_mul_nonnegative(b / 1000, keep);
    lemma_scale_div_bound((b / 1000) * keep, m);
}

/// The five same-shaped grids of the diffusion-reaction engine.
pub struct PhysarumField {
    pub pickup: Vec<i64>,
    pub delivery: Vec<i64>,
    pub repulsion: Vec<i64>,
    pub vein: Vec<i64>,
    pub obstacles: Vec<i64>,
    pub width: usize,
    pub height: usize,
}

impl PhysarumField {
    /// The structural invariant: all five grids share the same shape, all
    /// potentials are bounded, and the obstacle mask is binary.
    pub open spec fn wf(self) -> bool {
        &&& 64 <= self.width <= 1024
        &&& 64 <= self.height <= 1024
        &&& self.pickup@.len() == self.width * self.height
        &&& self.delivery@.len() == self.width * self.height
        &&& self.repulsion@.len() == self.width * self.height
        &&& self.vein@.len() == self.width * self.height
        &&& self.obstacles@.len() == self.width * self.height
        &&& grid_ok(self.pickup@)
        &&& grid_ok(self.delivery@)
        &&& grid_ok(self.repulsion@)
        &&& grid_ok(self.vein@)
        &&& mask_ok(self.obstacles@)
    }

    /// Fresh field: all five grids zero-filled, then a randomized obstacle
    /// layout is applied.
    pub fn new(w: usize, h: usize, rng: &mut SimRng) -> (f: PhysarumField)
        requires
            64 <= w <= 1024,
            64 <= h <= 1024,
        ensures
            f.wf(),
            f.width == w,
            f.height == h,
            forall|i: int| 0 <= i < f.pickup@.len() ==> f.pickup@[i] == 0,
            forall|i: int| 0 <= i < f.delivery@.len() ==> f.delivery@[i] == 0,
            forall|i: int| 0 <= i < f.vein@.len() ==> f.vein@[i] == 0,
            forall|i: int| 0 <= i < f.repulsion@.len() ==> f.repulsion@[i] == 0,
            blocks_layout(f.obstacles@, w as int, h as int),
            forall|i: int|
                0 <= i < f.obstacles@.len() && is_border(w as int, h as int, i)
                    ==> f.obstacles@[i] == OBSTACLE,
            f.obstacles@[12 * (w as int) + 12] == 0,
            f.obstacles@[13 * (w as int) + 12] == 0,
            f.obstacles@[(h - 12) as int * (w as int) + (w - 12) as int] == 0,
            f.obstacles@[(h - 13) as int * (w as int) + (w - 12) as int] == 0,
    {
        proof {
            lemma_size_bound(w as int, h as int);
        }
        let size = w * h;
        let mut f = PhysarumField {
            pickup: zero_grid(size),
            delivery: zero_grid(size),
            repulsion: zero_grid(size),
            vein: zero_grid(size),
            obstacles: zero_grid(size),
            width: w,
            height: h,
        };
        f.randomize_obstacles(rng);
        f
    }

    /// Re-rolls the static layout: clears obstacles, pickup, delivery and
    /// vein (repulsion is left untouched by design, so crowding does not
    /// reset instantly on a map change), walls the border, then stamps a
    /// random number of random rectangular blocks, all well inside the
    /// border.
    pub fn randomize_obstacles(&mut self, rng: &mut SimRng)
        requires
            old(self).wf(),
        ensures
            final(self).wf(),
            final(self).width == old(self).width,
            final(self).height == old(self).height,
            final(self).repulsion@ == old(self).repulsion@,
            forall|i: int| 0 <= i < final(self).pickup@.len() ==> final(self).pickup@[i] == 0,
            forall|i: int| 0 <= i < final(self).delivery@.len() ==> final(self).delivery@[i] == 0,
            forall|i: int| 0 <= i < final(self).vein@.len() ==> final(self).vein@[i] == 0,
            blocks_layout(
                final(self).obstacles@,
                final(self).width as int,
                final(self).height as int,
            ),
            forall|i: int|
                0 <= i < final(self).obstacles@.len() && is_border(
                    final(self).width as int,
                    final(self).height as int,
                    i,
                ) ==> final(self).obstacles@[i] == OBSTACLE,
            final(self).obstacles@[12 * (final(self).width as int) + 12] == 0,
            final(self).obstacles@[13 * (final(self).width as int) + 12] == 0,
            final(self).obstacles@[(final(self).height - 12) as int * (final(self).width as int) + (
            final(self).width - 12) as int] == 0,
            final(self).obstacles@[(final(self).height - 13) as int * (final(self).width as int) + (
            final(self).width - 12) as int] == 0,
    {
        let w = self.width;
        let h = self.height;
        proof {
            lemma_size_bound(w as int, h as int);
        }
        let size = w * h;
        let mut obst = zero_grid(size);

        // Border walls: rows 0 and h-1, then columns 0 and w-1.
        for x in 0..w
            invariant
                64 <= w <= 1024,
                64 <= h <= 1024,
                obst@.len() == size,
                size == w * h,
                mask_ok(obst@),
                forall|j: int|
                    0 <= j < size && !is_border(w as int, h as int, j) ==> obst@[j] == 0,
                forall|j: int|
                    0 <= j < size && (j / (w as int) == 0 || j / (w as int) == h - 1) && j % (
                    w as int) < x ==> obst@[j] == OBSTACLE,
        {
            proof {
                lemma_size_bound(w as int, h as int);
                lemma_grid_index(w as int, h as int, x as int, 0);
                lemma_grid_index(w as int, h as int, x as int, (h - 1) as int);
            }
            obst[x] = OBSTACLE;
            obst[(h - 1) * w + x] = OBSTACLE;
            proof {
                assert forall|j: int|
                    0 <= j < size && (j / (w as int) == 0 || j / (w as int) == h - 1) && j % (
                    w as int) < x + 1 implies obst@[j] == OBSTACLE by {
                    lemma_flat_coords(w as int, h as int, j);
                }
            }
        }
        for y in 0..h
            invariant
                64 <= w <= 1024,
                64 <= h <= 1024,
                obst@.len() == size,
                size == w * h,
                mask_ok(obst@),
                forall|j: int|
                    0 <= j < size && !is_border(w as int, h as int, j) ==> obst@[j] == 0,
                forall|j: int|
                    0 <= j < size && (j / (w as int) == 0 || j / (w as int) == h - 1) ==> obst@[j]
                        == OBSTACLE,
                forall|j: int|
                    0 <= j < size && (j % (w as int) == 0 || j % (w as int) == w - 1) && j / (
                    w as int) < y ==> obst@[j] == OBSTACLE,
        {
            proof {
                lemma_size_bound(w as int, h as int);
                lemma_grid_index(w as int, h as int, 0, y as int);
                lemma_grid_index(w as int, h as int, (w - 1) as int, y as int);
            }
            obst[y * w] = OBSTACLE;
            obst[y * w + (w - 1)] = OBSTACLE;
            proof {
                assert forall|j: int|
                    0 <= j < size && (j % (w as int) == 0 || j % (w as int) == w - 1) && j / (
                    w as int) < y + 1 implies obst@[j] == OBSTACLE by {
                    lemma_flat_coords(w as int, h as int, j);
                }
            }
        }
        let ghost mut rects: Seq<(int, int, int, int)> = Seq::empty();
        proof {
            assert forall|j: int| 0 <= j < size implies (obst@[j] == OBSTACLE <==> is_border(
                w as int,
                h as int,
                j,
            ) || covered(rects, w as int, j)) by {
                lemma_flat_coords(w as int, h as int, j);
            }
        }

        // Random rectangular blocks, clipped to stay inside the border.
        let count = 12 + rng.below(8);
        let mut b: u64 = 0;
        while b < count
            invariant
                64 <= w <= 1024,
                64 <= h <= 1024,
                obst@.len() == size,
                size == w * h,
                12 <= count < 20,
                b <= count,
                mask_ok(obst@),
                rects.len() == b,
                forall|k: int| 0 <= k < rects.len() ==> block_ok(w as int, h as int, #[trigger] rects[k]),
                forall|j: int|
                    0 <= j < size ==> ((#[trigger] obst@[j]) == OBSTACLE <==> is_border(
                        w as int,
                        h as int,
                        j,
                    ) || covered(rects, w as int, j)),
            decreases count - b,
        {
            let bx = 20 + rng.below((w - 60) as u64) as usize;
            let by = 20 + rng.below((h - 60) as u64) as usize;
            let bw = 5 + rng.below(15) as usize;
            let bh = 5 + rng.below(15) as usize;
            let ghost rects0 = rects;
            let ghost r: (int, int, int, int) = (bx as int, by as int, bw as int, bh as int);
            let mut y = by;
            while y < by + bh
                invariant
                    64 <= w <= 1024,
                    64 <= h <= 1024,
                    obst@.len() == size,
                    size == w * h,
                    20 <= bx < w - 40,
                    20 <= by < h - 40,
                    5 <= bw < 20,
                    5 <= bh < 20,
                    by <= y <= by + bh,
                    r == (bx as int, by as int, bw as int, bh as int),
                    mask_ok(obst@),
                    forall|j: int|
                        0 <= j < size ==> ((#[trigger] obst@[j]) == OBSTACLE <==> is_border(
                            w as int,
                            h as int,
                            j,
                        ) || covered(rects0, w as int, j) || partial_block(
                            bx as int,
                            by as int,
                            bw as int,
                            y as int,
                            bx as int,
                            w as int,
                            j,
                        )),
                decreases by + bh - y,
            {
                let mut x = bx;
                while x < bx + bw
                    invariant
                        64 <= w <= 1024,
                        64 <= h <= 1024,
                        obst@.len() == size,
                        size == w * h,
                        20 <= bx < w - 40,
                        20 <= by < h - 40,
                        5 <= bw < 20,
                        5 <= bh < 20,
                        by <= y < by + bh,
                        bx <= x <= bx + bw,
                        mask_ok(obst@),
                        forall|j: int|
                            0 <= j < size ==> ((#[trigger] obst@[j]) == OBSTACLE <==> is_border(
                                w as int,
                                h as int,
                                j,
                            ) || covered(rects0, w as int, j) || partial_block(
                                bx as int,
                                by as int,
                                bw as int,
                                y as int,
                                x as int,
                                w as int,
                                j,
                            )),
                    decreases bx + bw - x,
                {
                    if y < h - 1 && x < w - 1 {
                        proof {
                            lemma_size_bound(w as int, h as int);
                            lemma_grid_index(w as int, h as int, x as int, y as int);
                        }
                        obst[y * w + x] = OBSTACLE;
                    }
                    proof {
                        assert forall|j: int| 0 <= j < size implies ((#[trigger] obst@[j])
                            == OBSTACLE <==> is_border(w as int, h as int, j) || covered(
                            rects0,
                            w as int,
                            j,
                        ) || partial_block(
                            bx as int,
                            by as int,
                            bw as int,
                            y as int,
                            (x + 1) as int,
                            w as int,
                            j,
                        )) by {
                            lemma_flat_coords(w as int, h as int, j);
                        }
                    }
                    x += 1;
                }
                y += 1;
            }
            proof {
                rects = rects0.push(r);
                assert forall|j: int| 0 <= j < size implies ((#[trigger] obst@[j]) == OBSTACLE
                    <==> is_border(w as int, h as int, j) || covered(rects, w as int, j)) by {
                    lemma_covered_push(rects0, r, w as int, j);
                    assert(covered_by(r, w as int, j) == partial_block(
                        bx as int,
                        by as int,
                        bw as int,
                        (by + bh) as int,
                        bx as int,
                        w as int,
                        j,
                    ));
                }
            }
            b += 1;
        }

        proof {
            assert(blocks_layout(obst@, w as int, h as int)) by {
                assert(12 <= rects.len() < 20);
            }
            let wi = w as int;
            let hi = h as int;
            lemma_grid_index(wi, hi, 12, 12);
            lemma_grid_index(wi, hi, 12, 13);
            lemma_grid_index(wi, hi, wi - 12, hi - 12);
            lemma_grid_index(wi, hi, wi - 12, hi - 13);
            assert forall|e: int|
                (e == 12 * wi + 12 || e == 13 * wi + 12 || e == (hi - 12) * wi + (wi - 12) || e == (
                hi - 13) * wi + (wi - 12)) implies obst@[e] == 0 by {
                assert(!is_border(wi, hi, e));
                assert(!covered(rects, wi, e)) by {
                    if covered(rects, wi, e) {
                        let k = choose|k: int|
                            0 <= k < rects.len() && covered_by(#[trigger] rects[k], wi, e);
                        assert(block_ok(wi, hi, rects[k]));
                        assert(20 <= e % wi < wi - 40 + 19);
                    }
                }
                assert(obst@[e] != OBSTACLE);
            }
        }

        self.obstacles = obst;
        self.pickup = zero_grid(size);
        self.delivery = zero_grid(size);
        self.vein = zero_grid(size);
    }

    /// One diffusion-decay step of the engine: re-asserts the emitter cells,
    /// then recomputes every interior cell from the previous tick's values
    /// (double-buffered, so the stencil reads only old neighbours), forcing
    /// interior obstacle cells' repulsion to exactly OBSTACLE and decaying
    /// the vein in place. Obstacle and border cells are never updated by any
    /// diffusion.
    pub fn step(&mut self)
        requires
            old(self).wf(),
        ensures
            final(self).wf(),
            final(self).width == old(self).width,
            final(self).height == old(self).height,
            final(self).obstacles@ == old(self).obstacles@,
            final(self).pickup@.len() == old(self).pickup@.len(),
            final(self).delivery@.len() == old(self).delivery@.len(),
            final(self).repulsion@.len() == old(self).repulsion@.len(),
            final(self).vein@.len() == old(self).vein@.len(),
            final(self).pickup@ == stepped_grid(
                emitted_pickup(old(self).pickup@, old(self).width as int),
                old(self).obstacles@,
                old(self).width as int,
                old(self).height as int,
                KEEP_PD as int,
            ),
            final(self).delivery@ == stepped_grid(
                emitted_delivery(
                    old(self).delivery@,
                    old(self).width as int,
                    old(self).height as int,
                ),
                old(self).obstacles@,
                old(self).width as int,
                old(self).height as int,
                KEEP_PD as int,
            ),
            final(self).repulsion@ == stepped_repulsion_grid(
                old(self).repulsion@,
                old(self).obstacles@,
                old(self).width as int,
                old(self).height as int,
            ),
            final(self).vein@ == stepped_vein_grid(
                old(self).vein@,
                old(self).obstacles@,
                old(self).width as int,
                old(self).height as int,
            ),
            forall|i: int|
                0 <= i < final(self).pickup@.len() ==> #[trigger] final(self).pickup@[i] as int == stepped_cell(
                    emitted_pickup(old(self).pickup@, old(self).width as int),
                    old(self).obstacles@,
                    old(self).width as int,
                    old(self).height as int,
                    KEEP_PD as int,
                    i,
                ),
            forall|i: int|
                0 <= i < final(self).delivery@.len() ==> #[trigger] final(self).delivery@[i] as int
                    == stepped_cell(
                    emitted_delivery(
                        old(self).delivery@,
                        old(self).width as int,
                        old(self).height as int,
                    ),
                    old(self).obstacles@,
                    old(self).width as int,
                    old(self).height as int,
                    KEEP_PD as int,
                    i,
                ),
            forall|i: int|
                0 <= i < final(self).repulsion@.len() ==> #[trigger] final(self).repulsion@[i] as int
                    == stepped_repulsion_cell(
                    old(self).repulsion@,
                    old(self).obstacles@,
                    old(self).width as int,
                    old(self).height as int,
                    i,
                ),
            forall|i: int|
                0 <= i < final(self).vein@.len() ==> #[trigger] final(self).vein@[i] as int == stepped_vein_cell(
                    old(self).vein@,
                    old(self).obstacles@,
                    old(self).width as int,
                    old(self).height as int,
                    i,
                ),
            forall|i: int|
                0 <= i < final(self).repulsion@.len() && interior(
                    old(self).width as int,
                    old(self).height as int,
                    i,
                ) && obstructed(old(self).obstacles@, i) ==> final(self).repulsion@[i] == OBSTACLE,
    {
        let w = self.width;
        let h = self.height;

        // Emission: the two pickup and two delivery emitter cells are forced
        // to the constant each tick, not accumulated.
        proof {
            lemma_size_bound(w as int, h as int);
            assert(w * h == (w * h) as usize);
            lemma_grid_index(w as int, h as int, 12, 12);
            lemma_grid_index(w as int, h as int, 12, 13);
            lemma_grid_index(w as int, h as int, (w - 12) as int, (h - 12) as int);
            lemma_grid_index(w as int, h as int, (w - 12) as int, (h - 13) as int);
        }
        self.pickup[12 * w + 12] = EMITTER_VALUE;
        self.pickup[13 * w + 12] = EMITTER_VALUE;
        self.delivery[(h - 12) * w + (w - 12)] = EMITTER_VALUE;
        self.delivery[(h - 13) * w + (w - 12)] = EMITTER_VALUE;

        let ghost gp = self.pickup@;
        let ghost gd = self.delivery@;
        let ghost gr = self.repulsion@;
        let ghost gv = self.vein@;
        let ghost go = self.obstacles@;
        let ghost size = self.pickup@.len() as int;

        assert(gp == emitted_pickup(old(self).pickup@, w as int));
        assert(gd == emitted_delivery(old(self).delivery@, w as int, h as int));
        assert(grid_ok(gp));
        assert(grid_ok(gd));

        let mut new_p = copy_grid(&self.pickup);
        let mut new_d = copy_grid(&self.delivery);
        let mut new_r = copy_grid(&self.repulsion);
        let mut new_v = copy_grid(&self.vein);

        proof {
            lemma_size_bound(w as int, h as int);
            assert forall|j: int| 0 <= j <= w implies !interior(w as int, h as int, j) by {
                if j < w {
                    lemma_grid_index(w as int, h as int, j, 0);
                } else {
                    lemma_grid_index(w as int, h as int, 0, 1);
                }
            }
        }

        for y in 1..(h - 1)
            invariant
                self.wf(),
                w == self.width,
                h == self.height,
                gp == self.pickup@,
                gd == self.delivery@,
                gr == self.repulsion@,
                gv == self.vein@,
                go == self.obstacles@,
                size == w * h,
                gp.len() == size,
                gd.len() == size,
                gr.len() == size,
                gv.len() == size,
                go.len() == size,
                1 <= y <= h - 1,
                partial_pd(new_p@, gp, go, w as int, h as int, y * w + 1),
                partial_pd(new_d@, gd, go, w as int, h as int, y * w + 1),
                partial_rep(new_r@, gr, go, w as int, h as int, y * w + 1),
                partial_vein(new_v@, gv, go, w as int, h as int, y * w + 1),
        {
            for x in 1..(w - 1)
                invariant
                    self.wf(),
                    w == self.width,
                    h == self.height,
                    gp == self.pickup@,
                    gd == self.delivery@,
                    gr == self.repulsion@,
                    gv == self.vein@,
                    go == self.obstacles@,
                    size == w * h,
                    gp.len() == size,
                    gd.len() == size,
                    gr.len() == size,
                    gv.len() == size,
                    go.len() == size,
                    1 <= y < h - 1,
                    1 <= x <= w - 1,
                    partial_pd(new_p@, gp, go, w as int, h as int, y * w + x),
                    partial_pd(new_d@, gd, go, w as int, h as int, y * w + x),
                    partial_rep(new_r@, gr, go, w as int, h as int, y * w + x),
                    partial_vein(new_v@, gv, go, w as int, h as int, y * w + x),
            {
                proof {
                    lemma_size_bound(w as int, h as int);
                    lemma_grid_index(w as int, h as int, x as int, y as int);
                    lemma_grid_index(w as int, h as int, x as int, (y + 1) as int);
                    lemma_mul_inequality(1, y as int, w as int);
                    assert(((y + 1) as int) * (w as int) == (y as int) * (w as int) + (w as int))
                        by (nonlinear_arith);
                }
                let i = y * w + x;
                if self.obstacles[i] > 500 {
                    new_r[i] = OBSTACLE;
                } else {
                    let vp = diffuse_cell(&self.pickup, w, i, KEEP_PD);
                    let vd = diffuse_cell(&self.delivery, w, i, KEEP_PD);
                    let vr = diffuse_cell(&self.repulsion, w, i, KEEP_REPULSION);
                    new_p[i] = vp;
                    new_d[i] = vd;
                    new_r[i] = vr;
                    let dv = ((self.vein[i] as u64) * (KEEP_VEIN as u64)) / 1000;
                    proof {
                        lemma_scale_div_bound((gv[i as int] as int) * (KEEP_VEIN as int), MAX_FIELD as int);
                        lemma_mul_upper_bound(gv[i as int] as int, MAX_FIELD as int, KEEP_VEIN as int, 1000);
                        lemma_mul_nonnegative(gv[i as int] as int, KEEP_VEIN as int);
                    }
                    new_v[i] = dv as i64;
                }
            }
            proof {
                lemma_size_bound(w as int, h as int);
                lemma_grid_index(w as int, h as int, (w - 1) as int, y as int);
                lemma_grid_index(w as int, h as int, 0, (y + 1) as int);
                assert(!interior(w as int, h as int, y * w + (w - 1)));
                assert((y + 1) * w == y * w + w) by (nonlinear_arith);
                assert(!interior(w as int, h as int, y * w + w));
            }
        }

        proof {
            let wi = w as int;
            let hi = h as int;
            assert forall|j: int| (hi - 1) * wi + 1 <= j < size implies !interior(wi, hi, j) by {
                let r = j - (hi - 1) * wi;
                assert(wi * hi == hi * wi) by (nonlinear_arith);
                assert((hi - 1) * wi == hi * wi - wi) by (nonlinear_arith);
                lemma_fundamental_div_mod_converse(j, wi, hi - 1, r);
            }
            assert(size == wi * hi);
        }

        self.pickup = new_p;
        self.delivery = new_d;
        self.repulsion = new_r;
        self.vein = new_v;

        proof {
            assert forall|i: int| 0 <= i < size implies 0 <= #[trigger] self.pickup@[i]
                <= MAX_FIELD by {
                if interior(w as int, h as int, i) && !obstructed(go, i) {
                    lemma_diffused_bounds(gp, w as int, i, KEEP_PD as int);
                }
            }
            assert forall|i: int| 0 <= i < size implies 0 <= #[trigger] self.delivery@[i]
                <= MAX_FIELD by {
                if interior(w as int, h as int, i) && !obstructed(go, i) {
                    lemma_diffused_bounds(gd, w as int, i, KEEP_PD as int);
                }
            }
            assert forall|i: int| 0 <= i < size implies 0 <= #[trigger] self.repulsion@[i]
                <= MAX_FIELD by {
                if interior(w as int, h as int, i) && !obstructed(go, i) {
                    lemma_diffused_bounds(gr, w as int, i, KEEP_REPULSION as int);
                }
            }
            assert forall|i: int| 0 <= i < size implies 0 <= #[trigger] self.vein@[i]
                <= MAX_FIELD by {
                if interior(w as int, h as int, i) && !obstructed(go, i) {
                    lemma_mul_upper_bound(gv[i] as int, MAX_FIELD as int, KEEP_VEIN as int, 1000);
                    lemma_mul_nonnegative(gv[i] as int, KEEP_VEIN as int);
                    lemma_scale_div_bound((gv[i] as int) * (KEEP_VEIN as int), MAX_FIELD as int);
                }
            }
            let wi = w as int;
            let hi = h as int;
            assert(self.pickup@ =~= stepped_grid(gp, go, wi, hi, KEEP_PD as int));
            assert(self.delivery@ =~= stepped_grid(gd, go, wi, hi, KEEP_PD as int));
            assert(self.repulsion@ =~= stepped_repulsion_grid(gr, go, wi, hi));
            assert(self.vein@ =~= stepped_vein_grid(gv, go, wi, hi));
        }
    }
}

/// Buffer of a diffusing grid filled up to (but excluding) cell `bound` with
/// this tick's values, still holding last tick's values beyond it.
pub open spec fn partial_pd(newg: Seq<i64>, f: Seq<i64>, obst: Seq<i64>, w: int, h: int, bound: int) -> bool {
    &&& newg.len() == f.len()
    &&& forall|j: int|
        0 <= j < f.len() ==> #[trigger] newg[j] as int == (if j < bound {
            stepped_cell(f, obst, w, h, KEEP_PD as int, j)
        } else {
            at(f, j)
        })
}

pub open spec fn partial_rep(newg: Seq<i64>, f: Seq<i64>, obst: Seq<i64>, w: int, h: int, bound: int) -> bool {
    &&& newg.len() == f.len()
    &&& forall|j: int|
        0 <= j < f.len() ==> #[trigger] newg[j] as int == (if j < bound {
            stepped_repulsion_cell(f, obst, w, h, j)
        } else {
            at(f, j)
        })
}

pub open spec fn partial_vein(newg: Seq<i64>, f: Seq<i64>, obst: Seq<i64>, w: int, h: int, bound: int) -> bool {
    &&& newg.len() == f.len()
    &&& forall|j: int|
        0 <= j < f.len() ==> #[trigger] newg[j] as int == (if j < bound {
            stepped_vein_cell(f, obst, w, h, j)
        } else {
            at(f, j)
        })
}

/// One diffusion-decay evaluation of an interior cell.
fn diffuse_cell(f: &Vec<i64>, w: usize, i: usize, keep: i64) -> (r: i64)
    requires
        grid_ok(f@),
        1 <= w,
        w <= i,
        i + w < f@.len(),
        f@.len() <= 1024 * 1024,
        0 <= keep <= 1000,
    ensures
        r as int == diffused(f@, w as int, i as int, keep as int),
        0 <= r <= MAX_FIELD,
{
    let c = f[i];
    let le = f[i - 1];
    let ri = f[i + 1];
    let up = f[i - w];
    let dn = f[i + w];
    let base: i64 = 400 * c + 150 * (le + ri + up + dn);
    proof {
        lemma_diffused_bounds(f@, w as int, i as int, keep as int);
    }
    let b1 = (base as u64) / 1000;
    let r = (b1 * (keep as u64)) / 1000;
    proof {
        lemma_scale_div_bound(base as int, MAX_FIELD as int);
        lemma_mul_upper_bound(b1 as int, MAX_FIELD as int, keep as int, 1000);
        lemma_mul_nonnegative(b1 as int, keep as int);
    }
    r as i64
}

/// Adds `val` to the grid cell containing milli-unit position (x, y),
/// saturating at MAX_FIELD; a position outside the grid deposits nothing.
pub fn add_repulsion(grid: &mut Vec<i64>, w: usize, h: usize, x: i64, y: i64, val: i64)
    requires
        grid_ok(old(grid)@),
        old(grid)@.len() == w * h,
        1 <= w <= 1024,
        1 <= h <= 1024,
        0 <= val <= MAX_FIELD,
    ensures
        final(grid)@ == deposit(old(grid)@, w as int, h as int, x as int, y as int, val as int),
        final(grid)@.len() == old(grid)@.len(),
        grid_ok(final(grid)@),
{
    proof {
        lemma_size_bound(w as int, h as int);
    }
    if x >= 0 && y >= 0 {
        let gxu = (x as u64) / 1000;
        let gyu = (y as u64) / 1000;
        if gxu < w as u64 && gyu < h as u64 {
            let gx = gxu as usize;
            let gy = gyu as usize;
            proof {
                lemma_grid_index(w as int, h as int, gx as int, gy as int);
            }
            let i = gy * w + gx;
            let cur = grid[i];
            let v = cur + val;
            grid[i] = if v > MAX_FIELD {
                MAX_FIELD
            } else {
                v
            };
        }
    }
}

/// The same cell-deposit operation, applied to the vein grid for trail
/// reinforcement.
pub fn add_vein(grid: &mut Vec<i64>, w: usize, h: usize, x: i64, y: i64, val: i64)
    requires
        grid_ok(old(grid)@),
        old(grid)@.len() == w * h,
        1 <= w <= 1024,
        1 <= h <= 1024,
        0 <= val <= MAX_FIELD,
    ensures
        final(grid)@ == deposit(old(grid)@, w as int, h as int, x as int, y as int, val as int),
        final(grid)@.len() == old(grid)@.len(),
        grid_ok(final(grid)@),
{
    add_repulsion(grid, w, h, x, y, val)
}

/// A grid-sized buffer of zeroes.
fn zero_grid(n: usize) -> (r: Vec<i64>)
    ensures
        r@.len() == n,
        forall|i: int| 0 <= i < n ==> r@[i] == 0,
{
    let mut r: Vec<i64> = Vec::new();
    for i in 0..n
        invariant
            r@.len() == i,
            forall|j: int| 0 <= j < i ==> r@[j] == 0,
    {
        r.push(0);
    }
    r
}

/// A fresh buffer holding the same values: the write target of the
/// double-buffered stencil.
fn copy_grid(g: &Vec<i64>) -> (r: Vec<i64>)
    ensures
        r@ == g@,
{
    let mut r: Vec<i64> = Vec::new();
    let n = g.len();
    for i in 0..n
        invariant
            n == g@.len(),
            r@ == g@.subrange(0, i as int),
    {
        r.push(g[i]);
        proof {
            assert(g@.subrange(0, i + 1) =~= g@.subrange(0, i as int).push(g@[i as int]));
        }
    }
    proof {
        assert(g@.subrange(0, n as int) =~= g@);
    }
    r
}

} // verus!
