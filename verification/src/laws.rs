use vstd::prelude::*;
use vstd::arithmetic::div_mod::lemma_fundamental_div_mod;
use vstd::arithmetic::div_mod::lemma_fundamental_div_mod_converse;
use crate::field::{at, diffuse_base, interior, lemma_flat_coords};

verus! {

/// Total mass of the first `n` cells of a grid buffer.
pub open spec fn mass_below(f: Seq<i64>, n: int) -> int
    decreases n,
{
    if n <= 0 {
        0
    } else {
        mass_below(f, n - 1) + at(f, n - 1)
    }
}

/// Total mass of `n` cells read at offset `k`: the sum of `at(f, i + k)` over
/// `0 <= i < n`.
pub open spec fn shifted_mass(f: Seq<i64>, k: int, n: int) -> int
    decreases n,
{
    if n <= 0 {
        0
    } else {
        shifted_mass(f, k, n - 1) + at(f, n - 1 + k)
    }
}

/// Total pre-decay stencil mass of the first `n` cells: the sum of
/// `diffuse_base`, which is one thousand times the diffused value of each
/// cell before decay and truncation.
pub open spec fn base_mass(f: Seq<i64>, w: int, n: int) -> int
    decreases n,
{
    if n <= 0 {
        0
    } else {
        base_mass(f, w, n - 1) + diffuse_base(f, w, n - 1)
    }
}

/// A shifted sum is a difference of two prefix sums (out-of-range reads are
/// zero, so clamping at the buffer ends is implicit).
pub proof fn lemma_shifted_mass(f: Seq<i64>, k: int, n: int)
    requires
        n >= 0,
    ensures
        shifted_mass(f, k, n) == mass_below(f, n + k) - mass_below(f, k),
    decreases n,
{
    if n > 0 {
        lemma_shifted_mass(f, k, n - 1);
    }
}

/// Prefix mass does not grow past the end of the buffer.
pub proof fn lemma_mass_past_len(f: Seq<i64>, m: int)
    requires
        m >= f.len(),
    ensures
        mass_below(f, m) == mass_below(f, f.len() as int),
    decreases m,
{
    if m > f.len() {
        lemma_mass_past_len(f, m - 1);
    }
}

/// A run of zero cells contributes no mass.
pub proof fn lemma_mass_zero_range(f: Seq<i64>, a: int, b: int)
    requires
        0 <= a <= b,
        forall|j: int| a <= j < b ==> at(f, j) == 0,
    ensures
        mass_below(f, b) == mass_below(f, a),
    decreases b - a,
{
    if b > a {
        lemma_mass_zero_range(f, a, b - 1);
    }
}

/// The stencil mass splits into the centre term and the four shifted
/// neighbour sums.
pub proof fn lemma_base_mass_decomposition(f: Seq<i64>, w: int, n: int)
    requires
        n >= 0,
    ensures
        base_mass(f, w, n) == 400 * shifted_mass(f, 0, n) + 150 * (shifted_mass(f, -1, n)
            + shifted_mass(f, 1, n) + shifted_mass(f, -w, n) + shifted_mass(f, w, n)),
    decreases n,
{
    if n > 0 {
        lemma_base_mass_decomposition(f, w, n - 1);
    }
}

/// Diffusion alone conserves mass. Over a whole grid whose first and last
/// rows hold no mass (a closed, boundary-respecting region), the summed
/// pre-decay stencil value `diffuse_base` — one thousand times what each cell
/// would become by diffusion alone — is exactly one thousand times the total
/// mass already present: the discrete Laplacian only moves mass between
/// cells. Emitter forcing, decay, and fixed-point truncation are the only
/// ways a tick changes total mass.
pub proof fn lemma_diffusion_conserves_mass(f: Seq<i64>, w: int, h: int)
    requires
        1 <= w,
        2 <= h,
        f.len() == w * h,
        forall|j: int| 0 <= j < w ==> f[j] == 0,
        forall|j: int| (h - 1) * w <= j < w * h ==> f[j] == 0,
    ensures
        base_mass(f, w, w * h) == 1000 * mass_below(f, w * h),
{
    let n = w * h;
    assert((h - 1) * w == w * h - w) by (nonlinear_arith);
    assert(n >= 2 * w >= 2) by {
        vstd::arithmetic::mul::lemma_mul_inequality(2, h, w);
        assert(h * w == w * h) by (nonlinear_arith);
        assert(2 * w == w * 2) by (nonlinear_arith);
    }
    lemma_base_mass_decomposition(f, w, n);
    lemma_shifted_mass(f, 0, n);
    lemma_shifted_mass(f, 1, n);
    lemma_shifted_mass(f, -1, n);
    lemma_shifted_mass(f, w, n);
    lemma_shifted_mass(f, -1 * w, n);
    assert(-1 * w == -w) by (nonlinear_arith);
    lemma_mass_past_len(f, n + 1);
    lemma_mass_past_len(f, n + w);
    assert(forall|j: int| 0 <= j < w ==> at(f, j) == 0);
    assert(forall|j: int| n - w <= j < n ==> at(f, j) == 0);
    lemma_mass_zero_range(f, 0, 1);
    lemma_mass_zero_range(f, 0, w);
    lemma_mass_zero_range(f, n - 1, n);
    lemma_mass_zero_range(f, n - w, n);
}

/// Cells two or more steps inside every edge.
pub open spec fn well_inside(w: int, h: int, i: int) -> bool {
    &&& 2 <= i % w < w - 2
    &&& 2 <= i / w < h - 2
}

/// Moving a flat index by one cell in either axis moves its coordinates
/// accordingly, as long as no row edge is crossed.
proof fn lemma_neighbour_coords(w: int, j: int)
    requires
        1 <= w,
        0 <= j,
    ensures
        j % w < w - 1 ==> (j + 1) % w == j % w + 1 && (j + 1) / w == j / w,
        j % w == w - 1 ==> (j + 1) % w == 0 && (j + 1) / w == j / w + 1,
        j % w >= 1 ==> (j - 1) % w == j % w - 1 && (j - 1) / w == j / w,
        j % w == 0 && j >= 1 ==> (j - 1) % w == w - 1 && (j - 1) / w == j / w - 1,
        (j + w) % w == j % w && (j + w) / w == j / w + 1,
        j / w >= 1 ==> (j - w) % w == j % w && (j - w) / w == j / w - 1,
{
    lemma_fundamental_div_mod(j, w);
    vstd::arithmetic::div_mod::lemma_mod_bound(j, w);
    vstd::arithmetic::div_mod::lemma_div_pos_is_pos(j, w);
    assert(w * (j / w) == (j / w) * w) by (nonlinear_arith);
    if j % w < w - 1 {
        lemma_fundamental_div_mod_converse(j + 1, w, j / w, j % w + 1);
    }
    if j % w >= 1 {
        lemma_fundamental_div_mod_converse(j - 1, w, j / w, j % w - 1);
    }
    assert((j / w + 1) * w == (j / w) * w + w) by (nonlinear_arith);
    if j % w == w - 1 {
        lemma_fundamental_div_mod_converse(j + 1, w, j / w + 1, 0);
    }
    if j % w == 0 && j >= 1 {
        assert(j == w * (j / w) + j % w);
        assert(j / w >= 1) by {
            if j / w == 0 {
                assert(w * (j / w) == 0) by (nonlinear_arith)
                    requires j / w == 0;
            }
        }
        assert((j / w - 1) * w == (j / w) * w - w) by (nonlinear_arith);
        lemma_fundamental_div_mod_converse(j - 1, w, j / w - 1, w - 1);
    }
    lemma_fundamental_div_mod_converse(j + w, w, j / w + 1, j % w);
    if j / w >= 1 {
        assert((j / w - 1) * w == (j / w) * w - w) by (nonlinear_arith);
        lemma_fundamental_div_mod_converse(j - w, w, j / w - 1, j % w);
    }
}

/// With all mass held well inside the rectangle, the stencil term vanishes
/// on every cell the engine never updates — border cells and anything
/// outside — so the conserved sum of `lemma_diffusion_conserves_mass` is
/// carried entirely by the interior cells the stencil actually recomputes.
pub proof fn lemma_border_cells_idle(f: Seq<i64>, w: int, h: int)
    requires
        5 <= w,
        5 <= h,
        f.len() == w * h,
        forall|j: int| 0 <= j < w * h && !well_inside(w, h, j) ==> f[j] == 0,
    ensures
        forall|i: int|
            0 <= i < w * h && !interior(w, h, i) ==> #[trigger] diffuse_base(f, w, i) == 0,
{
    assert forall|j: int| !(0 <= j < w * h && well_inside(w, h, j)) implies at(f, j) == 0 by {}
    assert forall|i: int| 0 <= i < w * h && !interior(w, h, i) implies #[trigger] diffuse_base(
        f,
        w,
        i,
    ) == 0 by {
        lemma_flat_coords(w, h, i);
        lemma_neighbour_coords(w, i);
        assert(at(f, i) == 0);
        assert(at(f, i + 1) == 0) by {
            if 0 <= i + 1 < w * h && well_inside(w, h, i + 1) {
                if i % w < w - 1 {
                    assert(interior(w, h, i));
                } else {
                    assert((i + 1) % w == 0);
                }
            }
        }
        assert(at(f, i - 1) == 0) by {
            if 0 <= i - 1 < w * h && well_inside(w, h, i - 1) {
                if i % w >= 1 {
                    assert(interior(w, h, i));
                } else {
                    assert((i - 1) % w == w - 1);
                }
            }
        }
        assert(at(f, i + w) == 0) by {
            if 0 <= i + w < w * h && well_inside(w, h, i + w) {
                assert(interior(w, h, i));
            }
        }
        assert(at(f, i - w) == 0) by {
            if 0 <= i - w < w * h && well_inside(w, h, i - w) {
                if i / w >= 1 {
                    assert(interior(w, h, i));
                } else {
                    assert(i == w * (i / w) + i % w);
                    assert(w * (i / w) == 0) by (nonlinear_arith)
                        requires i / w == 0;
                    assert(i < w);
                }
            }
        }
    }
}

} // verus!
