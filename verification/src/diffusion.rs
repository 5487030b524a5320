//! The mutable temperature field, advanced once per tick by an explicit
//! 5-point finite-difference diffusion step with a clamped heat source.
//!
//! One step sends every interior cell `(x, y)` to
//! `T + alpha * (T_left + T_right + T_down + T_up - 4*T)` — unless the source
//! is positive there, in which case the cell is clamped to the source value —
//! and leaves every border cell at its prior value. In fixed-point form, with
//! `alpha` counting units of `1/SCALE`, the diffusion update is computed as
//! `((SCALE - 4*alpha) * T + alpha * (sum of the 4 neighbors)) / SCALE`,
//! which is exact integer arithmetic and manifestly non-negative whenever
//! `4 * alpha <= SCALE` (the von Neumann stability bound for this stencil).

use vstd::prelude::*;

use crate::SCALE;
use crate::field::Field;
use crate::field::grid_bounded;
use crate::field::grid_dims;
use crate::field::grid_zero;
use crate::source::SourceMap;

verus! {

/// True when `(x, y)` is an interior cell of a `w` by `h` grid, i.e. not on
/// the border.
pub open spec fn interior(w: int, h: int, x: int, y: int) -> bool {
    1 <= x < w - 1 && 1 <= y < h - 1
}

/// The value cell `(x, y)` takes after one step over temperatures `t`,
/// sources `s` and diffusion coefficient `alpha` (in units of `1/SCALE`):
/// border cells keep their value, positive-source cells are clamped to the
/// source, and every other cell diffuses toward the average of its neighbors.
pub open spec fn step_cell(t: Seq<Seq<int>>, s: Seq<Seq<int>>, alpha: int, x: int, y: int) -> int {
    let w = t.len() as int;
    let h = t[x].len() as int;
    if !interior(w, h, x, y) {
        t[x][y]
    } else if s[x][y] > 0 {
        s[x][y]
    } else {
        let neighbors = t[x - 1][y] + t[x + 1][y] + t[x][y - 1] + t[x][y + 1];
        ((SCALE - 4 * alpha) * t[x][y] + alpha * neighbors) / (SCALE as int)
    }
}

/// The whole field after one step: every cell is `step_cell`, computed from a
/// fully-formed snapshot of the old field.
pub open spec fn step_grid(t: Seq<Seq<int>>, s: Seq<Seq<int>>, alpha: int) -> Seq<Seq<int>> {
    Seq::new(t.len(), |x: int| Seq::new(t[x].len(), |y: int| step_cell(t, s, alpha, x, y)))
}

/// The field after `n` consecutive steps.
pub open spec fn step_n(t: Seq<Seq<int>>, s: Seq<Seq<int>>, alpha: int, n: nat) -> Seq<Seq<int>>
    decreases n,
{
    if n == 0 {
        t
    } else {
        step_grid(step_n(t, s, alpha, (n - 1) as nat), s, alpha)
    }
}

/// The temperature field of the simulation, stepped once per tick.
pub struct DiffusionGrid {
    alpha: u64,
    field: Field,
}

impl View for DiffusionGrid {
    type V = Seq<Seq<int>>;

    closed spec fn view(&self) -> Seq<Seq<int>> {
        self.field@
    }
}

impl DiffusionGrid {
    /// The coefficient respects the stability bound `alpha <= 1/4` and every
    /// temperature is a valid fixed-point value in `[0, SCALE]`.
    pub closed spec fn wf(&self) -> bool {
        &&& self.field.wf()
        &&& 4 * (self.alpha as int) <= SCALE
        &&& grid_dims(self.field@, self.field.spec_width(), self.field.spec_height())
        &&& grid_bounded(self.field@, SCALE as int)
    }

    pub closed spec fn spec_width(&self) -> int {
        self.field.spec_width()
    }

    pub closed spec fn spec_height(&self) -> int {
        self.field.spec_height()
    }

    pub closed spec fn spec_alpha(&self) -> int {
        self.alpha as int
    }

    /// Create a `width` by `height` grid with every temperature zero.
    ///
    /// `alpha` counts units of `1/SCALE` and must respect the stability bound
    /// `alpha <= 1/4`, without which the fixed-point update would not be a
    /// convex combination of cell values.
    pub fn new(width: usize, height: usize, alpha: u64) -> (r: DiffusionGrid)
        requires
            (width as int) * (height as int) <= usize::MAX,
            4 * alpha <= SCALE,
        ensures
            r.wf(),
            r.spec_width() == width,
            r.spec_height() == height,
            r.spec_alpha() == alpha,
            grid_zero(r@),
    {
        let field = Field::new(width, height);
        DiffusionGrid { alpha, field }
    }

    pub fn width(&self) -> (r: usize)
        ensures
            r == self.spec_width(),
    {
        self.field.width()
    }

    pub fn height(&self) -> (r: usize)
        ensures
            r == self.spec_height(),
    {
        self.field.height()
    }

    pub fn alpha(&self) -> (r: u64)
        ensures
            r == self.spec_alpha(),
    {
        self.alpha
    }

    /// Read the temperature at `(x, y)`; the host's renderer calls this for
    /// every cell between steps.
    pub fn read(&self, x: usize, y: usize) -> (r: u64)
        requires
            self.wf(),
            x < self.spec_width(),
            y < self.spec_height(),
        ensures
            r as int == self@[x as int][y as int],
            0 <= r <= SCALE,
    {
        self.field.get(x, y)
    }

    /// Overwrite the temperature at `(x, y)`, e.g. to seed an initial
    /// condition before stepping.
    pub fn write(&mut self, x: usize, y: usize, v: u64)
        requires
            old(self).wf(),
            x < old(self).spec_width(),
            y < old(self).spec_height(),
            v <= SCALE,
        ensures
            final(self).wf(),
            final(self).spec_width() == old(self).spec_width(),
            final(self).spec_height() == old(self).spec_height(),
            final(self).spec_alpha() == old(self).spec_alpha(),
            final(self)@ == crate::field::grid_write(old(self)@, x as int, y as int, v as int),
    {
        self.field.set(x, y, v);
    }

    /// Advance the field by one tick: compute the next field from a snapshot
    /// of the current one into a fresh buffer, then make that buffer current.
    #[verifier::loop_isolation(false)]
    pub fn step(&mut self, src: &SourceMap)
        requires
            old(self).wf(),
            src.wf(),
            src.spec_width() == old(self).spec_width(),
            src.spec_height() == old(self).spec_height(),
        ensures
            final(self).wf(),
            final(self).spec_width() == old(self).spec_width(),
            final(self).spec_height() == old(self).spec_height(),
            final(self).spec_alpha() == old(self).spec_alpha(),
            final(self)@ == step_grid(old(self)@, src@, old(self).spec_alpha()),
    {
        let w = self.field.width();
        let h = self.field.height();
        let ghost t = self.field@;
        let ghost sg = src@;
        let ghost a = self.alpha as int;
        proof {
            src.lemma_view_dims();
            src.lemma_bounded();
            self.field.lemma_size_bound();
        }
        let mut next = Field::new(w, h);
        for x in 0..w
            invariant
                next.wf(),
                next.spec_width() == w,
                next.spec_height() == h,
                grid_dims(next@, w as int, h as int),
                forall|i: int, j: int|
                    0 <= i < x && 0 <= j < h ==> #[trigger] next@[i][j] == step_cell(t, sg, a, i, j),
        {
            for y in 0..h
                invariant
                    next.wf(),
                    next.spec_width() == w,
                    next.spec_height() == h,
                    grid_dims(next@, w as int, h as int),
                    forall|i: int, j: int|
                        0 <= i < x && 0 <= j < h ==> #[trigger] next@[i][j] == step_cell(
                            t,
                            sg,
                            a,
                            i,
                            j,
                        ),
                    forall|j: int|
                        0 <= j < y ==> #[trigger] next@[x as int][j] == step_cell(
                            t,
                            sg,
                            a,
                            x as int,
                            j,
                        ),
            {
                let v: u64 = if x == 0 || x == w - 1 || y == 0 || y == h - 1 {
                    self.field.get(x, y)
                } else {
                    let s = src.get(x, y);
                    if s > 0 {
                        s
                    } else {
                        let c = self.field.get(x, y);
                        let left = self.field.get(x - 1, y);
                        let right = self.field.get(x + 1, y);
                        let down = self.field.get(x, y - 1);
                        let up = self.field.get(x, y + 1);
                        proof {
                            lemma_diffusion_term_bounds(
                                a,
                                c as int,
                                left as int,
                                right as int,
                                down as int,
                                up as int,
                            );
                        }
                        ((SCALE - 4 * self.alpha) * c + self.alpha * (left + right + down + up))
                            / SCALE
                    }
                };
                next.set(x, y, v);
            }
        }
        self.field = next;
        proof {
            assert(self@ =~~= step_grid(t, sg, a));
            lemma_step_grid_bounded(t, sg, a, w as int, h as int);
        }
    }
}

/// One step keeps every cell in `[0, SCALE]`: with `4 * alpha <= SCALE` the
/// diffusion update is a scaled convex combination of cell values, source
/// cells take a source value, and border cells keep a value they already had.
pub proof fn lemma_step_cell_bounded(
    t: Seq<Seq<int>>,
    s: Seq<Seq<int>>,
    alpha: int,
    w: int,
    h: int,
    x: int,
    y: int,
)
    requires
        grid_dims(t, w, h),
        grid_dims(s, w, h),
        grid_bounded(t, SCALE as int),
        grid_bounded(s, SCALE as int),
        0 <= alpha,
        4 * alpha <= SCALE,
        0 <= x < w,
        0 <= y < h,
    ensures
        0 <= step_cell(t, s, alpha, x, y) <= SCALE,
{
    if interior(w, h, x, y) && !(s[x][y] > 0) {
        let down = t[x][y - 1];
        let up = t[x][y + 1];
        lemma_diffusion_term_bounds(alpha, t[x][y], t[x - 1][y], t[x + 1][y], down, up);
    }
}

/// On a non-source interior cell, the fixed-point update is exactly the
/// textbook explicit stencil `T + alpha * laplacian / SCALE`, with the
/// laplacian `sum of the 4 neighbors - 4*T` and division rounding down.
pub proof fn lemma_step_cell_is_stencil(
    t: Seq<Seq<int>>,
    s: Seq<Seq<int>>,
    alpha: int,
    w: int,
    h: int,
    x: int,
    y: int,
)
    requires
        grid_dims(t, w, h),
        grid_dims(s, w, h),
        interior(w, h, x, y),
        !(s[x][y] > 0),
    ensures
        step_cell(t, s, alpha, x, y) == t[x][y] + alpha * (t[x - 1][y] + t[x + 1][y] + t[x][y - 1]
            + t[x][y + 1] - 4 * t[x][y]) / (SCALE as int),
{
    let center = t[x][y];
    let neighbors = t[x - 1][y] + t[x + 1][y] + t[x][y - 1] + t[x][y + 1];
    lemma_update_rearranged(alpha, center, neighbors, SCALE as int);
    vstd::arithmetic::div_mod::lemma_hoist_over_denominator(
        alpha * (neighbors - 4 * center),
        center,
        SCALE as nat,
    );
}

/// The fixed-point update and the textbook stencil have the same numerator:
/// `(sc - 4a)c + an == a(n - 4c) + c*sc`.
proof fn lemma_update_rearranged(a: int, c: int, n: int, sc: int) by (nonlinear_arith)
    ensures
        (sc - 4 * a) * c + a * n == a * (n - 4 * c) + c * sc,
{
}

/// For any cell with a positive source, one step sets the cell to exactly the
/// source value, regardless of the temperature it held before — source cells
/// are clamped, not diffused into. (Border cells always keep their prior
/// value, so the clamp is stated of the interior, the cells a step updates.)
pub proof fn lemma_source_clamp(
    t: Seq<Seq<int>>,
    s: Seq<Seq<int>>,
    alpha: int,
    w: int,
    h: int,
    x: int,
    y: int,
)
    requires
        grid_dims(t, w, h),
        interior(w, h, x, y),
        s[x][y] > 0,
    ensures
        step_grid(t, s, alpha)[x][y] == s[x][y],
{
}

/// Any number of steps leaves every border cell unchanged, for any input.
pub proof fn lemma_border_invariance(
    t: Seq<Seq<int>>,
    s: Seq<Seq<int>>,
    alpha: int,
    w: int,
    h: int,
    x: int,
    y: int,
    n: nat,
)
    requires
        grid_dims(t, w, h),
        0 <= x < w,
        0 <= y < h,
        !interior(w, h, x, y),
    ensures
        grid_dims(step_n(t, s, alpha, n), w, h),
        step_n(t, s, alpha, n)[x][y] == t[x][y],
    decreases n,
{
    if n > 0 {
        lemma_border_invariance(t, s, alpha, w, h, x, y, (n - 1) as nat);
    }
}

/// Stability: with the bound `4 * alpha <= SCALE` in force, an all-zero
/// source and any initial field of values in `[0, SCALE]`, any number of
/// steps keeps every value in `[0, SCALE]` — the scheme cannot blow up.
pub proof fn lemma_stability_bound(
    t: Seq<Seq<int>>,
    s: Seq<Seq<int>>,
    alpha: int,
    w: int,
    h: int,
    n: nat,
)
    requires
        grid_dims(t, w, h),
        grid_dims(s, w, h),
        grid_bounded(t, SCALE as int),
        grid_zero(s),
        0 <= alpha,
        4 * alpha <= SCALE,
    ensures
        grid_dims(step_n(t, s, alpha, n), w, h),
        grid_bounded(step_n(t, s, alpha, n), SCALE as int),
    decreases n,
{
    if n > 0 {
        lemma_stability_bound(t, s, alpha, w, h, (n - 1) as nat);
        lemma_step_grid_bounded(step_n(t, s, alpha, (n - 1) as nat), s, alpha, w, h);
    }
}

/// Zero steady state: from an all-zero field with an all-zero source, any
/// number of steps yields an all-zero field.
pub proof fn lemma_zero_steady_state(
    t: Seq<Seq<int>>,
    s: Seq<Seq<int>>,
    alpha: int,
    w: int,
    h: int,
    n: nat,
)
    requires
        grid_dims(t, w, h),
        grid_dims(s, w, h),
        grid_zero(t),
        grid_zero(s),
    ensures
        grid_dims(step_n(t, s, alpha, n), w, h),
        grid_zero(step_n(t, s, alpha, n)),
    decreases n,
{
    if n > 0 {
        lemma_zero_steady_state(t, s, alpha, w, h, (n - 1) as nat);
        let prev = step_n(t, s, alpha, (n - 1) as nat);
        let g = step_grid(prev, s, alpha);
        assert forall|x: int, y: int|
            0 <= x < g.len() && 0 <= y < g[x].len() implies #[trigger] g[x][y] == 0 by {
            if interior(w, h, x, y) && !(s[x][y] > 0) {
                let neighbors = prev[x - 1][y] + prev[x + 1][y] + prev[x][y - 1] + prev[x][y + 1];
                assert(neighbors == 0);
                assert((SCALE - 4 * alpha) * prev[x][y] == 0) by (nonlinear_arith)
                    requires
                        prev[x][y] == 0,
                ;
                assert(alpha * neighbors == 0) by (nonlinear_arith)
                    requires
                        neighbors == 0,
                ;
            }
        }
    }
}

/// One step keeps the whole field within `[0, SCALE]`.
pub proof fn lemma_step_grid_bounded(t: Seq<Seq<int>>, s: Seq<Seq<int>>, alpha: int, w: int, h: int)
    requires
        grid_dims(t, w, h),
        grid_dims(s, w, h),
        grid_bounded(t, SCALE as int),
        grid_bounded(s, SCALE as int),
        0 <= alpha,
        4 * alpha <= SCALE,
    ensures
        grid_dims(step_grid(t, s, alpha), w, h),
        grid_bounded(step_grid(t, s, alpha), SCALE as int),
{
    let g = step_grid(t, s, alpha);
    assert forall|x: int, y: int|
        0 <= x < g.len() && 0 <= y < g[x].len() implies 0 <= #[trigger] g[x][y] <= SCALE by {
        lemma_step_cell_bounded(t, s, alpha, w, h, x, y);
    }
}

/// With the stability bound in force and every cell in `[0, SCALE]`, both
/// products of the fixed-point update fit comfortably in 64 bits and their
/// scaled sum stays in `[0, SCALE]`.
proof fn lemma_diffusion_term_bounds(a: int, c: int, n1: int, n2: int, n3: int, n4: int)
    by (nonlinear_arith)
    requires
        0 <= a,
        4 * a <= SCALE,
        0 <= c <= SCALE,
        0 <= n1 <= SCALE,
        0 <= n2 <= SCALE,
        0 <= n3 <= SCALE,
        0 <= n4 <= SCALE,
    ensures
        0 <= (SCALE - 4 * a) * c <= SCALE * SCALE,
        0 <= a * (n1 + n2 + n3 + n4) <= SCALE * SCALE,
        (SCALE - 4 * a) * c + a * (n1 + n2 + n3 + n4) <= SCALE * SCALE,
        0 <= ((SCALE - 4 * a) * c + a * (n1 + n2 + n3 + n4)) / (SCALE as int) <= SCALE,
{
}

} // verus!
