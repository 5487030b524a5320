//! A fixed-dimension 2D array of fixed-point scalars.
//!
//! Cells are addressed by integer coordinates `(x, y)` with `x` in `[0, width)`
//! and `y` in `[0, height)`, stored in one contiguous buffer in column-major
//! order: cell `(x, y)` lives at index `x * height + y`. The view of a field
//! is a sequence of columns, each a sequence of cell values as mathematical
//! integers.

use vstd::prelude::*;

verus! {

/// True when `g` is a `w` by `h` grid: `w` columns of `h` cells each.
pub open spec fn grid_dims(g: Seq<Seq<int>>, w: int, h: int) -> bool {
    &&& g.len() == w
    &&& forall|x: int| 0 <= x < w ==> (#[trigger] g[x]).len() == h
}

/// True when every cell of `g` holds a value in `[0, bound]`.
pub open spec fn grid_bounded(g: Seq<Seq<int>>, bound: int) -> bool {
    forall|x: int, y: int|
        0 <= x < g.len() && 0 <= y < g[x].len() ==> 0 <= #[trigger] g[x][y] <= bound
}

/// True when every cell of `g` is zero.
pub open spec fn grid_zero(g: Seq<Seq<int>>) -> bool {
    forall|x: int, y: int|
        0 <= x < g.len() && 0 <= y < g[x].len() ==> #[trigger] g[x][y] == 0
}

/// A 2D scalar field with fixed dimensions, owning its cell buffer.
pub struct Field {
    width: usize,
    height: usize,
    cells: Vec<u64>,
}

impl View for Field {
    type V = Seq<Seq<int>>;

    closed spec fn view(&self) -> Seq<Seq<int>> {
        Seq::new(
            self.width as nat,
            |x: int|
                Seq::new(
                    self.height as nat,
                    |y: int| self.cells@[x * (self.height as int) + y] as int,
                ),
        )
    }
}

impl Field {
    /// The buffer holds exactly one cell per coordinate pair.
    pub closed spec fn wf(&self) -> bool {
        &&& self.cells@.len() == (self.width as int) * (self.height as int)
        &&& (self.width as int) * (self.height as int) <= usize::MAX
    }

    pub closed spec fn spec_width(&self) -> int {
        self.width as int
    }

    pub closed spec fn spec_height(&self) -> int {
        self.height as int
    }

    /// The view always has exactly `spec_width()` columns of `spec_height()` cells.
    pub proof fn lemma_view_dims(&self)
        ensures
            grid_dims(self@, self.spec_width(), self.spec_height()),
    {
    }

    /// A well-formed field's cell count fits in a `usize`, because the cells
    /// are held in one buffer.
    pub proof fn lemma_size_bound(&self)
        requires
            self.wf(),
        ensures
            self.spec_width() * self.spec_height() <= usize::MAX,
    {
    }

    /// Create a `width` by `height` field with every cell zero.
    pub fn new(width: usize, height: usize) -> (r: Field)
        requires
            (width as int) * (height as int) <= usize::MAX,
        ensures
            r.wf(),
            r.spec_width() == width,
            r.spec_height() == height,
            grid_dims(r@, width as int, height as int),
            grid_zero(r@),
    {
        proof {
            assert((width as int) * (height as int) >= 0) by (nonlinear_arith);
        }
        let n: usize = width * height;
        let mut cells: Vec<u64> = Vec::new();
        while cells.len() < n
            invariant
                cells@.len() <= n,
                forall|i: int| 0 <= i < cells@.len() ==> cells@[i] == 0,
            decreases n - cells@.len(),
        {
            cells.push(0);
        }
        let r = Field { width, height, cells };
        proof {
            r.lemma_view_dims();
            assert forall|x: int, y: int|
                0 <= x < r@.len() && 0 <= y < r@[x].len() implies #[trigger] r@[x][y] == 0 by {
                lemma_cell_index_in_range(width as int, height as int, x, y);
            }
        }
        r
    }

    pub fn width(&self) -> (r: usize)
        ensures
            r == self.spec_width(),
    {
        self.width
    }

    pub fn height(&self) -> (r: usize)
        ensures
            r == self.spec_height(),
    {
        self.height
    }

    /// Read the cell at `(x, y)`.
    pub fn get(&self, x: usize, y: usize) -> (r: u64)
        requires
            self.wf(),
            x < self.spec_width(),
            y < self.spec_height(),
        ensures
            r as int == self@[x as int][y as int],
    {
        proof {
            lemma_cell_index_in_range(
                self.spec_width(),
                self.spec_height(),
                x as int,
                y as int,
            );
        }
        self.cells[x * self.height + y]
    }

    /// Overwrite the cell at `(x, y)`; every other cell keeps its value.
    pub fn set(&mut self, x: usize, y: usize, v: u64)
        requires
            old(self).wf(),
            x < old(self).spec_width(),
            y < old(self).spec_height(),
        ensures
            final(self).wf(),
            final(self).spec_width() == old(self).spec_width(),
            final(self).spec_height() == old(self).spec_height(),
            final(self)@ == grid_write(old(self)@, x as int, y as int, v as int),
    {
        proof {
            lemma_cell_index_in_range(
                self.spec_width(),
                self.spec_height(),
                x as int,
                y as int,
            );
        }
        let idx: usize = x * self.height + y;
        self.cells[idx] = v;
        proof {
            let w = self.spec_width();
            let h = self.spec_height();
            assert forall|a: int, b: int| 0 <= a < w && 0 <= b < h implies #[trigger] self@[a][b]
                == grid_write(old(self)@, x as int, y as int, v as int)[a][b] by {
                lemma_cell_index_in_range(w, h, a, b);
                if a == x as int && b == y as int {
                } else {
                    lemma_cell_index_injective(w, h, a, b, x as int, y as int);
                }
            }
            assert(self@ =~~= grid_write(old(self)@, x as int, y as int, v as int));
        }
    }
}

/// The grid `g` with the cell at `(x, y)` replaced by `v`.
pub open spec fn grid_write(g: Seq<Seq<int>>, x: int, y: int, v: int) -> Seq<Seq<int>> {
    g.update(x, g[x].update(y, v))
}

pub(crate) proof fn lemma_cell_index_in_range(w: int, h: int, x: int, y: int)
    by (nonlinear_arith)
    requires
        0 <= x < w,
        0 <= y < h,
    ensures
        0 <= x * h + y < w * h,
{
}

proof fn lemma_cell_index_injective(w: int, h: int, a: int, b: int, x: int, y: int)
    by (nonlinear_arith)
    requires
        0 <= a < w,
        0 <= b < h,
        0 <= x < w,
        0 <= y < h,
        a != x || b != y,
    ensures
        a * h + b != x * h + y,
{
}

} // verus!
