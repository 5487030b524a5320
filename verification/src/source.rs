//! The heat-source field: an immutable scalar field built once, at startup,
//! from a decoded grayscale image.
//!
//! The host decodes the image (that step can fail outside this library) and
//! hands over its dimensions and raw 16-bit luminance samples in row-major,
//! top-to-bottom order. The image is centered on the grid, each sample is
//! scaled by the intensity factor `k`, and rows are flipped so that the
//! image's top row lands on the grid's highest covered `y` coordinate.

use vstd::prelude::*;

use crate::SCALE;
use crate::field::Field;
use crate::field::grid_bounded;
use crate::field::grid_dims;

verus! {

broadcast use vstd::std_specs::vec::axiom_spec_len;

/// Why a source map could not be built.
#[derive(Clone, Copy, Debug, PartialEq, Eq, Structural)]
pub enum SourceMapError {
    /// The host could not decode the image file at all. Never produced here;
    /// reserved for the host's decoding step, which reports through the same
    /// taxonomy.
    ImageLoad,
    /// The image is wider or taller than the grid, so it cannot be centered.
    ImageTooLarge,
}

/// The column offset that centers an `img_w`-wide image on a `grid_w`-wide grid.
pub open spec fn offset_x(grid_w: int, img_w: int) -> int {
    (grid_w - img_w) / 2
}

/// The row offset that centers an `img_h`-tall image on a `grid_h`-tall grid.
pub open spec fn offset_y(grid_h: int, img_h: int) -> int {
    (grid_h - img_h) / 2
}

/// The intensity a finished source map holds at grid cell `(x, y)`: zero
/// outside the centered image, and otherwise the cell's luminance sample
/// (row-flipped) scaled by `k` and normalized by the largest 16-bit sample.
pub open spec fn source_cell(
    pixels: Seq<u16>,
    img_w: int,
    img_h: int,
    grid_w: int,
    grid_h: int,
    k: int,
    x: int,
    y: int,
) -> int {
    let ox = offset_x(grid_w, img_w);
    let oy = offset_y(grid_h, img_h);
    if ox <= x < ox + img_w && oy <= y < oy + img_h {
        k * (pixels[(img_h - 1 - (y - oy)) * img_w + (x - ox)] as int) / 0xffff
    } else {
        0
    }
}

/// An immutable scalar field marking where heat is injected and how strongly.
pub struct SourceMap {
    field: Field,
}

impl View for SourceMap {
    type V = Seq<Seq<int>>;

    closed spec fn view(&self) -> Seq<Seq<int>> {
        self.field@
    }
}

impl SourceMap {
    /// Every intensity is a valid fixed-point value in `[0, SCALE]`.
    pub closed spec fn wf(&self) -> bool {
        &&& self.field.wf()
        &&& grid_bounded(self.field@, SCALE as int)
    }

    pub closed spec fn spec_width(&self) -> int {
        self.field.spec_width()
    }

    pub closed spec fn spec_height(&self) -> int {
        self.field.spec_height()
    }

    /// The view always has exactly `spec_width()` columns of `spec_height()` cells.
    pub proof fn lemma_view_dims(&self)
        ensures
            grid_dims(self@, self.spec_width(), self.spec_height()),
    {
        self.field.lemma_view_dims();
    }

    /// A well-formed source map only holds intensities in `[0, SCALE]`.
    pub proof fn lemma_bounded(&self)
        requires
            self.wf(),
        ensures
            grid_bounded(self@, SCALE as int),
    {
    }

    pub fn width(&self) -> (r: usize)
        ensures
            r == self.spec_width(),
    {
        self.field.width()
    }

    pub fn height(&self) -> (r: usize)
        ensures
            r == self.spec_height(),
    {
        self.field.height()
    }

    /// Read the injected intensity at `(x, y)`.
    pub fn get(&self, x: usize, y: usize) -> (r: u64)
        requires
            self.wf(),
            x < self.spec_width(),
            y < self.spec_height(),
        ensures
            r as int == self@[x as int][y as int],
            0 <= r <= SCALE,
    {
        proof {
            self.field.lemma_view_dims();
        }
        self.field.get(x, y)
    }

    /// Build a `grid_w` by `grid_h` source map from a decoded grayscale image
    /// of `img_w` by `img_h` luminance samples (row-major, top row first),
    /// centered on the grid and scaled by the intensity factor `k`.
    ///
    /// An image larger than the grid in either dimension is rejected.
    #[verifier::loop_isolation(false)]
    pub fn from_image(
        grid_w: usize,
        grid_h: usize,
        k: u64,
        img_w: usize,
        img_h: usize,
        pixels: &Vec<u16>,
    ) -> (r: Result<SourceMap, SourceMapError>)
        requires
            (grid_w as int) * (grid_h as int) <= usize::MAX,
            pixels@.len() == (img_w as int) * (img_h as int),
            k <= SCALE,
        ensures
            r is Ok <==> (img_w <= grid_w && img_h <= grid_h),
            r is Err ==> r matches Err(SourceMapError::ImageTooLarge),
            r matches Ok(sm) ==> {
                &&& sm.wf()
                &&& sm.spec_width() == grid_w
                &&& sm.spec_height() == grid_h
                &&& grid_dims(sm@, grid_w as int, grid_h as int)
                &&& forall|x: int, y: int|
                    0 <= x < grid_w && 0 <= y < grid_h ==> #[trigger] sm@[x][y] == source_cell(
                        pixels@,
                        img_w as int,
                        img_h as int,
                        grid_w as int,
                        grid_h as int,
                        k as int,
                        x,
                        y,
                    )
            },
    {
        if img_w > grid_w || img_h > grid_h {
            return Err(SourceMapError::ImageTooLarge);
        }
        let ghost iw = img_w as int;
        let ghost ih = img_h as int;
        let ghost gw = grid_w as int;
        let ghost gh = grid_h as int;
        let sample_count: usize = pixels.len();
        assert(sample_count == iw * ih);
        let ox: usize = (grid_w - img_w) / 2;
        let oy: usize = (grid_h - img_h) / 2;
        let mut field = Field::new(grid_w, grid_h);
        for py in 0..img_h
            invariant
                field.wf(),
                field.spec_width() == gw,
                field.spec_height() == gh,
                grid_dims(field@, gw, gh),
                forall|x: int, y: int|
                    0 <= x < gw && 0 <= y < gh ==> #[trigger] field@[x][y] == (
                    if pixel_done(iw, ih, gw, gh, x, y, py as int, 0) {
                        source_cell(pixels@, iw, ih, gw, gh, k as int, x, y)
                    } else {
                        0
                    }),
        {
            for px in 0..img_w
                invariant
                    field.wf(),
                    field.spec_width() == gw,
                    field.spec_height() == gh,
                    grid_dims(field@, gw, gh),
                    forall|x: int, y: int|
                        0 <= x < gw && 0 <= y < gh ==> #[trigger] field@[x][y] == (
                        if pixel_done(iw, ih, gw, gh, x, y, py as int, px as int) {
                            source_cell(pixels@, iw, ih, gw, gh, k as int, x, y)
                        } else {
                            0
                        }),
            {
                proof {
                    crate::field::lemma_cell_index_in_range(ih, iw, py as int, px as int);
                    assert(ih * iw == iw * ih) by (nonlinear_arith);
                }
                let sample: u16 = pixels[py * img_w + px];
                proof {
                    lemma_scaled_sample_bounded(k as int, sample as int);
                }
                let v: u64 = k * (sample as u64) / 0xffff;
                let gx: usize = px + ox;
                let gy: usize = (img_h - 1 - py) + oy;
                let ghost before = field@;
                field.set(gx, gy, v);
                proof {
                    assert forall|x: int, y: int| 0 <= x < gw && 0 <= y < gh implies #[trigger] field@[x][y]
                        == (if pixel_done(iw, ih, gw, gh, x, y, py as int, px as int + 1) {
                            source_cell(pixels@, iw, ih, gw, gh, k as int, x, y)
                        } else {
                            0
                        }) by {
                        if x == gx as int && y == gy as int {
                            assert(field@[x][y] == v as int);
                        } else {
                            assert(field@[x][y] == before[x][y]);
                        }
                    }
                }
            }
        }
        proof {
            assert forall|x: int, y: int|
                0 <= x < gw && 0 <= y < gh implies 0 <= #[trigger] field@[x][y] <= SCALE by {
                let ox0 = offset_x(gw, iw);
                let oy0 = offset_y(gh, ih);
                if ox0 <= x < ox0 + iw && oy0 <= y < oy0 + ih {
                    let ppy = ih - 1 - (y - oy0);
                    let ppx = x - ox0;
                    crate::field::lemma_cell_index_in_range(ih, iw, ppy, ppx);
                    assert(ih * iw == iw * ih) by (nonlinear_arith);
                    lemma_scaled_sample_bounded(k as int, pixels@[ppy * iw + ppx] as int);
                }
            }
        }
        let sm = SourceMap { field };
        Ok(sm)
    }
}

/// True when the loop that walks the image in row-major order, currently at
/// sample `(px, py)`, has already written grid cell `(x, y)`.
spec fn pixel_done(
    img_w: int,
    img_h: int,
    grid_w: int,
    grid_h: int,
    x: int,
    y: int,
    py: int,
    px: int,
) -> bool {
    let ox = offset_x(grid_w, img_w);
    let oy = offset_y(grid_h, img_h);
    &&& ox <= x < ox + img_w
    &&& oy <= y < oy + img_h
    &&& {
        let ppy = img_h - 1 - (y - oy);
        let ppx = x - ox;
        ppy < py || (ppy == py && ppx < px)
    }
}

/// A luminance sample scaled by `k <= SCALE` stays within `[0, SCALE]`, and
/// the product fits comfortably in 64 bits.
proof fn lemma_scaled_sample_bounded(k: int, sample: int) by (nonlinear_arith)
    requires
        0 <= k <= SCALE,
        0 <= sample <= 0xffff,
    ensures
        0 <= k * sample <= SCALE * 0xffff,
        0 <= k * sample / 0xffff <= SCALE,
{
}

} // verus!
