use vstd::arithmetic::div_mod::{
    lemma_div_pos_is_pos, lemma_fundamental_div_mod, lemma_mod_pos_bound, lemma_multiply_divide_lt,
};
use vstd::prelude::*;

verus! {

/// Why a grid could not be built, or two grids could not be combined.
#[derive(Debug, Clone, Copy, PartialEq, Eq)]
pub enum FieldError {
    /// A width or height of zero, or more cells than memory can index.
    InvalidDimension,
    /// Two grids that must be aligned cell for cell differ in shape.
    ShapeMismatch,
}

/// Whether a `width` by `height` grid can exist: both sides non-zero and the
/// cell count addressable.
pub open spec fn valid_dims(width: int, height: int) -> bool {
    width > 0 && height > 0 && width * height <= usize::MAX
}

/// An integer coordinate pinned to the nearest index of `0 .. len`.
pub open spec fn clamp_spec(v: int, len: int) -> int {
    if v < 0 {
        0
    } else if v > len - 1 {
        len - 1
    } else {
        v
    }
}

/// The element at column `x`, row `y` of a row-major buffer of rows `width` long.
pub open spec fn flat_at<T>(s: Seq<T>, width: int, x: int, y: int) -> T {
    s[y * width + x]
}

/// The four samples that bilinear interpolation blends: `q00` at the anchor
/// cell, `q01` one column right, `q10` one row down, `q11` diagonally.
#[derive(Debug, Clone, Copy, PartialEq, Eq)]
pub struct Corners<T> {
    pub q00: T,
    pub q01: T,
    pub q10: T,
    pub q11: T,
}

proof fn lemma_cell_in_bounds(x: int, y: int, w: int, h: int)
    requires
        0 <= x < w,
        0 <= y < h,
    ensures
        0 <= y * w + x < w * h,
        y * w + x < (y + 1) * w,
{
    assert(y * w + x < w * h) by (nonlinear_arith)
        requires
            0 <= x < w,
            0 <= y < h,
    ;
    assert(0 <= y * w) by (nonlinear_arith)
        requires
            0 <= y,
            0 <= w,
    ;
    assert((y + 1) * w == y * w + w) by (nonlinear_arith);
}

/// Pins `v` to the index range of a side of length `len`.
pub fn clamp_index(v: i128, len: usize) -> (r: usize)
    requires
        len > 0,
    ensures
        r as int == clamp_spec(v as int, len as int),
        r < len,
{
    if v < 0 {
        0
    } else if v >= len as i128 {
        len - 1
    } else {
        v as usize
    }
}

/// A rectangular grid stored as one row-major buffer of `width * height` cells.
#[derive(Debug, Clone)]
pub struct Grid2D<T> {
    width: usize,
    height: usize,
    cells: Vec<T>,
}

impl<T> Grid2D<T> {
    /// Number of columns.
    pub closed spec fn spec_width(&self) -> int {
        self.width as int
    }

    /// Number of rows.
    pub closed spec fn spec_height(&self) -> int {
        self.height as int
    }

    /// The cells, row after row.
    pub closed spec fn cells(&self) -> Seq<T> {
        self.cells@
    }

    /// The shape never changes and the buffer always holds exactly one cell per
    /// grid position.
    pub open spec fn wf(&self) -> bool {
        &&& valid_dims(self.spec_width(), self.spec_height())
        &&& self.cells().len() == self.spec_width() * self.spec_height()
    }

    /// The cell at column `x`, row `y`.
    pub open spec fn at(&self, x: int, y: int) -> T {
        flat_at(self.cells(), self.spec_width(), x, y)
    }

    /// Whether `(x, y)` names a cell.
    pub open spec fn in_grid(&self, x: int, y: int) -> bool {
        0 <= x < self.spec_width() && 0 <= y < self.spec_height()
    }

    /// The corners blended when sampling at a point whose floor is `(x0, y0)`,
    /// each coordinate clamped to the grid on its own.
    pub open spec fn spec_corners(&self, x0: int, y0: int) -> Corners<T> {
        let cx0 = clamp_spec(x0, self.spec_width());
        let cx1 = clamp_spec(x0 + 1, self.spec_width());
        let cy0 = clamp_spec(y0, self.spec_height());
        let cy1 = clamp_spec(y0 + 1, self.spec_height());
        Corners {
            q00: self.at(cx0, cy0),
            q01: self.at(cx1, cy0),
            q10: self.at(cx0, cy1),
            q11: self.at(cx1, cy1),
        }
    }

    /// Whether `other` has exactly this grid's shape.
    pub open spec fn same_shape<U>(&self, other: &Grid2D<U>) -> bool {
        self.spec_width() == other.spec_width() && self.spec_height() == other.spec_height()
    }

    /// Number of columns.
    pub fn width(&self) -> (r: usize)
        ensures
            r == self.spec_width(),
    {
        self.width
    }

    /// Number of rows.
    pub fn height(&self) -> (r: usize)
        ensures
            r == self.spec_height(),
    {
        self.height
    }

    /// The cells, row after row.
    pub fn cell_values(&self) -> (r: &Vec<T>)
        ensures
            r@ == self.cells(),
    {
        &self.cells
    }

    /// Position of cell `(x, y)` in the row-major buffer.
    pub fn index_of(&self, x: usize, y: usize) -> (r: usize)
        requires
            self.wf(),
            self.in_grid(x as int, y as int),
        ensures
            r == y * self.spec_width() + x,
            r < self.cells().len(),
    {
        proof {
            lemma_cell_in_bounds(x as int, y as int, self.width as int, self.height as int);
        }
        y * self.width + x
    }
}


impl<T: Copy> Grid2D<T> {
    /// A `width` by `height` grid with every cell set to `initial`.
    pub fn new(width: usize, height: usize, initial: T) -> (r: Result<Self, FieldError>)
        ensures
            r is Err <==> !valid_dims(width as int, height as int),
            r is Err ==> r->Err_0 == FieldError::InvalidDimension,
            r matches Ok(g) ==> {
                &&& g.wf()
                &&& g.spec_width() == width
                &&& g.spec_height() == height
                &&& forall|x: int, y: int| g.in_grid(x, y) ==> #[trigger] g.at(x, y) == initial
            },
    {
        if width == 0 || height == 0 || width > usize::MAX / height {
            proof {
                if width > 0 && height > 0 {
                    assert(width * height > usize::MAX) by (nonlinear_arith)
                        requires
                            width > usize::MAX / height,
                            height > 0,
                    ;
                }
            }
            return Err(FieldError::InvalidDimension);
        }
        assert(width * height <= usize::MAX) by (nonlinear_arith)
            requires
                width <= usize::MAX / height,
                height > 0,
        ;
        let n: usize = width * height;
        let mut cells: Vec<T> = Vec::new();
        while cells.len() < n
            invariant
                cells.len() <= n,
                forall|i: int| 0 <= i < cells.len() ==> cells@[i] == initial,
            decreases n - cells.len(),
        {
            cells.push(initial);
        }
        let g = Grid2D { width, height, cells };
        assert forall|x: int, y: int| g.in_grid(x, y) implies #[trigger] g.at(x, y) == initial by {
            lemma_cell_in_bounds(x, y, width as int, height as int);
        }
        Ok(g)
    }

    /// The cell at column `x`, row `y`.
    pub fn get(&self, x: usize, y: usize) -> (r: T)
        requires
            self.wf(),
            self.in_grid(x as int, y as int),
        ensures
            r == self.at(x as int, y as int),
    {
        let i = self.index_of(x, y);
        self.cells[i]
    }

    /// Replaces the cell at column `x`, row `y`; the shape and every other cell
    /// stay as they were.
    pub fn set(&mut self, x: usize, y: usize, value: T)
        requires
            old(self).wf(),
            old(self).in_grid(x as int, y as int),
        ensures
            final(self).wf(),
            final(self).spec_width() == old(self).spec_width(),
            final(self).spec_height() == old(self).spec_height(),
            final(self).at(x as int, y as int) == value,
            forall|i: int, j: int|
                old(self).in_grid(i, j) && (i != x || j != y) ==> #[trigger] final(self).at(i, j)
                    == old(self).at(i, j),
    {
        let k = self.index_of(x, y);
        self.cells.set(k, value);
        assert forall|i: int, j: int|
            old(self).in_grid(i, j) && (i != x || j != y) implies #[trigger] self.at(i, j)
                == old(self).at(i, j) by {
            lemma_cell_in_bounds(i, j, self.width as int, self.height as int);
            lemma_distinct_cells(i, j, x as int, y as int, self.width as int);
        }
    }

    /// One backward-advection pass into a fresh buffer. The cell at `(x, y)` of
    /// the result is `step(x, y, v)`, where `v` is the velocity at `(x, y)`;
    /// `self` is only borrowed, so every step reads the field as it was before
    /// the pass. The velocity grid must be aligned with this one cell for cell.
    pub fn advect<V: Copy, F: Fn(usize, usize, V) -> T>(&self, velocity: &Grid2D<V>, step: F) -> (r:
        Result<Self, FieldError>)
        requires
            self.wf(),
            velocity.wf(),
            forall|x: usize, y: usize, v: V| #[trigger] step.requires((x, y, v)),
        ensures
            r is Err <==> !self.same_shape(velocity),
            r is Err ==> r->Err_0 == FieldError::ShapeMismatch,
            r matches Ok(g) ==> {
                &&& g.wf()
                &&& g.same_shape(self)
                &&& forall|x: int, y: int|
                    g.in_grid(x, y) ==> step.ensures(
                        (x as usize, y as usize, velocity.at(x, y)),
                        #[trigger] g.at(x, y),
                    )
            },
    {
        if velocity.width != self.width || velocity.height != self.height {
            return Err(FieldError::ShapeMismatch);
        }
        let w = self.width;
        let h = self.height;
        let mut cells: Vec<T> = Vec::new();
        let mut y: usize = 0;
        while y < h
            invariant
                self.wf(),
                velocity.wf(),
                w == self.spec_width() && h == self.spec_height(),
                self.same_shape(velocity),
                forall|x: usize, y: usize, v: V| #[trigger] step.requires((x, y, v)),
                y <= h,
                cells.len() == y * w,
                forall|i: int, j: int|
                    0 <= i < w && 0 <= j < y ==> step.ensures(
                        (i as usize, j as usize, velocity.at(i, j)),
                        #[trigger] flat_at(cells@, w as int, i, j),
                    ),
            decreases h - y,
        {
            let mut x: usize = 0;
            while x < w
                invariant
                    self.wf(),
                    velocity.wf(),
                    w == self.spec_width() && h == self.spec_height(),
                    self.same_shape(velocity),
                    forall|x: usize, y: usize, v: V| #[trigger] step.requires((x, y, v)),
                    y < h,
                    x <= w,
                    cells.len() == y * w + x,
                    forall|i: int, j: int|
                        0 <= i < w && 0 <= j < y ==> step.ensures(
                            (i as usize, j as usize, velocity.at(i, j)),
                            #[trigger] flat_at(cells@, w as int, i, j),
                        ),
                    forall|i: int|
                        0 <= i < x ==> step.ensures(
                            (i as usize, y, velocity.at(i, y as int)),
                            #[trigger] flat_at(cells@, w as int, i, y as int),
                        ),
                decreases w - x,
            {
                proof {
                    lemma_cell_in_bounds(x as int, y as int, w as int, h as int);
                }
                let v = velocity.get(x, y);
                let c = step(x, y, v);
                let ghost before = cells@;
                cells.push(c);
                assert forall|i: int, j: int| 0 <= i < w && 0 <= j < y implies step.ensures(
                    (i as usize, j as usize, velocity.at(i, j)),
                    #[trigger] flat_at(cells@, w as int, i, j),
                ) by {
                    assert(j * w + i < y * w) by (nonlinear_arith)
                        requires
                            0 <= i < w,
                            0 <= j < y,
                    ;
                    assert(0 <= j * w) by (nonlinear_arith)
                        requires
                            0 <= j,
                            0 <= w,
                    ;
                    assert(flat_at(cells@, w as int, i, j) == flat_at(before, w as int, i, j));
                }
                assert forall|i: int| 0 <= i <= x implies step.ensures(
                    (i as usize, y, velocity.at(i, y as int)),
                    #[trigger] flat_at(cells@, w as int, i, y as int),
                ) by {
                    if i < x {
                        assert(flat_at(cells@, w as int, i, y as int) == flat_at(
                            before,
                            w as int,
                            i,
                            y as int,
                        ));
                    } else {
                        assert(flat_at(cells@, w as int, i, y as int) == c);
                    }
                }
                x = x + 1;
            }
            assert(y * w + w == (y + 1) * w) by (nonlinear_arith);
            y = y + 1;
        }
        assert(cells.len() == w * h) by (nonlinear_arith)
            requires
                cells.len() == y * w,
                y == h,
        ;
        Ok(Grid2D { width: w, height: h, cells })
    }

    /// The four cells blended when sampling at a point whose floor is
    /// `(x0, y0)`; a coordinate off the grid is pinned to the nearest border.
    pub fn corners(&self, x0: i64, y0: i64) -> (r: Corners<T>)
        requires
            self.wf(),
        ensures
            r == self.spec_corners(x0 as int, y0 as int),
    {
        let cx0 = clamp_index(x0 as i128, self.width);
        let cx1 = clamp_index(x0 as i128 + 1, self.width);
        let cy0 = clamp_index(y0 as i128, self.height);
        let cy1 = clamp_index(y0 as i128 + 1, self.height);
        Corners {
            q00: self.get(cx0, cy0),
            q01: self.get(cx1, cy0),
            q10: self.get(cx0, cy1),
            q11: self.get(cx1, cy1),
        }
    }
}

proof fn lemma_distinct_cells(x: int, y: int, x2: int, y2: int, w: int)
    requires
        0 <= x < w,
        0 <= x2 < w,
        0 <= y,
        0 <= y2,
        x != x2 || y != y2,
    ensures
        y * w + x != y2 * w + x2,
{
    if y == y2 {
    } else if y < y2 {
        assert(y * w + x < y2 * w + x2) by (nonlinear_arith)
            requires
                y < y2,
                0 <= x < w,
                0 <= x2,
        ;
    } else {
        assert(y2 * w + x2 < y * w + x) by (nonlinear_arith)
            requires
                y2 < y,
                0 <= x2 < w,
                0 <= x,
        ;
    }
}

proof fn lemma_split_index(k: int, w: int, h: int)
    requires
        w > 0,
        0 <= k < w * h,
    ensures
        0 <= k % w < w,
        0 <= k / w < h,
        k == (k / w) * w + k % w,
{
    lemma_fundamental_div_mod(k, w);
    lemma_mod_pos_bound(k, w);
    lemma_div_pos_is_pos(k, w);
    lemma_multiply_divide_lt(k, w, h);
    assert(w * (k / w) == (k / w) * w) by (nonlinear_arith);
}

/// Two well-formed grids of one shape that agree on every cell hold the same
/// buffer.
pub proof fn lemma_cells_extensional<T>(a: Grid2D<T>, b: Grid2D<T>)
    requires
        a.wf(),
        b.wf(),
        a.same_shape(&b),
        forall|x: int, y: int| a.in_grid(x, y) ==> #[trigger] a.at(x, y) == b.at(x, y),
    ensures
        a.cells() == b.cells(),
{
    let w = a.spec_width();
    let h = a.spec_height();
    assert forall|k: int| 0 <= k < a.cells().len() implies a.cells()[k] == b.cells()[k] by {
        lemma_split_index(k, w, h);
        assert(a.in_grid(k % w, k / w));
        assert(a.at(k % w, k / w) == b.at(k % w, k / w));
    }
    assert(a.cells() =~= b.cells());
}

/// Every sample blended at any point is the value of some cell of the grid:
/// edge clamping never reads outside it.
pub proof fn lemma_corners_are_cells<T>(g: Grid2D<T>, x0: int, y0: int)
    requires
        g.wf(),
    ensures
        ({
            let c = g.spec_corners(x0, y0);
            &&& exists|i: int, j: int| g.in_grid(i, j) && c.q00 == g.at(i, j)
            &&& exists|i: int, j: int| g.in_grid(i, j) && c.q01 == g.at(i, j)
            &&& exists|i: int, j: int| g.in_grid(i, j) && c.q10 == g.at(i, j)
            &&& exists|i: int, j: int| g.in_grid(i, j) && c.q11 == g.at(i, j)
        }),
{
    let w = g.spec_width();
    let h = g.spec_height();
    let cx0 = clamp_spec(x0, w);
    let cx1 = clamp_spec(x0 + 1, w);
    let cy0 = clamp_spec(y0, h);
    let cy1 = clamp_spec(y0 + 1, h);
    assert(g.in_grid(cx0, cy0) && g.in_grid(cx1, cy0) && g.in_grid(cx0, cy1) && g.in_grid(
        cx1,
        cy1,
    ));
}

/// A point up and to the left of the grid blends its top-left cell alone, and a
/// point down and to the right of the last cell blends the bottom-right cell
/// alone: coordinates are pinned to the border, not wrapped.
pub proof fn lemma_edge_clamp<T>(g: Grid2D<T>, x0: int, y0: int)
    requires
        g.wf(),
    ensures
        x0 < 0 && y0 < 0 ==> g.spec_corners(x0, y0) == (Corners {
            q00: g.at(0, 0),
            q01: g.at(0, 0),
            q10: g.at(0, 0),
            q11: g.at(0, 0),
        }),
        x0 >= g.spec_width() - 1 && y0 >= g.spec_height() - 1 ==> g.spec_corners(x0, y0) == ({
            let last = g.at(g.spec_width() - 1, g.spec_height() - 1);
            Corners { q00: last, q01: last, q10: last, q11: last }
        }),
{
}

/// A point on a cell of the grid takes that cell as its anchor sample.
pub proof fn lemma_anchor_on_cell<T>(g: Grid2D<T>, x: int, y: int)
    requires
        g.wf(),
        g.in_grid(x, y),
    ensures
        g.spec_corners(x, y).q00 == g.at(x, y),
{
}

/// Two advection passes over the same field and velocity, with a step that
/// gives one result for one input, produce the same field.
pub proof fn lemma_advect_deterministic<T, V, F: Fn(usize, usize, V) -> T>(
    field: Grid2D<T>,
    velocity: Grid2D<V>,
    step: F,
    first: Grid2D<T>,
    second: Grid2D<T>,
)
    requires
        first.wf() && first.same_shape(&field),
        second.wf() && second.same_shape(&field),
        forall|x: int, y: int|
            first.in_grid(x, y) ==> step.ensures(
                (x as usize, y as usize, velocity.at(x, y)),
                #[trigger] first.at(x, y),
            ),
        forall|x: int, y: int|
            second.in_grid(x, y) ==> step.ensures(
                (x as usize, y as usize, velocity.at(x, y)),
                #[trigger] second.at(x, y),
            ),
        forall|x: usize, y: usize, v: V, a: T, b: T|
            step.ensures((x, y, v), a) && step.ensures((x, y, v), b) ==> a == b,
    ensures
        first.cells() == second.cells(),
{
    assert forall|x: int, y: int| first.in_grid(x, y) implies #[trigger] first.at(x, y)
        == second.at(x, y) by {
        assert(second.in_grid(x, y));
    }
    lemma_cells_extensional(first, second);
}

/// An advection pass whose step returns, at each cell, that cell's own value
/// (as sampling at zero displacement does) leaves the field unchanged.
pub proof fn lemma_advect_fixed_point<T, V, F: Fn(usize, usize, V) -> T>(
    field: Grid2D<T>,
    velocity: Grid2D<V>,
    step: F,
    result: Grid2D<T>,
)
    requires
        field.wf(),
        result.wf() && result.same_shape(&field),
        forall|x: int, y: int|
            result.in_grid(x, y) ==> step.ensures(
                (x as usize, y as usize, velocity.at(x, y)),
                #[trigger] result.at(x, y),
            ),
        forall|x: int, y: int, out: T|
            field.in_grid(x, y) && #[trigger] step.ensures(
                (x as usize, y as usize, velocity.at(x, y)),
                out,
            ) ==> out == field.at(x, y),
    ensures
        result.cells() == field.cells(),
{
    assert forall|x: int, y: int| result.in_grid(x, y) implies #[trigger] result.at(x, y)
        == field.at(x, y) by {
        assert(field.in_grid(x, y));
    }
    lemma_cells_extensional(result, field);
}

} // verus!
