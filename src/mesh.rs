use crate::grid::Grid2D;
use vstd::prelude::*;

verus! {

/// Vertices and connectivity ready for upload: every index names a vertex.
#[derive(Debug, Clone)]
pub struct MeshLayout<V> {
    pub vertices: Vec<V>,
    pub indices: Vec<u32>,
}

/// Which corner of its cell's quad a grid vertex sits on. The cell at row `r`,
/// column `c` is anchored at `(1 - c * size, 1 - r * size)`.
#[derive(Debug, Clone, Copy, PartialEq, Eq)]
pub enum QuadCorner {
    /// The anchor itself.
    Anchor,
    /// One cell size to the right of the anchor.
    Right,
    /// One cell size right of and one cell size below the anchor.
    RightDown,
    /// One cell size below the anchor.
    Down,
}

/// A vertex of the filled-grid mesh: its cell, its corner, and the cell's flat
/// color.
#[derive(Debug, Clone, Copy, PartialEq, Eq)]
pub struct GridVertex<C> {
    pub row: usize,
    pub col: usize,
    pub corner: QuadCorner,
    pub color: C,
}

/// Which point of a cell's arrow glyph a vertex is. With `d` the cell's vector
/// scaled to display length, the base is the cell's anchor, the tip is
/// `base + d`, and the wings are the tip plus `d` turned a quarter turn
/// counter-clockwise (left) or clockwise (right) and scaled down.
#[derive(Debug, Clone, Copy, PartialEq, Eq)]
pub enum ArrowPoint {
    Base,
    Tip,
    LeftWing,
    RightWing,
}

/// A vertex of the arrow mesh: its cell, its point on the glyph, and the cell's
/// vector.
#[derive(Debug, Clone, Copy, PartialEq, Eq)]
pub struct ArrowVertex<V> {
    pub row: usize,
    pub col: usize,
    pub point: ArrowPoint,
    pub vector: V,
}

/// Row-major number of the cell at `row`, `col` in rows `cols` long.
pub open spec fn cell_of(cols: int, row: int, col: int) -> int {
    row * cols + col
}

/// The `j`-th of the four vertices emitted for the cell at `row`, `col`.
pub open spec fn vertex_at<V>(vs: Seq<V>, cols: int, row: int, col: int, j: int) -> V {
    vs[4 * cell_of(cols, row, col) + j]
}

/// The `j`-th of the six indices emitted for the cell at `row`, `col`.
pub open spec fn index_at(is: Seq<u32>, cols: int, row: int, col: int, j: int) -> u32 {
    is[6 * cell_of(cols, row, col) + j]
}

/// The corner of the `j`-th vertex of a quad.
pub open spec fn corner_of(j: int) -> QuadCorner {
    if j == 0 {
        QuadCorner::Anchor
    } else if j == 1 {
        QuadCorner::Right
    } else if j == 2 {
        QuadCorner::RightDown
    } else {
        QuadCorner::Down
    }
}

/// The point of the `j`-th vertex of an arrow glyph.
pub open spec fn point_of(j: int) -> ArrowPoint {
    if j == 0 {
        ArrowPoint::Base
    } else if j == 1 {
        ArrowPoint::Tip
    } else if j == 2 {
        ArrowPoint::LeftWing
    } else {
        ArrowPoint::RightWing
    }
}

/// The connectivity of one cell, as offsets into its four vertices.
#[derive(Debug, Clone, Copy, PartialEq, Eq)]
pub enum Pattern {
    /// Two triangles, `(v0, v1, v2)` and `(v0, v2, v3)`.
    QuadTriangles,
    /// Three segments: the shaft `(v0, v1)` and the head `(v1, v2)`, `(v1, v3)`.
    ArrowLines,
}

/// The `j`-th index offset of one cell under `p`.
pub open spec fn pattern_offset(p: Pattern, j: int) -> int {
    match p {
        Pattern::QuadTriangles => if j == 0 || j == 3 {
            0
        } else if j == 1 {
            1
        } else if j == 2 || j == 4 {
            2
        } else {
            3
        },
        Pattern::ArrowLines => if j == 0 {
            0
        } else if j == 1 || j == 2 || j == 4 {
            1
        } else if j == 3 {
            2
        } else {
            3
        },
    }
}

/// Whether a mesh over `rows` by `cols` cells can be numbered with `u32` indices.
pub open spec fn mesh_fits(rows: int, cols: int) -> bool {
    &&& 4 * (rows * cols) <= u32::MAX + 1
    &&& 6 * (rows * cols) <= usize::MAX
}

proof fn lemma_cell_order(cols: int, r: int, c: int, row: int, col: int)
    requires
        0 <= r,
        0 <= c < cols,
        0 <= col,
        (r < row) || (r == row && c < col),
    ensures
        0 <= cell_of(cols, r, c) < cell_of(cols, row, col),
{
    assert(0 <= r * cols) by (nonlinear_arith)
        requires
            0 <= r,
            0 <= cols,
    ;
    if r < row {
        assert(r * cols + c < row * cols + col) by (nonlinear_arith)
            requires
                r < row,
                0 <= c < cols,
                0 <= col,
        ;
    }
}

proof fn lemma_cell_bound(cols: int, rows: int, row: int, col: int)
    requires
        0 <= row < rows,
        0 <= col < cols,
    ensures
        cell_of(cols, row, col) + 1 <= rows * cols,
        cell_of(cols, row, col) + 1 == row * cols + (col + 1),
{
    assert(row * cols + col + 1 <= rows * cols) by (nonlinear_arith)
        requires
            0 <= row < rows,
            0 <= col < cols,
    ;
}

fn offset(p: Pattern, j: usize) -> (r: u32)
    requires
        j < 6,
    ensures
        r == pattern_offset(p, j as int),
        r < 4,
{
    match p {
        Pattern::QuadTriangles => if j == 0 || j == 3 {
            0
        } else if j == 1 {
            1
        } else if j == 2 || j == 4 {
            2
        } else {
            3
        },
        Pattern::ArrowLines => if j == 0 {
            0
        } else if j == 1 || j == 2 || j == 4 {
            1
        } else if j == 3 {
            2
        } else {
            3
        },
    }
}

/// Emits, cell after cell in row-major order, the four vertices `make` gives
/// for the cell and six indices that join them under `pattern`.
fn tessellate<V, F: Fn(usize, usize, usize) -> V>(
    rows: usize,
    cols: usize,
    pattern: Pattern,
    make: F,
) -> (r: MeshLayout<V>)
    requires
        mesh_fits(rows as int, cols as int),
        forall|row: usize, col: usize, j: usize|
            row < rows && col < cols && j < 4 ==> #[trigger] make.requires((row, col, j)),
    ensures
        r.vertices@.len() == 4 * (rows * cols),
        r.indices@.len() == 6 * (rows * cols),
        forall|row: int, col: int, j: int|
            0 <= row < rows && 0 <= col < cols && 0 <= j < 4 ==> make.ensures(
                (row as usize, col as usize, j as usize),
                #[trigger] vertex_at(r.vertices@, cols as int, row, col, j),
            ),
        forall|row: int, col: int, j: int|
            0 <= row < rows && 0 <= col < cols && 0 <= j < 6 ==> #[trigger] index_at(
                r.indices@,
                cols as int,
                row,
                col,
                j,
            ) == 4 * cell_of(cols as int, row, col) + pattern_offset(pattern, j),
        forall|k: int| 0 <= k < r.indices@.len() ==> #[trigger] r.indices@[k] < r.vertices@.len(),
{
    let mut vertices: Vec<V> = Vec::new();
    let mut indices: Vec<u32> = Vec::new();
    let mut row: usize = 0;
    while row < rows
        invariant
            mesh_fits(rows as int, cols as int),
            forall|row: usize, col: usize, j: usize|
                row < rows && col < cols && j < 4 ==> #[trigger] make.requires((row, col, j)),
            row <= rows,
            vertices@.len() == 4 * (row * cols),
            indices@.len() == 6 * (row * cols),
            forall|k: int| 0 <= k < indices@.len() ==> #[trigger] indices@[k] < vertices@.len(),
            forall|r: int, c: int, j: int|
                0 <= r < row && 0 <= c < cols && 0 <= j < 4 ==> make.ensures(
                    (r as usize, c as usize, j as usize),
                    #[trigger] vertex_at(vertices@, cols as int, r, c, j),
                ),
            forall|r: int, c: int, j: int|
                0 <= r < row && 0 <= c < cols && 0 <= j < 6 ==> #[trigger] index_at(
                    indices@,
                    cols as int,
                    r,
                    c,
                    j,
                ) == 4 * cell_of(cols as int, r, c) + pattern_offset(pattern, j),
        decreases rows - row,
    {
        let mut col: usize = 0;
        while col < cols
            invariant
                mesh_fits(rows as int, cols as int),
                forall|row: usize, col: usize, j: usize|
                    row < rows && col < cols && j < 4 ==> #[trigger] make.requires((row, col, j)),
                row < rows,
                col <= cols,
                vertices@.len() == 4 * (row * cols + col),
                indices@.len() == 6 * (row * cols + col),
                forall|k: int| 0 <= k < indices@.len() ==> #[trigger] indices@[k] < vertices@.len(),
                forall|r: int, c: int, j: int|
                    0 <= c < cols && 0 <= j < 4 && (0 <= r < row || (r == row && c < col))
                        ==> make.ensures(
                        (r as usize, c as usize, j as usize),
                        #[trigger] vertex_at(vertices@, cols as int, r, c, j),
                    ),
                forall|r: int, c: int, j: int|
                    0 <= c < cols && 0 <= j < 6 && (0 <= r < row || (r == row && c < col))
                        ==> #[trigger] index_at(indices@, cols as int, r, c, j) == 4 * cell_of(
                        cols as int,
                        r,
                        c,
                    ) + pattern_offset(pattern, j),
            decreases cols - col,
        {
            let ghost cur = cell_of(cols as int, row as int, col as int);
            proof {
                lemma_cell_bound(cols as int, rows as int, row as int, col as int);
                assert(4 * (cur + 1) <= 4 * (rows * cols)) by (nonlinear_arith)
                    requires
                        cur + 1 <= rows * cols,
                ;
            }
            let ghost old_vs = vertices@;
            let ghost old_is = indices@;
            let base = vertices.len() as u32;
            let v0 = make(row, col, 0);
            let v1 = make(row, col, 1);
            let v2 = make(row, col, 2);
            let v3 = make(row, col, 3);
            vertices.push(v0);
            vertices.push(v1);
            vertices.push(v2);
            vertices.push(v3);
            let mut j: usize = 0;
            while j < 6
                invariant
                    j <= 6,
                    base == 4 * cur,
                    4 * (cur + 1) <= u32::MAX + 1,
                    indices@.len() == old_is.len() + j,
                    vertices@.len() == 4 * cur + 4,
                    forall|k: int| 0 <= k < indices@.len() ==> #[trigger] indices@[k] < vertices@.len(),
                    forall|k: int| 0 <= k < old_is.len() ==> indices@[k] == old_is[k],
                    forall|k: int|
                        0 <= k < j ==> indices@[old_is.len() + k] == 4 * cur + pattern_offset(
                            pattern,
                            k,
                        ),
                decreases 6 - j,
            {
                let o = offset(pattern, j);
                indices.push(base + o);
                j = j + 1;
            }
            assert forall|r: int, c: int, k: int|
                0 <= c < cols && 0 <= k < 4 && (0 <= r < row || (r == row && c <= col))
                    implies make.ensures(
                (r as usize, c as usize, k as usize),
                #[trigger] vertex_at(vertices@, cols as int, r, c, k),
            ) by {
                if r == row && c == col {
                    assert(vertex_at(vertices@, cols as int, r, c, k) == vertices@[old_vs.len()
                        + k]);
                } else {
                    lemma_cell_order(cols as int, r, c, row as int, col as int);
                    assert(vertex_at(vertices@, cols as int, r, c, k) == vertex_at(
                        old_vs,
                        cols as int,
                        r,
                        c,
                        k,
                    ));
                }
            }
            assert forall|r: int, c: int, k: int|
                0 <= c < cols && 0 <= k < 6 && (0 <= r < row || (r == row && c <= col))
                    implies #[trigger] index_at(indices@, cols as int, r, c, k) == 4 * cell_of(
                cols as int,
                r,
                c,
            ) + pattern_offset(pattern, k) by {
                if r == row && c == col {
                    assert(index_at(indices@, cols as int, r, c, k) == indices@[old_is.len() + k]);
                } else {
                    lemma_cell_order(cols as int, r, c, row as int, col as int);
                    assert(index_at(indices@, cols as int, r, c, k) == index_at(
                        old_is,
                        cols as int,
                        r,
                        c,
                        k,
                    ));
                }
            }
            col = col + 1;
        }
        assert(row * cols + cols == (row + 1) * cols) by (nonlinear_arith);
        row = row + 1;
    }
    MeshLayout { vertices, indices }
}

fn corner(j: usize) -> (r: QuadCorner)
    ensures
        r == corner_of(j as int),
{
    if j == 0 {
        QuadCorner::Anchor
    } else if j == 1 {
        QuadCorner::Right
    } else if j == 2 {
        QuadCorner::RightDown
    } else {
        QuadCorner::Down
    }
}

fn point(j: usize) -> (r: ArrowPoint)
    ensures
        r == point_of(j as int),
{
    if j == 0 {
        ArrowPoint::Base
    } else if j == 1 {
        ArrowPoint::Tip
    } else if j == 2 {
        ArrowPoint::LeftWing
    } else {
        ArrowPoint::RightWing
    }
}

/// Whether a `rows` by `cols` grid can be tessellated: its vertices must be
/// numbered by `u32` indices and its indices must fit in memory.
pub fn can_tessellate(rows: usize, cols: usize) -> (r: bool)
    ensures
        r == mesh_fits(rows as int, cols as int),
{
    if rows != 0 && cols > usize::MAX / rows {
        proof {
            assert(rows * cols > usize::MAX) by (nonlinear_arith)
                requires
                    rows > 0,
                    cols > usize::MAX / rows,
            ;
        }
        return false;
    }
    proof {
        if rows != 0 {
            assert(rows * cols <= usize::MAX) by (nonlinear_arith)
                requires
                    rows > 0,
                    cols <= usize::MAX / rows,
            ;
        }
    }
    let n = rows * cols;
    n <= usize::MAX / 6 && n as u64 <= 0x4000_0000
}

/// Tessellates a matrix of per-cell colors (`height` rows of `width` cells)
/// into a triangle list. Each cell, in row-major order, gets four vertices of
/// its own, all of the cell's color, at its anchor, right, right-down and down
/// corners, and two triangles `(v0, v1, v2)`, `(v0, v2, v3)` over them.
pub fn grid_mesh<C: Copy>(colors: &Grid2D<C>) -> (r: MeshLayout<GridVertex<C>>)
    requires
        colors.wf(),
        mesh_fits(colors.spec_height(), colors.spec_width()),
    ensures
        r.vertices@.len() == 4 * (colors.spec_height() * colors.spec_width()),
        r.indices@.len() == 6 * (colors.spec_height() * colors.spec_width()),
        forall|k: int| 0 <= k < r.indices@.len() ==> #[trigger] r.indices@[k] < r.vertices@.len(),
        forall|row: int, col: int, j: int|
            colors.in_grid(col, row) && 0 <= j < 4 ==> #[trigger] vertex_at(
                r.vertices@,
                colors.spec_width(),
                row,
                col,
                j,
            ) == (GridVertex {
                row: row as usize,
                col: col as usize,
                corner: corner_of(j),
                color: colors.at(col, row),
            }),
        forall|row: int, col: int, j: int|
            colors.in_grid(col, row) && 0 <= j < 6 ==> #[trigger] index_at(
                r.indices@,
                colors.spec_width(),
                row,
                col,
                j,
            ) == 4 * cell_of(colors.spec_width(), row, col) + pattern_offset(
                Pattern::QuadTriangles,
                j,
            ),
{
    let make = |row: usize, col: usize, j: usize| -> (v: GridVertex<C>)
        requires
            colors.wf(),
            colors.in_grid(col as int, row as int),
        ensures
            v == (GridVertex {
                row,
                col,
                corner: corner_of(j as int),
                color: colors.at(col as int, row as int),
            }),
        { GridVertex { row, col, corner: corner(j), color: colors.get(col, row) } };
    tessellate(colors.height(), colors.width(), Pattern::QuadTriangles, make)
}

/// Tessellates a vector field into a line list of arrow glyphs, one per cell of
/// the field in row-major order, keyed to the field's own shape. Each cell gets
/// four vertices carrying the cell's vector (base, tip, left wing, right wing)
/// and three segments over them: the shaft `(v0, v1)` and the head `(v1, v2)`,
/// `(v1, v3)`.
pub fn arrow_mesh<V: Copy>(field: &Grid2D<V>) -> (r: MeshLayout<ArrowVertex<V>>)
    requires
        field.wf(),
        mesh_fits(field.spec_height(), field.spec_width()),
    ensures
        r.vertices@.len() == 4 * (field.spec_height() * field.spec_width()),
        r.indices@.len() == 6 * (field.spec_height() * field.spec_width()),
        forall|k: int| 0 <= k < r.indices@.len() ==> #[trigger] r.indices@[k] < r.vertices@.len(),
        forall|row: int, col: int, j: int|
            field.in_grid(col, row) && 0 <= j < 4 ==> #[trigger] vertex_at(
                r.vertices@,
                field.spec_width(),
                row,
                col,
                j,
            ) == (ArrowVertex {
                row: row as usize,
                col: col as usize,
                point: point_of(j),
                vector: field.at(col, row),
            }),
        forall|row: int, col: int, j: int|
            field.in_grid(col, row) && 0 <= j < 6 ==> #[trigger] index_at(
                r.indices@,
                field.spec_width(),
                row,
                col,
                j,
            ) == 4 * cell_of(field.spec_width(), row, col) + pattern_offset(
                Pattern::ArrowLines,
                j,
            ),
{
    let make = |row: usize, col: usize, j: usize| -> (v: ArrowVertex<V>)
        requires
            field.wf(),
            field.in_grid(col as int, row as int),
        ensures
            v == (ArrowVertex {
                row,
                col,
                point: point_of(j as int),
                vector: field.at(col as int, row as int),
            }),
        { ArrowVertex { row, col, point: point(j), vector: field.get(col, row) } };
    tessellate(field.height(), field.width(), Pattern::ArrowLines, make)
}

} // verus!
