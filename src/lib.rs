//! Semi-Lagrangian field advection on a rectangular grid, and the tessellation
//! of grids and vector fields into draw-ready vertex and index layouts.
//!
//! The grid is generic over its cell type: the library fixes the shape
//! discipline, the edge-clamped choice of samples and the cell-by-cell passes,
//! while the caller supplies the arithmetic on cell values.

mod grid;
mod mesh;
mod mouse;

pub use grid::{
    clamp_index, lemma_advect_deterministic, lemma_advect_fixed_point, lemma_anchor_on_cell,
    lemma_cells_extensional, lemma_corners_are_cells, lemma_edge_clamp, Corners, FieldError,
    Grid2D,
};
pub use mesh::{
    arrow_mesh, can_tessellate, grid_mesh, ArrowPoint, ArrowVertex, GridVertex, MeshLayout, Pattern, QuadCorner,
};
pub use mouse::Mouse;
