use vstd::prelude::*;

use crate::grid::GridConfig;

verus! {

/// A bare 2D cell coordinate. Validity within an extent is a predicate
/// (`within_map_bounds`), not a property of the type.
#[derive(Clone, Copy, Debug, Hash, PartialEq, Eq, Structural)]
pub struct CellPosition {
    pub x: u32,
    pub y: u32,
}

/// Linear storage index of `(x, y)` in a row-major layout `width` cells wide.
pub open spec fn linear_index(x: int, y: int, width: int) -> int {
    y * width + x
}

/// The coordinate stored at linear index `i` of a layout `width` cells wide.
pub open spec fn coords_of_index(i: int, width: int) -> (int, int) {
    (i % width, i / width)
}

/// `(x, y)` lies inside a `width` by `height` extent.
pub open spec fn in_extent(x: int, y: int, width: int, height: int) -> bool {
    0 <= x < width && 0 <= y < height
}

impl CellPosition {
    pub fn new(x: u32, y: u32) -> (r: Self)
        ensures
            r.x == x,
            r.y == y,
    {
        Self { x, y }
    }

    /// Converts the position into an index in a flattened, row-major vector.
    /// No bounds check: an out-of-extent position gives an index that does
    /// not address a cell of the extent.
    pub fn to_index(&self, grid_config: &GridConfig) -> (r: usize)
        requires
            linear_index(self.x as int, self.y as int, grid_config.grid_width as int) <= usize::MAX,
        ensures
            r as int == linear_index(self.x as int, self.y as int, grid_config.grid_width as int),
    {
        let row = self.y as usize;
        let width = grid_config.grid_width as usize;
        assert(row * width <= usize::MAX) by (nonlinear_arith)
            requires
                row * width + self.x <= usize::MAX,
                self.x >= 0,
        ;
        row * width + self.x as usize
    }

    /// Whether the position lies within the extent of `grid_size`.
    pub fn within_map_bounds(&self, grid_size: &GridConfig) -> (r: bool)
        ensures
            r == in_extent(
                self.x as int,
                self.y as int,
                grid_size.grid_width as int,
                grid_size.grid_height as int,
            ),
    {
        self.x < grid_size.grid_width && self.y < grid_size.grid_height
    }
}

/// Within a `width` by `height` extent, the linear index of a cell lies in
/// `[0, width * height)` and decodes back to the cell.
pub proof fn lemma_index_in_range_and_decodes(x: int, y: int, width: int, height: int)
    requires
        in_extent(x, y, width, height),
    ensures
        0 <= linear_index(x, y, width) < width * height,
        coords_of_index(linear_index(x, y, width), width) == (x, y),
{
    assert(0 <= y * width + x < width * height) by (nonlinear_arith)
        requires
            0 <= x < width,
            0 <= y < height,
    ;
    vstd::arithmetic::div_mod::lemma_fundamental_div_mod_converse(
        y * width + x,
        width,
        y,
        x,
    );
}

/// Two cells of the same extent share a linear index only if they are the
/// same cell.
pub proof fn lemma_index_unique(x1: int, y1: int, x2: int, y2: int, width: int, height: int)
    requires
        in_extent(x1, y1, width, height),
        in_extent(x2, y2, width, height),
        linear_index(x1, y1, width) == linear_index(x2, y2, width),
    ensures
        x1 == x2,
        y1 == y2,
{
    lemma_index_in_range_and_decodes(x1, y1, width, height);
    lemma_index_in_range_and_decodes(x2, y2, width, height);
}

} // verus!
