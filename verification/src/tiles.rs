//! Tile grids: static scenery given as a grid of tile kinds, each kind
//! solid or not.

use crate::collider::Wall;
use crate::geometry::{clamp_to_i32, Rect, Vec2i};
use vstd::prelude::*;

verus! {

/// The edge length of a tile, in pixels.
pub const TILE_SIZE: u16 = 16;

/// A grid of tiles. Every cell holds the number of a tile kind, and every
/// kind is solid or not. Cells lie row by row, the top row first.
pub struct Tilemap {
    origin: Vec2i,
    cols: usize,
    rows: usize,
    solid: Vec<bool>,
    cells: Vec<usize>,
    outside_solid: bool,
}

/// A tile grid as a mathematical value.
pub struct TilemapView {
    /// The world position of the top left corner of the grid.
    pub origin: Vec2i,
    /// The number of columns.
    pub cols: nat,
    /// The number of rows.
    pub rows: nat,
    /// For each tile kind, whether it is solid.
    pub solid: Seq<bool>,
    /// The tile kind of each cell, row by row.
    pub cells: Seq<usize>,
    /// Whether positions outside the grid count as solid.
    pub outside_solid: bool,
}

/// Why a tile grid was refused.
#[derive(Clone, Copy, Debug, PartialEq, Eq, Structural)]
pub enum TilemapError {
    /// The number of cells is not columns times rows.
    WrongSize,
    /// The cell with this index holds a tile kind that does not exist; it is
    /// the first such cell.
    UnknownTile { cell: usize },
}

impl TilemapView {
    /// The grid is complete and names only kinds that exist.
    pub open spec fn wf(self) -> bool {
        &&& self.cols * self.rows == self.cells.len()
        &&& forall|k: int|
            0 <= k < self.cells.len() ==> (#[trigger] self.cells[k]) < self.solid.len()
    }

    /// The column in which the world coordinate `x` falls; columns go on
    /// beyond both ends of the grid.
    pub open spec fn column_of(self, x: int) -> int {
        (x - self.origin.0) / (TILE_SIZE as int)
    }

    /// The row in which the world coordinate `y` falls.
    pub open spec fn row_of(self, y: int) -> int {
        (y - self.origin.1) / (TILE_SIZE as int)
    }

    /// Whether the cell lies within the grid.
    pub open spec fn inside(self, col: int, row: int) -> bool {
        0 <= col < self.cols && 0 <= row < self.rows
    }

    /// Whether the cell is solid: by its tile kind within the grid, by the
    /// policy for the outside elsewhere.
    pub open spec fn solid_cell(self, col: int, row: int) -> bool {
        if self.inside(col, row) {
            self.solid[self.cells[row * self.cols + col] as int]
        } else {
            self.outside_solid
        }
    }

    /// The rectangle that the cell covers. A cell so far out that its corner
    /// leaves the 32-bit range has its corner at the end of the range.
    pub open spec fn cell_bounds(self, col: int, row: int) -> Rect {
        Rect {
            x: clamp_to_i32(self.origin.0 + col * TILE_SIZE),
            y: clamp_to_i32(self.origin.1 + row * TILE_SIZE),
            w: TILE_SIZE,
            h: TILE_SIZE,
        }
    }

    /// The solid cells among the first `upto` cells as walls, in cell order.
    pub open spec fn walls_upto(self, upto: int) -> Seq<Wall>
        decreases upto,
    {
        if upto <= 0 || self.cols == 0 {
            Seq::empty()
        } else {
            let rest = self.walls_upto(upto - 1);
            let col = (upto - 1) % (self.cols as int);
            let row = (upto - 1) / (self.cols as int);
            if self.solid_cell(col, row) {
                rest.push(Wall { rect: self.cell_bounds(col, row) })
            } else {
                rest
            }
        }
    }

    /// Every solid cell of the grid as a wall.
    pub open spec fn walls(self) -> Seq<Wall> {
        self.walls_upto(self.cells.len() as int)
    }
}

impl View for Tilemap {
    type V = TilemapView;

    closed spec fn view(&self) -> TilemapView {
        TilemapView {
            origin: self.origin,
            cols: self.cols as nat,
            rows: self.rows as nat,
            solid: self.solid@,
            cells: self.cells@,
            outside_solid: self.outside_solid,
        }
    }
}

/// The first coordinate of the cell with number `index` on an axis whose
/// grid starts at `origin`.
fn cell_start(origin: i32, index: i64) -> (start: i32)
    requires
        -0x1_0000_0000 <= index <= 0x1_0000_0000,
    ensures
        start == clamp_to_i32(origin + index * TILE_SIZE),
{
    let wide: i64 = origin as i64 + index * TILE_SIZE as i64;
    if wide < i32::MIN as i64 {
        i32::MIN
    } else if wide > i32::MAX as i64 {
        i32::MAX
    } else {
        wide as i32
    }
}

/// The number of the cell in which `at` falls on an axis whose grid starts
/// at `origin`: the distance divided by the tile size, rounded down.
fn cell_index(origin: i32, at: i32) -> (index: i64)
    ensures
        index == (at - origin) / (TILE_SIZE as int),
        -0x1_0000_0000 <= index <= 0x1_0000_0000,
{
    let offset: i64 = at as i64 - origin as i64;
    let size: i64 = TILE_SIZE as i64;
    if offset >= 0 {
        offset / size
    } else {
        -((size - 1 - offset) / size)
    }
}

/// The first coordinate of the cell with number `index`, which may be any
/// number a grid can hold.
fn far_start(origin: i32, index: usize) -> (start: i32)
    ensures
        start == clamp_to_i32(origin + index * TILE_SIZE),
{
    if index >= 0x1000_0000 {
        i32::MAX
    } else {
        cell_start(origin, index as i64)
    }
}

impl Tilemap {
    /// Every grid is complete and names only kinds that exist.
    #[verifier::type_invariant]
    spec fn well_formed(&self) -> bool {
        self@.wf()
    }

    /// Builds a grid of `dims.0` columns and `dims.1` rows with its top left
    /// corner at `origin`. `solid` says for each tile kind whether it is
    /// solid, `cells` gives the kind of each cell, row by row. Positions
    /// outside the grid count as solid until told otherwise.
    ///
    /// A grid whose cell count is not columns times rows is refused, then
    /// one that names a tile kind that `solid` does not list.
    pub fn new(origin: Vec2i, dims: (usize, usize), solid: Vec<bool>, cells: Vec<usize>) -> (made:
        Result<Tilemap, TilemapError>)
        ensures
            match made {
                Ok(map) => {
                    &&& map@.wf()
                    &&& map@ == (TilemapView {
                        origin,
                        cols: dims.0 as nat,
                        rows: dims.1 as nat,
                        solid: solid@,
                        cells: cells@,
                        outside_solid: true,
                    })
                },
                Err(TilemapError::WrongSize) => dims.0 * dims.1 != cells@.len(),
                Err(TilemapError::UnknownTile { cell }) => {
                    &&& dims.0 * dims.1 == cells@.len()
                    &&& cell < cells@.len()
                    &&& cells@[cell as int] >= solid@.len()
                    &&& forall|k: int| 0 <= k < cell ==> (#[trigger] cells@[k]) < solid@.len()
                },
            },
    {
        match dims.0.checked_mul(dims.1) {
            Some(count) => {
                if count != cells.len() {
                    return Err(TilemapError::WrongSize);
                }
            },
            None => {
                assert(cells@.len() == cells.len());
                return Err(TilemapError::WrongSize);
            },
        }
        let mut k: usize = 0;
        while k < cells.len()
            invariant
                k <= cells.len(),
                dims.0 * dims.1 == cells@.len(),
                forall|m: int| 0 <= m < k ==> (#[trigger] cells@[m]) < solid@.len(),
            decreases cells.len() - k,
        {
            if cells[k] >= solid.len() {
                return Err(TilemapError::UnknownTile { cell: k });
            }
            k += 1;
        }
        Ok(Tilemap { origin, cols: dims.0, rows: dims.1, solid, cells, outside_solid: true })
    }

    /// Sets whether positions outside the grid count as solid.
    pub fn set_outside_solid(&mut self, solid: bool)
        ensures
            final(self)@ == (TilemapView { outside_solid: solid, ..old(self)@ }),
    {
        proof {
            use_type_invariant(&*self);
        }
        self.outside_solid = solid;
    }

    /// The number of columns and of rows.
    pub fn size(&self) -> (dims: (usize, usize))
        ensures
            dims.0 == self@.cols,
            dims.1 == self@.rows,
    {
        (self.cols, self.rows)
    }

    /// Whether the tile at the world position `at` is solid, and the
    /// rectangle that tile covers, so that it can stand in for a wall.
    ///
    /// The position is turned into a column and a row by dividing its
    /// distance from the origin of the grid by the tile size, rounding down.
    /// Within the grid the tile kind of the cell decides; outside it the
    /// policy for the outside does.
    pub fn tile_and_bounds_at(&self, at: Vec2i) -> (found: (bool, Rect))
        ensures
            found.0 == self@.solid_cell(self@.column_of(at.0 as int), self@.row_of(at.1 as int)),
            found.1 == self@.cell_bounds(self@.column_of(at.0 as int), self@.row_of(at.1 as int)),
            at.0 >= i32::MIN + TILE_SIZE ==> found.1.left() <= at.0 < found.1.right(),
            at.1 >= i32::MIN + TILE_SIZE ==> found.1.top() <= at.1 < found.1.bottom(),
    {
        proof {
            use_type_invariant(self);
        }
        let col: i64 = cell_index(self.origin.0, at.0);
        let row: i64 = cell_index(self.origin.1, at.1);
        let bounds = Rect {
            x: cell_start(self.origin.0, col),
            y: cell_start(self.origin.1, row),
            w: TILE_SIZE,
            h: TILE_SIZE,
        };
        let inside: bool = col >= 0 && row >= 0 && (col as u64) < self.cols as u64 && (row as u64)
            < self.rows as u64;
        if inside {
            let c: usize = col as usize;
            let r: usize = row as usize;
            assert(r * self.cols + c < self.cols * self.rows) by (nonlinear_arith)
                requires
                    0 <= c < self.cols,
                    0 <= r < self.rows,
            ;
            assert(r * self.cols >= 0) by (nonlinear_arith)
                requires
                    r >= 0,
                    self.cols >= 0,
            ;
            assert(self.cols * self.rows == self.cells@.len() && self.cells@.len()
                == self.cells.len());
            let kind: usize = self.cells[r * self.cols + c];
            (self.solid[kind], bounds)
        } else {
            (self.outside_solid, bounds)
        }
    }

    /// Every solid cell of the grid as a wall, row by row.
    pub fn walls(&self) -> (walls: Vec<Wall>)
        ensures
            walls@ == self@.walls(),
    {
        proof {
            use_type_invariant(self);
        }
        let mut walls: Vec<Wall> = Vec::new();
        let mut k: usize = 0;
        while k < self.cells.len()
            invariant
                self@.wf(),
                k <= self.cells.len(),
                walls@ == self@.walls_upto(k as int),
            decreases self.cells.len() - k,
        {
            assert(self.cols > 0) by (nonlinear_arith)
                requires
                    self.cols * self.rows > 0,
                    self.cols >= 0,
                    self.rows >= 0,
            ;
            let col: usize = k % self.cols;
            let row: usize = k / self.cols;
            proof {
                lemma_cell_in_grid(k as int, self.cols as int, self.rows as int);
            }
            if self.solid[self.cells[k]] {
                walls.push(
                    Wall {
                        rect: Rect {
                            x: far_start(self.origin.0, col),
                            y: far_start(self.origin.1, row),
                            w: TILE_SIZE,
                            h: TILE_SIZE,
                        },
                    },
                );
            }
            k += 1;
        }
        walls
    }

}

/// The cell with flat index `k` lies in column `k % cols` of row `k / cols`,
/// and that row is within the grid.
proof fn lemma_cell_in_grid(k: int, cols: int, rows: int)
    requires
        0 <= k < cols * rows,
        cols > 0,
    ensures
        0 <= k % cols < cols,
        0 <= k / cols < rows,
        (k / cols) * cols + k % cols == k,
{
    vstd::arithmetic::div_mod::lemma_fundamental_div_mod(k, cols);
    vstd::arithmetic::div_mod::lemma_div_pos_is_pos(k, cols);
    assert(cols * (k / cols) == (k / cols) * cols) by (nonlinear_arith);
    if k / cols >= rows {
        assert((k / cols) * cols >= rows * cols) by (nonlinear_arith)
            requires
                k / cols >= rows,
                cols > 0,
        ;
        assert(rows * cols == cols * rows) by (nonlinear_arith);
    }
}

} // verus!
