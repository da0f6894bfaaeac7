//! The tile grid and the screen it is rendered to.

use vstd::prelude::*;

verus! {

/// Dimensions of the render target, in pixels.
#[derive(Clone, Copy, Debug, PartialEq, Eq, Structural)]
pub struct Screen {
    /// The height of the screen, in pixels
    pub height: u32,
    /// The width of the screen, in pixels
    pub width: u32,
}

/// The world a ray is cast through: a grid of tiles and the screen geometry.
///
/// `map[x][y]` is the material of the tile in column `x`, row `y`; zero is
/// empty floor, anything else is a wall of that material.
#[derive(Clone, Debug)]
pub struct Raycaster {
    /// The 2D array representing the walls of the map, any value other than 0 is equivalent to a wall
    pub map: Vec<Vec<u8>>,
    /// Screen properties
    pub screen: Screen,
}

/// Material of tile `(x, y)` in the built-in map: a 13 by 12 room with a
/// wall ring, two pillars and a partition.
pub open spec fn default_material(x: int, y: int) -> u8 {
    if x == 0 || x == 12 || y == 0 || y == 11 {
        1
    } else if x == 4 && (y == 5 || y == 8) {
        1
    } else if x == 5 && (y == 4 || y == 8) {
        1
    } else if 6 <= x <= 9 && y == 8 {
        1
    } else {
        0
    }
}

impl Raycaster {
    /// Number of tile columns.
    pub open spec fn cols(&self) -> int {
        self.map@.len() as int
    }

    /// Number of tile rows.
    pub open spec fn rows(&self) -> int {
        if self.map@.len() > 0 {
            self.map@[0]@.len() as int
        } else {
            0
        }
    }

    /// The grid is rectangular, has at least one tile, and the sum of its
    /// sides fits in a `usize`.
    pub open spec fn wf(&self) -> bool {
        &&& self.cols() >= 1
        &&& self.rows() >= 1
        &&& self.cols() + self.rows() <= usize::MAX
        &&& forall|x: int| 0 <= x < self.cols() ==> (#[trigger] self.map@[x])@.len() == self.rows()
    }

    /// `(x, y)` names a tile of the grid.
    pub open spec fn contains(&self, x: int, y: int) -> bool {
        0 <= x < self.cols() && 0 <= y < self.rows()
    }

    /// Material id stored at `(x, y)`.
    pub open spec fn material(&self, x: int, y: int) -> u8 {
        self.map@[x]@[y]
    }

    /// The tile at `(x, y)` is a wall.
    pub open spec fn wall(&self, x: int, y: int) -> bool {
        self.material(x, y) > 0
    }

    /// Every tile on the outer ring of the grid is a wall.
    pub open spec fn enclosed(&self) -> bool {
        forall|x: int, y: int|
            self.contains(x, y) && (x == 0 || y == 0 || x == self.cols() - 1 || y == self.rows() - 1)
                ==> #[trigger] self.wall(x, y)
    }

    /// The built-in map on a 640 by 480 screen.
    pub fn new() -> (r: Raycaster)
        ensures
            r.wf(),
            r.cols() == 13,
            r.rows() == 12,
            r.screen.width == 640,
            r.screen.height == 480,
            forall|x: int, y: int| r.contains(x, y) ==> #[trigger] r.material(x, y) == default_material(x, y),
    {
        let map: Vec<Vec<u8>> = vec![
            vec![1, 1, 1, 1, 1, 1, 1, 1, 1, 1, 1, 1],
            vec![1, 0, 0, 0, 0, 0, 0, 0, 0, 0, 0, 1],
            vec![1, 0, 0, 0, 0, 0, 0, 0, 0, 0, 0, 1],
            vec![1, 0, 0, 0, 0, 0, 0, 0, 0, 0, 0, 1],
            vec![1, 0, 0, 0, 0, 1, 0, 0, 1, 0, 0, 1],
            vec![1, 0, 0, 0, 1, 0, 0, 0, 1, 0, 0, 1],
            vec![1, 0, 0, 0, 0, 0, 0, 0, 1, 0, 0, 1],
            vec![1, 0, 0, 0, 0, 0, 0, 0, 1, 0, 0, 1],
            vec![1, 0, 0, 0, 0, 0, 0, 0, 1, 0, 0, 1],
            vec![1, 0, 0, 0, 0, 0, 0, 0, 1, 0, 0, 1],
            vec![1, 0, 0, 0, 0, 0, 0, 0, 0, 0, 0, 1],
            vec![1, 0, 0, 0, 0, 0, 0, 0, 0, 0, 0, 1],
            vec![1, 1, 1, 1, 1, 1, 1, 1, 1, 1, 1, 1],
        ];
        Raycaster { map, screen: Screen { height: 480, width: 640 } }
    }

    /// Number of tile columns.
    pub fn width(&self) -> (w: usize)
        ensures
            w == self.cols(),
    {
        self.map.len()
    }

    /// Number of tile rows.
    pub fn height(&self) -> (h: usize)
        ensures
            h == self.rows(),
    {
        if self.map.len() > 0 {
            self.map[0].len()
        } else {
            0
        }
    }

    /// Whether `(col, row)` names a tile of the grid.
    pub fn in_bounds(&self, col: usize, row: usize) -> (b: bool)
        ensures
            b == self.contains(col as int, row as int),
    {
        col < self.map.len() && row < self.map[0].len()
    }

    /// Checks that the grid is rectangular, not empty and of a size that
    /// step counts can be kept for.
    pub fn is_valid(&self) -> (ok: bool)
        ensures
            ok == self.wf(),
    {
        if self.map.len() == 0 {
            return false;
        }
        let h: usize = self.map[0].len();
        if h == 0 || h > usize::MAX - self.map.len() {
            return false;
        }
        let mut x: usize = 1;
        while x < self.map.len()
            invariant
                1 <= x <= self.map.len(),
                h == self.rows(),
                forall|i: int| 0 <= i < x ==> (#[trigger] self.map@[i])@.len() == h,
            decreases self.map.len() - x,
        {
            if self.map[x].len() != h {
                return false;
            }
            x += 1;
        }
        true
    }

    /// Checks that the outer ring of the grid consists of walls only.
    pub fn is_enclosed(&self) -> (ok: bool)
        requires
            self.wf(),
        ensures
            ok == self.enclosed(),
    {
        let w: usize = self.map.len();
        let h: usize = self.map[0].len();
        let mut x: usize = 0;
        while x < w
            invariant
                self.wf(),
                w == self.cols(),
                h == self.rows(),
                x <= w,
                forall|i: int| 0 <= i < x ==> #[trigger] self.wall(i, 0),
                forall|i: int| 0 <= i < x ==> #[trigger] self.wall(i, h - 1),
            decreases w - x,
        {
            if self.map[x][0] == 0 || self.map[x][h - 1] == 0 {
                assert(!self.wall(x as int, 0) || !self.wall(x as int, h - 1));
                return false;
            }
            x += 1;
        }
        let mut y: usize = 0;
        while y < h
            invariant
                self.wf(),
                w == self.cols(),
                h == self.rows(),
                y <= h,
                forall|i: int| 0 <= i < w ==> #[trigger] self.wall(i, 0),
                forall|i: int| 0 <= i < w ==> #[trigger] self.wall(i, h - 1),
                forall|j: int| 0 <= j < y ==> #[trigger] self.wall(0, j),
                forall|j: int| 0 <= j < y ==> #[trigger] self.wall(w - 1, j),
            decreases h - y,
        {
            if self.map[0][y] == 0 || self.map[w - 1][y] == 0 {
                assert(!self.wall(0, y as int) || !self.wall(w - 1, y as int));
                return false;
            }
            y += 1;
        }
        true
    }

    /// Material id of the tile at `(col, row)`.
    pub fn material_at(&self, col: usize, row: usize) -> (id: u8)
        requires
            self.wf(),
            self.contains(col as int, row as int),
        ensures
            id == self.material(col as int, row as int),
    {
        self.map[col][row]
    }

    /// Whether the tile at `(col, row)` is a wall.
    pub fn is_wall(&self, col: usize, row: usize) -> (b: bool)
        requires
            self.wf(),
            self.contains(col as int, row as int),
        ensures
            b == self.wall(col as int, row as int),
    {
        self.map[col][row] > 0
    }
}

} // verus!
