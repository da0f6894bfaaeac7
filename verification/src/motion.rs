//! Movement against the grid: each axis of a move is carried out only if the
//! tile it leads to, with the other axis held, is empty. A move into a wall
//! on one axis therefore slides along the other.

use vstd::prelude::*;
use crate::raycaster::Raycaster;

verus! {

/// Which axes of a tentative move are carried out.
#[derive(Clone, Copy, Debug, PartialEq, Eq, Structural)]
pub struct Slide {
    /// The move along the x axis is carried out.
    pub x: bool,
    /// The move along the y axis is carried out.
    pub y: bool,
}

impl Slide {
    /// The tile a mover stands on afterwards, having stood on `(x, y)` and
    /// aimed for `(next_x, next_y)`.
    pub open spec fn landing(self, x: int, y: int, next_x: int, next_y: int) -> (int, int) {
        (
            if self.x {
                next_x
            } else {
                x
            },
            if self.y {
                next_y
            } else {
                y
            },
        )
    }
}

impl Raycaster {
    /// The axes on which a move from tile `(x, y)` towards tile
    /// `(next_x, next_y)` is free: each axis is probed on its own, from the
    /// tile the mover stands on.
    pub open spec fn slide(&self, x: int, y: int, next_x: int, next_y: int) -> Slide {
        Slide { x: !self.wall(next_x, y), y: !self.wall(x, next_y) }
    }

    /// A move never ends on a wall tile, provided the mover stands on an
    /// empty tile and does not cut a corner, that is, step free on both axes
    /// into a wall that lies diagonally ahead.
    pub proof fn lemma_move_lands_on_empty_tile(&self, x: int, y: int, next_x: int, next_y: int)
        requires
            self.wf(),
            self.contains(x, y),
            self.contains(next_x, next_y),
            !self.wall(x, y),
            !(!self.wall(next_x, y) && !self.wall(x, next_y) && self.wall(next_x, next_y)),
        ensures
            ({
                let to = self.slide(x, y, next_x, next_y).landing(x, y, next_x, next_y);
                self.contains(to.0, to.1) && !self.wall(to.0, to.1)
            }),
    {
    }

    /// A move that is blocked on one axis only is carried out on the other.
    pub proof fn lemma_move_slides_along_wall(&self, x: int, y: int, next_x: int, next_y: int)
        requires
            self.wf(),
            self.contains(x, y),
            self.contains(next_x, next_y),
        ensures
            self.wall(next_x, y) && !self.wall(x, next_y) ==> self.slide(x, y, next_x, next_y).landing(
                x,
                y,
                next_x,
                next_y,
            ) == (x, next_y),
            !self.wall(next_x, y) && self.wall(x, next_y) ==> self.slide(x, y, next_x, next_y).landing(
                x,
                y,
                next_x,
                next_y,
            ) == (next_x, y),
    {
    }

    /// Decides which axes of a move from tile `(x, y)` towards tile
    /// `(next_x, next_y)` are carried out.
    pub fn resolve_move(&self, x: usize, y: usize, next_x: usize, next_y: usize) -> (m: Slide)
        requires
            self.wf(),
            self.contains(x as int, y as int),
            self.contains(next_x as int, next_y as int),
        ensures
            m == self.slide(x as int, y as int, next_x as int, next_y as int),
    {
        Slide { x: !self.is_wall(next_x, y), y: !self.is_wall(x, next_y) }
    }
}

} // verus!
