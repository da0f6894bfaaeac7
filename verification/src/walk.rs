//! The walk of a ray through the grid, one grid line at a time.
//!
//! Which axis has the nearer grid line is a matter of distances and is left
//! to a [`Ruler`]; the walk moves one tile along that axis, looks at the tile
//! it entered, and gives up when the ray would leave the grid or has taken
//! more steps than any ray needs in an enclosed map.

use vstd::prelude::*;
use crate::raycaster::Raycaster;

verus! {

/// One of the two grid axes. As the side of a hit it says which kind of grid
/// line the ray crossed last.
#[derive(Clone, Copy, Debug, PartialEq, Eq, Structural)]
pub enum Axis {
    X,
    Y,
}

/// Direction of travel along one axis: towards smaller or larger coordinates.
#[derive(Clone, Copy, Debug, PartialEq, Eq, Structural)]
pub enum Heading {
    Backward,
    Forward,
}

/// Where a ray currently is and how it travels.
#[derive(Clone, Copy, Debug, PartialEq, Eq, Structural)]
pub struct Walk {
    /// Column of the current tile.
    pub x: usize,
    /// Row of the current tile.
    pub y: usize,
    /// Direction of travel along the x axis.
    pub step_x: Heading,
    /// Direction of travel along the y axis.
    pub step_y: Heading,
    /// Number of tiles entered so far.
    pub steps: usize,
}

/// The wall a ray ended on.
#[derive(Clone, Copy, Debug, PartialEq, Eq, Structural)]
pub struct RayHit {
    /// Column of the wall tile.
    pub x: usize,
    /// Row of the wall tile.
    pub y: usize,
    /// Axis of the step that entered the wall tile.
    pub side: Axis,
    /// Material id of the wall tile.
    pub material: u8,
}

/// Why a walk ended without a wall.
#[derive(Clone, Copy, Debug, PartialEq, Eq, Structural)]
pub enum Lost {
    /// The next step would have left the grid.
    OutOfGrid,
    /// The walk had taken as many steps as the grid allows.
    OutOfSteps,
}

/// What one step of a walk found.
#[derive(Clone, Copy, Debug, PartialEq, Eq, Structural)]
pub enum Advance {
    /// The tile entered is empty; the walk goes on.
    Open,
    /// The tile entered is a wall.
    Hit(RayHit),
    /// The step was not taken; the walk did not move.
    Lost(Lost),
}

/// Measures a ray's way from grid line to grid line.
pub trait Ruler {
    /// The axis of the grid line that the ray crosses next. Each call moves
    /// on to the line after.
    fn next_axis(&mut self) -> Axis;
}

/// The outcome of a whole walk, as the step that ended it reported it.
pub open spec fn ended(r: Result<RayHit, Lost>) -> Advance {
    match r {
        Ok(hit) => Advance::Hit(hit),
        Err(lost) => Advance::Lost(lost),
    }
}

/// The coordinate next to `c` in direction `h`.
pub open spec fn shifted(c: int, h: Heading) -> int {
    match h {
        Heading::Backward => c - 1,
        Heading::Forward => c + 1,
    }
}

/// Number of steps from coordinate `c` to the edge `0` or `len - 1` that
/// direction `h` leads to.
pub open spec fn room(c: int, h: Heading, len: int) -> int {
    match h {
        Heading::Backward => c,
        Heading::Forward => len - 1 - c,
    }
}

impl Walk {
    /// Column of the tile that a step along `axis` enters.
    pub open spec fn next_x(self, axis: Axis) -> int {
        match axis {
            Axis::X => shifted(self.x as int, self.step_x),
            Axis::Y => self.x as int,
        }
    }

    /// Row of the tile that a step along `axis` enters.
    pub open spec fn next_y(self, axis: Axis) -> int {
        match axis {
            Axis::X => self.y as int,
            Axis::Y => shifted(self.y as int, self.step_y),
        }
    }

    /// The walk after one step along `axis`.
    pub open spec fn moved(self, axis: Axis) -> Walk {
        Walk {
            x: self.next_x(axis) as usize,
            y: self.next_y(axis) as usize,
            step_x: self.step_x,
            step_y: self.step_y,
            steps: (self.steps + 1) as usize,
        }
    }
}

impl Raycaster {
    /// The largest number of steps a walk may take: columns plus rows.
    pub open spec fn step_cap(&self) -> int {
        self.cols() + self.rows()
    }

    /// `(x, y)` is a tile that does not lie on the outer ring.
    pub open spec fn interior(&self, x: int, y: int) -> bool {
        0 < x < self.cols() - 1 && 0 < y < self.rows() - 1
    }

    /// What a step along `axis` finds, and where it leaves the walk.
    pub open spec fn step(&self, walk: Walk, axis: Axis) -> (Walk, Advance) {
        let nx = walk.next_x(axis);
        let ny = walk.next_y(axis);
        if walk.steps >= self.step_cap() {
            (walk, Advance::Lost(Lost::OutOfSteps))
        } else if !self.contains(nx, ny) {
            (walk, Advance::Lost(Lost::OutOfGrid))
        } else if self.wall(nx, ny) {
            (
                walk.moved(axis),
                Advance::Hit(
                    RayHit { x: nx as usize, y: ny as usize, side: axis, material: self.material(nx, ny) },
                ),
            )
        } else {
            (walk.moved(axis), Advance::Open)
        }
    }

    /// Where a walk stands after the steps in `choices`, taken in order for
    /// as long as each one finds an empty tile, and what the last step taken
    /// found. With no step taken that is `Open`.
    pub open spec fn trace(&self, start: Walk, choices: Seq<Axis>) -> (Walk, Advance)
        decreases choices.len(),
    {
        if choices.len() == 0 {
            (start, Advance::Open)
        } else {
            let before = self.trace(start, choices.drop_last());
            if before.1 == Advance::Open {
                self.step(before.0, choices.last())
            } else {
                before
            }
        }
    }

    /// Steps left to the walls that `walk` is heading for, both axes together.
    pub open spec fn room_ahead(&self, walk: Walk) -> int {
        room(walk.x as int, walk.step_x, self.cols()) + room(walk.y as int, walk.step_y, self.rows())
    }

    /// Every step of a walk uses up one unit of the room ahead of it, and a
    /// walk that goes on has taken every step it was given.
    proof fn lemma_steps_use_up_room(&self, start: Walk, choices: Seq<Axis>)
        requires
            self.wf(),
            self.contains(start.x as int, start.y as int),
            start.steps == 0,
        ensures
            self.trace(start, choices).1 != Advance::Lost(Lost::OutOfSteps),
            self.trace(start, choices).1 is Open ==> self.trace(start, choices).0.steps == choices.len(),
            self.trace(start, choices).0.steps + self.room_ahead(self.trace(start, choices).0)
                == self.room_ahead(start),
            self.trace(start, choices).0.step_x == start.step_x,
            self.trace(start, choices).0.step_y == start.step_y,
            self.contains(self.trace(start, choices).0.x as int, self.trace(start, choices).0.y as int),
        decreases choices.len(),
    {
        if choices.len() > 0 {
            self.lemma_steps_use_up_room(start, choices.drop_last());
        }
    }

    /// In an enclosed grid a walk from an interior tile stays on interior
    /// tiles for as long as it goes on, and ends on nothing but a wall.
    proof fn lemma_enclosed_walk_stays_inside(&self, start: Walk, choices: Seq<Axis>)
        requires
            self.wf(),
            self.enclosed(),
            self.interior(start.x as int, start.y as int),
            start.steps == 0,
        ensures
            self.trace(start, choices).1 is Open || self.trace(start, choices).1 is Hit,
            self.trace(start, choices).1 is Open ==> self.interior(
                self.trace(start, choices).0.x as int,
                self.trace(start, choices).0.y as int,
            ),
        decreases choices.len(),
    {
        if choices.len() > 0 {
            self.lemma_enclosed_walk_stays_inside(start, choices.drop_last());
            self.lemma_steps_use_up_room(start, choices.drop_last());
        }
    }

    /// In any grid a walk that starts on a tile of it with no step taken
    /// comes to an end: given as many steps as the grid has columns and rows
    /// together, it has hit a wall or reached the edge of the grid. It stays
    /// on the grid and below the step limit, so it never runs out of steps.
    pub proof fn lemma_walk_ends_within_step_cap(&self, start: Walk, choices: Seq<Axis>)
        requires
            self.wf(),
            self.contains(start.x as int, start.y as int),
            start.steps == 0,
        ensures
            self.trace(start, choices).1 != Advance::Lost(Lost::OutOfSteps),
            self.trace(start, choices).1 is Open ==> self.trace(start, choices).0.steps == choices.len(),
            self.trace(start, choices).0.steps <= self.step_cap() - 2,
            self.contains(self.trace(start, choices).0.x as int, self.trace(start, choices).0.y as int),
            choices.len() >= self.step_cap() ==> !(self.trace(start, choices).1 is Open),
    {
        self.lemma_steps_use_up_room(start, choices);
    }

    /// In an enclosed grid a walk from an interior tile ends on a wall,
    /// whatever axes it is told to step along: it never leaves the grid,
    /// never runs out of steps, and has hit a wall once it was given as many
    /// steps as the grid has columns and rows together.
    pub proof fn lemma_enclosed_walk_hits_wall(&self, start: Walk, choices: Seq<Axis>)
        requires
            self.wf(),
            self.enclosed(),
            self.interior(start.x as int, start.y as int),
            start.steps == 0,
        ensures
            self.trace(start, choices).1 is Open || self.trace(start, choices).1 is Hit,
            self.trace(start, choices).0.steps < self.step_cap(),
            choices.len() >= self.step_cap() ==> self.trace(start, choices).1 is Hit,
    {
        self.lemma_enclosed_walk_stays_inside(start, choices);
        self.lemma_walk_ends_within_step_cap(start, choices);
    }

    /// A walk that starts in tile `(x, y)` and has taken no step.
    pub fn begin_walk(&self, x: usize, y: usize, step_x: Heading, step_y: Heading) -> (walk: Walk)
        ensures
            walk == (Walk { x, y, step_x, step_y, steps: 0 }),
    {
        Walk { x, y, step_x, step_y, steps: 0 }
    }

    /// Takes one step along `axis` and reports what the tile entered holds.
    /// The walk stays where it is when the step would leave the grid or the
    /// step limit is used up.
    pub fn advance(&self, walk: &mut Walk, axis: Axis) -> (found: Advance)
        requires
            self.wf(),
            self.contains(old(walk).x as int, old(walk).y as int),
        ensures
            (*final(walk), found) == self.step(*old(walk), axis),
            self.contains(final(walk).x as int, final(walk).y as int),
    {
        let w: usize = self.map.len();
        let h: usize = self.map[0].len();
        if walk.steps >= w && walk.steps - w >= h {
            return Advance::Lost(Lost::OutOfSteps);
        }
        let mut nx: usize = walk.x;
        let mut ny: usize = walk.y;
        match axis {
            Axis::X => match walk.step_x {
                Heading::Backward => {
                    if nx == 0 {
                        return Advance::Lost(Lost::OutOfGrid);
                    }
                    nx = nx - 1;
                },
                Heading::Forward => {
                    if nx + 1 >= w {
                        return Advance::Lost(Lost::OutOfGrid);
                    }
                    nx = nx + 1;
                },
            },
            Axis::Y => match walk.step_y {
                Heading::Backward => {
                    if ny == 0 {
                        return Advance::Lost(Lost::OutOfGrid);
                    }
                    ny = ny - 1;
                },
                Heading::Forward => {
                    if ny + 1 >= h {
                        return Advance::Lost(Lost::OutOfGrid);
                    }
                    ny = ny + 1;
                },
            },
        }
        walk.x = nx;
        walk.y = ny;
        walk.steps = walk.steps + 1;
        let material: u8 = self.map[nx][ny];
        if material > 0 {
            Advance::Hit(RayHit { x: nx, y: ny, side: axis, material })
        } else {
            Advance::Open
        }
    }

    /// Follows a ray from tile `(x, y)` until a step ends the walk, taking
    /// each step along the axis that `ruler` names. The result is what some
    /// run of steps, no longer than the step limit, ends with: the wall it
    /// hit, or the reason it found none. In an enclosed grid a ray from an
    /// interior tile always hits a wall; in any grid the step limit is never
    /// what ends the walk. A wall that is hit is a tile other than the one
    /// the ray started from.
    pub fn cast<R: Ruler>(&self, x: usize, y: usize, step_x: Heading, step_y: Heading, ruler: &mut R) -> (r:
        Result<RayHit, Lost>)
        requires
            self.wf(),
            self.contains(x as int, y as int),
        ensures
            exists|choices: Seq<Axis>|
                1 <= choices.len() <= self.step_cap() && #[trigger] self.trace(
                    Walk { x, y, step_x, step_y, steps: 0 },
                    choices,
                ).1 == ended(r),
            r != Err::<RayHit, Lost>(Lost::OutOfSteps),
            self.enclosed() && self.interior(x as int, y as int) ==> r is Ok,
            match r {
                Ok(hit) => {
                    &&& self.contains(hit.x as int, hit.y as int)
                    &&& self.wall(hit.x as int, hit.y as int)
                    &&& hit.material == self.material(hit.x as int, hit.y as int)
                    &&& (hit.x != x || hit.y != y)
                },
                Err(_) => true,
            },
    {
        let start = self.begin_walk(x, y, step_x, step_y);
        let mut walk = start;
        let ghost mut choices: Seq<Axis> = Seq::empty();
        loop
            invariant
                self.wf(),
                start == (Walk { x, y, step_x, step_y, steps: 0 }),
                self.contains(x as int, y as int),
                self.contains(walk.x as int, walk.y as int),
                self.trace(start, choices) == (walk, Advance::Open),
                walk.steps == choices.len(),
            decreases self.step_cap() - walk.steps,
        {
            let axis = ruler.next_axis();
            let found = self.advance(&mut walk, axis);
            proof {
                let longer = choices.push(axis);
                assert(longer.drop_last() =~= choices);
                self.lemma_walk_ends_within_step_cap(start, longer);
                self.lemma_steps_use_up_room(start, longer);
                if self.enclosed() && self.interior(x as int, y as int) {
                    self.lemma_enclosed_walk_hits_wall(start, longer);
                }
                choices = longer;
            }
            match found {
                Advance::Open => {},
                Advance::Hit(hit) => {
                    return Ok(hit);
                },
                Advance::Lost(lost) => {
                    return Err(lost);
                },
            }
        }
    }
}

} // verus!
