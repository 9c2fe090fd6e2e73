//! Grid coordinates and cardinal directions with toroidal wraparound.
use vstd::prelude::*;

verus! {

/// A grid cell, 0-indexed from the bottom-left corner; always kept inside
/// the board's `width` x `height` cell rectangle.
#[derive(Clone, Copy, Debug, PartialEq, Eq, Structural)]
pub struct Position {
    pub x: u32,
    pub y: u32,
}

/// A cardinal heading. North increases `y`, South decreases it, East
/// increases `x`, West decreases it.
#[derive(Clone, Copy, Debug, PartialEq, Eq, Structural)]
pub enum Direction {
    N,
    E,
    S,
    W,
}

impl Direction {
    /// The opposite heading: N and S swap, E and W swap.
    pub open spec fn reverse_spec(&self) -> Direction {
        match self {
            Direction::N => Direction::S,
            Direction::E => Direction::W,
            Direction::S => Direction::N,
            Direction::W => Direction::E,
        }
    }

    /// The opposite heading; a total bijection on the four directions.
    #[verifier::when_used_as_spec(reverse_spec)]
    pub fn reverse(&self) -> (r: Direction)
        ensures
            r == self.reverse_spec(),
    {
        match self {
            Direction::N => Direction::S,
            Direction::E => Direction::W,
            Direction::S => Direction::N,
            Direction::W => Direction::E,
        }
    }
}

/// Whether `p` lies on a board of `width` x `height` cells.
pub open spec fn in_bounds(p: Position, width: u32, height: u32) -> bool {
    p.x < width && p.y < height
}

/// Where a cell one step in direction `dir` from `pos` lies, on a torus of
/// `width` x `height` cells: stepping off an edge re-enters from the
/// opposite edge.
pub open spec fn move_one_spec(pos: Position, dir: Direction, width: u32, height: u32) -> Position
    recommends
        width > 0,
        height > 0,
        pos.x < width,
        pos.y < height,
{
    match dir {
        Direction::N => Position {
            x: pos.x,
            y: if pos.y == height - 1 {
                0
            } else {
                (pos.y + 1) as u32
            },
        },
        Direction::S => Position {
            x: pos.x,
            y: if pos.y == 0 {
                (height - 1) as u32
            } else {
                (pos.y - 1) as u32
            },
        },
        Direction::E => Position {
            x: if pos.x == width - 1 {
                0
            } else {
                (pos.x + 1) as u32
            },
            y: pos.y,
        },
        Direction::W => Position {
            x: if pos.x == 0 {
                (width - 1) as u32
            } else {
                (pos.x - 1) as u32
            },
            y: pos.y,
        },
    }
}

/// One toroidal step: the result is again inside the board.
pub fn move_one(pos: Position, dir: Direction, width: u32, height: u32) -> (r: Position)
    requires
        width > 0,
        height > 0,
        pos.x < width,
        pos.y < height,
    ensures
        r == move_one_spec(pos, dir, width, height),
        r.x < width,
        r.y < height,
{
    match dir {
        Direction::N => Position {
            x: pos.x,
            y: if pos.y == height - 1 {
                0
            } else {
                pos.y + 1
            },
        },
        Direction::S => Position {
            x: pos.x,
            y: if pos.y == 0 {
                height - 1
            } else {
                pos.y - 1
            },
        },
        Direction::E => Position {
            x: if pos.x == width - 1 {
                0
            } else {
                pos.x + 1
            },
            y: pos.y,
        },
        Direction::W => Position {
            x: if pos.x == 0 {
                width - 1
            } else {
                pos.x - 1
            },
            y: pos.y,
        },
    }
}

/// A step stays on the board.
pub proof fn lemma_move_one_in_bounds(pos: Position, dir: Direction, width: u32, height: u32)
    requires
        width > 0,
        height > 0,
        pos.x < width,
        pos.y < height,
    ensures
        move_one_spec(pos, dir, width, height).x < width,
        move_one_spec(pos, dir, width, height).y < height,
{
}

/// Toroidal round trip: one step in a direction followed by one step in the
/// reverse direction returns to the starting cell, for every in-bounds cell
/// and every direction.
pub proof fn lemma_move_one_round_trip(pos: Position, dir: Direction, width: u32, height: u32)
    requires
        width > 0,
        height > 0,
        pos.x < width,
        pos.y < height,
    ensures
        move_one_spec(
            move_one_spec(pos, dir, width, height),
            dir.reverse_spec(),
            width,
            height,
        ) == pos,
{
}

} // verus!
