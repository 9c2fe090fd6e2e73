//! The snake's body, the queued turn events that steer it, and the
//! mathematical model of how turns propagate down the body.
use vstd::prelude::*;

use crate::geometry::Direction;
use crate::geometry::Position;
use crate::geometry::in_bounds;
use crate::geometry::move_one_spec;

verus! {

/// One body segment: its cell and the direction it is currently heading.
/// Each segment carries its own direction, so the body follows corners
/// without interpolation.
#[derive(Clone, Copy, Debug, PartialEq, Eq, Structural)]
pub struct SnakeCell {
    pub pos: Position,
    pub dir: Direction,
}

/// The ordered, non-empty body: index 0 is the head, the last index the
/// tail. It grows by one cell per food eaten and never shrinks.
#[derive(Debug)]
pub struct Snake {
    pub cells: Vec<SnakeCell>,
}

/// A recorded turn, anchored at the cell where the head stood when the turn
/// was requested. Trailing segments adopt its direction when they reach
/// that cell; it is retired once the tail has passed it.
#[derive(Clone, Copy, Debug, PartialEq, Eq, Structural)]
pub struct Joint {
    pub direction: Direction,
    pub position: Position,
}

/// The index of the last queued joint anchored at `p`, or -1 if none is.
/// Segments scan the queue in order and keep the last matching direction,
/// so this is the joint a segment standing at `p` ends up adopting.
pub open spec fn last_match(joints: Seq<Joint>, p: Position) -> int
    decreases joints.len(),
{
    if joints.len() == 0 {
        -1
    } else if joints.last().position == p {
        joints.len() - 1
    } else {
        last_match(joints.drop_last(), p)
    }
}

/// The direction a segment at `p` currently heading `d` moves with on the
/// next step: the direction of the last queued joint anchored at `p`, or
/// `d` when no joint is anchored there.
pub open spec fn eff_dir(p: Position, d: Direction, joints: Seq<Joint>) -> Direction {
    if last_match(joints, p) >= 0 {
        joints[last_match(joints, p)].direction
    } else {
        d
    }
}

/// Every segment with the direction it adopts from the queued joints.
pub open spec fn adopt_all(cells: Seq<SnakeCell>, joints: Seq<Joint>) -> Seq<SnakeCell> {
    cells.map_values(|c: SnakeCell| SnakeCell { pos: c.pos, dir: eff_dir(c.pos, c.dir, joints) })
}

/// The queue after retirement: once the tail stands on the oldest joint's
/// cell, that joint has propagated through the whole body and is dropped.
pub open spec fn retire(cells: Seq<SnakeCell>, joints: Seq<Joint>) -> Seq<Joint>
    recommends
        cells.len() >= 1,
{
    if joints.len() > 0 && cells.last().pos == joints[0].position {
        joints.drop_first()
    } else {
        joints
    }
}

/// Every segment moved one toroidal step in its own direction.
pub open spec fn move_all(cells: Seq<SnakeCell>, width: u32, height: u32) -> Seq<SnakeCell> {
    cells.map_values(
        |c: SnakeCell| SnakeCell { pos: move_one_spec(c.pos, c.dir, width, height), dir: c.dir },
    )
}

/// All segments lie on the board.
pub open spec fn cells_in_bounds(cells: Seq<SnakeCell>, width: u32, height: u32) -> bool {
    forall|n: int| 0 <= n < cells.len() ==> in_bounds(#[trigger] cells[n].pos, width, height)
}

/// No two segments share a cell.
pub open spec fn positions_distinct(cells: Seq<SnakeCell>) -> bool {
    forall|a: int, b: int|
        0 <= a < b < cells.len() ==> (#[trigger] cells[a].pos) != (#[trigger] cells[b].pos)
}

/// Each segment, moving with the direction it adopts from the queue,
/// steps exactly onto its predecessor's cell: the body is a linked chain.
/// Stated over a predecessor index `i` and its successor `j`.
pub open spec fn chain_linked(
    cells: Seq<SnakeCell>,
    joints: Seq<Joint>,
    width: u32,
    height: u32,
) -> bool {
    forall|i: int, j: int|
        #![trigger cells[i], cells[j]]
        0 <= i && j == i + 1 && j < cells.len() ==> move_one_spec(
            cells[j].pos,
            eff_dir(cells[j].pos, cells[j].dir, joints),
            width,
            height,
        ) == cells[i].pos
}

/// Wherever the body turns, a joint still marks the corner: a segment and
/// its predecessor either move the same way, or a joint is anchored at the
/// predecessor's cell to redirect the follower when it arrives. Stated
/// over a predecessor index `i` and its successor `j`.
pub open spec fn turn_consistent(cells: Seq<SnakeCell>, joints: Seq<Joint>) -> bool {
    forall|i: int, j: int|
        #![trigger cells[i], cells[j]]
        0 <= i && j == i + 1 && j < cells.len() ==> {
            ||| last_match(joints, cells[i].pos) >= 0
            ||| eff_dir(cells[j].pos, cells[j].dir, joints) == eff_dir(
                cells[i].pos,
                cells[i].dir,
                joints,
            )
        }
}

/// Where `last_match` points: at a joint anchored at `p`, with no later
/// one; below it (or everywhere, when it is -1) nothing later matches.
pub proof fn lemma_last_match_props(joints: Seq<Joint>, p: Position)
    ensures
        -1 <= last_match(joints, p) < joints.len(),
        last_match(joints, p) >= 0 ==> joints[last_match(joints, p)].position == p,
        forall|k: int| last_match(joints, p) < k < joints.len() ==> joints[k].position != p,
    decreases joints.len(),
{
    if joints.len() == 0 {
    } else if joints.last().position == p {
    } else {
        lemma_last_match_props(joints.drop_last(), p);
        assert forall|k: int|
            last_match(joints, p) < k < joints.len() implies joints[k].position != p by {
            if k < joints.len() - 1 {
                assert(joints.drop_last()[k] == joints[k]);
            }
        }
    }
}

/// `last_match` pinned down: an anchored joint with nothing matching after
/// it is the last match.
pub proof fn lemma_last_match_is(joints: Seq<Joint>, p: Position, i: int)
    requires
        0 <= i < joints.len(),
        joints[i].position == p,
        forall|k: int| i < k < joints.len() ==> joints[k].position != p,
    ensures
        last_match(joints, p) == i,
    decreases joints.len(),
{
    if i == joints.len() - 1 {
    } else {
        assert(joints.last().position != p);
        assert forall|k: int|
            i < k < joints.drop_last().len() implies joints.drop_last()[k].position != p by {
            assert(joints.drop_last()[k] == joints[k]);
        }
        lemma_last_match_is(joints.drop_last(), p, i);
    }
}

/// Appending a joint: it becomes the last match at its own cell and
/// changes no other cell's match.
pub proof fn lemma_last_match_push(joints: Seq<Joint>, j: Joint, p: Position)
    ensures
        last_match(joints.push(j), p) == if j.position == p {
            joints.len() as int
        } else {
            last_match(joints, p)
        },
{
    assert(joints.push(j).drop_last() =~= joints);
    assert(joints.push(j).last() == j);
}

} // verus!
