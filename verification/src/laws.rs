//! The laws of the simulation: what a tick and a turn request preserve.
//!
//! The central result is that one tick keeps the playing invariant — no
//! two segments on one cell, the body a linked chain, every corner still
//! marked by a queued joint — unless it signals game over on that very
//! tick. Together with the matching result for turn requests, this shows
//! that along any sequence of ticks the snake's cells stay pairwise
//! distinct until the tick that signals game over.
//!
//! Some proofs assert an indexed term equal to itself: the invariants are
//! quantified with those index terms as their triggers, and mentioning a
//! term is what instantiates them at that index.
use vstd::prelude::*;

use crate::board::Board;
use crate::geometry::Direction;
use crate::geometry::Position;
use crate::geometry::in_bounds;
use crate::geometry::lemma_move_one_in_bounds;
use crate::geometry::move_one_spec;
use crate::game::add_joint_spec;
use crate::game::first_match;
use crate::game::head_hits_body;
use crate::game::spawned;
use crate::game::tick_spec;
use crate::snake::Joint;
use crate::snake::SnakeCell;
use crate::snake::adopt_all;
use crate::snake::cells_in_bounds;
use crate::snake::chain_linked;
use crate::snake::eff_dir;
use crate::snake::last_match;
use crate::snake::lemma_last_match_is;
use crate::snake::lemma_last_match_props;
use crate::snake::lemma_last_match_push;
use crate::snake::move_all;
use crate::snake::positions_distinct;
use crate::snake::retire;
use crate::snake::turn_consistent;

verus! {

/// Popping the oldest joint shifts every later match down by one; a cell
/// whose only match was the popped joint is left with none.
pub proof fn lemma_last_match_drop_first(joints: Seq<Joint>, p: Position)
    requires
        joints.len() >= 1,
    ensures
        last_match(joints.drop_first(), p) == if last_match(joints, p) >= 1 {
            last_match(joints, p) - 1
        } else {
            -1
        },
        last_match(joints, p) >= 1 ==> joints.drop_first()[last_match(joints, p) - 1]
            == joints[last_match(joints, p)],
{
    let lm = last_match(joints, p);
    let dropped = joints.drop_first();
    lemma_last_match_props(joints, p);
    if lm >= 1 {
        assert(dropped[lm - 1] == joints[lm]);
        assert forall|k: int| lm - 1 < k < dropped.len() implies dropped[k].position != p by {
            assert(dropped[k] == joints[k + 1]);
        }
        lemma_last_match_is(dropped, p, lm - 1);
    } else {
        lemma_last_match_props(dropped, p);
        if last_match(dropped, p) >= 0 {
            assert(dropped[last_match(dropped, p)] == joints[last_match(dropped, p) + 1]);
            assert(false);
        }
    }
}

/// How a segment's effective direction at cell `p` survives a tick's queue
/// change. `d0` is the direction of the segment that stood at `p`, `d_st`
/// the direction stored by the segment about to stand there. If a joint is
/// anchored at `p`, or the stored direction already agrees with what the
/// previous occupant adopted, the newcomer adopts that same direction —
/// also across the retirement of the oldest joint, provided the popped
/// joint was not the only one anchored at `p` unless the directions agree.
pub proof fn lemma_eff_dir_after(
    joints: Seq<Joint>,
    joints1: Seq<Joint>,
    p: Position,
    d0: Direction,
    d_st: Direction,
)
    requires
        joints1 == joints || (joints.len() >= 1 && joints1 == joints.drop_first()),
        last_match(joints, p) >= 0 || d_st == eff_dir(p, d0, joints),
        (joints1 != joints && last_match(joints, p) == 0) ==> d_st == eff_dir(p, d0, joints),
    ensures
        eff_dir(p, d_st, joints1) == eff_dir(p, d0, joints),
{
    let lm = last_match(joints, p);
    lemma_last_match_props(joints, p);
    if joints1 == joints {
    } else {
        lemma_last_match_drop_first(joints, p);
    }
}

/// Shapes of the tick's intermediate stages: adopting directions keeps
/// every cell in place, moving steps each segment by one, and by the
/// chain invariant each follower lands on its predecessor's old cell.
proof fn lemma_stage_facts(
    cells: Seq<SnakeCell>,
    joints: Seq<Joint>,
    cells1: Seq<SnakeCell>,
    cells2: Seq<SnakeCell>,
    width: u32,
    height: u32,
)
    requires
        cells1 == adopt_all(cells, joints),
        cells2 == move_all(cells1, width, height),
        chain_linked(cells, joints, width, height),
    ensures
        cells1.len() == cells.len(),
        cells2.len() == cells.len(),
        forall|k: int|
            0 <= k < cells.len() ==> (#[trigger] cells1[k]).pos == cells[k].pos && cells1[k].dir
                == eff_dir(cells[k].pos, cells[k].dir, joints),
        forall|k: int|
            0 <= k < cells.len() ==> (#[trigger] cells2[k]).pos == move_one_spec(
                cells[k].pos,
                cells1[k].dir,
                width,
                height,
            ) && cells2[k].dir == cells1[k].dir,
        forall|i: int, j: int|
            #![trigger cells[i], cells[j]]
            0 <= i && j == i + 1 && j < cells.len() ==> cells2[j].pos == cells[i].pos,
{
    assert forall|k: int| 0 <= k < cells.len() implies (#[trigger] cells1[k]).pos == cells[k].pos
        && cells1[k].dir == eff_dir(cells[k].pos, cells[k].dir, joints) by {}
    assert forall|k: int| 0 <= k < cells.len() implies (#[trigger] cells2[k]).pos == move_one_spec(
        cells[k].pos,
        cells1[k].dir,
        width,
        height,
    ) && cells2[k].dir == cells1[k].dir by {}
}

/// Across the tick's queue change, the segment arriving at each old cell
/// adopts the very direction the cell's previous occupant adopted; the
/// snapshot appended at the old tail cell keeps its adopted direction.
proof fn lemma_eff_carry(
    cells: Seq<SnakeCell>,
    joints: Seq<Joint>,
    cells1: Seq<SnakeCell>,
    joints1: Seq<Joint>,
    width: u32,
    height: u32,
)
    requires
        cells.len() >= 1,
        cells1 == adopt_all(cells, joints),
        joints1 == retire(cells1, joints),
        positions_distinct(cells),
        turn_consistent(cells, joints),
    ensures
        forall|i: int, j: int|
            #![trigger cells[i], cells[j]]
            0 <= i && j == i + 1 && j < cells.len() ==> eff_dir(cells[i].pos, cells1[j].dir, joints1)
                == cells1[i].dir,
        eff_dir(cells[cells.len() - 1].pos, cells1[cells.len() - 1].dir, joints1) == cells1[cells.len()
            - 1].dir,
{
    let n = cells.len() as int;
    let popped = joints.len() > 0 && cells1.last().pos == joints[0].position;
    assert(joints1 == if popped {
        joints.drop_first()
    } else {
        joints
    });
    assert forall|i: int, j: int|
        #![trigger cells[i], cells[j]]
        0 <= i && j == i + 1 && j < cells.len() implies eff_dir(cells[i].pos, cells1[j].dir, joints1)
        == cells1[i].dir by {
        lemma_last_match_props(joints, cells[i].pos);
        if popped && last_match(joints, cells[i].pos) == 0 {
            assert(joints[0].position == cells[i].pos);
            assert(cells[n - 1] == cells[n - 1]);
            assert(cells[i].pos != cells[n - 1].pos);
            assert(false);
        }
        lemma_eff_dir_after(joints, joints1, cells[i].pos, cells[i].dir, cells1[j].dir);
    }
    assert(eff_dir(cells[n - 1].pos, cells1[n - 1].dir, joints1) == cells1[n - 1].dir) by {
        lemma_last_match_props(joints, cells[n - 1].pos);
        lemma_eff_dir_after(joints, joints1, cells[n - 1].pos, cells[n - 1].dir, cells1[n - 1].dir);
    }
}

/// One tick keeps the body a linked chain.
proof fn lemma_chain_preserved(
    cells: Seq<SnakeCell>,
    joints: Seq<Joint>,
    cells1: Seq<SnakeCell>,
    cells2: Seq<SnakeCell>,
    joints1: Seq<Joint>,
    cells3: Seq<SnakeCell>,
    width: u32,
    height: u32,
)
    requires
        cells.len() >= 1,
        cells1 == adopt_all(cells, joints),
        joints1 == retire(cells1, joints),
        cells2 == move_all(cells1, width, height),
        cells3 == cells2 || cells3 == cells2.push(cells1.last()),
        positions_distinct(cells),
        chain_linked(cells, joints, width, height),
        turn_consistent(cells, joints),
    ensures
        chain_linked(cells3, joints1, width, height),
{
    let n = cells.len() as int;
    lemma_stage_facts(cells, joints, cells1, cells2, width, height);
    lemma_eff_carry(cells, joints, cells1, joints1, width, height);
    let snap = cells1.last();
    assert forall|i: int, jj: int|
        #![trigger cells3[i], cells3[jj]]
        0 <= i && jj == i + 1 && jj < cells3.len() implies move_one_spec(
        cells3[jj].pos,
        eff_dir(cells3[jj].pos, cells3[jj].dir, joints1),
        width,
        height,
    ) == cells3[i].pos by {
        if jj < n {
            assert(cells[jj - 1] == cells[jj - 1]);
            assert(cells[jj] == cells[jj]);
            assert(cells3[jj] == cells2[jj]);
            assert(cells2[jj].pos == cells[jj - 1].pos);
            assert(eff_dir(cells[jj - 1].pos, cells1[jj].dir, joints1) == cells1[jj - 1].dir);
            if i >= 1 {
                assert(cells[i - 1] == cells[i - 1]);
                assert(cells[i] == cells[i]);
                assert(cells3[i].pos == cells[i - 1].pos);
            } else {
                assert(cells3[0].pos == move_one_spec(cells[0].pos, cells1[0].dir, width, height));
            }
        } else {
            assert(jj == n);
            assert(cells3[jj] == snap);
            assert(cells[n - 1] == cells[n - 1]);
            assert(snap.pos == cells[n - 1].pos && snap.dir == cells1[n - 1].dir);
            assert(eff_dir(cells[n - 1].pos, cells1[n - 1].dir, joints1) == cells1[n - 1].dir);
            assert(cells3[i] == cells2[n - 1]);
        }
    }
}

/// One tick keeps the body's turns consistent with the joint queue.
#[verifier::rlimit(30)]
proof fn lemma_turn_preserved(
    cells: Seq<SnakeCell>,
    joints: Seq<Joint>,
    cells1: Seq<SnakeCell>,
    cells2: Seq<SnakeCell>,
    joints1: Seq<Joint>,
    cells3: Seq<SnakeCell>,
    width: u32,
    height: u32,
)
    requires
        cells.len() >= 1,
        cells1 == adopt_all(cells, joints),
        joints1 == retire(cells1, joints),
        cells2 == move_all(cells1, width, height),
        cells3 == cells2 || cells3 == cells2.push(cells1.last()),
        positions_distinct(cells),
        chain_linked(cells, joints, width, height),
        turn_consistent(cells, joints),
    ensures
        turn_consistent(cells3, joints1),
{
    let n = cells.len() as int;
    lemma_stage_facts(cells, joints, cells1, cells2, width, height);
    lemma_eff_carry(cells, joints, cells1, joints1, width, height);
    let snap = cells1.last();
    let popped = joints.len() > 0 && cells1.last().pos == joints[0].position;
    assert(joints1 == if popped {
        joints.drop_first()
    } else {
        joints
    });
    assert forall|i: int, jj: int|
        #![trigger cells3[i], cells3[jj]]
        0 <= i && jj == i + 1 && jj < cells3.len() implies (last_match(joints1, cells3[i].pos) >= 0
        || eff_dir(cells3[jj].pos, cells3[jj].dir, joints1) == eff_dir(
        cells3[i].pos,
        cells3[i].dir,
        joints1,
    )) by {
        if i == 0 {
            // At the head's new cell: either a joint waits there, or the
            // follower arrives moving exactly as the head just moved.
            if last_match(joints1, cells3[0].pos) >= 0 {
            } else {
                assert(cells[0] == cells[0]);
                lemma_last_match_props(joints1, cells3[0].pos);
                assert(eff_dir(cells3[0].pos, cells3[0].dir, joints1) == cells1[0].dir);
                if jj < n {
                    assert(cells[1] == cells[1]);
                    assert(cells3[jj] == cells2[jj]);
                    assert(eff_dir(cells[0].pos, cells1[1].dir, joints1) == cells1[0].dir);
                } else {
                    // a single-cell snake that just grew
                    assert(jj == n && n == 1);
                    assert(cells3[1] == snap);
                    assert(eff_dir(cells[0].pos, cells1[0].dir, joints1) == cells1[0].dir);
                }
            }
        } else {
            // Both segments stood under the old body: reduce to the old
            // turn consistency one pair ahead.
            assert(cells[i - 1] == cells[i - 1]);
            assert(cells[i] == cells[i]);
            assert(cells3[i] == cells2[i]);
            assert(cells3[i].pos == cells[i - 1].pos);
            assert(eff_dir(cells3[i].pos, cells3[i].dir, joints1) == cells1[i - 1].dir);
            if jj < n {
                assert(cells[jj] == cells[jj]);
                assert(cells3[jj] == cells2[jj]);
                assert(cells3[jj].pos == cells[i].pos);
                assert(eff_dir(cells3[jj].pos, cells3[jj].dir, joints1) == cells1[i].dir);
            } else {
                assert(jj == n);
                assert(cells3[jj] == snap);
                assert(i == n - 1);
                assert(eff_dir(cells3[jj].pos, cells3[jj].dir, joints1) == cells1[n - 1].dir);
            }
            // old turn consistency at the pair (i - 1, i)
            if last_match(joints, cells[i - 1].pos) >= 0 {
                lemma_last_match_props(joints, cells[i - 1].pos);
                if popped {
                    assert(cells[n - 1] == cells[n - 1]);
                    assert(cells[i - 1].pos != cells[n - 1].pos);
                    assert(last_match(joints, cells[i - 1].pos) >= 1);
                    lemma_last_match_drop_first(joints, cells[i - 1].pos);
                }
                assert(last_match(joints1, cells3[i].pos) >= 0);
            } else {
                assert(cells1[i].dir == cells1[i - 1].dir);
            }
        }
    }
}

/// Unless the tick signals game over, no two segments share a cell after
/// it: the moved followers inherit the old pairwise-distinct cells, and
/// the head's new cell is exactly what the game-over check inspects.
proof fn lemma_distinct_preserved(
    cells: Seq<SnakeCell>,
    joints: Seq<Joint>,
    cells1: Seq<SnakeCell>,
    cells2: Seq<SnakeCell>,
    cells3: Seq<SnakeCell>,
    width: u32,
    height: u32,
)
    requires
        cells.len() >= 1,
        cells1 == adopt_all(cells, joints),
        cells2 == move_all(cells1, width, height),
        cells3 == cells2 || cells3 == cells2.push(cells1.last()),
        positions_distinct(cells),
        chain_linked(cells, joints, width, height),
        !head_hits_body(cells3),
    ensures
        positions_distinct(cells3),
{
    let n = cells.len() as int;
    lemma_stage_facts(cells, joints, cells1, cells2, width, height);
    let snap = cells1.last();
    assert forall|a: int, b: int|
        0 <= a < b < cells3.len() implies (#[trigger] cells3[a].pos) != (
    #[trigger] cells3[b].pos) by {
        if a == 0 {
            if cells3[b].pos == cells3[0].pos {
                assert(head_hits_body(cells3));
            }
        } else if b < n {
            assert(cells[a - 1] == cells[a - 1]);
            assert(cells[a] == cells[a]);
            assert(cells[b - 1] == cells[b - 1]);
            assert(cells[b] == cells[b]);
            assert(cells3[a].pos == cells[a - 1].pos);
            assert(cells3[b].pos == cells[b - 1].pos);
            assert(cells[a - 1].pos != cells[b - 1].pos);
        } else {
            assert(b == n);
            assert(cells3[b] == snap);
            assert(cells[a - 1] == cells[a - 1]);
            assert(cells[a] == cells[a]);
            assert(cells[n - 1] == cells[n - 1]);
            assert(cells3[a].pos == cells[a - 1].pos);
            assert(cells[a - 1].pos != cells[n - 1].pos);
        }
    }
}

/// A tick preserves the playing invariant: the body stays a linked chain
/// with consistent turns, on the board; and unless game over is signaled
/// on this very tick, no two segments share a cell afterwards either.
pub proof fn lemma_tick_preserves_play_inv(
    cells: Seq<SnakeCell>,
    joints: Seq<Joint>,
    food: Seq<Position>,
    width: u32,
    height: u32,
    spawn: Option<Position>,
)
    requires
        cells.len() >= 1,
        width > 0,
        height > 0,
        cells_in_bounds(cells, width, height),
        positions_distinct(cells),
        chain_linked(cells, joints, width, height),
        turn_consistent(cells, joints),
    ensures
        ({
            let t = tick_spec(cells, joints, food, width, height, spawn);
            &&& t.0.len() == cells.len() || t.0.len() == cells.len() + 1
            &&& cells_in_bounds(t.0, width, height)
            &&& chain_linked(t.0, t.1, width, height)
            &&& turn_consistent(t.0, t.1)
            &&& (!t.3 ==> positions_distinct(t.0))
        }),
{
    let n = cells.len() as int;
    let t = tick_spec(cells, joints, food, width, height, spawn);
    let cells1 = adopt_all(cells, joints);
    let joints1 = retire(cells1, joints);
    let snap = cells1.last();
    let cells2 = move_all(cells1, width, height);
    let food1 = spawned(food, spawn);
    let hit = first_match(food1, cells2[0].pos);
    let cells3 = if hit >= 0 {
        cells2.push(snap)
    } else {
        cells2
    };
    assert(t.0 == cells3);
    assert(t.1 == joints1);
    lemma_stage_facts(cells, joints, cells1, cells2, width, height);
    lemma_chain_preserved(cells, joints, cells1, cells2, joints1, cells3, width, height);
    lemma_turn_preserved(cells, joints, cells1, cells2, joints1, cells3, width, height);
    if !t.3 {
        lemma_distinct_preserved(cells, joints, cells1, cells2, cells3, width, height);
    }
    assert forall|k: int| 0 <= k < cells3.len() implies in_bounds(
        (#[trigger] cells3[k]).pos,
        width,
        height,
    ) by {
        if k < n {
            assert(cells[k] == cells[k]);
            lemma_move_one_in_bounds(cells[k].pos, cells1[k].dir, width, height);
        } else {
            assert(cells3[k] == snap);
            assert(cells[n - 1] == cells[n - 1]);
        }
    }
}

/// A whole run of ticks, each with its own food-spawn decision, stopping
/// at the first tick that signals game over. Yields (segments, joints,
/// food, game over).
pub open spec fn run_ticks(
    cells: Seq<SnakeCell>,
    joints: Seq<Joint>,
    food: Seq<Position>,
    width: u32,
    height: u32,
    spawns: Seq<Option<Position>>,
) -> (Seq<SnakeCell>, Seq<Joint>, Seq<Position>, bool)
    decreases spawns.len(),
{
    if spawns.len() == 0 {
        (cells, joints, food, false)
    } else {
        let t = tick_spec(cells, joints, food, width, height, spawns[0]);
        if t.3 {
            (t.0, t.1, t.2, true)
        } else {
            run_ticks(t.0, t.1, t.2, width, height, spawns.drop_first())
        }
    }
}

/// After any sequence of ticks, starting from a state satisfying the
/// playing invariant, no two snake cells occupy the same position unless
/// game over was signaled on the exact tick the run stopped at.
pub proof fn lemma_no_overlap_along_run(
    cells: Seq<SnakeCell>,
    joints: Seq<Joint>,
    food: Seq<Position>,
    width: u32,
    height: u32,
    spawns: Seq<Option<Position>>,
)
    requires
        cells.len() >= 1,
        width > 0,
        height > 0,
        cells_in_bounds(cells, width, height),
        positions_distinct(cells),
        chain_linked(cells, joints, width, height),
        turn_consistent(cells, joints),
    ensures
        ({
            let r = run_ticks(cells, joints, food, width, height, spawns);
            &&& !r.3 ==> positions_distinct(r.0)
            &&& r.0.len() >= 1
        }),
    decreases spawns.len(),
{
    if spawns.len() == 0 {
    } else {
        let t = tick_spec(cells, joints, food, width, height, spawns[0]);
        lemma_tick_preserves_play_inv(cells, joints, food, width, height, spawns[0]);
        if !t.3 {
            lemma_no_overlap_along_run(t.0, t.1, t.2, width, height, spawns.drop_first());
        }
    }
}

/// A turn request preserves the playing invariant.
pub proof fn lemma_add_joint_preserves_play_inv(
    cells: Seq<SnakeCell>,
    joints: Seq<Joint>,
    flag: bool,
    direction: Direction,
    width: u32,
    height: u32,
)
    requires
        cells.len() >= 1,
        cells_in_bounds(cells, width, height),
        positions_distinct(cells),
        chain_linked(cells, joints, width, height),
        turn_consistent(cells, joints),
    ensures
        ({
            let a = add_joint_spec(cells, joints, flag, direction);
            &&& a.0.len() == cells.len()
            &&& cells_in_bounds(a.0, width, height)
            &&& positions_distinct(a.0)
            &&& chain_linked(a.0, a.1, width, height)
            &&& turn_consistent(a.0, a.1)
        }),
{
    let a = add_joint_spec(cells, joints, flag, direction);
    if flag || direction == cells[0].dir.reverse_spec() {
    } else {
        let n = cells.len() as int;
        let head = cells[0];
        let j0 = Joint { position: head.pos, direction };
        let cells_a = cells.update(0, SnakeCell { pos: head.pos, dir: direction });
        let joints_a = joints.push(j0);
        assert(a.0 == cells_a && a.1 == joints_a);
        assert forall|k: int| 0 <= k < n implies (#[trigger] cells_a[k]).pos == cells[k].pos by {}

        // At every cell but the head's, the joint queue looks unchanged.
        assert forall|k: int| 1 <= k < n implies eff_dir(
            (#[trigger] cells[k]).pos,
            cells[k].dir,
            joints_a,
        ) == eff_dir(cells[k].pos, cells[k].dir, joints) by {
            assert(cells[0].pos != cells[k].pos);
            lemma_last_match_push(joints, j0, cells[k].pos);
            lemma_last_match_props(joints, cells[k].pos);
        }

        assert forall|i: int, jj: int|
            #![trigger cells_a[i], cells_a[jj]]
            0 <= i && jj == i + 1 && jj < cells_a.len() implies move_one_spec(
            cells_a[jj].pos,
            eff_dir(cells_a[jj].pos, cells_a[jj].dir, joints_a),
            width,
            height,
        ) == cells_a[i].pos by {
            assert(cells[i] == cells[i]);
            assert(cells[jj] == cells[jj]);
            assert(cells_a[jj] == cells[jj]);
            assert(eff_dir(cells[jj].pos, cells[jj].dir, joints_a) == eff_dir(
                cells[jj].pos,
                cells[jj].dir,
                joints,
            ));
        }
        assert(chain_linked(cells_a, joints_a, width, height));

        assert forall|i: int, jj: int|
            #![trigger cells_a[i], cells_a[jj]]
            0 <= i && jj == i + 1 && jj < cells_a.len() implies (last_match(
            joints_a,
            cells_a[i].pos,
        ) >= 0 || eff_dir(cells_a[jj].pos, cells_a[jj].dir, joints_a) == eff_dir(
            cells_a[i].pos,
            cells_a[i].dir,
            joints_a,
        )) by {
            assert(cells[i] == cells[i]);
            assert(cells[jj] == cells[jj]);
            if i == 0 {
                lemma_last_match_push(joints, j0, cells[0].pos);
            } else {
                lemma_last_match_push(joints, j0, cells[i].pos);
                lemma_last_match_props(joints, cells[i].pos);
                assert(cells_a[jj] == cells[jj]);
                assert(eff_dir(cells[jj].pos, cells[jj].dir, joints_a) == eff_dir(
                    cells[jj].pos,
                    cells[jj].dir,
                    joints,
                ));
                assert(cells_a[i] == cells[i]);
                assert(eff_dir(cells[i].pos, cells[i].dir, joints_a) == eff_dir(
                    cells[i].pos,
                    cells[i].dir,
                    joints,
                ));
            }
        }
        assert(turn_consistent(cells_a, joints_a));
    }
}

/// A request to reverse straight into the neck is a no-op: the head's
/// direction, the joint queue, and the flag stay as they were.
pub proof fn lemma_add_joint_reverse_noop(
    cells: Seq<SnakeCell>,
    joints: Seq<Joint>,
    flag: bool,
    direction: Direction,
)
    requires
        cells.len() >= 1,
        direction == cells[0].dir.reverse_spec(),
    ensures
        add_joint_spec(cells, joints, flag, direction) == (cells, joints, flag),
{
}

/// Of two turn requests between ticks, only the first accepted one has
/// any effect: accepting a request sets the turn-queued flag, and with
/// the flag set every further request leaves the state unchanged.
pub proof fn lemma_add_joint_second_ignored(
    cells: Seq<SnakeCell>,
    joints: Seq<Joint>,
    d1: Direction,
    d2: Direction,
)
    requires
        cells.len() >= 1,
        d1 != cells[0].dir.reverse_spec(),
    ensures
        ({
            let a1 = add_joint_spec(cells, joints, false, d1);
            add_joint_spec(a1.0, a1.1, a1.2, d2) == a1
        }),
{
}

/// Eating grows the body by exactly one segment on the very tick the
/// moved head stands on a food cell, and the new tail stands where the
/// old tail stood before the move; a tick without food keeps the length.
pub proof fn lemma_tick_growth(
    cells: Seq<SnakeCell>,
    joints: Seq<Joint>,
    food: Seq<Position>,
    width: u32,
    height: u32,
    spawn: Option<Position>,
)
    requires
        cells.len() >= 1,
    ensures
        ({
            let t = tick_spec(cells, joints, food, width, height, spawn);
            let eats = first_match(
                spawned(food, spawn),
                move_all(adopt_all(cells, joints), width, height)[0].pos,
            ) >= 0;
            &&& (eats ==> t.0.len() == cells.len() + 1 && t.0.last().pos == cells.last().pos
                && t.2.len() + 1 == spawned(food, spawn).len())
            &&& (!eats ==> t.0.len() == cells.len() && t.2 == spawned(food, spawn))
        }),
{
    let food1 = spawned(food, spawn);
    let cells2 = move_all(adopt_all(cells, joints), width, height);
    crate::game::lemma_first_match_props(food1, cells2[0].pos);
}

/// The blank canvas depends only on the board's configuration, never on
/// the buffer: clearing a board twice leaves the very buffer one clearing
/// leaves.
pub proof fn lemma_cleared_config_only(b1: Board, b2: Board)
    requires
        b1.same_config(&b2),
    ensures
        b1.cleared() == b2.cleared(),
{
    assert(b1.cleared() =~= b2.cleared());
}

} // verus!
