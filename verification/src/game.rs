//! The game: a board, a snake, food, and the queued turns, advanced one
//! tick at a time.
use vstd::prelude::*;

use rand::Rng;

use crate::board::Board;
use crate::board::BoardBuilder;
use crate::board::BoardGrid;
use crate::board::PixelCanvasError;
use crate::board::background_fill;
use crate::board::paint_positions;
use crate::board::lemma_paint_positions_push;
use crate::board::lemma_painted_same_config;
use crate::color::RGBA;
use crate::geometry::Direction;
use crate::geometry::Position;
use crate::geometry::in_bounds;
use crate::geometry::move_one;
use crate::geometry::move_one_spec;
use crate::snake::Joint;
use crate::snake::Snake;
use crate::snake::SnakeCell;
use crate::snake::adopt_all;
use crate::snake::cells_in_bounds;
use crate::snake::chain_linked;
use crate::snake::eff_dir;
use crate::snake::lemma_last_match_props;
use crate::snake::lemma_last_match_push;
use crate::snake::move_all;
use crate::snake::positions_distinct;
use crate::snake::retire;
use crate::snake::turn_consistent;

verus! {

/// What one tick of the simulation signaled: play goes on, or the head ran
/// into the body and the session is over.
#[derive(Clone, Copy, Debug, PartialEq, Eq, Structural)]
pub enum TickResult {
    Continue,
    GameOver,
}

/// One game session: the render target, the snake, the food cells awaiting
/// consumption, the queued turns, the food-spawn counter, and the flag that
/// admits at most one accepted turn per tick.
pub struct Game {
    pub board: Board,
    pub snake: Snake,
    pub food: Vec<Position>,
    pub joints: Vec<Joint>,
    pub food_counter: i32,
    pub food_counter_mod: i32,
    pub joint_flag: bool,
}

/// The color every body segment is drawn in.
pub open spec fn body_color() -> RGBA {
    RGBA { r: 100, g: 100, b: 0, a: 255 }
}

/// The color every food cell is drawn in.
pub open spec fn food_color() -> RGBA {
    RGBA { r: 255, g: 100, b: 100, a: 255 }
}

/// The cells the body occupies, head first.
pub open spec fn cell_positions(cells: Seq<SnakeCell>) -> Seq<Position> {
    cells.map_values(|c: SnakeCell| c.pos)
}

/// All food cells lie on the board.
pub open spec fn food_in_bounds(food: Seq<Position>, width: u32, height: u32) -> bool {
    forall|n: int| 0 <= n < food.len() ==> in_bounds(#[trigger] food[n], width, height)
}

/// The index of the first food cell at `p`, or -1 when none is there: only
/// the first match is consumed in a tick.
pub open spec fn first_match(food: Seq<Position>, p: Position) -> int
    decreases food.len(),
{
    if food.len() == 0 {
        -1
    } else if food[0] == p {
        0
    } else {
        let rest = first_match(food.drop_first(), p);
        if rest < 0 {
            -1
        } else {
            rest + 1
        }
    }
}

/// `first_match` pinned down: a match with a match-free prefix is the
/// first match.
pub proof fn lemma_first_match_is(food: Seq<Position>, p: Position, i: int)
    requires
        0 <= i < food.len(),
        food[i] == p,
        forall|k: int| 0 <= k < i ==> food[k] != p,
    ensures
        first_match(food, p) == i,
    decreases i,
{
    if i == 0 {
    } else {
        assert(food[0] != p);
        assert forall|k: int| 0 <= k < i - 1 implies food.drop_first()[k] != p by {
            assert(food.drop_first()[k] == food[k + 1]);
        }
        assert(food.drop_first()[i - 1] == food[i]);
        lemma_first_match_is(food.drop_first(), p, i - 1);
    }
}

/// With no match anywhere, `first_match` is -1.
pub proof fn lemma_first_match_none(food: Seq<Position>, p: Position)
    requires
        forall|k: int| 0 <= k < food.len() ==> food[k] != p,
    ensures
        first_match(food, p) == -1,
    decreases food.len(),
{
    if food.len() == 0 {
    } else {
        assert forall|k: int| 0 <= k < food.drop_first().len() implies food.drop_first()[k]
            != p by {
            assert(food.drop_first()[k] == food[k + 1]);
        }
        lemma_first_match_none(food.drop_first(), p);
    }
}

/// Where `first_match` points: at a food cell holding `p`, with none
/// before it; or nowhere, and then no food cell holds `p`.
pub proof fn lemma_first_match_props(food: Seq<Position>, p: Position)
    ensures
        -1 <= first_match(food, p) < food.len(),
        first_match(food, p) >= 0 ==> food[first_match(food, p)] == p,
        forall|k: int| 0 <= k < first_match(food, p) ==> food[k] != p,
        first_match(food, p) == -1 ==> forall|k: int| 0 <= k < food.len() ==> food[k] != p,
    decreases food.len(),
{
    if food.len() == 0 {
    } else if food[0] == p {
    } else {
        lemma_first_match_props(food.drop_first(), p);
        assert forall|k: int| 0 <= k < first_match(food, p) implies food[k] != p by {
            if k > 0 {
                assert(food.drop_first()[k - 1] == food[k]);
            }
        }
        if first_match(food, p) == -1 {
            assert forall|k: int| 0 <= k < food.len() implies food[k] != p by {
                if k > 0 {
                    assert(food.drop_first()[k - 1] == food[k]);
                }
            }
        }
    }
}

/// Whether the head shares its cell with any other segment.
pub open spec fn head_hits_body(cells: Seq<SnakeCell>) -> bool {
    exists|n: int| 1 <= n < cells.len() && (#[trigger] cells[n]).pos == cells[0].pos
}

/// The food list after an optional spawn was appended.
pub open spec fn spawned(food: Seq<Position>, spawn: Option<Position>) -> Seq<Position> {
    match spawn {
        Some(p) => food.push(p),
        None => food,
    }
}

/// One tick of the simulation on a `width` x `height` board, with `spawn`
/// the food cell this tick spawns, if any. In order: the spawn is
/// appended; every segment adopts the last queued joint anchored at its
/// cell; the oldest joint is retired once the tail stands on it; the
/// pre-move tail is snapshotted; every segment moves one toroidal step in
/// its own direction; if the moved head stands on food, the first matching
/// food cell is consumed and the snapshot is appended as the new tail; the
/// game is over when the moved head shares its cell with any other
/// segment. Yields (segments, joints, food, game over).
pub open spec fn tick_spec(
    cells: Seq<SnakeCell>,
    joints: Seq<Joint>,
    food: Seq<Position>,
    width: u32,
    height: u32,
    spawn: Option<Position>,
) -> (Seq<SnakeCell>, Seq<Joint>, Seq<Position>, bool)
    recommends
        cells.len() >= 1,
{
    let food1 = spawned(food, spawn);
    let cells1 = adopt_all(cells, joints);
    let joints1 = retire(cells1, joints);
    let snap = cells1.last();
    let cells2 = move_all(cells1, width, height);
    let hit = first_match(food1, cells2[0].pos);
    let food2 = if hit >= 0 {
        food1.remove(hit)
    } else {
        food1
    };
    let cells3 = if hit >= 0 {
        cells2.push(snap)
    } else {
        cells2
    };
    (cells3, joints1, food2, head_hits_body(cells3))
}

/// What a turn request does: with a turn already queued this tick, or a
/// request to reverse straight into the neck, nothing; otherwise the head
/// adopts the direction, a joint is recorded at the head's cell, and the
/// turn-queued flag is set. Yields (segments, joints, flag).
pub open spec fn add_joint_spec(
    cells: Seq<SnakeCell>,
    joints: Seq<Joint>,
    flag: bool,
    direction: Direction,
) -> (Seq<SnakeCell>, Seq<Joint>, bool)
    recommends
        cells.len() >= 1,
{
    if flag || direction == cells[0].dir.reverse_spec() {
        (cells, joints, flag)
    } else {
        (
            cells.update(0, SnakeCell { pos: cells[0].pos, dir: direction }),
            joints.push(Joint { position: cells[0].pos, direction }),
            true,
        )
    }
}

/// The snake the session starts with: three cells on the bottom row,
/// heading East.
pub open spec fn initial_cells() -> Seq<SnakeCell> {
    seq![
        SnakeCell { pos: Position { x: 3, y: 0 }, dir: Direction::E },
        SnakeCell { pos: Position { x: 2, y: 0 }, dir: Direction::E },
        SnakeCell { pos: Position { x: 1, y: 0 }, dir: Direction::E },
    ]
}

/// The starting state satisfies the playing invariant.
proof fn lemma_initial_play_inv(g: Game)
    requires
        g.wf(),
        g.snake.cells@ == initial_cells(),
        g.joints@ == Seq::<Joint>::empty(),
        g.board.width == 20,
        g.board.height == 20,
    ensures
        g.play_inv(),
{
    let cs = g.snake.cells@;
    let js = g.joints@;
    assert(positions_distinct(cs));
    assert forall|i: int, j: int|
        #![trigger cs[i], cs[j]]
        0 <= i && j == i + 1 && j < cs.len() implies move_one_spec(
        cs[j].pos,
        eff_dir(cs[j].pos, cs[j].dir, js),
        g.board.width,
        g.board.height,
    ) == cs[i].pos by {
        assert(crate::snake::last_match(js, cs[j].pos) == -1);
    }
    assert forall|i: int, j: int|
        #![trigger cs[i], cs[j]]
        0 <= i && j == i + 1 && j < cs.len() implies (crate::snake::last_match(js, cs[i].pos) >= 0
        || eff_dir(cs[j].pos, cs[j].dir, js) == eff_dir(cs[i].pos, cs[i].dir, js)) by {
        assert(crate::snake::last_match(js, cs[j].pos) == -1);
        assert(crate::snake::last_match(js, cs[i].pos) == -1);
    }
}

/// Relies on rand::thread_rng and rand::Rng::gen_range: the sample is
/// drawn uniformly from the half-open range below `bound`; gen_range
/// panics only on an empty range, which the precondition rules out, and
/// always yields a value of the range.
#[verifier::external_body]
fn random_below(bound: u32) -> (r: u32)
    requires
        bound > 0,
    ensures
        r < bound,
{
    rand::thread_rng().gen_range(0..bound)
}

/// Every segment adopts the direction of the last queued joint anchored at
/// its cell, scanning the queue in order; segments on no joint's cell keep
/// their direction.
fn adopt_directions(cells: &mut Vec<SnakeCell>, joints: &Vec<Joint>)
    ensures
        final(cells)@ == adopt_all(old(cells)@, joints@),
{
    let n = cells.len();
    let jn = joints.len();
    let mut ci: usize = 0;
    while ci < n
        invariant
            ci <= n,
            n == cells@.len(),
            n == old(cells)@.len(),
            jn == joints@.len(),
            forall|m: int| 0 <= m < ci ==> cells@[m] == adopt_all(old(cells)@, joints@)[m],
            forall|m: int| ci <= m < n ==> cells@[m] == old(cells)@[m],
        decreases n - ci,
    {
        let mut cell = cells[ci];
        let mut ji: usize = 0;
        while ji < jn
            invariant
                ci < n,
                ji <= jn,
                n == cells@.len(),
                n == old(cells)@.len(),
                jn == joints@.len(),
                cell.pos == old(cells)@[ci as int].pos,
                cell.dir == eff_dir(
                    old(cells)@[ci as int].pos,
                    old(cells)@[ci as int].dir,
                    joints@.subrange(0, ji as int),
                ),
                forall|m: int| 0 <= m < ci ==> cells@[m] == adopt_all(old(cells)@, joints@)[m],
                forall|m: int| ci <= m < n ==> cells@[m] == old(cells)@[m],
            decreases jn - ji,
        {
            proof {
                assert(joints@.subrange(0, ji + 1) =~= joints@.subrange(0, ji as int).push(
                    joints@[ji as int],
                ));
                lemma_last_match_push(joints@.subrange(0, ji as int), joints@[ji as int], cell.pos);
                lemma_last_match_props(joints@.subrange(0, ji as int), cell.pos);
            }
            if joints[ji].position == cell.pos {
                cell.dir = joints[ji].direction;
            }
            ji += 1;
        }
        proof {
            assert(joints@.subrange(0, jn as int) =~= joints@);
        }
        cells.set(ci, cell);
        ci += 1;
    }
    proof {
        assert(cells@ =~= adopt_all(old(cells)@, joints@));
    }
}

/// Pops the oldest queued joint once the tail stands on its cell: it has
/// propagated through the whole body.
fn retire_joint(cells: &Vec<SnakeCell>, joints: &mut Vec<Joint>)
    requires
        cells@.len() >= 1,
    ensures
        final(joints)@ == retire(cells@, old(joints)@),
{
    if joints.len() > 0 {
        let tail = cells[cells.len() - 1];
        if tail.pos == joints[0].position {
            joints.remove(0);
            proof {
                assert(joints@ =~= retire(cells@, old(joints)@));
            }
        }
    }
}

/// Moves every segment one toroidal step in its own direction.
fn move_cells(cells: &mut Vec<SnakeCell>, width: u32, height: u32)
    requires
        width > 0,
        height > 0,
        cells_in_bounds(old(cells)@, width, height),
    ensures
        final(cells)@ == move_all(old(cells)@, width, height),
        cells_in_bounds(final(cells)@, width, height),
{
    let n = cells.len();
    let mut ci: usize = 0;
    while ci < n
        invariant
            ci <= n,
            n == cells@.len(),
            n == old(cells)@.len(),
            cells_in_bounds(old(cells)@, width, height),
            forall|m: int| 0 <= m < ci ==> cells@[m] == move_all(old(cells)@, width, height)[m],
            forall|m: int| ci <= m < n ==> cells@[m] == old(cells)@[m],
        decreases n - ci,
    {
        let c = cells[ci];
        let np = move_one(c.pos, c.dir, width, height);
        cells.set(ci, SnakeCell { pos: np, dir: c.dir });
        ci += 1;
    }
    proof {
        assert(cells@ =~= move_all(old(cells)@, width, height));
        assert forall|m: int| 0 <= m < n implies in_bounds(cells@[m].pos, width, height) by {
            crate::geometry::lemma_move_one_in_bounds(
                old(cells)@[m].pos,
                old(cells)@[m].dir,
                width,
                height,
            );
        }
    }
}

/// The index of the first food cell the head stands on, if any.
fn find_first_food(food: &Vec<Position>, head: Position) -> (r: Option<usize>)
    ensures
        r matches Some(i) ==> i < food@.len() && first_match(food@, head) == i as int,
        r is None ==> first_match(food@, head) == -1,
{
    let n = food.len();
    let mut i: usize = 0;
    while i < n
        invariant
            i <= n,
            n == food@.len(),
            forall|k: int| 0 <= k < i ==> food@[k] != head,
        decreases n - i,
    {
        if food[i] == head {
            proof {
                lemma_first_match_is(food@, head, i as int);
            }
            return Some(i);
        }
        i += 1;
    }
    proof {
        lemma_first_match_none(food@, head);
    }
    None
}

/// Whether the head shares its cell with any other segment.
fn self_collision(cells: &Vec<SnakeCell>) -> (r: bool)
    requires
        cells@.len() >= 1,
    ensures
        r == head_hits_body(cells@),
{
    let head = cells[0].pos;
    let n = cells.len();
    let mut i: usize = 1;
    while i < n
        invariant
            1 <= i <= n,
            n == cells@.len(),
            head == cells@[0].pos,
            forall|k: int| 1 <= k < i ==> (#[trigger] cells@[k]).pos != head,
        decreases n - i,
    {
        if cells[i].pos == head {
            proof {
                assert(head_hits_body(cells@)) by {
                    assert(1 <= i < cells@.len() && cells@[i as int].pos == cells@[0].pos);
                }
            }
            return true;
        }
        i += 1;
    }
    proof {
        assert(!head_hits_body(cells@));
    }
    false
}

impl Game {
    /// Structural invariant: a well-formed board, a non-empty body on the
    /// board, food on the board, and a spawn counter inside its period.
    pub open spec fn wf(&self) -> bool {
        &&& self.board.wf()
        &&& self.snake.cells@.len() >= 1
        &&& cells_in_bounds(self.snake.cells@, self.board.width, self.board.height)
        &&& food_in_bounds(self.food@, self.board.width, self.board.height)
        &&& 0 <= self.food_counter < self.food_counter_mod
    }

    /// The playing invariant that ticks preserve until the game is over:
    /// well-formed, no two segments on one cell, the body a linked chain,
    /// and every corner of the body still marked by a queued joint.
    pub open spec fn play_inv(&self) -> bool {
        &&& self.wf()
        &&& positions_distinct(self.snake.cells@)
        &&& chain_linked(self.snake.cells@, self.joints@, self.board.width, self.board.height)
        &&& turn_consistent(self.snake.cells@, self.joints@)
    }

    /// Assembles the fixed default board: 20 x 20 cells of 16 pixels, a
    /// 5-pixel grid in green, and a white background.
    fn default_board() -> (r: Result<Board, PixelCanvasError>)
        ensures
            r is Ok,
            r matches Ok(board) ==> {
                &&& board.wf()
                &&& board.width == 20
                &&& board.height == 20
                &&& board.unit_size == 16
                &&& board.pixel_width == 425
                &&& board.pixel_height == 425
                &&& board.cell_color == (RGBA { r: 255, g: 255, b: 255, a: 255 })
                &&& board.grid == Some(
                    BoardGrid { thickness: 5, color: RGBA { r: 143, g: 190, b: 103, a: 255 } },
                )
                &&& board.raw_buffer@ == background_fill(
                    425,
                    425,
                    RGBA { r: 255, g: 255, b: 255, a: 255 },
                )
            },
    {
        let builder = match BoardBuilder::new(20, 20, 16) {
            Ok(b) => b,
            Err(e) => {
                return Err(e);
            },
        };
        let builder = match builder.with_grid(5, RGBA { r: 143, g: 190, b: 103, a: 255 }) {
            Ok(b) => b,
            Err(e) => {
                return Err(e);
            },
        };
        let builder = match builder.with_default_background_color(
            RGBA { r: 255, g: 255, b: 255, a: 255 },
        ) {
            Ok(b) => b,
            Err(e) => {
                return Err(e);
            },
        };
        proof {
            assert(builder.builds()) by {
                assert(builder.width_spec() == 20);
                assert(builder.height_spec() == 20);
                assert(builder.unit_size_spec() == 16);
                assert(builder.gutter_spec() == 5);
            }
        }
        builder.build()
    }

    /// Starts a session on a fixed 20 x 20 board with 16-pixel cells, a
    /// 5-pixel grid, a white background, a three-cell snake heading East,
    /// no food, no queued turns, and a spawn period of 40 ticks.
    #[verifier::rlimit(30)]
    pub fn new() -> (r: Result<Game, PixelCanvasError>)
        ensures
            r is Ok,
            r matches Ok(g) ==> {
                &&& g.wf()
                &&& g.play_inv()
                &&& g.board.width == 20
                &&& g.board.height == 20
                &&& g.board.unit_size == 16
                &&& g.board.pixel_width == 425
                &&& g.board.pixel_height == 425
                &&& g.board.cell_color == (RGBA { r: 255, g: 255, b: 255, a: 255 })
                &&& g.board.grid == Some(
                    BoardGrid { thickness: 5, color: RGBA { r: 143, g: 190, b: 103, a: 255 } },
                )
                &&& g.board.raw_buffer@ == background_fill(
                    425,
                    425,
                    RGBA { r: 255, g: 255, b: 255, a: 255 },
                )
                &&& g.snake.cells@ == initial_cells()
                &&& g.food@ == Seq::<Position>::empty()
                &&& g.joints@ == Seq::<Joint>::empty()
                &&& !g.joint_flag
                &&& g.food_counter == 0
                &&& g.food_counter_mod == 40
            },
    {
        let board = match Game::default_board() {
            Ok(b) => b,
            Err(e) => {
                return Err(e);
            },
        };
        let mut cells: Vec<SnakeCell> = Vec::new();
        cells.push(SnakeCell { pos: Position { x: 3, y: 0 }, dir: Direction::E });
        cells.push(SnakeCell { pos: Position { x: 2, y: 0 }, dir: Direction::E });
        cells.push(SnakeCell { pos: Position { x: 1, y: 0 }, dir: Direction::E });
        proof {
            assert(cells@ =~= initial_cells());
        }
        let game = Game {
            board,
            snake: Snake { cells },
            food: Vec::new(),
            joints: Vec::new(),
            food_counter: 0,
            food_counter_mod: 40,
            joint_flag: false,
        };
        proof {
            assert(game.joints@ =~= Seq::<Joint>::empty());
            assert(game.food@ =~= Seq::<Position>::empty());
            assert(game.wf());
            lemma_initial_play_inv(game);
        }
        Ok(game)
    }

    /// Advances one tick with `spawn` as this tick's food spawn decision,
    /// already made: the deterministic heart of `update`, stated by
    /// `tick_spec`. Signals whether play goes on or the head hit the body.
    pub fn advance(&mut self, spawn: Option<Position>) -> (r: TickResult)
        requires
            old(self).wf(),
            spawn matches Some(p) ==> in_bounds(p, old(self).board.width, old(self).board.height),
        ensures
            final(self).wf(),
            final(self).board == old(self).board,
            final(self).food_counter == (old(self).food_counter + 1) % (old(self).food_counter_mod as int),
            final(self).food_counter_mod == old(self).food_counter_mod,
            !final(self).joint_flag,
            ({
                let t = tick_spec(
                    old(self).snake.cells@,
                    old(self).joints@,
                    old(self).food@,
                    old(self).board.width,
                    old(self).board.height,
                    spawn,
                );
                &&& final(self).snake.cells@ == t.0
                &&& final(self).joints@ == t.1
                &&& final(self).food@ == t.2
                &&& (r is GameOver <==> t.3)
            }),
            old(self).play_inv() && r is Continue ==> final(self).play_inv(),
    {
        if let Some(p) = spawn {
            self.food.push(p);
        }
        self.food_counter = (self.food_counter + 1) % self.food_counter_mod;
        adopt_directions(&mut self.snake.cells, &self.joints);
        retire_joint(&self.snake.cells, &mut self.joints);
        let snap = self.snake.cells[self.snake.cells.len() - 1];
        move_cells(&mut self.snake.cells, self.board.width, self.board.height);
        let head = self.snake.cells[0];
        match find_first_food(&self.food, head.pos) {
            Some(i) => {
                self.food.remove(i);
                self.snake.cells.push(snap);
            },
            None => {},
        }
        let over = self_collision(&self.snake.cells);
        self.joint_flag = false;
        proof {
            let t = tick_spec(
                old(self).snake.cells@,
                old(self).joints@,
                old(self).food@,
                old(self).board.width,
                old(self).board.height,
                spawn,
            );
            let food1 = spawned(old(self).food@, spawn);
            let cells2 = move_all(adopt_all(old(self).snake.cells@, old(self).joints@),
                old(self).board.width, old(self).board.height);
            let hit = first_match(food1, cells2[0].pos);
            assert(self.snake.cells@ == t.0);
            assert(self.joints@ == t.1);
            if hit >= 0 {
                food1.remove_ensures(hit);
                assert(self.food@ =~= t.2);
            }
            assert(self.food@ == t.2);
            assert(over == t.3);
            if old(self).play_inv() {
                crate::laws::lemma_tick_preserves_play_inv(
                    old(self).snake.cells@,
                    old(self).joints@,
                    old(self).food@,
                    old(self).board.width,
                    old(self).board.height,
                    spawn,
                );
            }
            assert forall|n: int| 0 <= n < self.food@.len() implies in_bounds(
                #[trigger] self.food@[n],
                self.board.width,
                self.board.height,
            ) by {
                if hit >= 0 {
                    food1.remove_ensures(hit);
                }
            }
        }
        if over {
            TickResult::GameOver
        } else {
            TickResult::Continue
        }
    }

    /// Advances one tick: when the spawn counter is at zero a food cell is
    /// spawned at a cell drawn at random, and the tick proceeds as
    /// `advance` states. Signals whether play goes on or the head hit the
    /// body.
    pub fn update(&mut self) -> (r: TickResult)
        requires
            old(self).wf(),
        ensures
            final(self).wf(),
            final(self).board == old(self).board,
            final(self).food_counter == (old(self).food_counter + 1) % (old(self).food_counter_mod as int),
            final(self).food_counter_mod == old(self).food_counter_mod,
            !final(self).joint_flag,
            old(self).food_counter != 0 ==> ({
                let t = tick_spec(
                    old(self).snake.cells@,
                    old(self).joints@,
                    old(self).food@,
                    old(self).board.width,
                    old(self).board.height,
                    None::<Position>,
                );
                &&& final(self).snake.cells@ == t.0
                &&& final(self).joints@ == t.1
                &&& final(self).food@ == t.2
                &&& (r is GameOver <==> t.3)
            }),
            old(self).food_counter == 0 ==> exists|p: Position|
                {
                    let t = tick_spec(
                        old(self).snake.cells@,
                        old(self).joints@,
                        old(self).food@,
                        old(self).board.width,
                        old(self).board.height,
                        Some(p),
                    );
                    &&& #[trigger] in_bounds(p, old(self).board.width, old(self).board.height)
                    &&& final(self).snake.cells@ == t.0
                    &&& final(self).joints@ == t.1
                    &&& final(self).food@ == t.2
                    &&& (r is GameOver <==> t.3)
                },
            old(self).play_inv() && r is Continue ==> final(self).play_inv(),
    {
        let spawn: Option<Position> = if self.food_counter == 0 {
            let x = random_below(self.board.width);
            let y = random_below(self.board.height);
            Some(Position { x, y })
        } else {
            None
        };
        let r = self.advance(spawn);
        proof {
            if old(self).food_counter == 0 {
                assert(in_bounds(
                    spawn->Some_0,
                    old(self).board.width,
                    old(self).board.height,
                ));
            }
        }
        r
    }

    /// Requests a turn. A request to reverse straight into the neck, or a
    /// second request before the next tick, is silently ignored; an
    /// accepted one turns the head at once and records a joint at the
    /// head's cell for the body to follow.
    pub fn add_joint(&mut self, direction: Direction)
        requires
            old(self).wf(),
        ensures
            final(self).wf(),
            final(self).board == old(self).board,
            final(self).food@ == old(self).food@,
            final(self).food_counter == old(self).food_counter,
            final(self).food_counter_mod == old(self).food_counter_mod,
            ({
                let a = add_joint_spec(
                    old(self).snake.cells@,
                    old(self).joints@,
                    old(self).joint_flag,
                    direction,
                );
                &&& final(self).snake.cells@ == a.0
                &&& final(self).joints@ == a.1
                &&& final(self).joint_flag == a.2
            }),
            old(self).play_inv() ==> final(self).play_inv(),
    {
        proof {
            if old(self).play_inv() {
                crate::laws::lemma_add_joint_preserves_play_inv(
                    old(self).snake.cells@,
                    old(self).joints@,
                    old(self).joint_flag,
                    direction,
                    old(self).board.width,
                    old(self).board.height,
                );
            }
        }
        let top = self.snake.cells[0];
        let prohibited = top.dir.reverse();
        if !self.joint_flag && direction != prohibited {
            self.snake.cells.set(0, SnakeCell { pos: top.pos, dir: direction });
            self.joints.push(Joint { position: top.pos, direction });
            self.joint_flag = true;
        }
    }

    /// Repaints the board from the current state: the blank canvas, then
    /// every body segment in the body color, then every food cell in the
    /// food color, so food is visible even on a cell the body occupies.
    pub fn draw(&mut self)
        requires
            old(self).wf(),
        ensures
            final(self).wf(),
            final(self).board.same_config(&old(self).board),
            final(self).snake.cells@ == old(self).snake.cells@,
            final(self).food@ == old(self).food@,
            final(self).joints@ == old(self).joints@,
            final(self).joint_flag == old(self).joint_flag,
            final(self).food_counter == old(self).food_counter,
            final(self).food_counter_mod == old(self).food_counter_mod,
            final(self).board.raw_buffer@ == paint_positions(
                old(self).board,
                paint_positions(
                    old(self).board,
                    old(self).board.cleared(),
                    cell_positions(old(self).snake.cells@),
                    body_color(),
                ),
                old(self).food@,
                food_color(),
            ),
    {
        self.board.clear();
        let ghost base = old(self).board.cleared();
        let ghost body_layer = paint_positions(
            old(self).board,
            base,
            cell_positions(old(self).snake.cells@),
            body_color(),
        );
        let n = self.snake.cells.len();
        let mut i: usize = 0;
        while i < n
            invariant
                i <= n,
                n == self.snake.cells@.len(),
                self.snake.cells@ == old(self).snake.cells@,
                self.food@ == old(self).food@,
                self.joints@ == old(self).joints@,
                self.joint_flag == old(self).joint_flag,
                self.food_counter == old(self).food_counter,
                self.food_counter_mod == old(self).food_counter_mod,
                self.board.same_config(&old(self).board),
                self.board.wf(),
                cells_in_bounds(self.snake.cells@, self.board.width, self.board.height),
                food_in_bounds(self.food@, self.board.width, self.board.height),
                0 <= self.food_counter < self.food_counter_mod,
                self.board.raw_buffer@ == paint_positions(
                    old(self).board,
                    base,
                    cell_positions(old(self).snake.cells@).subrange(0, i as int),
                    body_color(),
                ),
            decreases n - i,
        {
            let c = self.snake.cells[i];
            let ghost before = self.board.raw_buffer@;
            let ghost board_before = self.board;
            self.board.draw(c.pos, RGBA { r: 100, g: 100, b: 0, a: 255 });
            proof {
                lemma_painted_same_config(board_before, old(self).board, before, c.pos, body_color());
                assert(cell_positions(old(self).snake.cells@).subrange(0, i + 1)
                    =~= cell_positions(old(self).snake.cells@).subrange(0, i as int).push(c.pos));
                lemma_paint_positions_push(
                    old(self).board,
                    base,
                    cell_positions(old(self).snake.cells@).subrange(0, i as int),
                    c.pos,
                    body_color(),
                );
            }
            i += 1;
        }
        proof {
            assert(cell_positions(old(self).snake.cells@).subrange(0, n as int) =~= cell_positions(
                old(self).snake.cells@,
            ));
        }
        let fn_ = self.food.len();
        let mut j: usize = 0;
        while j < fn_
            invariant
                j <= fn_,
                fn_ == self.food@.len(),
                self.snake.cells@ == old(self).snake.cells@,
                self.food@ == old(self).food@,
                self.joints@ == old(self).joints@,
                self.joint_flag == old(self).joint_flag,
                self.food_counter == old(self).food_counter,
                self.food_counter_mod == old(self).food_counter_mod,
                self.board.same_config(&old(self).board),
                self.board.wf(),
                cells_in_bounds(self.snake.cells@, self.board.width, self.board.height),
                food_in_bounds(self.food@, self.board.width, self.board.height),
                0 <= self.food_counter < self.food_counter_mod,
                self.board.raw_buffer@ == paint_positions(
                    old(self).board,
                    body_layer,
                    old(self).food@.subrange(0, j as int),
                    food_color(),
                ),
            decreases fn_ - j,
        {
            let p = self.food[j];
            let ghost before = self.board.raw_buffer@;
            let ghost board_before = self.board;
            self.board.draw(p, RGBA { r: 255, g: 100, b: 100, a: 255 });
            proof {
                lemma_painted_same_config(board_before, old(self).board, before, p, food_color());
                assert(old(self).food@.subrange(0, j + 1) =~= old(self).food@.subrange(
                    0,
                    j as int,
                ).push(p));
                lemma_paint_positions_push(
                    old(self).board,
                    body_layer,
                    old(self).food@.subrange(0, j as int),
                    p,
                    food_color(),
                );
            }
            j += 1;
        }
        proof {
            assert(old(self).food@.subrange(0, fn_ as int) =~= old(self).food@);
        }
    }
}

} // verus!
