use rusty_snake::Direction;
use rusty_snake::Game;
use rusty_snake::Position;
use rusty_snake::SnakeCell;
use rusty_snake::TickResult;

fn cell(x: u32, y: u32, dir: Direction) -> SnakeCell {
    SnakeCell { pos: Position { x, y }, dir }
}

fn positions(game: &Game) -> Vec<Position> {
    game.snake.cells.iter().map(|c| c.pos).collect()
}

fn assert_no_overlap(game: &Game) {
    let ps = positions(game);
    for a in 0..ps.len() {
        for b in (a + 1)..ps.len() {
            assert_ne!(ps[a], ps[b], "segments {} and {} overlap", a, b);
        }
    }
}

#[test]
fn new_game_has_documented_defaults() {
    let game = Game::new().unwrap();
    assert_eq!(game.board.width, 20);
    assert_eq!(game.board.height, 20);
    assert_eq!(game.board.unit_size, 16);
    assert_eq!(game.board.pixel_width, 425);
    assert_eq!(game.board.pixel_height, 425);
    assert_eq!(
        positions(&game),
        vec![
            Position { x: 3, y: 0 },
            Position { x: 2, y: 0 },
            Position { x: 1, y: 0 }
        ]
    );
    for c in game.snake.cells.iter() {
        assert_eq!(c.dir, Direction::E);
    }
    assert!(game.food.is_empty());
    assert!(game.joints.is_empty());
    assert!(!game.joint_flag);
}

#[test]
fn straight_tick_shifts_the_body_east() {
    let mut game = Game::new().unwrap();
    let r = game.advance(None);
    assert_eq!(r, TickResult::Continue);
    assert_eq!(
        positions(&game),
        vec![
            Position { x: 4, y: 0 },
            Position { x: 3, y: 0 },
            Position { x: 2, y: 0 }
        ]
    );
    for c in game.snake.cells.iter() {
        assert_eq!(c.dir, Direction::E);
    }
    assert_eq!(game.snake.cells.len(), 3);
}

#[test]
fn head_wraps_from_the_east_edge() {
    let mut game = Game::new().unwrap();
    game.snake.cells = vec![
        cell(19, 0, Direction::E),
        cell(18, 0, Direction::E),
        cell(17, 0, Direction::E),
    ];
    let r = game.advance(None);
    assert_eq!(r, TickResult::Continue);
    assert_eq!(game.snake.cells[0].pos, Position { x: 0, y: 0 });
}

#[test]
fn reverse_turn_request_is_ignored() {
    let mut game = Game::new().unwrap();
    game.add_joint(Direction::W);
    assert_eq!(game.snake.cells[0].dir, Direction::E);
    assert!(game.joints.is_empty());
    assert!(!game.joint_flag);
}

#[test]
fn second_turn_request_in_a_tick_is_ignored() {
    let mut game = Game::new().unwrap();
    game.add_joint(Direction::S);
    assert_eq!(game.snake.cells[0].dir, Direction::S);
    assert_eq!(game.joints.len(), 1);
    assert!(game.joint_flag);
    game.add_joint(Direction::N);
    assert_eq!(game.snake.cells[0].dir, Direction::S);
    assert_eq!(game.joints.len(), 1);
    assert!(game.joint_flag);
}

#[test]
fn a_tick_clears_the_turn_flag_again() {
    let mut game = Game::new().unwrap();
    game.add_joint(Direction::S);
    assert!(game.joint_flag);
    game.advance(None);
    assert!(!game.joint_flag);
    game.add_joint(Direction::W);
    assert_eq!(game.snake.cells[0].dir, Direction::W);
}

#[test]
fn turn_records_a_joint_and_propagates_down_the_body() {
    let mut game = Game::new().unwrap();
    game.add_joint(Direction::S);
    assert_eq!(game.snake.cells[0].dir, Direction::S);
    assert_eq!(game.joints.len(), 1);
    assert_eq!(game.joints[0].position, Position { x: 3, y: 0 });
    assert_eq!(game.joints[0].direction, Direction::S);

    // the head turns at once and wraps south off the bottom row
    game.advance(None);
    assert_eq!(
        positions(&game),
        vec![
            Position { x: 3, y: 19 },
            Position { x: 3, y: 0 },
            Position { x: 2, y: 0 }
        ]
    );
    assert_eq!(game.snake.cells[1].dir, Direction::E);

    // the second segment reaches the corner and adopts South there
    game.advance(None);
    assert_eq!(
        positions(&game),
        vec![
            Position { x: 3, y: 18 },
            Position { x: 3, y: 19 },
            Position { x: 3, y: 0 }
        ]
    );
    assert_eq!(game.snake.cells[1].dir, Direction::S);
    assert_eq!(game.joints.len(), 1);

    // the tail passes the corner and the joint is retired
    game.advance(None);
    assert_eq!(
        positions(&game),
        vec![
            Position { x: 3, y: 17 },
            Position { x: 3, y: 18 },
            Position { x: 3, y: 19 }
        ]
    );
    for c in game.snake.cells.iter() {
        assert_eq!(c.dir, Direction::S);
    }
    assert!(game.joints.is_empty());
}

#[test]
fn eating_grows_by_one_at_the_old_tail_cell() {
    let mut game = Game::new().unwrap();
    game.food.push(Position { x: 4, y: 0 });
    let r = game.advance(None);
    assert_eq!(r, TickResult::Continue);
    assert_eq!(game.snake.cells.len(), 4);
    assert_eq!(
        positions(&game),
        vec![
            Position { x: 4, y: 0 },
            Position { x: 3, y: 0 },
            Position { x: 2, y: 0 },
            Position { x: 1, y: 0 }
        ]
    );
    assert_eq!(game.snake.cells[3].dir, Direction::E);
    assert!(game.food.is_empty());
    assert_no_overlap(&game);

    // one further tick: the grown body moves as one chain
    game.advance(None);
    assert_eq!(game.snake.cells.len(), 4);
    assert_eq!(game.snake.cells[0].pos, Position { x: 5, y: 0 });
    assert_eq!(game.snake.cells[3].pos, Position { x: 2, y: 0 });
    assert_no_overlap(&game);
}

#[test]
fn only_the_first_matching_food_is_consumed() {
    let mut game = Game::new().unwrap();
    game.food.push(Position { x: 7, y: 7 });
    game.food.push(Position { x: 4, y: 0 });
    game.food.push(Position { x: 4, y: 0 });
    game.advance(None);
    assert_eq!(game.snake.cells.len(), 4);
    assert_eq!(game.food.len(), 2);
    assert_eq!(game.food[0], Position { x: 7, y: 7 });
    assert_eq!(game.food[1], Position { x: 4, y: 0 });
}

#[test]
fn spawn_decision_is_appended_before_the_move() {
    let mut game = Game::new().unwrap();
    let r = game.advance(Some(Position { x: 4, y: 0 }));
    assert_eq!(r, TickResult::Continue);
    // the spawned food lies in the head's path and is eaten the same tick
    assert_eq!(game.snake.cells.len(), 4);
    assert!(game.food.is_empty());
}

#[test]
fn head_into_body_signals_game_over() {
    let mut game = Game::new().unwrap();
    game.snake.cells = vec![cell(0, 0, Direction::E), cell(2, 0, Direction::W)];
    let r = game.advance(None);
    assert_eq!(r, TickResult::GameOver);
    assert_eq!(game.snake.cells[0].pos, Position { x: 1, y: 0 });
    assert_eq!(game.snake.cells[1].pos, Position { x: 1, y: 0 });
}

#[test]
fn update_spawns_in_bounds_food_on_the_spawn_tick() {
    // a fresh game has its spawn counter at zero, so the first update
    // spawns one food cell at some in-bounds position
    let mut game = Game::new().unwrap();
    let r = game.update();
    assert_eq!(r, TickResult::Continue);
    if game.food.is_empty() {
        // the spawn landed on the head's destination and was eaten at once
        assert_eq!(game.snake.cells.len(), 4);
    } else {
        assert_eq!(game.food.len(), 1);
        assert!(game.food[0].x < 20);
        assert!(game.food[0].y < 20);
        assert_eq!(game.snake.cells.len(), 3);
    }
    // the next tick's counter is past zero, so nothing new spawns
    let foods = game.food.len();
    game.update();
    assert!(game.food.len() <= foods);
}

#[test]
fn no_two_segments_overlap_along_a_steered_run() {
    let mut game = Game::new().unwrap();
    game.food.push(Position { x: 4, y: 0 });
    let turns = [
        (2, Direction::N),
        (5, Direction::W),
        (8, Direction::S),
        (11, Direction::E),
        (13, Direction::N),
        (17, Direction::W),
    ];
    for tick in 0..60 {
        for (at, dir) in turns.iter() {
            if tick % 20 == *at {
                game.add_joint(*dir);
            }
        }
        let r = game.advance(None);
        assert_eq!(r, TickResult::Continue, "unexpected game over at tick {}", tick);
        assert_no_overlap(&game);
        for c in game.snake.cells.iter() {
            assert!(c.pos.x < 20 && c.pos.y < 20);
        }
    }
}

#[test]
fn draw_rasterizes_body_food_and_grid() {
    let mut game = Game::new().unwrap();
    game.food.push(Position { x: 7, y: 2 });
    game.draw();
    let board = &game.board;
    let px = |row: u32, col: u32| {
        let idx = ((board.pixel_width * row + col) * 4) as usize;
        (
            board.raw_buffer[idx],
            board.raw_buffer[idx + 1],
            board.raw_buffer[idx + 2],
            board.raw_buffer[idx + 3],
        )
    };
    // a gutter pixel holds the grid color
    assert_eq!(px(0, 0), (143, 190, 103, 255));
    // inside the head cell (3, 0): row0 = 5, col0 = 3 * 16 + 5 * 4 = 68
    assert_eq!(px(5, 68), (100, 100, 0, 255));
    assert_eq!(px(20, 83), (100, 100, 0, 255));
    // inside the food cell (7, 2): row0 = 2 * 16 + 5 * 3 = 47, col0 = 7 * 16 + 5 * 8 = 152
    assert_eq!(px(47, 152), (255, 100, 100, 255));
    // an empty cell keeps the white background: cell (0, 0) starts at (5, 5)
    assert_eq!(px(5, 5), (255, 255, 255, 255));
}

#[test]
fn food_drawn_after_body_stays_visible_on_overlap() {
    let mut game = Game::new().unwrap();
    // food on the head's own cell: drawn after the body, so it shows
    game.food.push(Position { x: 3, y: 0 });
    game.draw();
    let idx = ((game.board.pixel_width * 5 + 68) * 4) as usize;
    assert_eq!(game.board.raw_buffer[idx], 255);
    assert_eq!(game.board.raw_buffer[idx + 1], 100);
    assert_eq!(game.board.raw_buffer[idx + 2], 100);
    assert_eq!(game.board.raw_buffer[idx + 3], 255);
}

#[test]
fn draw_leaves_the_simulation_state_alone() {
    let mut game = Game::new().unwrap();
    game.food.push(Position { x: 9, y: 9 });
    game.add_joint(Direction::N);
    let before = positions(&game);
    let joints_before = game.joints.len();
    game.draw();
    assert_eq!(positions(&game), before);
    assert_eq!(game.joints.len(), joints_before);
    assert!(game.joint_flag);
    assert_eq!(game.food.len(), 1);
}
