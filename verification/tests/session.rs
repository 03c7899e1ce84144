//! Tests for the tick-driven phase machine: movement handling, locking,
//! clearing, scoring, and leveling.

use tetris::models::{Block, Direction, Grid, Movement, Tetrimino, TetriminoType, Tetriminos};
use tetris::{Game, States, CLEAR_TICKS, LOCK_TICKS};

fn block(x: i32, y: i32) -> Block {
    Block { x, y, kind: TetriminoType::O }
}

fn positions(blocks: &[Block]) -> Vec<(i32, i32)> {
    let mut v: Vec<(i32, i32)> = blocks.iter().map(|b| (b.x, b.y)).collect();
    v.sort();
    v
}

#[test]
fn a_new_session_starts_falling_on_an_empty_field() {
    let game = Game::new(0);
    assert_eq!(game.phase(), States::Falling);
    assert_eq!(game.score(), 0);
    assert_eq!(game.lines(), 0);
    assert_eq!(game.level(), 0);
    assert!(game.locked_blocks().is_empty());
    assert_eq!(game.active_blocks().len(), 4);
    assert_eq!(game.preview_blocks().len(), 4);
}

#[test]
fn scoring_at_level_zero_and_level_two() {
    for (rows, points) in [(1u32, 40u32), (2, 100), (3, 300), (4, 1200)] {
        let mut game = Game::new(0);
        game.update_score(rows);
        assert_eq!(game.score(), points);
    }
    let mut game = Game::new(2);
    game.update_score(4);
    assert_eq!(game.score(), 3600);
    // Zero cleared rows score nothing.
    let mut game = Game::new(0);
    game.update_score(0);
    assert_eq!(game.score(), 0);
}

#[test]
fn score_sticks_at_the_ceiling_instead_of_wrapping() {
    let mut game = Game::new(0);
    game.score = u32::MAX - 10;
    game.update_score(1);
    assert_eq!(game.score(), u32::MAX);
}

#[test]
fn level_never_regresses() {
    let mut game = Game::new(5);
    game.update_level();
    assert_eq!(game.level(), 5);
    game.lines = 170;
    game.update_level();
    assert_eq!(game.level(), 17);
    game.lines = 0;
    game.update_level();
    assert_eq!(game.level(), 17);
}

#[test]
fn level_is_capped_at_twenty() {
    let mut game = Game::new(0);
    game.lines = 1000;
    game.update_level();
    assert_eq!(game.level(), 20);
}

#[test]
fn fall_ticks_follow_the_difficulty_table() {
    for (level, ticks) in [(0u8, 53u8), (1, 49), (9, 11), (10, 10), (19, 4), (20, 3)] {
        let mut game = Game::new(level);
        game.reset_fall_ticks();
        assert_eq!(game.fall_ticks, ticks);
    }
}

#[test]
fn movement_is_rejected_at_the_left_wall() {
    let mut game = Game::new(0);
    game.active = Tetrimino::new(TetriminoType::O, &game.tetriminos);
    for _ in 0..3 {
        game.on_move(Movement::Shift(Direction::Left));
    }
    let at_wall = positions(&game.active_blocks());
    assert!(at_wall.iter().any(|&(x, _)| x == 0));
    game.on_move(Movement::Shift(Direction::Left));
    assert_eq!(positions(&game.active_blocks()), at_wall);
}

#[test]
fn movement_is_ignored_while_rows_clear() {
    let mut game = Game::new(0);
    game.state = States::Clearing;
    let before = positions(&game.active_blocks());
    game.on_move(Movement::Shift(Direction::Down));
    assert_eq!(positions(&game.active_blocks()), before);
    assert_eq!(game.phase(), States::Clearing);
}

#[test]
fn gravity_moves_the_piece_after_the_fall_countdown() {
    let mut game = Game::new(0);
    let before = positions(&game.active_blocks());
    // 53 ticks count down; the 54th performs the drop and reprimes.
    for _ in 0..54 {
        game.on_update();
    }
    let expected: Vec<(i32, i32)> = before.iter().map(|&(x, y)| (x, y - 1)).collect();
    assert_eq!(positions(&game.active_blocks()), expected);
    assert_eq!(game.fall_ticks, 53);
}

#[test]
fn escaping_a_landed_position_restores_the_lock_countdown() {
    let mut game = Game::new(0);
    game.active = Tetrimino::new(TetriminoType::O, &game.tetriminos);
    while !game.grid.has_landed(&game.active) {
        game.on_move(Movement::Shift(Direction::Down));
    }
    assert_eq!(game.phase(), States::Locking);
    game.lock_ticks = 4;
    // A sideways move keeps the piece landed: the countdown is not restored.
    game.on_move(Movement::Shift(Direction::Left));
    assert_eq!(game.phase(), States::Locking);
    assert_eq!(game.lock_ticks, 4);
    // Against a raised stack the piece can escape by sliding off the ledge;
    // build one under the current floor contact instead: simplest is a fresh
    // game where the piece rests on a single block and slides off it.
    let mut game = Game::new(0);
    game.active = Tetrimino::new(TetriminoType::O, &game.tetriminos);
    game.grid.blocks.push(block(3, 10));
    while !game.grid.has_landed(&game.active) {
        game.on_move(Movement::Shift(Direction::Down));
    }
    assert_eq!(game.phase(), States::Locking);
    game.lock_ticks = 4;
    // Sliding right leaves the ledge: the piece falls again with a full
    // countdown in reserve.
    game.on_move(Movement::Shift(Direction::Right));
    game.on_move(Movement::Shift(Direction::Right));
    assert_eq!(game.phase(), States::Falling);
    assert_eq!(game.lock_ticks, LOCK_TICKS);
}

#[test]
fn clearing_through_the_phase_machine_scores_and_levels() {
    let mut game = Game::new(0);
    for x in 0..10 {
        game.grid.blocks.push(block(x, 1));
    }
    game.state = States::Clearing;
    game.clear_ticks = 0;
    game.lines = 9;
    game.on_update();
    assert_eq!(game.phase(), States::Falling);
    assert!(game.locked_blocks().is_empty());
    assert_eq!(game.score(), 40);
    assert_eq!(game.lines(), 10);
    assert_eq!(game.level(), 1);
    assert_eq!(game.clear_ticks, CLEAR_TICKS);
}

#[test]
fn clearing_phase_waits_for_its_countdown() {
    let mut game = Game::new(0);
    for x in 0..10 {
        game.grid.blocks.push(block(x, 1));
    }
    game.state = States::Clearing;
    game.clear_ticks = 2;
    game.on_update();
    assert_eq!(game.phase(), States::Clearing);
    assert_eq!(game.locked_blocks().len(), 10);
    game.on_update();
    game.on_update();
    assert_eq!(game.phase(), States::Falling);
    assert!(game.locked_blocks().is_empty());
}

#[test]
fn clearing_phase_exits_immediately_without_full_rows() {
    let mut game = Game::new(0);
    game.grid.blocks.push(block(0, 1));
    game.state = States::Clearing;
    let ticks_before = game.clear_ticks;
    game.on_update();
    assert_eq!(game.phase(), States::Falling);
    assert_eq!(game.locked_blocks().len(), 1);
    assert_eq!(game.score(), 0);
    assert_eq!(game.clear_ticks, ticks_before);
}

#[test]
fn an_o_piece_falls_locks_and_hands_over_to_the_next() {
    let mut game = Game::new(0);
    game.active = Tetrimino::new(TetriminoType::O, &game.tetriminos);
    let preview_before = positions(&game.preview_blocks());
    while !game.grid.has_landed(&game.active) {
        game.on_move(Movement::Shift(Direction::Down));
    }
    assert_eq!(game.phase(), States::Locking);
    let resting = positions(&game.active_blocks());
    assert_eq!(resting, vec![(3, 1), (3, 2), (4, 1), (4, 2)]);
    // Ten ticks count the lock window down; the eleventh locks the piece.
    for _ in 0..10 {
        game.on_update();
        assert_eq!(game.phase(), States::Locking);
    }
    game.on_update();
    assert_eq!(game.phase(), States::Clearing);
    assert_eq!(positions(&game.locked_blocks()), resting);
    // No row is full, so the next tick resumes falling with the piece that
    // was on preview.
    game.on_update();
    assert_eq!(game.phase(), States::Falling);
    assert_eq!(positions(&game.active_blocks()), preview_before);
    assert_eq!(game.active_blocks().len(), 4);
    assert_eq!(game.score(), 0);
    assert_eq!(game.lines(), 0);
}

#[test]
fn locking_keeps_the_grid_dimensions() {
    let game = Game::new(0);
    assert_eq!(game.grid.height, 20);
    assert_eq!(game.grid.width, 10);
    let grid = Grid::new(20, 10);
    assert_eq!(grid.height, 20);
    assert_eq!(grid.width, 10);
}

#[test]
fn preview_follows_the_queue() {
    let mut game = Game::new(0);
    let mut tets = Tetriminos::init();
    // Drive several lock cycles; after each hand-over the new preview must
    // equal the head of the queue.
    for _ in 0..3 {
        game.state = States::Locking;
        game.lock_ticks = 0;
        game.on_update();
        let preview = positions(&game.preview_blocks());
        let head = positions(&game.tetriminos.peek().blocks());
        assert_eq!(preview, head);
    }
    // An independent sequencer still deals full bags.
    let mut shapes = Vec::new();
    for _ in 0..7 {
        shapes.push(tets.next().unwrap().shape);
    }
    shapes.sort_by_key(|s| format!("{:?}", s));
    shapes.dedup();
    assert_eq!(shapes.len(), 7);
}
