//! Tests for the geometric core: pieces, the playfield, and the bag.

use tetris::models::{Block, Direction, Grid, Movement, Tetrimino, TetriminoType, Tetriminos};

fn block(x: i32, y: i32) -> Block {
    Block { x, y, kind: TetriminoType::O }
}

fn positions(blocks: &[Block]) -> Vec<(i32, i32)> {
    let mut v: Vec<(i32, i32)> = blocks.iter().map(|b| (b.x, b.y)).collect();
    v.sort();
    v
}

const ALL_TYPES: [TetriminoType; 7] = [
    TetriminoType::O,
    TetriminoType::I,
    TetriminoType::T,
    TetriminoType::S,
    TetriminoType::Z,
    TetriminoType::J,
    TetriminoType::L,
];

#[test]
fn block_equality_ignores_kind() {
    let a = Block { x: 2, y: 3, kind: TetriminoType::O };
    let b = Block { x: 2, y: 3, kind: TetriminoType::I };
    let c = Block { x: 2, y: 4, kind: TetriminoType::O };
    assert_eq!(a, b);
    assert_ne!(a, c);
}

#[test]
fn spawned_o_piece_occupies_expected_cells() {
    let tets = Tetriminos::init();
    let piece = Tetrimino::new(TetriminoType::O, &tets);
    let blocks = piece.blocks();
    assert_eq!(positions(&blocks), vec![(3, 19), (3, 20), (4, 19), (4, 20)]);
    assert!(blocks.iter().all(|b| b.kind == TetriminoType::O));
}

#[test]
fn every_spawned_piece_is_legal_on_an_empty_field() {
    let tets = Tetriminos::init();
    let grid = Grid::new(20, 10);
    for t in ALL_TYPES {
        let piece = Tetrimino::new(t, &tets);
        let blocks = piece.blocks();
        assert_eq!(blocks.len(), 4);
        assert!(grid.is_legal(&blocks), "spawn of {:?} is not legal", t);
    }
}

#[test]
fn successful_shift_keeps_piece_legal() {
    let tets = Tetriminos::init();
    let grid = Grid::new(20, 10);
    for t in ALL_TYPES {
        let mut piece = Tetrimino::new(t, &tets);
        for dir in [Direction::Down, Direction::Left, Direction::Right, Direction::Down] {
            let next = piece.peek(&Movement::Shift(dir));
            if grid.is_legal(&next) {
                assert!(piece.shift(dir, &grid));
                assert!(grid.is_legal(&piece.blocks()));
            }
        }
    }
}

#[test]
fn successful_rotate_keeps_piece_legal() {
    let tets = Tetriminos::init();
    let grid = Grid::new(20, 10);
    for t in ALL_TYPES {
        let mut piece = Tetrimino::new(t, &tets);
        // Step away from the hidden spawn rows so a rotation has room.
        for _ in 0..4 {
            piece.shift(Direction::Down, &grid);
        }
        let next = piece.peek(&Movement::Rotate);
        assert!(grid.is_legal(&next));
        assert!(piece.rotate(&grid));
        assert!(grid.is_legal(&piece.blocks()));
        assert_eq!(positions(&piece.blocks()), positions(&next));
    }
}

#[test]
fn shift_down_moves_blocks_one_row_down() {
    let tets = Tetriminos::init();
    let grid = Grid::new(20, 10);
    let mut piece = Tetrimino::new(TetriminoType::T, &tets);
    let before = positions(&piece.blocks());
    assert!(piece.shift(Direction::Down, &grid));
    let after = positions(&piece.blocks());
    let expected: Vec<(i32, i32)> = before.iter().map(|&(x, y)| (x, y - 1)).collect();
    assert_eq!(after, expected);
}

#[test]
fn peek_does_not_move_the_piece() {
    let tets = Tetriminos::init();
    let piece = Tetrimino::new(TetriminoType::S, &tets);
    let before = positions(&piece.blocks());
    let peeked = piece.peek(&Movement::Shift(Direction::Left));
    let expected: Vec<(i32, i32)> = before.iter().map(|&(x, y)| (x - 1, y)).collect();
    assert_eq!(positions(&peeked), expected);
    assert_eq!(positions(&piece.blocks()), before);
}

#[test]
fn rotation_cycles_back_to_the_first_frame() {
    let tets = Tetriminos::init();
    let grid = Grid::new(20, 10);
    let mut piece = Tetrimino::new(TetriminoType::I, &tets);
    for _ in 0..4 {
        piece.shift(Direction::Down, &grid);
    }
    let start = positions(&piece.blocks());
    // The I piece has two frames: two rotations come back around.
    assert!(piece.rotate(&grid));
    assert_ne!(positions(&piece.blocks()), start);
    assert!(piece.rotate(&grid));
    assert_eq!(positions(&piece.blocks()), start);
}

#[test]
fn shift_left_is_rejected_at_the_wall() {
    let tets = Tetriminos::init();
    let grid = Grid::new(20, 10);
    let mut piece = Tetrimino::new(TetriminoType::O, &tets);
    // The O piece spawns with blocks at x = 3 and x = 4.
    assert!(piece.shift(Direction::Left, &grid));
    assert!(piece.shift(Direction::Left, &grid));
    assert!(piece.shift(Direction::Left, &grid));
    let at_wall = positions(&piece.blocks());
    assert!(at_wall.iter().any(|&(x, _)| x == 0));
    assert!(!piece.shift(Direction::Left, &grid));
    assert_eq!(positions(&piece.blocks()), at_wall);
}

#[test]
fn shift_right_is_rejected_at_the_wall() {
    let tets = Tetriminos::init();
    let grid = Grid::new(20, 10);
    let mut piece = Tetrimino::new(TetriminoType::O, &tets);
    for _ in 0..5 {
        piece.shift(Direction::Right, &grid);
    }
    let at_wall = positions(&piece.blocks());
    assert!(at_wall.iter().any(|&(x, _)| x == 9));
    assert!(!piece.shift(Direction::Right, &grid));
    assert_eq!(positions(&piece.blocks()), at_wall);
}

#[test]
fn shift_down_is_rejected_on_the_floor_row() {
    let tets = Tetriminos::init();
    let grid = Grid::new(20, 10);
    let mut piece = Tetrimino::new(TetriminoType::O, &tets);
    while piece.shift(Direction::Down, &grid) {}
    let resting = positions(&piece.blocks());
    assert!(resting.iter().any(|&(_, y)| y == 1));
    assert!(!piece.shift(Direction::Down, &grid));
    assert_eq!(positions(&piece.blocks()), resting);
}

#[test]
fn has_landed_on_the_floor_row() {
    let tets = Tetriminos::init();
    let grid = Grid::new(20, 10);
    let mut piece = Tetrimino::new(TetriminoType::O, &tets);
    assert!(!grid.has_landed(&piece));
    while piece.shift(Direction::Down, &grid) {}
    assert!(grid.has_landed(&piece));
}

#[test]
fn has_landed_directly_above_a_locked_block() {
    let tets = Tetriminos::init();
    let mut grid = Grid::new(20, 10);
    let mut piece = Tetrimino::new(TetriminoType::O, &tets);
    // Blocks at (3, 20), (4, 20), (3, 19), (4, 19).
    grid.blocks.push(block(3, 18));
    assert!(grid.has_landed(&piece));
    // A block under a column the piece does not occupy changes nothing.
    grid.blocks.clear();
    grid.blocks.push(block(6, 18));
    assert!(!grid.has_landed(&piece));
    // Neither does a locked block two rows below.
    grid.blocks.clear();
    grid.blocks.push(block(3, 17));
    assert!(!grid.has_landed(&piece));
    piece.shift(Direction::Down, &grid);
    assert!(grid.has_landed(&piece));
}

#[test]
fn is_legal_rejects_out_of_bounds_and_collisions() {
    let mut grid = Grid::new(20, 10);
    grid.blocks.push(block(5, 5));
    assert!(grid.is_legal(&vec![block(0, 1), block(9, 20)]));
    assert!(!grid.is_legal(&vec![block(-1, 5)]));
    assert!(!grid.is_legal(&vec![block(10, 5)]));
    assert!(!grid.is_legal(&vec![block(4, 0)]));
    assert!(!grid.is_legal(&vec![block(4, 21)]));
    assert!(!grid.is_legal(&vec![block(5, 5)]));
    // The collision is positional: the kind does not matter.
    assert!(!grid.is_legal(&vec![Block { x: 5, y: 5, kind: TetriminoType::J }]));
}

#[test]
fn clearing_without_full_rows_changes_nothing() {
    let mut grid = Grid::new(20, 10);
    grid.blocks.push(block(0, 1));
    grid.blocks.push(block(1, 1));
    grid.blocks.push(block(0, 2));
    let before = positions(&grid.blocks());
    assert_eq!(grid.clear_full_rows(), 0);
    assert_eq!(positions(&grid.blocks()), before);
}

#[test]
fn clearing_an_empty_grid_clears_nothing() {
    let mut grid = Grid::new(20, 10);
    assert_eq!(grid.clear_full_rows(), 0);
    assert!(grid.blocks().is_empty());
}

#[test]
fn gravity_compaction_clears_two_rows_and_drops_the_partial_row() {
    let mut grid = Grid::new(3, 4);
    for x in 0..4 {
        grid.blocks.push(block(x, 1));
    }
    grid.blocks.push(block(0, 2));
    grid.blocks.push(block(2, 2));
    for x in 0..4 {
        grid.blocks.push(block(x, 3));
    }
    assert_eq!(grid.clear_full_rows(), 2);
    assert_eq!(positions(&grid.blocks()), vec![(0, 1), (2, 1)]);
}

#[test]
fn get_full_rows_lists_exactly_the_full_rows() {
    let mut grid = Grid::new(3, 4);
    for x in 0..4 {
        grid.blocks.push(block(x, 1));
    }
    grid.blocks.push(block(0, 2));
    for x in 0..4 {
        grid.blocks.push(block(x, 3));
    }
    assert_eq!(grid.get_full_rows(), vec![1, 3]);
    let empty = Grid::new(3, 4);
    assert!(empty.get_full_rows().is_empty());
}

#[test]
fn lock_transfers_the_piece_cells_to_the_grid() {
    let tets = Tetriminos::init();
    let mut grid = Grid::new(20, 10);
    let mut piece = Tetrimino::new(TetriminoType::O, &tets);
    while piece.shift(Direction::Down, &grid) {}
    let cells = positions(&piece.blocks());
    grid.lock(piece);
    assert_eq!(positions(&grid.blocks()), cells);
}

#[test]
fn a_bag_of_seven_draws_holds_every_shape_once() {
    let mut tets = Tetriminos::init();
    for _ in 0..4 {
        let mut drawn: Vec<TetriminoType> = Vec::new();
        for _ in 0..7 {
            drawn.push(tets.next().unwrap().shape);
        }
        for t in ALL_TYPES {
            let count = drawn.iter().filter(|&&d| d == t).count();
            assert_eq!(count, 1, "shape {:?} drawn {} times in one bag", t, count);
        }
    }
}

#[test]
fn peek_previews_the_next_draw() {
    let mut tets = Tetriminos::init();
    for _ in 0..10 {
        let previewed = positions(&tets.peek().blocks());
        let previewed_again = positions(&tets.peek().blocks());
        assert_eq!(previewed, previewed_again);
        let drawn = positions(&tets.next().unwrap().blocks());
        assert_eq!(previewed, drawn);
    }
}

#[test]
fn spawn_patterns_match_the_shape_library() {
    let tets = Tetriminos::init();
    let expected: [(TetriminoType, Vec<(i32, i32)>); 7] = [
        (TetriminoType::O, vec![(3, 19), (3, 20), (4, 19), (4, 20)]),
        (TetriminoType::I, vec![(3, 20), (4, 20), (5, 20), (6, 20)]),
        (TetriminoType::T, vec![(3, 20), (4, 19), (4, 20), (5, 20)]),
        (TetriminoType::S, vec![(3, 19), (4, 19), (4, 20), (5, 20)]),
        (TetriminoType::Z, vec![(3, 20), (4, 19), (4, 20), (5, 19)]),
        (TetriminoType::J, vec![(3, 20), (4, 20), (5, 19), (5, 20)]),
        (TetriminoType::L, vec![(3, 19), (3, 20), (4, 20), (5, 20)]),
    ];
    for (t, cells) in expected {
        let piece = Tetrimino::new(t, &tets);
        assert_eq!(positions(&piece.blocks()), cells, "spawn pattern of {:?}", t);
    }
}

#[test]
fn has_landed_matches_its_definition_on_a_small_field() {
    let tets = Tetriminos::init();
    let mut grid = Grid::new(6, 6);
    grid.blocks.push(block(2, 3));
    grid.blocks.push(block(4, 2));
    for x0 in -2..8 {
        for y0 in 1..9 {
            let mut piece = Tetrimino::new(TetriminoType::O, &tets);
            piece.x = x0;
            piece.y = y0;
            let blocks = piece.blocks();
            let locked = grid.blocks();
            let expected = blocks.iter().any(|b| {
                b.y == 1 || locked.iter().any(|l| l.x == b.x && l.y == b.y - 1)
            });
            assert_eq!(grid.has_landed(&piece), expected, "at origin ({}, {})", x0, y0);
        }
    }
}

#[test]
fn types_lists_the_seven_shapes() {
    let tets = Tetriminos::init();
    assert_eq!(tets.types(), ALL_TYPES.to_vec());
}
