//! A falling-block puzzle engine: a bounded playfield, a stream of piece
//! shapes drawn from a randomized seven-piece bag, and the rules by which a
//! piece moves, rotates, locks, and clears rows.
//!
//! The engine is driven by two calls: `Game::on_move` for player input and
//! `Game::on_update` for one discrete simulation tick.  Rendering and input
//! devices live outside the engine and only read its state.

pub mod laws;
pub mod models;

use vstd::prelude::*;

use crate::models::{
    cleared_from, clear_from, direction_delta, draw_refill_post, is_spawn_piece, lemma_spawn_piece_wf,
    piece_equiv, placed_blocks, translate_blocks, Block, Direction, Grid, Movement, Rotation,
    Tetrimino, Tetriminos,
};

verus! {

/// The coarse phase of the simulation: a piece is falling, is resting and
/// about to lock, or full rows are flashing before they clear.
#[derive(Clone, Copy, Debug, PartialEq, Eq, Structural)]
pub enum States {
    Falling,
    Clearing,
    Locking,
}

/// The lock countdown granted whenever a piece comes to rest.
pub const LOCK_TICKS: u8 = 10;

/// The clear countdown granted after every completed clear; the window only
/// delays the clear so the presentation layer can flash the full rows.
pub const CLEAR_TICKS: u8 = 93;

/// The points a clear of `num_rows` rows earns at `level`, before the score
/// saturates: 40 / 100 / 300 / 1200 base points, scaled by `level + 1`.
/// Other row counts (zero, or the unreachable five and more) earn nothing.
pub open spec fn points_spec(num_rows: int, level: u8) -> int {
    (if num_rows == 1 {
        40int
    } else if num_rows == 2 {
        100int
    } else if num_rows == 3 {
        300int
    } else if num_rows == 4 {
        1200int
    } else {
        0int
    }) * (level + 1)
}

/// Clamp `v` into `u32`.
pub open spec fn saturate_u32(v: int) -> int {
    if v > u32::MAX {
        u32::MAX as int
    } else {
        v
    }
}

/// The score after a clear of `num_rows` rows at `level`.
pub open spec fn score_after(score: u32, num_rows: int, level: u8) -> int {
    saturate_u32(score + points_spec(num_rows, level))
}

/// The level implied by the line total: one level per ten lines, capped at
/// 20, and never below the level already reached.
pub open spec fn new_level_spec(level: u8, lines: u32) -> int {
    let earned = if lines / 10 < 20 {
        (lines / 10) as int
    } else {
        20
    };
    if level >= earned {
        level as int
    } else {
        earned
    }
}

/// The blocks the piece would occupy after `m`, at its current place on the
/// board.
pub open spec fn peek_blocks_spec(p: Tetrimino, m: Movement) -> Seq<Block> {
    match m {
        Movement::Rotate => placed_blocks(
            p.rotation.frames()[p.rotation.next_idx_spec()],
            p.x as int,
            p.y as int,
            p.shape,
        ),
        Movement::Shift(d) => translate_blocks(
            p.blocks_spec(),
            direction_delta(d).0,
            direction_delta(d).1,
        ),
    }
}

/// The piece after `m` is applied unconditionally.
pub open spec fn moved_piece(p: Tetrimino, m: Movement) -> Tetrimino {
    match m {
        Movement::Rotate => Tetrimino {
            rotation: Rotation {
                internal: p.rotation.internal,
                curr_idx: p.rotation.next_idx_spec() as usize,
            },
            ..p
        },
        Movement::Shift(d) => Tetrimino {
            x: (p.x + direction_delta(d).0) as i32,
            y: (p.y + direction_delta(d).1) as i32,
            ..p
        },
    }
}

/// Whether `m` is legal for the game's active piece on its grid.
pub open spec fn movement_applies(g: Game, m: Movement) -> bool {
    g.grid.legal_spec(peek_blocks_spec(g.active, m))
}

/// The game after one movement request: requests are ignored while rows
/// clear and when the moved piece would be illegal; otherwise the piece
/// moves, and the phase follows from whether it then rests on something.
/// Escaping a resting position restores the full lock countdown.
pub open spec fn move_result(pre: Game, m: Movement) -> Game {
    if pre.state == States::Clearing {
        pre
    } else if !movement_applies(pre, m) {
        pre
    } else {
        let p = moved_piece(pre.active, m);
        let landed = pre.grid.landed_spec(p.blocks_spec());
        if landed {
            Game { active: p, state: States::Locking, ..pre }
        } else {
            Game {
                active: p,
                state: States::Falling,
                lock_ticks: if pre.state == States::Locking {
                    LOCK_TICKS
                } else {
                    pre.lock_ticks
                },
                ..pre
            }
        }
    }
}

/// The fall countdown granted at each level: the difficulty curve, from 53
/// ticks per row at level 0 down to 3 at level 20.  Levels above 20 are
/// unreachable.
pub open spec fn fall_table_spec(level: u8) -> u8 {
    if level == 0 {
        53
    } else if level == 1 {
        49
    } else if level == 2 {
        45
    } else if level == 3 {
        41
    } else if level == 4 {
        37
    } else if level == 5 {
        33
    } else if level == 6 {
        28
    } else if level == 7 {
        22
    } else if level == 8 {
        17
    } else if level == 9 {
        11
    } else if level == 10 {
        10
    } else if level == 11 {
        9
    } else if level == 12 {
        8
    } else if level == 13 {
        7
    } else if level == 14 {
        6
    } else if level == 15 {
        6
    } else if level == 16 {
        5
    } else if level == 17 {
        5
    } else if level == 18 {
        4
    } else if level == 19 {
        4
    } else {
        3
    }
}

/// The game after one simulation tick, as a relation between the state
/// before and after.  The drawn pieces are only related, not computed: a
/// draw from an empty queue deals a freshly shuffled bag.
pub open spec fn tick_post(pre: Game, post: Game) -> bool {
    match pre.state {
        States::Locking => {
            if pre.lock_ticks > 0 {
                post == Game { lock_ticks: (pre.lock_ticks - 1) as u8, ..pre }
            } else {
                &&& post.grid.blocks@ == pre.grid.blocks@ + pre.active.blocks_spec()
                &&& post.grid.width == pre.grid.width
                &&& post.grid.height == pre.grid.height
                &&& post.state == States::Clearing
                &&& post.lock_ticks == LOCK_TICKS
                &&& post.fall_ticks == fall_table_spec(pre.level)
                &&& post.score == pre.score
                &&& post.level == pre.level
                &&& post.lines == pre.lines
                &&& post.clear_ticks == pre.clear_ticks
                &&& is_spawn_piece(post.active)
                &&& draw_refill_post(pre.tetriminos.queued@, post.tetriminos.queued@, post.active)
                &&& post.tetriminos.queued@.len() > 0
                &&& piece_equiv(post.peeked, post.tetriminos.queued@[0])
                &&& post.tetriminos.states == pre.tetriminos.states
            }
        },
        States::Clearing => {
            if !pre.grid.has_full_row() {
                post == Game { state: States::Falling, ..pre }
            } else if pre.clear_ticks > 0 {
                post == Game { clear_ticks: (pre.clear_ticks - 1) as u8, ..pre }
            } else {
                let w = pre.grid.width as int;
                let h = pre.grid.height as int;
                let cleared = cleared_from(pre.grid.blocks@, w, h) as int;
                &&& post.grid.blocks@ == clear_from(pre.grid.blocks@, w, h)
                &&& post.grid.width == pre.grid.width
                &&& post.grid.height == pre.grid.height
                &&& post.score == score_after(pre.score, cleared, pre.level)
                &&& post.lines == saturate_u32(pre.lines + cleared)
                &&& post.state == States::Falling
                &&& post.level == new_level_spec(pre.level, post.lines)
                &&& post.clear_ticks == CLEAR_TICKS
                &&& post.active == pre.active
                &&& post.peeked == pre.peeked
                &&& post.tetriminos == pre.tetriminos
                &&& post.lock_ticks == pre.lock_ticks
                &&& post.fall_ticks == pre.fall_ticks
            }
        },
        States::Falling => {
            if pre.fall_ticks > 0 {
                post == Game { fall_ticks: (pre.fall_ticks - 1) as u8, ..pre }
            } else {
                post == Game {
                    fall_ticks: fall_table_spec(pre.level),
                    ..move_result(pre, Movement::Shift(Direction::Down))
                }
            }
        },
    }
}

/// The simulation engine: the playfield, the piece sequencer, the active and
/// preview pieces, and the phase machine with its countdowns, score, level,
/// and line total.
pub struct Game {
    pub grid: Grid,
    pub tetriminos: Tetriminos,
    pub active: Tetrimino,
    pub peeked: Tetrimino,
    pub state: States,
    pub score: u32,
    pub level: u8,
    pub fall_ticks: u8,
    pub lock_ticks: u8,
    pub clear_ticks: u8,
    pub lines: u32,
}

impl Game {
    /// A sensible field, a valid sequencer, well-formed pieces, and a level
    /// within the table.
    pub open spec fn wf(self) -> bool {
        &&& self.grid.dims_ok()
        &&& 2 <= self.grid.height
        &&& 2 <= self.grid.width
        &&& self.tetriminos.wf()
        &&& self.active.wf()
        &&& self.peeked.wf()
        &&& self.level <= 20
    }

    /// A new session on the standard 20 by 10 field: empty grid, the first
    /// piece drawn from a fresh bag, the next one on preview, and all
    /// countdowns primed.
    pub fn new(start_level: u8) -> (g: Game)
        requires
            start_level <= 20,
        ensures
            g.wf(),
            g.grid.height == 20,
            g.grid.width == 10,
            g.grid.blocks@ == Seq::<Block>::empty(),
            g.state == States::Falling,
            g.score == 0,
            g.lines == 0,
            g.level == start_level,
            g.fall_ticks == 53,
            g.lock_ticks == 10,
            g.clear_ticks == 48,
            is_spawn_piece(g.active),
            draw_refill_post(Seq::<Tetrimino>::empty(), g.tetriminos.queued@, g.active),
            g.tetriminos.queued@.len() > 0,
            piece_equiv(g.peeked, g.tetriminos.queued@[0]),
    {
        let mut tetriminos = Tetriminos::init();
        let active = match tetriminos.next() {
            Some(p) => p,
            None => unreached(),
        };
        let peeked = tetriminos.peek();
        proof {
            lemma_spawn_piece_wf(active);
            lemma_spawn_piece_wf(peeked);
        }
        Game {
            grid: Grid::new(20, 10),
            tetriminos,
            active,
            peeked,
            level: start_level,
            fall_ticks: 53,
            lock_ticks: 10,
            // The first clear window is primed shorter than the CLEAR_TICKS
            // every later clear gets.
            clear_ticks: 48,
            score: 0,
            lines: 0,
            state: States::Falling,
        }
    }

    /// Apply one movement request from the player.
    pub fn on_move(&mut self, movement: Movement)
        requires
            old(self).wf(),
        ensures
            final(self).wf(),
            *final(self) == move_result(*old(self), movement),
    {
        match self.state {
            States::Falling | States::Locking => {
                let next = self.active.peek(&movement);
                if !self.grid.is_legal(&next) {
                    return;
                }
                match movement {
                    Movement::Rotate => {
                        self.active.rotate(&self.grid);
                    },
                    Movement::Shift(direction) => {
                        proof {
                            lemma_legal_shift_fits(*self, direction);
                        }
                        self.active.shift(direction, &self.grid);
                    },
                };
                proof {
                    assert(self.active == moved_piece(old(self).active, movement));
                }
                let has_landed = self.grid.has_landed(&self.active);
                if has_landed {
                    self.state = States::Locking;
                } else {
                    if self.state == States::Locking {
                        self.reset_lock_ticks();
                    }
                    self.state = States::Falling;
                }
            },
            _ => {},
        }
    }

    /// Advance the simulation by one tick.
    pub fn on_update(&mut self)
        requires
            old(self).wf(),
        ensures
            final(self).wf(),
            tick_post(*old(self), *final(self)),
            final(self).level >= old(self).level,
    {
        match self.state {
            States::Locking => {
                let ticks = self.lock_ticks;
                if ticks > 0 {
                    self.lock_ticks = self.lock_ticks - 1;
                } else {
                    let mut other = match self.tetriminos.next() {
                        Some(p) => p,
                        None => unreached(),
                    };
                    let peeked = self.tetriminos.peek();
                    proof {
                        lemma_spawn_piece_wf(other);
                    }
                    std::mem::swap(&mut other, &mut self.active);
                    self.grid.lock(other);
                    proof {
                        assert(piece_equiv(peeked, self.tetriminos.queued@[0]));
                        assert(is_spawn_piece(peeked));
                        lemma_spawn_piece_wf(peeked);
                    }
                    self.peeked = peeked;
                    self.state = States::Clearing;
                    self.reset_lock_ticks();
                    self.reset_fall_ticks();
                }
            },
            States::Clearing => {
                let ticks = self.clear_ticks;
                let num_full_rows = self.grid.get_full_rows().len();
                if num_full_rows == 0 {
                    self.state = States::Falling;
                } else if ticks > 0 {
                    self.clear_ticks = self.clear_ticks - 1;
                } else {
                    let cleared = self.grid.clear_full_rows();
                    self.update_score(cleared);
                    self.lines = if self.lines <= u32::MAX - cleared {
                        self.lines + cleared
                    } else {
                        u32::MAX
                    };
                    self.state = States::Falling;
                    self.update_level();
                    self.reset_clear_ticks();
                }
            },
            States::Falling => {
                let ticks = self.fall_ticks;
                if ticks > 0 {
                    self.fall_ticks = self.fall_ticks - 1;
                } else {
                    self.on_move(Movement::Shift(Direction::Down));
                    self.reset_fall_ticks();
                }
            },
        }
    }

    /// Raise the level to match the line total; the level never falls.
    pub fn update_level(&mut self)
        ensures
            final(self).level == new_level_spec(old(self).level, old(self).lines),
            final(self).level >= old(self).level,
            *final(self) == (Game { level: final(self).level, ..*old(self) }),
    {
        let earned_u32 = self.lines / 10;
        let earned: u8 = if earned_u32 < 20 {
            earned_u32 as u8
        } else {
            20
        };
        if earned > self.level {
            self.level = earned;
        }
    }

    /// Award the points a clear of `num_rows_cleared` rows earns at the
    /// current level.  The score sticks at `u32::MAX` rather than wrap.
    pub fn update_score(&mut self, num_rows_cleared: u32)
        requires
            old(self).level <= 20,
        ensures
            final(self).score == score_after(old(self).score, num_rows_cleared as int, old(self).level),
            *final(self) == (Game { score: final(self).score, ..*old(self) }),
    {
        let l = (self.level as u32) + 1;
        match num_rows_cleared {
            1 => {
                self.score = Game::add_points(self.score, 40u32 * l);
            },
            2 => {
                self.score = Game::add_points(self.score, 100u32 * l);
            },
            3 => {
                self.score = Game::add_points(self.score, 300u32 * l);
            },
            4 => {
                self.score = Game::add_points(self.score, 1200u32 * l);
            },
            _ => {},
        }
    }

    /// `score + gained`, stuck at `u32::MAX` rather than wrapping.
    fn add_points(score: u32, gained: u32) -> (r: u32)
        ensures
            r == saturate_u32(score + gained),
    {
        if score <= u32::MAX - gained {
            score + gained
        } else {
            u32::MAX
        }
    }

    /// Prime the fall countdown from the level's entry in the difficulty
    /// table.
    pub fn reset_fall_ticks(&mut self)
        requires
            old(self).level <= 20,
        ensures
            final(self).fall_ticks == fall_table_spec(old(self).level),
            *final(self) == (Game { fall_ticks: final(self).fall_ticks, ..*old(self) }),
    {
        self.fall_ticks = match self.level {
            0 => 53,
            1 => 49,
            2 => 45,
            3 => 41,
            4 => 37,
            5 => 33,
            6 => 28,
            7 => 22,
            8 => 17,
            9 => 11,
            10 => 10,
            11 => 9,
            12 => 8,
            13 => 7,
            14 => 6,
            15 => 6,
            16 => 5,
            17 => 5,
            18 => 4,
            19 => 4,
            20 => 3,
            _ => unreached(),
        }
    }

    /// Prime the lock countdown.
    pub fn reset_lock_ticks(&mut self)
        ensures
            final(self).lock_ticks == LOCK_TICKS,
            *final(self) == (Game { lock_ticks: LOCK_TICKS, ..*old(self) }),
    {
        self.lock_ticks = LOCK_TICKS;
    }

    /// Prime the clear countdown.
    pub fn reset_clear_ticks(&mut self)
        ensures
            final(self).clear_ticks == CLEAR_TICKS,
            *final(self) == (Game { clear_ticks: CLEAR_TICKS, ..*old(self) }),
    {
        self.clear_ticks = CLEAR_TICKS;
    }

    /// The cells of the falling piece.
    pub fn active_blocks(&self) -> (r: Vec<Block>)
        requires
            self.wf(),
        ensures
            r@ == self.active.blocks_spec(),
    {
        self.active.blocks()
    }

    /// The cells of the previewed next piece.
    pub fn preview_blocks(&self) -> (r: Vec<Block>)
        requires
            self.wf(),
        ensures
            r@ == self.peeked.blocks_spec(),
    {
        self.peeked.blocks()
    }

    /// The cells locked into the playfield.
    pub fn locked_blocks(&self) -> (r: Vec<Block>)
        ensures
            r@ == self.grid.blocks@,
    {
        self.grid.blocks()
    }

    /// The current score.
    pub fn score(&self) -> (r: u32)
        ensures
            r == self.score,
    {
        self.score
    }

    /// The current level.
    pub fn level(&self) -> (r: u8)
        ensures
            r == self.level,
    {
        self.level
    }

    /// The total of cleared lines.
    pub fn lines(&self) -> (r: u32)
        ensures
            r == self.lines,
    {
        self.lines
    }

    /// The current phase.
    pub fn phase(&self) -> (r: States)
        ensures
            r == self.state,
    {
        self.state
    }
}

/// A legal one-cell shift always passes the piece's own wall and floor
/// checks: on a field at least two rows tall, a shift whose result is legal
/// is one the piece will perform.
proof fn lemma_legal_shift_fits(g: Game, direction: Direction)
    requires
        g.wf(),
        movement_applies(g, Movement::Shift(direction)),
    ensures
        match direction {
            Direction::Down => g.grid.height > 1 && crate::models::all_y_above(
                g.active.blocks_spec(),
                1,
            ),
            Direction::Left => crate::models::all_x_above(g.active.blocks_spec(), 0),
            Direction::Right => g.grid.width > 1 && crate::models::all_x_below(
                g.active.blocks_spec(),
                g.grid.width - 1,
            ),
        },
{
    let bs = g.active.blocks_spec();
    let delta = direction_delta(direction);
    let translated = translate_blocks(bs, delta.0, delta.1);
    crate::models::lemma_frame_blocks_bounds(
        g.active.curr_frame(),
        g.active.curr_frame().len() as int,
        g.active.x as int,
        g.active.y as int,
        g.active.shape,
    );
    assert(forall|i: int|
        0 <= i < bs.len() ==> translated[i] == crate::models::translate_block(
            #[trigger] bs[i],
            delta.0,
            delta.1,
        ));
    match direction {
        Direction::Down => {
            assert forall|i: int| 0 <= i < bs.len() implies (#[trigger] bs[i]).y > 1 by {
                assert(1 <= translated[i].y);
            }
        },
        Direction::Left => {
            assert forall|i: int| 0 <= i < bs.len() implies (#[trigger] bs[i]).x > 0 by {
                assert(0 <= translated[i].x);
            }
        },
        Direction::Right => {
            assert forall|i: int| 0 <= i < bs.len() implies (#[trigger] bs[i]).x < g.grid.width - 1 by {
                assert(translated[i].x < g.grid.width);
            }
        },
    }
}

} // verus!
