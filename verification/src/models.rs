//! The geometric core of the engine: piece shapes and their rotation frames,
//! the falling piece, the randomized bag of upcoming pieces, and the playfield
//! grid with its collision, landing, and row-clearing rules.

use std::collections::VecDeque;

use rand::seq::SliceRandom;

use vstd::prelude::*;

verus! {

broadcast use vstd::std_specs::vecdeque::group_vec_dequeue_axioms;

/// A single move request: rotate the piece in place, or shift it one cell.
#[derive(Clone, Copy, Debug, Eq, PartialEq, Structural)]
pub enum Movement {
    Rotate,
    Shift(Direction),
}

/// The three directions a piece can be shifted.  `Down` decreases `y` by one;
/// `Left` and `Right` change `x` by minus or plus one.
#[derive(Clone, Copy, Debug, Eq, PartialEq, Structural)]
pub enum Direction {
    Left,
    Right,
    Down,
}

/// The seven piece shapes.
#[derive(Clone, Copy, Debug, Eq, PartialEq, Hash, Structural)]
pub enum TetriminoType {
    O,
    I,
    T,
    S,
    Z,
    J,
    L,
}

/// Positions are kept well inside `i32` so that one-cell shifts and
/// frame-cell offsets can never overflow.
pub const POS_BOUND: i32 = 0x4000_0000;

/// Grid dimensions are kept well below `POS_BOUND` for the same reason.
pub const DIM_BOUND: i32 = 0x1000_0000;

/// One occupied cell of the playfield or of a piece, in grid coordinates.
/// `kind` records which shape the cell came from; the rendering shell maps it
/// to a color.  Collision logic compares positions only, never `kind`.
#[derive(Clone, Copy, Debug)]
pub struct Block {
    pub x: i32,
    pub y: i32,
    pub kind: TetriminoType,
}

/// Two blocks are the same cell when their coordinates agree; `kind` is
/// payload, not identity.
impl PartialEq for Block {
    fn eq(&self, other: &Block) -> (r: bool)
        ensures
            r == (self.x == other.x && self.y == other.y),
    {
        self.x == other.x && self.y == other.y
    }
}

impl vstd::std_specs::cmp::PartialEqSpecImpl for Block {
    open spec fn obeys_eq_spec() -> bool {
        true
    }

    open spec fn eq_spec(&self, other: &Block) -> bool {
        self.x == other.x && self.y == other.y
    }
}

/// Whether some block of `s` sits at cell `(x, y)`.
pub open spec fn occupied(s: Seq<Block>, x: int, y: int) -> bool {
    exists|i: int| 0 <= i < s.len() && (#[trigger] s[i]).x == x && s[i].y == y
}

/// A rotation frame is a small boolean matrix; row 0 is the top of the shape.
pub open spec fn frame_wf(f: Seq<Seq<bool>>) -> bool {
    &&& f.len() <= 4
    &&& forall|r: int| 0 <= r < f.len() ==> (#[trigger] f[r]).len() <= 4
    &&& exists|r: int, c: int| 0 <= r < f.len() && 0 <= c < f[r].len() && #[trigger] f[r][c]
}

/// The blocks contributed by the first `n` cells of one frame row placed at
/// height `y`, leftmost cell at `x0`.
pub open spec fn row_blocks(row: Seq<bool>, n: int, x0: int, y: int, kind: TetriminoType) -> Seq<Block>
    decreases n,
{
    if n <= 0 {
        Seq::empty()
    } else {
        row_blocks(row, n - 1, x0, y, kind) + if row[n - 1] {
            seq![(Block { x: (x0 + n - 1) as i32, y: y as i32, kind })]
        } else {
            Seq::empty()
        }
    }
}

/// The blocks contributed by the first `m` rows of a frame whose top-left
/// cell maps to `(x0, y0)`; row `r` sits at height `y0 - r`.
pub open spec fn frame_blocks(f: Seq<Seq<bool>>, m: int, x0: int, y0: int, kind: TetriminoType) -> Seq<Block>
    decreases m,
{
    if m <= 0 {
        Seq::empty()
    } else {
        frame_blocks(f, m - 1, x0, y0, kind) + row_blocks(
            f[m - 1],
            f[m - 1].len() as int,
            x0,
            y0 - (m - 1),
            kind,
        )
    }
}

/// All blocks of a frame placed with its top-left cell at `(x0, y0)`.
pub open spec fn placed_blocks(f: Seq<Seq<bool>>, x0: int, y0: int, kind: TetriminoType) -> Seq<Block> {
    frame_blocks(f, f.len() as int, x0, y0, kind)
}

/// Copy a list of rotation frames; the copy shows the same frames.
fn clone_frames(v: &Vec<Vec<Vec<bool>>>) -> (r: Vec<Vec<Vec<bool>>>)
    ensures
        r.deep_view() == v.deep_view(),
{
    let r = v.clone();
    proof {
        assert forall|i: int| 0 <= i < v@.len() implies r@[i].deep_view() == v@[i].deep_view() by {
            assert(cloned::<Vec<Vec<bool>>>(v@[i], r@[i]));
            if v@[i] != r@[i] {
                assert forall|j: int|
                    0 <= j < v@[i]@.len() implies r@[i]@[j].deep_view() == v@[i]@[j].deep_view() by {
                    assert(cloned::<Vec<bool>>(v@[i]@[j], r@[i]@[j]));
                    if v@[i]@[j] != r@[i]@[j] {
                        assert(v@[i]@[j]@ =~= r@[i]@[j]@);
                    }
                    assert(r@[i]@[j].deep_view() =~= v@[i]@[j].deep_view());
                }
                assert(r@[i].deep_view() =~~= v@[i].deep_view());
            }
        }
        assert(r.deep_view() =~~= v.deep_view());
    }
    r
}

/// The ordered, cyclic list of rotation frames of one shape, together with
/// the index of the frame currently shown.
#[derive(Debug)]
pub struct Rotation {
    pub internal: Vec<Vec<Vec<bool>>>,
    pub curr_idx: usize,
}

impl Clone for Rotation {
    /// The copy shows the same frames at the same index.
    fn clone(&self) -> (r: Self)
        ensures
            r.frames() == self.frames(),
            r.curr_idx == self.curr_idx,
    {
        Rotation { internal: clone_frames(&self.internal), curr_idx: self.curr_idx }
    }
}

impl Rotation {
    /// The rotation frames as a mathematical value.
    pub open spec fn frames(self) -> Seq<Seq<Seq<bool>>> {
        self.internal.deep_view()
    }

    /// At least one frame, a valid current index, and every frame a small
    /// non-empty matrix.
    pub open spec fn wf(self) -> bool {
        &&& 1 <= self.frames().len()
        &&& self.curr_idx < self.frames().len()
        &&& forall|i: int| 0 <= i < self.frames().len() ==> frame_wf(#[trigger] self.frames()[i])
    }

    pub fn new(states: Vec<Vec<Vec<bool>>>) -> (r: Rotation)
        requires
            1 <= states.deep_view().len(),
            forall|i: int|
                0 <= i < states.deep_view().len() ==> frame_wf(#[trigger] states.deep_view()[i]),
        ensures
            r.wf(),
            r.frames() == states.deep_view(),
            r.curr_idx == 0,
    {
        Rotation { internal: states, curr_idx: 0 }
    }

    /// The index of the frame after the current one, wrapping to 0.
    pub open spec fn next_idx_spec(self) -> int {
        if self.curr_idx + 1 >= self.frames().len() {
            0
        } else {
            self.curr_idx + 1
        }
    }

    pub fn next_idx(&self) -> (idx: usize)
        requires
            self.wf(),
        ensures
            idx == self.next_idx_spec(),
            idx < self.frames().len(),
    {
        proof {
            assert(self.frames().len() == self.internal@.len());
        }
        let n = self.internal.len();
        let mut idx = self.curr_idx + 1;
        if idx >= n {
            idx = 0;
        }
        idx
    }

    /// Turn one frame into the list of absolute blocks it occupies.
    fn as_blocks(state: &Vec<Vec<bool>>, x_offset: i32, y_offset: i32, kind: TetriminoType) -> (blocks: Vec<Block>)
        requires
            state.deep_view().len() <= 4,
            forall|r: int| 0 <= r < state.deep_view().len() ==> (#[trigger] state.deep_view()[r]).len() <= 4,
            -POS_BOUND <= x_offset <= POS_BOUND,
            -POS_BOUND <= y_offset <= POS_BOUND,
        ensures
            blocks@ == placed_blocks(state.deep_view(), x_offset as int, y_offset as int, kind),
    {
        let ghost f = state.deep_view();
        let mut blocks: Vec<Block> = Vec::new();
        let mut y: usize = 0;
        while y < state.len()
            invariant
                y <= state.len(),
                state.deep_view().len() == state@.len(),
                f == state.deep_view(),
                f.len() <= 4,
                forall|r: int| 0 <= r < f.len() ==> (#[trigger] f[r]).len() <= 4,
                -POS_BOUND <= x_offset <= POS_BOUND,
                -POS_BOUND <= y_offset <= POS_BOUND,
                blocks@ == frame_blocks(f, y as int, x_offset as int, y_offset as int, kind),
            decreases state@.len() - y,
        {
            let row = &state[y];
            let ghost rowv = f[y as int];
            proof {
                assert(rowv == row.deep_view());
                assert(rowv.len() == row@.len());
            }
            let mut x: usize = 0;
            while x < row.len()
                invariant
                    x <= row.len(),
                    y < f.len(),
                    f.len() <= 4,
                    rowv == row.deep_view(),
                    rowv.len() == row@.len(),
                    rowv.len() <= 4,
                    -POS_BOUND <= x_offset <= POS_BOUND,
                    -POS_BOUND <= y_offset <= POS_BOUND,
                    blocks@ == frame_blocks(f, y as int, x_offset as int, y_offset as int, kind)
                        + row_blocks(rowv, x as int, x_offset as int, y_offset - y, kind),
                decreases row@.len() - x,
            {
                if row[x] {
                    blocks.push(
                        Block {
                            x: x_offset + x as i32,
                            y: y_offset - y as i32,
                            kind,
                        },
                    );
                }
                x = x + 1;
            }
            proof {
                assert(f[y as int] == rowv);
            }
            y = y + 1;
        }
        blocks
    }

    /// The blocks of the current frame at the given offsets.
    pub fn curr_as_blocks(&self, x_offset: i32, y_offset: i32, kind: TetriminoType) -> (blocks: Vec<Block>)
        requires
            self.wf(),
            -POS_BOUND <= x_offset <= POS_BOUND,
            -POS_BOUND <= y_offset <= POS_BOUND,
        ensures
            blocks@ == placed_blocks(
                self.frames()[self.curr_idx as int],
                x_offset as int,
                y_offset as int,
                kind,
            ),
    {
        let idx = self.curr_idx;
        proof {
            assert(self.frames()[idx as int] == self.internal@[idx as int].deep_view());
        }
        Rotation::as_blocks(&self.internal[idx], x_offset, y_offset, kind)
    }

    /// The blocks of the frame after the current one, at the given offsets.
    pub fn peek_as_blocks(&self, x_offset: i32, y_offset: i32, kind: TetriminoType) -> (blocks: Vec<Block>)
        requires
            self.wf(),
            -POS_BOUND <= x_offset <= POS_BOUND,
            -POS_BOUND <= y_offset <= POS_BOUND,
        ensures
            blocks@ == placed_blocks(
                self.frames()[self.next_idx_spec()],
                x_offset as int,
                y_offset as int,
                kind,
            ),
    {
        let next_idx = self.next_idx();
        proof {
            assert(self.frames()[next_idx as int] == self.internal@[next_idx as int].deep_view());
        }
        Rotation::as_blocks(&self.internal[next_idx], x_offset, y_offset, kind)
    }

    /// Advance to the next frame.
    pub fn change(&mut self)
        requires
            old(self).wf(),
        ensures
            final(self).wf(),
            final(self).internal == old(self).internal,
            final(self).curr_idx == old(self).next_idx_spec(),
    {
        self.curr_idx = self.next_idx();
    }
}

/// Every block of `s` has `y > v`.
pub open spec fn all_y_above(s: Seq<Block>, v: int) -> bool {
    forall|i: int| 0 <= i < s.len() ==> (#[trigger] s[i]).y > v
}

/// Every block of `s` has `x > v`.
pub open spec fn all_x_above(s: Seq<Block>, v: int) -> bool {
    forall|i: int| 0 <= i < s.len() ==> (#[trigger] s[i]).x > v
}

/// Every block of `s` has `x < v`.
pub open spec fn all_x_below(s: Seq<Block>, v: int) -> bool {
    forall|i: int| 0 <= i < s.len() ==> (#[trigger] s[i]).x < v
}

/// `b` moved by `(dx, dy)`.
pub open spec fn translate_block(b: Block, dx: int, dy: int) -> Block {
    Block { x: (b.x + dx) as i32, y: (b.y + dy) as i32, kind: b.kind }
}

/// All of `s` moved by `(dx, dy)`.
pub open spec fn translate_blocks(s: Seq<Block>, dx: int, dy: int) -> Seq<Block> {
    s.map_values(|b: Block| translate_block(b, dx, dy))
}

/// The `(dx, dy)` a one-cell shift in `d` performs.
pub open spec fn direction_delta(d: Direction) -> (int, int) {
    match d {
        Direction::Left => (-1int, 0int),
        Direction::Right => (1int, 0int),
        Direction::Down => (0int, -1int),
    }
}

/// Blocks of one frame row stay within the row: `x` in `[x0, x0 + n)`, `y`
/// fixed.
pub proof fn lemma_row_blocks_bounds(row: Seq<bool>, n: int, x0: int, y: int, kind: TetriminoType)
    requires
        0 <= n <= 4,
        -POS_BOUND - 16 <= x0 <= POS_BOUND + 16,
        -POS_BOUND - 16 <= y <= POS_BOUND + 16,
    ensures
        forall|i: int| 0 <= i < row_blocks(row, n, x0, y, kind).len() ==> {
            let b = #[trigger] row_blocks(row, n, x0, y, kind)[i];
            x0 <= b.x < x0 + n && b.y == y && b.kind == kind
        },
    decreases n,
{
    if n > 0 {
        lemma_row_blocks_bounds(row, n - 1, x0, y, kind);
    }
}

/// Blocks of a frame stay within the frame: `x` in `[x0, x0 + 4)`, `y` in
/// `(y0 - m, y0]` (rows sit below the origin).
pub proof fn lemma_frame_blocks_bounds(
    f: Seq<Seq<bool>>,
    m: int,
    x0: int,
    y0: int,
    kind: TetriminoType,
)
    requires
        0 <= m <= f.len(),
        f.len() <= 4,
        forall|r: int| 0 <= r < f.len() ==> (#[trigger] f[r]).len() <= 4,
        -POS_BOUND - 8 <= x0 <= POS_BOUND + 8,
        -POS_BOUND - 8 <= y0 <= POS_BOUND + 8,
    ensures
        forall|i: int| 0 <= i < frame_blocks(f, m, x0, y0, kind).len() ==> {
            let b = #[trigger] frame_blocks(f, m, x0, y0, kind)[i];
            x0 <= b.x < x0 + 4 && y0 - m < b.y <= y0 && b.kind == kind
        },
    decreases m,
{
    if m > 0 {
        lemma_frame_blocks_bounds(f, m - 1, x0, y0, kind);
        lemma_row_blocks_bounds(f[m - 1], f[m - 1].len() as int, x0, y0 - (m - 1), kind);
    }
}

/// A row with a set cell among its first `n` yields at least one block.
proof fn lemma_row_blocks_nonempty(row: Seq<bool>, n: int, x0: int, y: int, kind: TetriminoType, c: int)
    requires
        0 <= c < n,
        row[c],
    ensures
        row_blocks(row, n, x0, y, kind).len() > 0,
    decreases n,
{
    if c < n - 1 {
        lemma_row_blocks_nonempty(row, n - 1, x0, y, kind, c);
    }
}

/// A well-formed frame yields at least one block wherever it is placed.
pub proof fn lemma_frame_blocks_nonempty(f: Seq<Seq<bool>>, x0: int, y0: int, kind: TetriminoType)
    requires
        frame_wf(f),
    ensures
        placed_blocks(f, x0, y0, kind).len() > 0,
{
    let (r, c) = choose|r: int, c: int| 0 <= r < f.len() && 0 <= c < f[r].len() && #[trigger] f[r][c];
    lemma_row_blocks_nonempty(f[r], f[r].len() as int, x0, y0 - r, kind, c);
    lemma_frame_blocks_prefix(f, r + 1, f.len() as int, x0, y0, kind);
    assert(frame_blocks(f, r + 1, x0, y0, kind).len() > 0);
}

/// `frame_blocks` over a longer prefix only grows.
proof fn lemma_frame_blocks_prefix(
    f: Seq<Seq<bool>>,
    m1: int,
    m2: int,
    x0: int,
    y0: int,
    kind: TetriminoType,
)
    requires
        0 <= m1 <= m2,
    ensures
        frame_blocks(f, m1, x0, y0, kind).len() <= frame_blocks(f, m2, x0, y0, kind).len(),
    decreases m2 - m1,
{
    if m1 < m2 {
        lemma_frame_blocks_prefix(f, m1, m2 - 1, x0, y0, kind);
    }
}

/// Placing a frame at a shifted origin is the same as shifting each placed
/// block.
pub proof fn lemma_frame_blocks_translate(
    f: Seq<Seq<bool>>,
    m: int,
    x0: int,
    y0: int,
    dx: int,
    dy: int,
    kind: TetriminoType,
)
    requires
        0 <= m <= f.len(),
        f.len() <= 4,
        forall|r: int| 0 <= r < f.len() ==> (#[trigger] f[r]).len() <= 4,
        -POS_BOUND <= x0 <= POS_BOUND,
        -POS_BOUND <= y0 <= POS_BOUND,
        -POS_BOUND - 4 <= x0 + dx <= POS_BOUND + 4,
        -POS_BOUND - 4 <= y0 + dy <= POS_BOUND + 4,
    ensures
        frame_blocks(f, m, x0 + dx, y0 + dy, kind) == translate_blocks(
            frame_blocks(f, m, x0, y0, kind),
            dx,
            dy,
        ),
    decreases m,
{
    let shifted = frame_blocks(f, m, x0 + dx, y0 + dy, kind);
    let moved = translate_blocks(frame_blocks(f, m, x0, y0, kind), dx, dy);
    if m == 0 {
        assert(shifted =~= moved);
    } else {
        lemma_frame_blocks_translate(f, m - 1, x0, y0, dx, dy, kind);
        let row = f[m - 1];
        let n = row.len() as int;
        lemma_row_blocks_translate(row, n, x0, y0 - (m - 1), dx, dy, kind);
        assert(shifted =~= moved) by {
            lemma_row_blocks_bounds(row, n, x0, y0 - (m - 1), kind);
            lemma_frame_blocks_bounds(f, m - 1, x0, y0, kind);
            assert(frame_blocks(f, m, x0, y0, kind) == frame_blocks(f, m - 1, x0, y0, kind)
                + row_blocks(row, n, x0, y0 - (m - 1), kind));
            assert(translate_blocks(frame_blocks(f, m, x0, y0, kind), dx, dy) =~= translate_blocks(
                frame_blocks(f, m - 1, x0, y0, kind),
                dx,
                dy,
            ) + translate_blocks(row_blocks(row, n, x0, y0 - (m - 1), kind), dx, dy));
        }
    }
}

/// Shifting a row's origin is the same as shifting each of its blocks.
proof fn lemma_row_blocks_translate(
    row: Seq<bool>,
    n: int,
    x0: int,
    y: int,
    dx: int,
    dy: int,
    kind: TetriminoType,
)
    requires
        0 <= n <= 4,
        -POS_BOUND - 4 <= x0 <= POS_BOUND + 4,
        -POS_BOUND - 4 <= y <= POS_BOUND + 4,
        -POS_BOUND - 8 <= x0 + dx <= POS_BOUND + 8,
        -POS_BOUND - 8 <= y + dy <= POS_BOUND + 8,
    ensures
        row_blocks(row, n, x0 + dx, y + dy, kind) == translate_blocks(
            row_blocks(row, n, x0, y, kind),
            dx,
            dy,
        ),
    decreases n,
{
    if n <= 0 {
        assert(row_blocks(row, n, x0 + dx, y + dy, kind) =~= translate_blocks(
            row_blocks(row, n, x0, y, kind),
            dx,
            dy,
        ));
    } else {
        lemma_row_blocks_translate(row, n - 1, x0, y, dx, dy, kind);
        assert(row_blocks(row, n, x0 + dx, y + dy, kind) =~= translate_blocks(
            row_blocks(row, n, x0, y, kind),
            dx,
            dy,
        ));
    }
}

/// A falling piece: its shape, the cyclic rotation data, and the grid
/// offset of the frame's top-left cell.  The piece is pure geometry; the
/// `Grid` is the authority on which positions are legal.
#[derive(Debug)]
pub struct Tetrimino {
    pub shape: TetriminoType,
    pub rotation: Rotation,
    pub x: i32,
    pub y: i32,
}

impl Clone for Tetrimino {
    /// The copy shows the same shape, frames, and position.
    fn clone(&self) -> (r: Self)
        ensures
            piece_equiv(r, *self),
    {
        Tetrimino {
            shape: self.shape,
            rotation: self.rotation.clone(),
            x: self.x,
            y: self.y,
        }
    }
}

/// Two pieces that agree on shape, frames, rotation index, and position.
/// They occupy the same cells and behave alike under every movement.
pub open spec fn piece_equiv(a: Tetrimino, b: Tetrimino) -> bool {
    &&& a.shape == b.shape
    &&& a.rotation.frames() == b.rotation.frames()
    &&& a.rotation.curr_idx == b.rotation.curr_idx
    &&& a.x == b.x
    &&& a.y == b.y
}

impl Tetrimino {
    /// Valid rotation data and a position safely inside `i32`.
    pub open spec fn wf(self) -> bool {
        &&& self.rotation.wf()
        &&& -POS_BOUND <= self.x <= POS_BOUND
        &&& -POS_BOUND <= self.y <= POS_BOUND
    }

    /// The frame currently shown.
    pub open spec fn curr_frame(self) -> Seq<Seq<bool>> {
        self.rotation.frames()[self.rotation.curr_idx as int]
    }

    /// The absolute cells the piece occupies.
    pub open spec fn blocks_spec(self) -> Seq<Block> {
        placed_blocks(self.curr_frame(), self.x as int, self.y as int, self.shape)
    }

    /// A fresh piece of the given shape at the spawn origin, showing the
    /// first frame of its shape's rotation data.
    pub fn new(shape: TetriminoType, tetriminos: &Tetriminos) -> (r: Tetrimino)
        requires
            tetriminos.states.wf(),
        ensures
            is_spawn_piece(r),
            r.shape == shape,
            r.wf(),
    {
        proof {
            lemma_shape_frames_wf(shape);
        }
        let rotation = Rotation::new(clone_frames(tetriminos.states().frames(shape)));
        let r = Tetrimino { shape, rotation, x: 3, y: 21 };
        proof {
            lemma_spawn_piece_wf(r);
        }
        r
    }

    /// The absolute cells the piece occupies.
    pub fn blocks(&self) -> (r: Vec<Block>)
        requires
            self.wf(),
        ensures
            r@ == self.blocks_spec(),
    {
        self.rotation.curr_as_blocks(self.x, self.y, self.shape)
    }

    /// The cells the piece would occupy after `movement`, without moving it.
    pub fn peek(&self, movement: &Movement) -> (r: Vec<Block>)
        requires
            self.wf(),
        ensures
            match *movement {
                Movement::Rotate => r@ == placed_blocks(
                    self.rotation.frames()[self.rotation.next_idx_spec()],
                    self.x as int,
                    self.y as int,
                    self.shape,
                ),
                Movement::Shift(dir) => r@ == translate_blocks(
                    self.blocks_spec(),
                    direction_delta(dir).0,
                    direction_delta(dir).1,
                ),
            },
    {
        match movement {
            Movement::Rotate => self.rotation.peek_as_blocks(self.x, self.y, self.shape),
            Movement::Shift(dir) => {
                let blocks = self.blocks();
                let ghost bs = blocks@;
                proof {
                    assert(self.curr_frame() == self.rotation.frames()[self.rotation.curr_idx as int]);
                    lemma_frame_blocks_bounds(
                        self.curr_frame(),
                        self.curr_frame().len() as int,
                        self.x as int,
                        self.y as int,
                        self.shape,
                    );
                }
                let (dx, dy): (i32, i32) = match dir {
                    Direction::Down => (0, -1),
                    Direction::Left => (-1, 0),
                    Direction::Right => (1, 0),
                };
                let ghost delta = direction_delta(*dir);
                let mut r: Vec<Block> = Vec::new();
                let mut i: usize = 0;
                while i < blocks.len()
                    invariant
                        i <= bs.len(),
                        blocks@ == bs,
                        dx == delta.0,
                        dy == delta.1,
                        -1 <= dx <= 1,
                        -1 <= dy <= 1,
                        forall|k: int| 0 <= k < bs.len() ==> {
                            let b = #[trigger] bs[k];
                            -POS_BOUND - 4 <= b.x <= POS_BOUND + 4 && -POS_BOUND - 4 <= b.y
                                <= POS_BOUND + 4
                        },
                        r@ == translate_blocks(bs.take(i as int), delta.0, delta.1),
                    decreases bs.len() - i,
                {
                    let b = blocks[i];
                    r.push(Block { x: b.x + dx, y: b.y + dy, kind: b.kind });
                    proof {
                        assert(r@ =~= translate_blocks(bs.take(i + 1), delta.0, delta.1));
                    }
                    i = i + 1;
                }
                proof {
                    assert(bs.take(bs.len() as int) =~= bs);
                }
                r
            },
        }
    }

    /// Shift the piece one cell if the whole piece stays past the matching
    /// wall or floor; report whether it moved.  Only walls and the floor are
    /// consulted here — locked blocks are the caller's concern, checked via
    /// `peek` and `Grid::is_legal` before shifting.
    pub fn shift(&mut self, direction: Direction, on_grid: &Grid) -> (moved: bool)
        requires
            old(self).wf(),
            on_grid.dims_ok(),
        ensures
            final(self).wf(),
            final(self).shape == old(self).shape,
            final(self).rotation == old(self).rotation,
            match direction {
                Direction::Down => {
                    &&& moved == (on_grid.height > 1 && all_y_above(old(self).blocks_spec(), 1))
                    &&& (moved ==> final(self).x == old(self).x && final(self).y == old(self).y - 1)
                },
                Direction::Left => {
                    &&& moved == all_x_above(old(self).blocks_spec(), 0)
                    &&& (moved ==> final(self).x == old(self).x - 1 && final(self).y == old(self).y)
                },
                Direction::Right => {
                    &&& moved == (on_grid.width > 1 && all_x_below(
                        old(self).blocks_spec(),
                        on_grid.width - 1,
                    ))
                    &&& (moved ==> final(self).x == old(self).x + 1 && final(self).y == old(self).y)
                },
            },
            !moved ==> *final(self) == *old(self),
    {
        let blocks = self.blocks();
        let ghost bs = blocks@;
        proof {
            lemma_frame_blocks_bounds(
                self.curr_frame(),
                self.curr_frame().len() as int,
                self.x as int,
                self.y as int,
                self.shape,
            );
            lemma_frame_blocks_nonempty(
                self.curr_frame(),
                self.x as int,
                self.y as int,
                self.shape,
            );
        }
        let mut min_y = on_grid.height;
        let mut min_x = on_grid.width;
        let mut max_x: i32 = 0;
        let mut i: usize = 0;
        while i < blocks.len()
            invariant
                i <= bs.len(),
                blocks@ == bs,
                forall|k: int| 0 <= k < bs.len() ==> {
                    let b = #[trigger] bs[k];
                    -POS_BOUND - 4 <= b.x <= POS_BOUND + 4 && -POS_BOUND - 4 <= b.y <= POS_BOUND
                        + 4
                },
                min_y <= on_grid.height,
                min_x <= on_grid.width,
                max_x >= 0,
                forall|k: int| 0 <= k < i ==> (#[trigger] bs[k]).y >= min_y,
                forall|k: int| 0 <= k < i ==> (#[trigger] bs[k]).x >= min_x,
                forall|k: int| 0 <= k < i ==> (#[trigger] bs[k]).x <= max_x,
                min_y == on_grid.height || exists|k: int| 0 <= k < i && (#[trigger] bs[k]).y == min_y,
                min_x == on_grid.width || exists|k: int| 0 <= k < i && (#[trigger] bs[k]).x == min_x,
                max_x == 0 || exists|k: int| 0 <= k < i && (#[trigger] bs[k]).x == max_x,
            decreases bs.len() - i,
        {
            let block = &blocks[i];
            if block.y < min_y {
                min_y = block.y;
            }
            if block.x < min_x {
                min_x = block.x;
            }
            if block.x > max_x {
                max_x = block.x;
            }
            i = i + 1;
        }
        match direction {
            Direction::Down => {
                if min_y > 1 {
                    proof {
                        assert(bs.len() > 0);
                        assert(bs[0].y >= min_y >= 2);
                    }
                    self.y = self.y - 1;
                    true
                } else {
                    proof {
                        if on_grid.height > 1 && all_y_above(bs, 1) {
                            assert(min_y > 1);
                        }
                    }
                    false
                }
            },
            Direction::Left => {
                if min_x > 0 {
                    proof {
                        assert(bs.len() > 0);
                        assert(bs[0].x >= min_x >= 1);
                        assert(bs[0].x <= self.x + 3);
                    }
                    self.x = self.x - 1;
                    true
                } else {
                    proof {
                        if all_x_above(bs, 0) {
                            assert(on_grid.width >= 1);
                            assert(min_x >= 1);
                        }
                    }
                    false
                }
            },
            Direction::Right => {
                if max_x < on_grid.width - 1 {
                    proof {
                        assert(bs.len() > 0);
                        assert(bs[0].x >= self.x);
                        assert(bs[0].x <= max_x <= on_grid.width - 2);
                    }
                    self.x = self.x + 1;
                    true
                } else {
                    proof {
                        if on_grid.width > 1 && all_x_below(bs, on_grid.width - 1) {
                            assert(max_x < on_grid.width - 1);
                        }
                    }
                    false
                }
            },
        }
    }

    /// Rotate to the next frame if the rotated cells are legal on the grid;
    /// report whether the piece turned.
    pub fn rotate(&mut self, on_grid: &Grid) -> (r: bool)
        requires
            old(self).wf(),
        ensures
            final(self).wf(),
            final(self).shape == old(self).shape,
            final(self).x == old(self).x,
            final(self).y == old(self).y,
            r == on_grid.legal_spec(
                placed_blocks(
                    old(self).rotation.frames()[old(self).rotation.next_idx_spec()],
                    old(self).x as int,
                    old(self).y as int,
                    old(self).shape,
                ),
            ),
            r ==> final(self).rotation.internal == old(self).rotation.internal
                && final(self).rotation.curr_idx == old(self).rotation.next_idx_spec(),
            !r ==> *final(self) == *old(self),
    {
        let next = self.rotation.peek_as_blocks(self.x, self.y, self.shape);
        match on_grid.is_legal(&next) {
            true => {
                self.rotation.change();
                true
            },
            false => false,
        }
    }
}

/// All blocks of `s` lie inside a `width` by `height` field whose playable
/// rows are `1..=height`.
pub open spec fn blocks_in_bounds(s: Seq<Block>, width: int, height: int) -> bool {
    forall|i: int| 0 <= i < s.len() ==> {
        let b = #[trigger] s[i];
        0 <= b.x < width && 1 <= b.y <= height
    }
}

/// No two blocks of `s` occupy the same cell.
pub open spec fn distinct_positions(s: Seq<Block>) -> bool {
    forall|i: int, j: int|
        0 <= i < j < s.len() ==> !((#[trigger] s[i]).x == (#[trigger] s[j]).x && s[i].y == s[j].y)
}

/// How many blocks of `s` sit in row `y`.
pub open spec fn row_count(s: Seq<Block>, y: int) -> nat
    decreases s.len(),
{
    if s.len() == 0 {
        0
    } else {
        row_count(s.drop_last(), y) + if s.last().y == y {
            1nat
        } else {
            0nat
        }
    }
}

/// `b` after one row above `r` has fallen: blocks above `r` drop one row,
/// the rest stay put.
pub open spec fn shift_down_above(b: Block, r: int) -> Block {
    if b.y > r {
        Block { x: b.x, y: (b.y - 1) as i32, kind: b.kind }
    } else {
        b
    }
}

/// `s` without the blocks of row `r`, order kept.
pub open spec fn remove_row(s: Seq<Block>, r: int) -> Seq<Block>
    decreases s.len(),
{
    if s.len() == 0 {
        s
    } else {
        remove_row(s.drop_last(), r) + if s.last().y == r {
            Seq::empty()
        } else {
            seq![s.last()]
        }
    }
}

/// Every block of `s` above row `r` dropped by one row.
pub open spec fn shift_rows_above(s: Seq<Block>, r: int) -> Seq<Block> {
    s.map_values(|b: Block| shift_down_above(b, r))
}

/// The effect of clearing row `r`: its blocks vanish, everything above falls.
pub open spec fn clear_row(s: Seq<Block>, r: int) -> Seq<Block> {
    shift_rows_above(remove_row(s, r), r)
}

/// One step of the row sweep: clear row `r` if it is full, else leave `s`.
pub open spec fn clear_step(s: Seq<Block>, width: int, r: int) -> Seq<Block> {
    if row_count(s, r) == width {
        clear_row(s, r)
    } else {
        s
    }
}

/// The playfield after sweeping rows `r`, `r - 1`, ..., `0`, clearing each
/// full row as it is met.
pub open spec fn clear_from(s: Seq<Block>, width: int, r: int) -> Seq<Block>
    decreases r + 1,
{
    if r < 0 {
        s
    } else {
        clear_from(clear_step(s, width, r), width, r - 1)
    }
}

/// How many rows the sweep from `r` down to `0` clears.
pub open spec fn cleared_from(s: Seq<Block>, width: int, r: int) -> nat
    decreases r + 1,
{
    if r < 0 {
        0
    } else {
        (if row_count(s, r) == width {
            1nat
        } else {
            0nat
        }) + cleared_from(clear_step(s, width, r), width, r - 1)
    }
}

/// The rows in `0..=r` that are full in `s`, listed bottom-up.
pub open spec fn full_rows_upto(s: Seq<Block>, width: int, r: int) -> Seq<i32>
    decreases r + 1,
{
    if r < 0 {
        Seq::empty()
    } else {
        full_rows_upto(s, width, r - 1) + if row_count(s, r) == width {
            seq![r as i32]
        } else {
            Seq::empty()
        }
    }
}

/// Whether some block of `blocks` sits at `(x, y)`.
fn contains_block(blocks: &Vec<Block>, x: i32, y: i32) -> (r: bool)
    ensures
        r == occupied(blocks@, x as int, y as int),
{
    let mut i: usize = 0;
    while i < blocks.len()
        invariant
            i <= blocks@.len(),
            forall|k: int| 0 <= k < i ==> !((#[trigger] blocks@[k]).x == x && blocks@[k].y == y),
        decreases blocks@.len() - i,
    {
        if blocks[i].x == x && blocks[i].y == y {
            return true;
        }
        i = i + 1;
    }
    false
}

/// The set of cells locked into the playfield, with the field's dimensions.
/// Row 0 is the floor boundary; playable rows are `1..=height`.
pub struct Grid {
    pub height: i32,
    pub width: i32,
    pub blocks: Vec<Block>,
}

impl Grid {
    /// Sensible field dimensions, small enough for all coordinate arithmetic.
    pub open spec fn dims_ok(self) -> bool {
        &&& 1 <= self.width <= DIM_BOUND
        &&& 1 <= self.height <= DIM_BOUND
    }

    /// The playfield invariant: sensible dimensions, every locked block in
    /// bounds, and no two locked blocks on the same cell.
    pub open spec fn wf(self) -> bool {
        &&& self.dims_ok()
        &&& blocks_in_bounds(self.blocks@, self.width as int, self.height as int)
        &&& distinct_positions(self.blocks@)
    }

    /// Every block of `bs` lies in bounds and on a free cell.
    pub open spec fn legal_spec(self, bs: Seq<Block>) -> bool {
        forall|i: int| 0 <= i < bs.len() ==> {
            let b = #[trigger] bs[i];
            &&& 0 <= b.x < self.width
            &&& 1 <= b.y <= self.height
            &&& !occupied(self.blocks@, b.x as int, b.y as int)
        }
    }

    /// Some block of `bs` rests on the floor or directly on a locked block.
    pub open spec fn landed_spec(self, bs: Seq<Block>) -> bool {
        exists|i: int|
            0 <= i < bs.len() && ((#[trigger] bs[i]).y == 1 || occupied(
                self.blocks@,
                bs[i].x as int,
                bs[i].y - 1,
            ))
    }

    /// Row `y` holds as many blocks as the field is wide.
    pub open spec fn full_row(self, y: int) -> bool {
        row_count(self.blocks@, y) == self.width
    }

    /// Some row of the field is full.
    pub open spec fn has_full_row(self) -> bool {
        exists|y: int| 0 <= y <= self.height && #[trigger] self.full_row(y)
    }

    pub fn new(height: i32, width: i32) -> (g: Grid)
        requires
            1 <= height <= DIM_BOUND,
            1 <= width <= DIM_BOUND,
        ensures
            g.wf(),
            g.height == height,
            g.width == width,
            g.blocks@ == Seq::<Block>::empty(),
    {
        let blocks: Vec<Block> = Vec::new();
        Grid { height, width, blocks }
    }

    /// A copy of the locked blocks.
    pub fn blocks(&self) -> (result: Vec<Block>)
        ensures
            result@ == self.blocks@,
    {
        let mut result: Vec<Block> = Vec::new();
        let mut i: usize = 0;
        while i < self.blocks.len()
            invariant
                i <= self.blocks@.len(),
                result@ == self.blocks@.take(i as int),
            decreases self.blocks@.len() - i,
        {
            result.push(self.blocks[i]);
            proof {
                assert(result@ =~= self.blocks@.take(i + 1));
            }
            i = i + 1;
        }
        proof {
            assert(self.blocks@.take(self.blocks@.len() as int) =~= self.blocks@);
        }
        result
    }

    /// Append the piece's blocks to the locked set.  The piece's cells now
    /// belong to the field; the caller must not reuse the piece.
    pub fn lock(&mut self, tetrimino: Tetrimino)
        requires
            tetrimino.wf(),
        ensures
            final(self).blocks@ == old(self).blocks@ + tetrimino.blocks_spec(),
            final(self).width == old(self).width,
            final(self).height == old(self).height,
    {
        let mut blocks = tetrimino.blocks();
        let ghost pre = self.blocks@;
        let ghost added = blocks@;
        let mut i: usize = 0;
        while i < blocks.len()
            invariant
                i <= added.len(),
                blocks@ == added,
                self.blocks@ == pre + added.take(i as int),
                self.width == old(self).width,
                self.height == old(self).height,
            decreases added.len() - i,
        {
            self.blocks.push(blocks[i]);
            proof {
                assert(pre + added.take(i + 1) =~= (pre + added.take(i as int)).push(added[i as int]));
            }
            i = i + 1;
        }
        proof {
            assert(pre + added.take(added.len() as int) =~= pre + added);
        }
    }

    /// Drop every block above row `row` by one row.
    fn decrement_rows_above(&mut self, row: i32)
        requires
            row >= 0,
        ensures
            final(self).blocks@ == shift_rows_above(old(self).blocks@, row as int),
            final(self).width == old(self).width,
            final(self).height == old(self).height,
    {
        let ghost pre = self.blocks@;
        let mut blocks: Vec<Block> = Vec::new();
        let mut i: usize = 0;
        while i < self.blocks.len()
            invariant
                i <= pre.len(),
                self.blocks@ == pre,
                blocks@ == shift_rows_above(pre.take(i as int), row as int),
                self.width == old(self).width,
                self.height == old(self).height,
        decreases pre.len() - i,
        {
            let b = self.blocks[i];
            if b.y > row {
                blocks.push(Block { x: b.x, y: b.y - 1, kind: b.kind });
            } else {
                blocks.push(b);
            }
            proof {
                assert(blocks@ =~= shift_rows_above(pre.take(i + 1), row as int));
            }
            i = i + 1;
        }
        proof {
            assert(pre.take(pre.len() as int) =~= pre);
        }
        self.blocks = blocks;
    }

    /// Remove every block of row `row`.
    fn delete_row(&mut self, row: i32)
        ensures
            final(self).blocks@ == remove_row(old(self).blocks@, row as int),
            final(self).width == old(self).width,
            final(self).height == old(self).height,
    {
        let ghost pre = self.blocks@;
        let mut blocks: Vec<Block> = Vec::new();
        let mut i: usize = 0;
        while i < self.blocks.len()
            invariant
                i <= pre.len(),
                self.blocks@ == pre,
                blocks@ == remove_row(pre.take(i as int), row as int),
                self.width == old(self).width,
                self.height == old(self).height,
            decreases pre.len() - i,
        {
            let b = self.blocks[i];
            proof {
                assert(pre.take(i + 1).drop_last() =~= pre.take(i as int));
            }
            if b.y != row {
                blocks.push(b);
            }
            i = i + 1;
        }
        proof {
            assert(pre.take(pre.len() as int) =~= pre);
        }
        self.blocks = blocks;
    }

    /// How many locked blocks sit in row `y`.
    fn count_row(&self, y: i32) -> (count: usize)
        ensures
            count == row_count(self.blocks@, y as int),
    {
        let s = &self.blocks;
        let mut count: usize = 0;
        let mut i: usize = 0;
        while i < s.len()
            invariant
                i <= s@.len(),
                count == row_count(s@.take(i as int), y as int),
                count <= i,
            decreases s@.len() - i,
        {
            proof {
                assert(s@.take(i + 1).drop_last() =~= s@.take(i as int));
            }
            if s[i].y == y {
                count = count + 1;
            }
            i = i + 1;
        }
        proof {
            assert(s@.take(s@.len() as int) =~= s@);
        }
        count
    }

    /// The indices of the full rows, bottom-up.
    pub fn get_full_rows(&self) -> (rows: Vec<i32>)
        requires
            self.dims_ok(),
        ensures
            rows@ == full_rows_upto(self.blocks@, self.width as int, self.height as int),
            rows@.len() == 0 <==> !self.has_full_row(),
    {
        let mut rows: Vec<i32> = Vec::new();
        let mut y: i32 = 0;
        while y <= self.height
            invariant
                0 <= y <= self.height + 1,
                self.dims_ok(),
                rows@ == full_rows_upto(self.blocks@, self.width as int, y - 1),
                rows@.len() == 0 <==> (forall|r: int|
                    0 <= r < y ==> !(#[trigger] self.full_row(r))),
            decreases self.height + 1 - y,
        {
            if self.count_row(y) == self.width as usize {
                rows.push(y);
                proof {
                    assert(rows@ =~= full_rows_upto(self.blocks@, self.width as int, y as int));
                    assert(self.full_row(y as int));
                }
            } else {
                proof {
                    assert(rows@ =~= full_rows_upto(self.blocks@, self.width as int, y as int));
                    assert(!self.full_row(y as int));
                }
            }
            y = y + 1;
        }
        rows
    }

    /// Sweep the rows from the top of the field down to the floor; every full
    /// row is removed and the rows above it fall one step.  Returns how many
    /// rows were cleared.
    pub fn clear_full_rows(&mut self) -> (num_cleared: u32)
        requires
            old(self).dims_ok(),
        ensures
            final(self).blocks@ == clear_from(
                old(self).blocks@,
                old(self).width as int,
                old(self).height as int,
            ),
            num_cleared == cleared_from(
                old(self).blocks@,
                old(self).width as int,
                old(self).height as int,
            ),
            final(self).width == old(self).width,
            final(self).height == old(self).height,
    {
        let ghost orig = self.blocks@;
        let ghost w = self.width as int;
        let ghost h = self.height as int;
        let mut num_cleared: u32 = 0;
        let mut row: i32 = self.height;
        while row >= 0
            invariant
                -1 <= row <= h,
                self.width == old(self).width,
                self.height == old(self).height,
                self.dims_ok(),
                w == self.width as int,
                h == self.height as int,
                clear_from(orig, w, h) == clear_from(self.blocks@, w, row as int),
                cleared_from(orig, w, h) == num_cleared + cleared_from(self.blocks@, w, row as int),
                num_cleared <= h - row,
            decreases row + 1,
        {
            let ghost cur = self.blocks@;
            let num_blocks = self.count_row(row);
            if num_blocks == self.width as usize {
                proof {
                    assert(row_count(cur, row as int) == w);
                    assert(clear_step(cur, w, row as int) == clear_row(cur, row as int));
                    assert(num_cleared < h - row + 1);
                }
                self.delete_row(row);
                self.decrement_rows_above(row);
                num_cleared = num_cleared + 1;
            } else {
                proof {
                    assert(row_count(cur, row as int) != w);
                    assert(clear_step(cur, w, row as int) == cur);
                }
            }
            proof {
                assert(clear_from(cur, w, row as int) == clear_from(
                    clear_step(cur, w, row as int),
                    w,
                    row - 1,
                ));
                assert(cleared_from(cur, w, row as int) == (if row_count(cur, row as int) == w {
                    1nat
                } else {
                    0nat
                }) + cleared_from(clear_step(cur, w, row as int), w, row - 1));
            }
            row = row - 1;
        }
        num_cleared
    }

    /// Whether the piece is resting: some block on the floor row or directly
    /// above a locked block.
    pub fn has_landed(&self, tetrimino: &Tetrimino) -> (r: bool)
        requires
            tetrimino.wf(),
        ensures
            r == self.landed_spec(tetrimino.blocks_spec()),
    {
        let blocks = tetrimino.blocks();
        let ghost bs = blocks@;
        let mut i: usize = 0;
        while i < blocks.len()
            invariant
                i <= bs.len(),
                blocks@ == bs,
                bs == tetrimino.blocks_spec(),
                forall|k: int|
                    0 <= k < i ==> !((#[trigger] bs[k]).y == 1 || occupied(
                        self.blocks@,
                        bs[k].x as int,
                        bs[k].y - 1,
                    )),
            decreases bs.len() - i,
        {
            let b = blocks[i];
            if b.y == 1 {
                proof {
                    assert(0 <= i < bs.len() && bs[i as int].y == 1);
                }
                return true;
            }
            if b.y > i32::MIN && contains_block(&self.blocks, b.x, b.y - 1) {
                proof {
                    assert(0 <= i < bs.len() && occupied(
                        self.blocks@,
                        bs[i as int].x as int,
                        bs[i as int].y - 1,
                    ));
                }
                return true;
            }
            proof {
                if b.y == i32::MIN {
                    // A cell below the lowest representable row is never
                    // occupied: every stored coordinate is at least i32::MIN.
                    assert(forall|j: int|
                        0 <= j < self.blocks@.len() ==> (#[trigger] self.blocks@[j]).y >= i32::MIN);
                    assert(!occupied(self.blocks@, b.x as int, b.y - 1));
                }
            }
            i = i + 1;
        }
        false
    }

    /// Whether every block of `blocks` lies in bounds and on a free cell.
    pub fn is_legal(&self, blocks: &Vec<Block>) -> (r: bool)
        ensures
            r == self.legal_spec(blocks@),
    {
        let mut i: usize = 0;
        while i < blocks.len()
            invariant
                i <= blocks@.len(),
                forall|k: int| 0 <= k < i ==> {
                    let b = #[trigger] blocks@[k];
                    &&& 0 <= b.x < self.width
                    &&& 1 <= b.y <= self.height
                    &&& !occupied(self.blocks@, b.x as int, b.y as int)
                },
            decreases blocks@.len() - i,
        {
            let b = blocks[i];
            if contains_block(&self.blocks, b.x, b.y) || b.x >= self.width || b.y > self.height
                || b.y < 1 || b.x < 0 {
                proof {
                    let bb = blocks@[i as int];
                    assert(!(0 <= bb.x < self.width && 1 <= bb.y <= self.height && !occupied(
                        self.blocks@,
                        bb.x as int,
                        bb.y as int,
                    )));
                    assert(!self.legal_spec(blocks@));
                }
                return false;
            }
            i = i + 1;
        }
        true
    }
}

/// A row with no set cell among its first `n` yields no block.
proof fn lemma_empty_row_blocks(row: Seq<bool>, n: int, x0: int, y: int, kind: TetriminoType)
    requires
        forall|c: int| 0 <= c < n ==> !row[c],
    ensures
        row_blocks(row, n, x0, y, kind) == Seq::<Block>::empty(),
    decreases n,
{
    if n > 0 {
        lemma_empty_row_blocks(row, n - 1, x0, y, kind);
        assert(row_blocks(row, n, x0, y, kind) =~= Seq::<Block>::empty());
    }
}

/// Blocks of a frame whose top row is empty sit strictly below the origin
/// row.
pub proof fn lemma_frame_blocks_below_origin(
    f: Seq<Seq<bool>>,
    m: int,
    x0: int,
    y0: int,
    kind: TetriminoType,
)
    requires
        0 <= m <= f.len(),
        f.len() <= 4,
        forall|r: int| 0 <= r < f.len() ==> (#[trigger] f[r]).len() <= 4,
        -POS_BOUND - 8 <= x0 <= POS_BOUND + 8,
        -POS_BOUND - 8 <= y0 <= POS_BOUND + 8,
        forall|c: int| 0 <= c < f[0].len() ==> !f[0][c],
    ensures
        forall|i: int| 0 <= i < frame_blocks(f, m, x0, y0, kind).len() ==> (#[trigger] frame_blocks(
            f,
            m,
            x0,
            y0,
            kind,
        )[i]).y < y0,
    decreases m,
{
    if m > 0 {
        lemma_frame_blocks_below_origin(f, m - 1, x0, y0, kind);
        if m == 1 {
            lemma_empty_row_blocks(f[0], f[0].len() as int, x0, y0, kind);
        } else {
            lemma_row_blocks_bounds(f[m - 1], f[m - 1].len() as int, x0, y0 - (m - 1), kind);
        }
    }
}

/// Blocks of one frame row have pairwise distinct `x`.
proof fn lemma_row_blocks_distinct(row: Seq<bool>, n: int, x0: int, y: int, kind: TetriminoType)
    requires
        0 <= n <= 4,
        -POS_BOUND - 16 <= x0 <= POS_BOUND + 16,
        -POS_BOUND - 16 <= y <= POS_BOUND + 16,
    ensures
        distinct_positions(row_blocks(row, n, x0, y, kind)),
    decreases n,
{
    if n > 0 {
        lemma_row_blocks_distinct(row, n - 1, x0, y, kind);
        lemma_row_blocks_bounds(row, n - 1, x0, y, kind);
    }
}

/// Blocks of a frame occupy pairwise distinct cells: within a row the `x`
/// differ, and different rows sit at different heights.
pub proof fn lemma_frame_blocks_distinct(
    f: Seq<Seq<bool>>,
    m: int,
    x0: int,
    y0: int,
    kind: TetriminoType,
)
    requires
        0 <= m <= f.len(),
        f.len() <= 4,
        forall|r: int| 0 <= r < f.len() ==> (#[trigger] f[r]).len() <= 4,
        -POS_BOUND - 8 <= x0 <= POS_BOUND + 8,
        -POS_BOUND - 8 <= y0 <= POS_BOUND + 8,
    ensures
        distinct_positions(frame_blocks(f, m, x0, y0, kind)),
        forall|i: int| 0 <= i < frame_blocks(f, m, x0, y0, kind).len() ==> (#[trigger] frame_blocks(
            f,
            m,
            x0,
            y0,
            kind,
        )[i]).y > y0 - m,
    decreases m,
{
    if m > 0 {
        lemma_frame_blocks_distinct(f, m - 1, x0, y0, kind);
        lemma_frame_blocks_bounds(f, m - 1, x0, y0, kind);
        lemma_row_blocks_distinct(f[m - 1], f[m - 1].len() as int, x0, y0 - (m - 1), kind);
        lemma_row_blocks_bounds(f[m - 1], f[m - 1].len() as int, x0, y0 - (m - 1), kind);
    }
}

/// The cells of a well-formed piece are pairwise distinct.
pub proof fn lemma_piece_blocks_distinct(p: Tetrimino)
    requires
        p.wf(),
    ensures
        distinct_positions(p.blocks_spec()),
{
    let f = p.curr_frame();
    lemma_frame_blocks_distinct(f, f.len() as int, p.x as int, p.y as int, p.shape);
}

/// Elements survive `remove_row` unchanged: each comes from `s` and none is
/// in row `r`; distinctness of cells is preserved.
proof fn lemma_remove_row_props(s: Seq<Block>, r: int)
    ensures
        forall|k: int| 0 <= k < remove_row(s, r).len() ==> s.contains(
            #[trigger] remove_row(s, r)[k],
        ) && remove_row(s, r)[k].y != r,
        distinct_positions(s) ==> distinct_positions(remove_row(s, r)),
    decreases s.len(),
{
    if s.len() > 0 {
        let prefix = s.drop_last();
        lemma_remove_row_props(prefix, r);
        let rm = remove_row(s, r);
        let rmp = remove_row(prefix, r);
        assert forall|k: int| 0 <= k < rm.len() implies s.contains(#[trigger] rm[k]) && rm[k].y
            != r by {
            if k < rmp.len() {
                assert(prefix.contains(rmp[k]));
                let i = choose|i: int| 0 <= i < prefix.len() && prefix[i] == rmp[k];
                assert(s[i] == rm[k]);
            } else {
                assert(rm[k] == s.last());
                assert(s[s.len() - 1] == s.last());
            }
        }
        if distinct_positions(s) {
            assert forall|i: int, j: int| 0 <= i < j < prefix.len() implies !((#[trigger] prefix[i]).x
                == (#[trigger] prefix[j]).x && prefix[i].y == prefix[j].y) by {
                assert(prefix[i] == s[i] && prefix[j] == s[j]);
            }
            assert forall|i: int, j: int| 0 <= i < j < rm.len() implies !((#[trigger] rm[i]).x
                == (#[trigger] rm[j]).x && rm[i].y == rm[j].y) by {
                if j < rmp.len() {
                    assert(rmp[i] == rm[i] && rmp[j] == rm[j]);
                } else {
                    assert(rm[j] == s.last());
                    assert(prefix.contains(rmp[i]));
                    let i2 = choose|i2: int| 0 <= i2 < prefix.len() && prefix[i2] == rmp[i];
                    assert(s[i2] == rm[i]);
                    assert(!(s[i2].x == s[s.len() - 1].x && s[i2].y == s[s.len() - 1].y));
                }
            }
        }
    }
}

/// One cleared row keeps every surviving cell inside the field and keeps
/// cells pairwise distinct.
proof fn lemma_clear_row_wf(s: Seq<Block>, r: int, width: int, height: int)
    requires
        1 <= r,
        distinct_positions(s),
        blocks_in_bounds(s, width, height),
    ensures
        distinct_positions(clear_row(s, r)),
        blocks_in_bounds(clear_row(s, r), width, height),
{
    lemma_remove_row_props(s, r);
    let rm = remove_row(s, r);
    let cr = clear_row(s, r);
    assert(cr.len() == rm.len());
    assert forall|k: int| 0 <= k < cr.len() implies {
        let b = #[trigger] cr[k];
        0 <= b.x < width && 1 <= b.y <= height
    } by {
        assert(cr[k] == shift_down_above(rm[k], r));
        assert(s.contains(rm[k]));
        let i = choose|i: int| 0 <= i < s.len() && s[i] == rm[k];
        assert(0 <= s[i].x < width && 1 <= s[i].y <= height);
    }
    assert forall|i: int, j: int| 0 <= i < j < cr.len() implies !((#[trigger] cr[i]).x
        == (#[trigger] cr[j]).x && cr[i].y == cr[j].y) by {
        assert(cr[i] == shift_down_above(rm[i], r));
        assert(cr[j] == shift_down_above(rm[j], r));
        assert(!(rm[i].x == rm[j].x && rm[i].y == rm[j].y));
        assert(rm[i].y != r && rm[j].y != r);
    }
}

/// A row where no block sits counts zero blocks.
proof fn lemma_row_count_zero(s: Seq<Block>, y: int)
    requires
        forall|i: int| 0 <= i < s.len() ==> (#[trigger] s[i]).y != y,
    ensures
        row_count(s, y) == 0,
    decreases s.len(),
{
    if s.len() > 0 {
        let prefix = s.drop_last();
        assert forall|i: int| 0 <= i < prefix.len() implies (#[trigger] prefix[i]).y != y by {
            assert(prefix[i] == s[i]);
        }
        lemma_row_count_zero(prefix, y);
        assert(s.last() == s[s.len() - 1]);
    }
}

/// The whole sweep keeps every surviving cell inside the field and keeps
/// cells pairwise distinct.
proof fn lemma_clear_from_wf(s: Seq<Block>, width: int, height: int, r: int)
    requires
        1 <= width,
        distinct_positions(s),
        blocks_in_bounds(s, width, height),
    ensures
        distinct_positions(clear_from(s, width, r)),
        blocks_in_bounds(clear_from(s, width, r), width, height),
    decreases r + 1,
{
    if r >= 0 {
        let stepped = clear_step(s, width, r);
        if row_count(s, r) == width {
            if r == 0 {
                assert forall|i: int| 0 <= i < s.len() implies (#[trigger] s[i]).y != 0 by {}
                lemma_row_count_zero(s, 0);
            } else {
                lemma_clear_row_wf(s, r, width, height);
            }
        }
        lemma_clear_from_wf(stepped, width, height, r - 1);
    }
}

impl Grid {
    /// Locking the cells of a legal, well-formed piece preserves the
    /// playfield invariant: every cell stays in bounds, and no two cells
    /// coincide.
    pub proof fn lemma_lock_preserves_wf(self, p: Tetrimino)
        requires
            self.wf(),
            p.wf(),
            self.legal_spec(p.blocks_spec()),
        ensures
            blocks_in_bounds(self.blocks@ + p.blocks_spec(), self.width as int, self.height as int),
            distinct_positions(self.blocks@ + p.blocks_spec()),
    {
        lemma_piece_blocks_distinct(p);
        let bs = p.blocks_spec();
        let joined = self.blocks@ + bs;
        let n = self.blocks@.len() as int;
        assert forall|i: int, j: int| 0 <= i < j < joined.len() implies !((#[trigger] joined[i]).x
            == (#[trigger] joined[j]).x && joined[i].y == joined[j].y) by {
            if j >= n {
                assert(joined[j] == bs[j - n]);
                if i < n {
                    assert(joined[i] == self.blocks@[i]);
                    assert(!occupied(self.blocks@, bs[j - n].x as int, bs[j - n].y as int));
                } else {
                    assert(joined[i] == bs[i - n]);
                }
            } else {
                assert(joined[i] == self.blocks@[i] && joined[j] == self.blocks@[j]);
            }
        }
        assert forall|i: int| 0 <= i < joined.len() implies {
            let b = #[trigger] joined[i];
            0 <= b.x < self.width && 1 <= b.y <= self.height
        } by {
            if i >= n {
                assert(joined[i] == bs[i - n]);
            } else {
                assert(joined[i] == self.blocks@[i]);
            }
        }
    }

    /// The row sweep preserves the playfield invariant.
    pub proof fn lemma_clear_preserves_wf(self)
        requires
            self.wf(),
        ensures
            blocks_in_bounds(
                clear_from(self.blocks@, self.width as int, self.height as int),
                self.width as int,
                self.height as int,
            ),
            distinct_positions(clear_from(self.blocks@, self.width as int, self.height as int)),
    {
        lemma_clear_from_wf(
            self.blocks@,
            self.width as int,
            self.height as int,
            self.height as int,
        );
    }
}

/// The rotation frames of each shape, top row first; row `r` of a frame sits
/// `r` cells below the piece's origin.  The first frame of every shape has an
/// empty top row, so a freshly spawned piece fits below the spawn origin.
pub open spec fn shape_frames_spec(t: TetriminoType) -> Seq<Seq<Seq<bool>>> {
    match t {
        TetriminoType::O => seq![
            seq![seq![false, false], seq![true, true], seq![true, true]],
        ],
        TetriminoType::I => seq![
            seq![
                seq![false, false, false, false],
                seq![true, true, true, true],
                seq![false, false, false, false],
                seq![false, false, false, false],
            ],
            seq![
                seq![false, true, false, false],
                seq![false, true, false, false],
                seq![false, true, false, false],
                seq![false, true, false, false],
            ],
        ],
        TetriminoType::T => seq![
            seq![seq![false, false, false], seq![true, true, true], seq![false, true, false]],
            seq![seq![false, true, false], seq![true, true, false], seq![false, true, false]],
            seq![seq![false, true, false], seq![true, true, true], seq![false, false, false]],
            seq![seq![false, true, false], seq![false, true, true], seq![false, true, false]],
        ],
        TetriminoType::S => seq![
            seq![seq![false, false, false], seq![false, true, true], seq![true, true, false]],
            seq![seq![false, true, false], seq![false, true, true], seq![false, false, true]],
        ],
        TetriminoType::Z => seq![
            seq![seq![false, false, false], seq![true, true, false], seq![false, true, true]],
            seq![seq![false, false, true], seq![false, true, true], seq![false, true, false]],
        ],
        TetriminoType::J => seq![
            seq![seq![false, false, false], seq![true, true, true], seq![false, false, true]],
            seq![seq![false, true, false], seq![false, true, false], seq![true, true, false]],
            seq![seq![true, false, false], seq![true, true, true], seq![false, false, false]],
            seq![seq![false, true, true], seq![false, true, false], seq![false, true, false]],
        ],
        TetriminoType::L => seq![
            seq![seq![false, false, false], seq![true, true, true], seq![true, false, false]],
            seq![seq![true, true, false], seq![false, true, false], seq![false, true, false]],
            seq![seq![false, false, true], seq![true, true, true], seq![false, false, false]],
            seq![seq![false, true, false], seq![false, true, false], seq![false, true, true]],
        ],
    }
}

/// Every shape's frame list is non-empty and made of well-formed frames.
pub proof fn lemma_shape_frames_wf(t: TetriminoType)
    ensures
        1 <= shape_frames_spec(t).len(),
        forall|i: int|
            0 <= i < shape_frames_spec(t).len() ==> frame_wf(#[trigger] shape_frames_spec(t)[i]),
{
    let fs = shape_frames_spec(t);
    match t {
        TetriminoType::O => {
            assert(fs[0][1][0]);
            assert(frame_wf(fs[0]));
        },
        TetriminoType::I => {
            assert(fs[0][1][0]);
            assert(fs[1][0][1]);
            assert(frame_wf(fs[0]));
            assert(frame_wf(fs[1]));
        },
        TetriminoType::T => {
            assert(fs[0][1][0]);
            assert(fs[1][0][1]);
            assert(fs[2][0][1]);
            assert(fs[3][0][1]);
            assert(frame_wf(fs[0]));
            assert(frame_wf(fs[1]));
            assert(frame_wf(fs[2]));
            assert(frame_wf(fs[3]));
        },
        TetriminoType::S => {
            assert(fs[0][1][1]);
            assert(fs[1][0][1]);
            assert(frame_wf(fs[0]));
            assert(frame_wf(fs[1]));
        },
        TetriminoType::Z => {
            assert(fs[0][1][0]);
            assert(fs[1][0][2]);
            assert(frame_wf(fs[0]));
            assert(frame_wf(fs[1]));
        },
        TetriminoType::J => {
            assert(fs[0][1][0]);
            assert(fs[1][0][1]);
            assert(fs[2][0][0]);
            assert(fs[3][0][1]);
            assert(frame_wf(fs[0]));
            assert(frame_wf(fs[1]));
            assert(frame_wf(fs[2]));
            assert(frame_wf(fs[3]));
        },
        TetriminoType::L => {
            assert(fs[0][1][0]);
            assert(fs[1][0][0]);
            assert(fs[2][0][2]);
            assert(fs[3][0][1]);
            assert(frame_wf(fs[0]));
            assert(frame_wf(fs[1]));
            assert(frame_wf(fs[2]));
            assert(frame_wf(fs[3]));
        },
    }
}

/// Build one shape's frame list as a run-time value.
fn build_frames(t: TetriminoType) -> (r: Vec<Vec<Vec<bool>>>)
    ensures
        r.deep_view() == shape_frames_spec(t),
{
    match t {
        TetriminoType::O => {
            let r = vec![vec![vec![false, false], vec![true, true], vec![true, true]]];
            proof {
                assert(r.deep_view() =~~= shape_frames_spec(TetriminoType::O));
            }
            r
        },
        TetriminoType::I => {
            let r = vec![
                vec![
                    vec![false, false, false, false],
                    vec![true, true, true, true],
                    vec![false, false, false, false],
                    vec![false, false, false, false],
                ],
                vec![
                    vec![false, true, false, false],
                    vec![false, true, false, false],
                    vec![false, true, false, false],
                    vec![false, true, false, false],
                ],
            ];
            proof {
                assert(r.deep_view() =~~= shape_frames_spec(TetriminoType::I));
            }
            r
        },
        TetriminoType::T => {
            let r = vec![
                vec![vec![false, false, false], vec![true, true, true], vec![false, true, false]],
                vec![vec![false, true, false], vec![true, true, false], vec![false, true, false]],
                vec![vec![false, true, false], vec![true, true, true], vec![false, false, false]],
                vec![vec![false, true, false], vec![false, true, true], vec![false, true, false]],
            ];
            proof {
                assert(r.deep_view() =~~= shape_frames_spec(TetriminoType::T));
            }
            r
        },
        TetriminoType::S => {
            let r = vec![
                vec![vec![false, false, false], vec![false, true, true], vec![true, true, false]],
                vec![vec![false, true, false], vec![false, true, true], vec![false, false, true]],
            ];
            proof {
                assert(r.deep_view() =~~= shape_frames_spec(TetriminoType::S));
            }
            r
        },
        TetriminoType::Z => {
            let r = vec![
                vec![vec![false, false, false], vec![true, true, false], vec![false, true, true]],
                vec![vec![false, false, true], vec![false, true, true], vec![false, true, false]],
            ];
            proof {
                assert(r.deep_view() =~~= shape_frames_spec(TetriminoType::Z));
            }
            r
        },
        TetriminoType::J => {
            let r = vec![
                vec![vec![false, false, false], vec![true, true, true], vec![false, false, true]],
                vec![vec![false, true, false], vec![false, true, false], vec![true, true, false]],
                vec![vec![true, false, false], vec![true, true, true], vec![false, false, false]],
                vec![vec![false, true, true], vec![false, true, false], vec![false, true, false]],
            ];
            proof {
                assert(r.deep_view() =~~= shape_frames_spec(TetriminoType::J));
            }
            r
        },
        TetriminoType::L => {
            let r = vec![
                vec![vec![false, false, false], vec![true, true, true], vec![true, false, false]],
                vec![vec![true, true, false], vec![false, true, false], vec![false, true, false]],
                vec![vec![false, false, true], vec![true, true, true], vec![false, false, false]],
                vec![vec![false, true, false], vec![false, true, false], vec![false, true, true]],
            ];
            proof {
                assert(r.deep_view() =~~= shape_frames_spec(TetriminoType::L));
            }
            r
        },
    }
}

/// The shape library: the rotation frames of every shape, fixed at start-up.
/// Colors are not stored here; a block's `kind` identifies its shape and the
/// rendering shell maps it to a color.
pub struct States {
    pub o: Vec<Vec<Vec<bool>>>,
    pub i: Vec<Vec<Vec<bool>>>,
    pub t: Vec<Vec<Vec<bool>>>,
    pub s: Vec<Vec<Vec<bool>>>,
    pub z: Vec<Vec<Vec<bool>>>,
    pub j: Vec<Vec<Vec<bool>>>,
    pub l: Vec<Vec<Vec<bool>>>,
}

impl States {
    /// The stored frame list of one shape.
    pub open spec fn frames_of(self, t: TetriminoType) -> Seq<Seq<Seq<bool>>> {
        match t {
            TetriminoType::O => self.o.deep_view(),
            TetriminoType::I => self.i.deep_view(),
            TetriminoType::T => self.t.deep_view(),
            TetriminoType::S => self.s.deep_view(),
            TetriminoType::Z => self.z.deep_view(),
            TetriminoType::J => self.j.deep_view(),
            TetriminoType::L => self.l.deep_view(),
        }
    }

    /// Every shape's stored frames are exactly the library's frames.
    pub open spec fn wf(self) -> bool {
        forall|t: TetriminoType| #[trigger] self.frames_of(t) == shape_frames_spec(t)
    }

    fn init() -> (r: States)
        ensures
            r.wf(),
    {
        let r = States {
            o: build_frames(TetriminoType::O),
            i: build_frames(TetriminoType::I),
            t: build_frames(TetriminoType::T),
            s: build_frames(TetriminoType::S),
            z: build_frames(TetriminoType::Z),
            j: build_frames(TetriminoType::J),
            l: build_frames(TetriminoType::L),
        };
        proof {
            assert forall|t: TetriminoType| #[trigger] r.frames_of(t) == shape_frames_spec(t) by {
                match t {
                    TetriminoType::O => {},
                    TetriminoType::I => {},
                    TetriminoType::T => {},
                    TetriminoType::S => {},
                    TetriminoType::Z => {},
                    TetriminoType::J => {},
                    TetriminoType::L => {},
                }
            }
        }
        r
    }

    /// A reference to the stored frame list of one shape.
    fn frames(&self, t: TetriminoType) -> (r: &Vec<Vec<Vec<bool>>>)
        ensures
            r.deep_view() == self.frames_of(t),
    {
        match t {
            TetriminoType::O => &self.o,
            TetriminoType::I => &self.i,
            TetriminoType::T => &self.t,
            TetriminoType::S => &self.s,
            TetriminoType::Z => &self.z,
            TetriminoType::J => &self.j,
            TetriminoType::L => &self.l,
        }
    }
}

/// The fixed roster of shapes, in declaration order.
pub open spec fn all_types_seq() -> Seq<TetriminoType> {
    seq![
        TetriminoType::O,
        TetriminoType::I,
        TetriminoType::T,
        TetriminoType::S,
        TetriminoType::Z,
        TetriminoType::J,
        TetriminoType::L,
    ]
}

/// A piece as the sequencer spawns it: the library frames of its shape, the
/// first frame showing, at the fixed spawn origin.
pub open spec fn is_spawn_piece(p: Tetrimino) -> bool {
    &&& p.rotation.frames() == shape_frames_spec(p.shape)
    &&& p.rotation.curr_idx == 0
    &&& p.x == 3
    &&& p.y == 21
}

/// A spawned piece is well formed.
pub proof fn lemma_spawn_piece_wf(p: Tetrimino)
    requires
        is_spawn_piece(p),
    ensures
        p.wf(),
{
    lemma_shape_frames_wf(p.shape);
}

/// The shapes of a queue of pieces, in order.
pub open spec fn shapes_of(q: Seq<Tetrimino>) -> Seq<TetriminoType> {
    q.map_values(|p: Tetrimino| p.shape)
}

/// A freshly refilled bag: seven spawned pieces, one of each shape, in some
/// order.
pub open spec fn is_fresh_bag(q: Seq<Tetrimino>) -> bool {
    &&& q.len() == 7
    &&& forall|i: int| 0 <= i < q.len() ==> is_spawn_piece(#[trigger] q[i])
    &&& shapes_of(q).to_multiset() == all_types_seq().to_multiset()
}

/// What one draw does to the queue: with pieces queued the head is handed
/// out; on an empty queue a fresh bag is dealt first, so the drawn piece and
/// the queue left behind together form a fresh bag.
pub open spec fn draw_post(pre: Seq<Tetrimino>, post: Seq<Tetrimino>, drawn: Tetrimino) -> bool {
    if pre.len() > 0 {
        drawn == pre[0] && post == pre.drop_first()
    } else {
        is_fresh_bag(seq![drawn] + post)
    }
}

/// What a draw followed by a preview leaves behind: the head is handed out
/// (dealing a fresh bag first if the queue was empty), and if the draw
/// emptied the queue the preview deals the next fresh bag.
pub open spec fn draw_refill_post(pre: Seq<Tetrimino>, post: Seq<Tetrimino>, drawn: Tetrimino) -> bool {
    if pre.len() > 1 {
        drawn == pre[0] && post == pre.drop_first()
    } else if pre.len() == 1 {
        drawn == pre[0] && is_fresh_bag(post)
    } else {
        is_fresh_bag(seq![drawn] + post)
    }
}

/// Relies on rand::seq::SliceRandom::shuffle: an in-place permutation of the
/// slice, so the multiset of elements (and the length) is unchanged.
#[verifier::external_body]
fn shuffle_types(types: &mut Vec<TetriminoType>)
    ensures
        final(types)@.to_multiset() == old(types)@.to_multiset(),
        final(types)@.len() == old(types)@.len(),
{
    let mut rng = rand::thread_rng();
    types.shuffle(&mut rng);
}

/// The piece sequencer: the shape library plus the queue of upcoming pieces,
/// refilled seven at a time from a shuffled bag.
pub struct Tetriminos {
    pub states: States,
    pub queued: VecDeque<Tetrimino>,
}

impl Tetriminos {
    /// A valid library, and only spawned pieces in the queue.
    pub open spec fn wf(self) -> bool {
        &&& self.states.wf()
        &&& forall|i: int| 0 <= i < self.queued@.len() ==> is_spawn_piece(#[trigger] self.queued@[i])
    }

    pub fn init() -> (r: Tetriminos)
        ensures
            r.wf(),
            r.queued@.len() == 0,
    {
        Tetriminos { states: States::init(), queued: VecDeque::new() }
    }

    /// The shape library.
    pub fn states(&self) -> (r: &States)
        ensures
            r == &self.states,
    {
        &self.states
    }

    /// One of each shape, in declaration order.
    pub fn types(&self) -> (r: Vec<TetriminoType>)
        ensures
            r@ == all_types_seq(),
    {
        let r = vec![
            TetriminoType::O,
            TetriminoType::I,
            TetriminoType::T,
            TetriminoType::S,
            TetriminoType::Z,
            TetriminoType::J,
            TetriminoType::L,
        ];
        proof {
            assert(r@ =~= all_types_seq());
        }
        r
    }

    /// If the queue is empty, deal a fresh shuffled bag of seven pieces into
    /// it; report whether a refill happened.
    fn maybe_refill_queue(&mut self) -> (was_empty: bool)
        requires
            old(self).wf(),
        ensures
            final(self).wf(),
            final(self).states == old(self).states,
            was_empty == (old(self).queued@.len() == 0),
            !was_empty ==> final(self).queued@ == old(self).queued@,
            was_empty ==> is_fresh_bag(final(self).queued@),
    {
        let mut was_empty = false;
        if self.queued.len() == 0 {
            let mut types = self.types();
            shuffle_types(&mut types);
            let ghost shuffled = types@;
            let mut k: usize = 0;
            while k < types.len()
                invariant
                    k <= 7,
                    types@ == shuffled,
                    shuffled.len() == 7,
                    self.states == old(self).states,
                    self.states.wf(),
                    self.queued@.len() == k,
                    forall|i: int| 0 <= i < k ==> is_spawn_piece(#[trigger] self.queued@[i]),
                    forall|i: int| 0 <= i < k ==> (#[trigger] self.queued@[i]).shape == shuffled[i],
                decreases 7 - k,
            {
                let piece = Tetrimino::new(types[k], self);
                self.queued.push_back(piece);
                k = k + 1;
            }
            was_empty = true;
            proof {
                assert(self.queued@.len() == 7);
                assert(forall|i: int|
                    0 <= i < 7 ==> is_spawn_piece(#[trigger] self.queued@[i]));
                assert(shapes_of(self.queued@) =~= shuffled);
                assert(is_fresh_bag(self.queued@));
            }
        }
        was_empty
    }

    /// The piece the next draw will hand out, without consuming it; deals a
    /// fresh bag first if the queue is empty.
    pub fn peek(&mut self) -> (r: Tetrimino)
        requires
            old(self).wf(),
        ensures
            final(self).wf(),
            final(self).states == old(self).states,
            final(self).queued@.len() > 0,
            old(self).queued@.len() > 0 ==> final(self).queued@ == old(self).queued@,
            old(self).queued@.len() == 0 ==> is_fresh_bag(final(self).queued@),
            piece_equiv(r, final(self).queued@[0]),
    {
        self.maybe_refill_queue();
        let front = &self.queued[0];
        front.clone()
    }

    /// Draw the next piece, dealing a fresh bag first if the queue is empty.
    /// The draw always yields a piece.
    pub fn next(&mut self) -> (r: Option<Tetrimino>)
        requires
            old(self).wf(),
        ensures
            final(self).wf(),
            final(self).states == old(self).states,
            r is Some,
            draw_post(old(self).queued@, final(self).queued@, r->0),
            is_spawn_piece(r->0),
    {
        self.maybe_refill_queue();
        let ghost filled = self.queued@;
        let r = self.queued.pop_front();
        proof {
            assert(filled.len() > 0);
            assert(r is Some);
            let drawn = r->0;
            assert(drawn == filled[0]);
            assert(self.queued@ == filled.subrange(1, filled.len() as int));
            assert(self.queued@ =~= filled.drop_first());
            if old(self).queued@.len() == 0 {
                assert(seq![drawn] + self.queued@ =~= filled);
            }
        }
        r
    }
}

} // verus!
