//! The engine's cross-cutting guarantees, stated and proved over the same
//! spec functions the methods' contracts use: legality is preserved by
//! accepted movements, blocked movements change nothing, a fresh bag holds
//! every shape exactly once, and an empty sweep clears nothing.

use vstd::multiset::Multiset;
use vstd::prelude::*;
use vstd::seq_lib::to_multiset_build;

use crate::models::{
    all_types_seq, clear_from, cleared_from, direction_delta, is_fresh_bag, is_spawn_piece,
    lemma_frame_blocks_translate, placed_blocks, row_count, shape_frames_spec, shapes_of,
    translate_block, translate_blocks, Block, Direction, Movement, Tetrimino, TetriminoType,
};
use crate::{
    move_result, movement_applies, moved_piece, peek_blocks_spec, tick_post, Game, States,
};

verus! {

broadcast use vstd::seq_lib::group_to_multiset_ensures, vstd::multiset::group_multiset_axioms;

/// Applying a movement puts the piece exactly on the cells `peek` showed.
pub proof fn lemma_moved_piece_blocks(p: Tetrimino, m: Movement)
    requires
        p.wf(),
    ensures
        moved_piece(p, m).blocks_spec() == peek_blocks_spec(p, m),
{
    match m {
        Movement::Rotate => {
            let moved = moved_piece(p, m);
            assert(p.rotation.internal@.len() == p.rotation.internal.len());
            assert(p.rotation.frames().len() == p.rotation.internal@.len());
            assert(0 <= p.rotation.next_idx_spec() < p.rotation.frames().len());
            assert(moved.rotation.curr_idx as int == p.rotation.next_idx_spec());
            assert(moved.curr_frame() == p.rotation.frames()[p.rotation.next_idx_spec()]);
        },
        Movement::Shift(d) => {
            let delta = direction_delta(d);
            let f = p.curr_frame();
            lemma_frame_blocks_translate(
                f,
                f.len() as int,
                p.x as int,
                p.y as int,
                delta.0,
                delta.1,
                p.shape,
            );
            assert(moved_piece(p, m).curr_frame() == f);
            assert(moved_piece(p, m).blocks_spec() == placed_blocks(
                f,
                p.x + delta.0,
                p.y + delta.1,
                p.shape,
            ));
        },
    }
}

/// A movement the playfield allows leaves the active piece on legal cells:
/// whenever a rotation, a shift, or a gravity step is accepted, the piece it
/// produces lies in bounds and on free cells.
pub proof fn lemma_move_keeps_legal(g: Game, m: Movement)
    requires
        g.wf(),
        g.state != States::Clearing,
        movement_applies(g, m),
    ensures
        g.grid.legal_spec(move_result(g, m).active.blocks_spec()),
{
    lemma_moved_piece_blocks(g.active, m);
}

/// A shift toward the left wall is rejected outright when some block of the
/// piece already touches it: the game, and so the piece, is left unchanged.
pub proof fn lemma_left_shift_rejected(g: Game, i: int)
    requires
        g.wf(),
        0 <= i < g.active.blocks_spec().len(),
        g.active.blocks_spec()[i].x == 0,
    ensures
        move_result(g, Movement::Shift(Direction::Left)) == g,
{
    if g.state != States::Clearing {
        let bs = g.active.blocks_spec();
        let translated = translate_blocks(bs, -1, 0);
        assert(translated[i] == translate_block(bs[i], -1, 0));
        assert(translated[i].x == -1int);
        assert(!g.grid.legal_spec(translated));
    }
}

/// A freshly spawned piece is legal on an empty field of the standard size
/// or larger: every shape's first frame keeps its top row empty, so all four
/// cells land in columns 3..=6 and rows 18..=20.
pub proof fn lemma_spawn_legal(g: crate::models::Grid, p: Tetrimino)
    requires
        is_spawn_piece(p),
        g.width >= 7,
        g.height >= 20,
        g.blocks@.len() == 0,
    ensures
        g.legal_spec(p.blocks_spec()),
{
    crate::models::lemma_shape_frames_wf(p.shape);
    let f = p.curr_frame();
    assert(f == shape_frames_spec(p.shape)[0]);
    let top = f[0];
    assert forall|c: int| 0 <= c < top.len() implies !top[c] by {
        match p.shape {
            TetriminoType::O => {},
            TetriminoType::I => {},
            TetriminoType::T => {},
            TetriminoType::S => {},
            TetriminoType::Z => {},
            TetriminoType::J => {},
            TetriminoType::L => {},
        }
    }
    crate::models::lemma_frame_blocks_bounds(f, f.len() as int, 3, 21, p.shape);
    crate::models::lemma_frame_blocks_below_origin(f, f.len() as int, 3, 21, p.shape);
    let bs = p.blocks_spec();
    assert forall|i: int| 0 <= i < bs.len() implies {
        let b = #[trigger] bs[i];
        &&& 0 <= b.x < g.width
        &&& 1 <= b.y <= g.height
        &&& !crate::models::occupied(g.blocks@, b.x as int, b.y as int)
    } by {
        assert(3 <= bs[i].x < 7);
        assert(21 - f.len() < bs[i].y < 21);
    }
}

/// How many of the pieces' shapes equal `t`.
pub open spec fn shape_count(s: Seq<TetriminoType>, t: TetriminoType) -> nat
    decreases s.len(),
{
    if s.len() == 0 {
        0
    } else {
        shape_count(s.drop_last(), t) + if s.last() == t {
            1nat
        } else {
            0nat
        }
    }
}

/// Counting occurrences in a sequence agrees with its multiset.
proof fn lemma_shape_count_multiset(s: Seq<TetriminoType>, t: TetriminoType)
    ensures
        shape_count(s, t) == s.to_multiset().count(t),
    decreases s.len(),
{
    if s.len() == 0 {
        assert(s.to_multiset().len() == 0);
        assert(s.to_multiset().count(t) == 0);
    } else {
        let prefix = s.drop_last();
        lemma_shape_count_multiset(prefix, t);
        to_multiset_build(prefix, s.last());
        assert(prefix.push(s.last()) =~= s);
    }
}

/// Each shape occurs exactly once in the roster.
proof fn lemma_all_types_count(t: TetriminoType)
    ensures
        shape_count(all_types_seq(), t) == 1,
{
    let s7 = all_types_seq();
    let s6 = seq![
        TetriminoType::O,
        TetriminoType::I,
        TetriminoType::T,
        TetriminoType::S,
        TetriminoType::Z,
        TetriminoType::J,
    ];
    let s5 = seq![
        TetriminoType::O,
        TetriminoType::I,
        TetriminoType::T,
        TetriminoType::S,
        TetriminoType::Z,
    ];
    let s4 = seq![TetriminoType::O, TetriminoType::I, TetriminoType::T, TetriminoType::S];
    let s3 = seq![TetriminoType::O, TetriminoType::I, TetriminoType::T];
    let s2 = seq![TetriminoType::O, TetriminoType::I];
    let s1 = seq![TetriminoType::O];
    let s0 = Seq::<TetriminoType>::empty();
    assert(s7.drop_last() =~= s6);
    assert(s6.drop_last() =~= s5);
    assert(s5.drop_last() =~= s4);
    assert(s4.drop_last() =~= s3);
    assert(s3.drop_last() =~= s2);
    assert(s2.drop_last() =~= s1);
    assert(s1.drop_last() =~= s0);
    assert(shape_count(s1, t) == shape_count(s0, t) + (if s1.last() == t { 1nat } else { 0nat }));
    assert(shape_count(s2, t) == shape_count(s1, t) + (if s2.last() == t { 1nat } else { 0nat }));
    assert(shape_count(s3, t) == shape_count(s2, t) + (if s3.last() == t { 1nat } else { 0nat }));
    assert(shape_count(s4, t) == shape_count(s3, t) + (if s4.last() == t { 1nat } else { 0nat }));
    assert(shape_count(s5, t) == shape_count(s4, t) + (if s5.last() == t { 1nat } else { 0nat }));
    assert(shape_count(s6, t) == shape_count(s5, t) + (if s6.last() == t { 1nat } else { 0nat }));
    assert(shape_count(s7, t) == shape_count(s6, t) + (if s7.last() == t { 1nat } else { 0nat }));
    match t {
        TetriminoType::O => {},
        TetriminoType::I => {},
        TetriminoType::T => {},
        TetriminoType::S => {},
        TetriminoType::Z => {},
        TetriminoType::J => {},
        TetriminoType::L => {},
    }
}

/// The seven-bag guarantee: the seven pieces of a freshly dealt bag — and so
/// any seven consecutive draws starting at a bag boundary — hand out every
/// shape exactly once.
pub proof fn lemma_seven_bag(q: Seq<Tetrimino>, t: TetriminoType)
    requires
        is_fresh_bag(q),
    ensures
        q.len() == 7,
        shape_count(shapes_of(q), t) == 1,
{
    lemma_shape_count_multiset(shapes_of(q), t);
    lemma_shape_count_multiset(all_types_seq(), t);
    lemma_all_types_count(t);
}

/// The difficulty curve never eases off: a higher level never grants a
/// longer fall countdown.
pub proof fn lemma_fall_table_monotonic(l1: u8, l2: u8)
    requires
        l1 <= l2 <= 20,
    ensures
        crate::fall_table_spec(l1) >= crate::fall_table_spec(l2),
{
}

/// Sweeping a field with no full row below `r` removes nothing: the locked
/// blocks are unchanged and zero rows are cleared.
pub proof fn lemma_clear_no_full_rows(s: Seq<Block>, width: int, r: int)
    requires
        forall|y: int| 0 <= y <= r ==> #[trigger] row_count(s, y) != width,
    ensures
        clear_from(s, width, r) == s,
        cleared_from(s, width, r) == 0,
    decreases r + 1,
{
    if r >= 0 {
        lemma_clear_no_full_rows(s, width, r - 1);
    }
}

/// A tick preserves the playfield invariant.  The one tick that adds cells
/// is the lock at the end of the lock countdown, so it is the one that needs
/// the resting piece to be on legal cells — which every piece reached
/// through legal spawns and accepted movements is.
pub proof fn lemma_tick_preserves_grid_wf(pre: Game, post: Game)
    requires
        pre.wf(),
        pre.grid.wf(),
        tick_post(pre, post),
        pre.state == States::Locking && pre.lock_ticks == 0 ==> pre.grid.legal_spec(
            pre.active.blocks_spec(),
        ),
    ensures
        post.grid.wf(),
{
    match pre.state {
        States::Locking => {
            if pre.lock_ticks == 0 {
                pre.grid.lemma_lock_preserves_wf(pre.active);
            }
        },
        States::Clearing => {
            if pre.grid.has_full_row() && pre.clear_ticks == 0 {
                pre.grid.lemma_clear_preserves_wf();
            }
        },
        States::Falling => {
        },
    }
}

} // verus!
