//! The simulation engine: gravity, player movement, hard drops, and the
//! lock sequence, one step per frame.
//!
//! Each phase follows the same pattern: erase the active piece's cells from
//! the board, move tentatively, validate against the board without the
//! piece's own footprint, then either commit and redraw, or revert and
//! redraw at the prior spot. A piece that cannot fall locks: its cells are
//! written into the board, full rows are cleared, the cutoff row decides
//! game over, and a fresh piece spawns.

use vstd::prelude::*;

use crate::block::BlockType;
use crate::block::CurrentBlock;
use crate::block::is_spawn;
use crate::block::locations_spec;
use crate::block::lemma_locations_shape;
use crate::block::get_locations;
use crate::board::World;
use crate::board::fill;
use crate::board::fill_spec;
use crate::board::valid_position;
use crate::board::valid_spec;
use crate::board::row_clearing;
use crate::board::clear_spec;
use crate::board::check_game_over;
use crate::board::cutoff_breached_spec;
use crate::board::piece_wf;

verus! {

/// The board with the active piece's current cells erased, so that
/// validation does not treat the piece's own footprint as an obstacle.
pub open spec fn erase_grid(g: Seq<BlockType>, c: CurrentBlock) -> Seq<BlockType> {
    fill_spec(g, locations_spec(c.kind), c.location.0 as int, c.location.1 as int, BlockType::No)
}

/// The board with the active piece's cells drawn in its kind's state.
pub open spec fn draw_grid(g: Seq<BlockType>, c: CurrentBlock) -> Seq<BlockType> {
    fill_spec(g, locations_spec(c.kind), c.location.0 as int, c.location.1 as int, c.kind)
}

/// Whether a piece of the given kind may stand with its origin at (ox, oy).
pub open spec fn piece_valid_at(g: Seq<BlockType>, kind: BlockType, ox: int, oy: int) -> bool {
    valid_spec(g, locations_spec(kind), ox, oy)
}

/// The piece shifted by (dx, dy).
pub open spec fn moved(c: CurrentBlock, dx: int, dy: int) -> CurrentBlock {
    CurrentBlock {
        location: ((c.location.0 + dx) as i32, (c.location.1 + dy) as i32),
        rotation: c.rotation,
        kind: c.kind,
    }
}

/// How one gravity tick takes the board and piece (g0, c0) to (g1, c1): the
/// erased piece tries to move one row down; if the new spot is valid the
/// piece is redrawn there and keeps falling, otherwise it locks where it
/// was: its cells are committed, full rows cleared, the cutoff row checked,
/// and a fresh piece spawned.
pub open spec fn gravity_rel(
    g0: Seq<BlockType>,
    c0: CurrentBlock,
    g1: Seq<BlockType>,
    c1: CurrentBlock,
    over: bool,
) -> bool {
    let ge = erase_grid(g0, c0);
    let cd = moved(c0, 0, 1);
    if piece_valid_at(ge, c0.kind, cd.location.0 as int, cd.location.1 as int) {
        g1 == draw_grid(ge, cd) && c1 == cd && !over
    } else {
        let locked = clear_spec(draw_grid(ge, c0));
        g1 == locked && over == cutoff_breached_spec(locked) && is_spawn(c1)
    }
}

/// Applies one gravity tick to the world, locking the piece if it cannot
/// fall; returns whether the lock ended the game.
pub fn gravity_step(world: &mut World) -> (over: bool)
    requires
        old(world).wf(),
    ensures
        final(world).wf(),
        gravity_rel(old(world).grid@, old(world).current, final(world).grid@, final(world).current, over),
{
    let ghost g0 = world.grid@;
    let ghost c0 = world.current;
    proof {
        lemma_locations_shape(c0.kind);
    }

    let locs = get_locations(world.current.kind);
    let off = world.current.location;
    fill(world, locs, off, BlockType::No);
    assert(world.grid@ == erase_grid(g0, c0));

    // Apply gravity: one row down.
    world.current = CurrentBlock {
        location: (off.0, off.1 + 1),
        rotation: world.current.rotation,
        kind: world.current.kind,
    };
    assert(world.current == moved(c0, 0, 1));

    let locs = get_locations(world.current.kind);
    let off = world.current.location;
    let kind = world.current.kind;
    if valid_position(world, locs.as_slice(), off) {
        // Still room below: keep falling.
        fill(world, locs, off, kind);
        assert(locations_spec(c0.kind)[0] == (0i32, 0i32));
        assert(crate::board::offset_ok(
            erase_grid(g0, c0),
            (0i32, 0i32),
            off.0 as int,
            off.1 as int,
        ));
        false
    } else {
        // Freeze the block: revert the vertical move and redraw.
        world.current = CurrentBlock {
            location: (off.0, off.1 - 1),
            rotation: world.current.rotation,
            kind: world.current.kind,
        };
        assert(world.current == c0);
        let locs = get_locations(world.current.kind);
        let off = world.current.location;
        let kind = world.current.kind;
        fill(world, locs, off, kind);
        assert(world.grid@ == draw_grid(erase_grid(g0, c0), c0));

        row_clearing(world);
        let over = check_game_over(world);
        world.current = CurrentBlock::new();
        over
    }
}

/// How a horizontal input takes (g0, c0) to (g1, c1): the erased piece
/// shifts one column left or right (left has precedence when both fire, and
/// no input leaves it in place); if the shifted spot is valid the piece is
/// redrawn there, otherwise it is redrawn unmoved.
pub open spec fn horizontal_rel(
    g0: Seq<BlockType>,
    c0: CurrentBlock,
    move_left: bool,
    move_right: bool,
    g1: Seq<BlockType>,
    c1: CurrentBlock,
) -> bool {
    let ge = erase_grid(g0, c0);
    let ct = if move_left {
        moved(c0, -1, 0)
    } else if move_right {
        moved(c0, 1, 0)
    } else {
        c0
    };
    if piece_valid_at(ge, c0.kind, ct.location.0 as int, ct.location.1 as int) {
        g1 == draw_grid(ge, ct) && c1 == ct
    } else {
        g1 == draw_grid(ge, c0) && c1 == c0
    }
}

/// Applies one step's horizontal input to the world. A shift into an
/// invalid spot is reverted, never committed.
pub fn horizontal_step(world: &mut World, move_left: bool, move_right: bool)
    requires
        old(world).wf(),
    ensures
        final(world).wf(),
        horizontal_rel(
            old(world).grid@,
            old(world).current,
            move_left,
            move_right,
            final(world).grid@,
            final(world).current,
        ),
{
    let ghost g0 = world.grid@;
    let ghost c0 = world.current;
    proof {
        lemma_locations_shape(c0.kind);
    }

    let locs = get_locations(world.current.kind);
    let orig = world.current.location;
    fill(world, locs, orig, BlockType::No);
    assert(world.grid@ == erase_grid(g0, c0));

    if move_left {
        world.current = CurrentBlock {
            location: (orig.0 - 1, orig.1),
            rotation: world.current.rotation,
            kind: world.current.kind,
        };
        assert(world.current == moved(c0, -1, 0));
    } else if move_right {
        world.current = CurrentBlock {
            location: (orig.0 + 1, orig.1),
            rotation: world.current.rotation,
            kind: world.current.kind,
        };
        assert(world.current == moved(c0, 1, 0));
    }

    let locs = get_locations(world.current.kind);
    let off = world.current.location;
    let kind = world.current.kind;
    if valid_position(world, locs.as_slice(), off) {
        fill(world, locs, off, kind);
        assert(locations_spec(c0.kind)[0] == (0i32, 0i32));
        assert(crate::board::offset_ok(
            erase_grid(g0, c0),
            (0i32, 0i32),
            off.0 as int,
            off.1 as int,
        ));
    } else {
        // Undo the shift and redraw where the piece stood.
        world.current = CurrentBlock {
            location: orig,
            rotation: world.current.rotation,
            kind: world.current.kind,
        };
        assert(world.current == c0);
        let locs = get_locations(world.current.kind);
        let kind = world.current.kind;
        fill(world, locs, orig, kind);
    }
}

/// The resting row of a hard drop that starts probing at row `y`: the row
/// just above the first row at or below `y` where the piece does not fit.
pub open spec fn drop_rest(g: Seq<BlockType>, kind: BlockType, x: int, y: int) -> int
    decreases 22 - y,
{
    if y > 21 {
        y - 1
    } else if !piece_valid_at(g, kind, x, y) {
        y - 1
    } else {
        drop_rest(g, kind, x, y + 1)
    }
}

/// The resting row of a drop probe lies between one above the start and the
/// bottom; the piece fits at every row from the start through the resting
/// row, and not one row further down.
pub proof fn lemma_drop_rest_props(g: Seq<BlockType>, kind: BlockType, x: int, y0: int)
    requires
        y0 <= 21,
    ensures
        y0 - 1 <= drop_rest(g, kind, x, y0) <= 21,
        forall|y: int|
            y0 <= y <= drop_rest(g, kind, x, y0) ==> #[trigger] piece_valid_at(g, kind, x, y),
        drop_rest(g, kind, x, y0) <= 20 ==> !piece_valid_at(g, kind, x, drop_rest(g, kind, x, y0) + 1),
    decreases 22 - y0,
{
    let r = drop_rest(g, kind, x, y0);
    if !piece_valid_at(g, kind, x, y0) {
        assert(r == y0 - 1);
    } else if y0 == 21 {
        assert(r == drop_rest(g, kind, x, 22));
        assert(drop_rest(g, kind, x, 22) == 21);
        assert(piece_valid_at(g, kind, x, 21));
    } else {
        lemma_drop_rest_props(g, kind, x, y0 + 1);
        assert(r == drop_rest(g, kind, x, y0 + 1));
        assert forall|y: int| y0 <= y <= r implies #[trigger] piece_valid_at(g, kind, x, y) by {
            if y > y0 {
                assert(piece_valid_at(g, kind, x, y));
            }
        }
    }
}

/// How a hard drop takes (g0, c0) to (g1, c1): the erased piece falls to
/// its resting row, locks there (cells committed, full rows cleared, the
/// cutoff row checked), and a fresh piece spawns.
pub open spec fn drop_rel(
    g0: Seq<BlockType>,
    c0: CurrentBlock,
    g1: Seq<BlockType>,
    c1: CurrentBlock,
    over: bool,
) -> bool {
    let ge = erase_grid(g0, c0);
    let rest = drop_rest(ge, c0.kind, c0.location.0 as int, c0.location.1 as int);
    let cr = CurrentBlock {
        location: (c0.location.0, rest as i32),
        rotation: c0.rotation,
        kind: c0.kind,
    };
    let locked = clear_spec(draw_grid(ge, cr));
    g1 == locked && over == cutoff_breached_spec(locked) && is_spawn(c1)
}

/// Drops the piece to the lowest spot it can reach in its column, locks it
/// there, and spawns a fresh piece; returns whether the lock ended the game.
pub fn hard_drop_step(world: &mut World) -> (over: bool)
    requires
        old(world).wf(),
    ensures
        final(world).wf(),
        drop_rel(old(world).grid@, old(world).current, final(world).grid@, final(world).current, over),
{
    let ghost g0 = world.grid@;
    let ghost c0 = world.current;
    proof {
        lemma_locations_shape(c0.kind);
    }

    // Remove the old footprint.
    let locs = get_locations(world.current.kind);
    let off = world.current.location;
    fill(world, locs, off, BlockType::No);
    assert(world.grid@ == erase_grid(g0, c0));
    let ghost ge = erase_grid(g0, c0);
    let ghost y0 = c0.location.1 as int;

    let locs = get_locations(world.current.kind);
    let x: i32 = world.current.location.0;
    let mut y: i32 = world.current.location.1;
    while valid_position(world, locs.as_slice(), (x, y))
        invariant
            world.wf(),
            world.grid@ == ge,
            world.current == c0,
            locs@ == locations_spec(c0.kind),
            locations_spec(c0.kind)[0] == (0i32, 0i32),
            x == c0.location.0,
            y0 <= y <= 21,
            drop_rest(ge, c0.kind, x as int, y0) == drop_rest(ge, c0.kind, x as int, y as int),
        decreases 21 - y,
    {
        // Go down until the next row does not fit.
        assert(crate::board::offset_ok(ge, (0i32, 0i32), x as int, y as int));
        assert(y <= 19);
        y = y + 1;
    }
    assert(drop_rest(ge, c0.kind, x as int, y0) == y - 1);
    let rest: i32 = y - 1;
    world.current = CurrentBlock {
        location: (x, rest),
        rotation: world.current.rotation,
        kind: world.current.kind,
    };

    // Smashed down: commit the piece where it rests.
    let locs = get_locations(world.current.kind);
    let off = world.current.location;
    let kind = world.current.kind;
    fill(world, locs, off, kind);

    row_clearing(world);
    let over = check_game_over(world);
    world.current = CurrentBlock::new();
    over
}

/// The gravity phase of a step: one tick when the clock fired, else no
/// change and no game-over signal.
pub open spec fn gravity_phase(
    g0: Seq<BlockType>,
    c0: CurrentBlock,
    tick: bool,
    g1: Seq<BlockType>,
    c1: CurrentBlock,
    over: bool,
) -> bool {
    if tick {
        gravity_rel(g0, c0, g1, c1, over)
    } else {
        g1 == g0 && c1 == c0 && !over
    }
}

/// The hard-drop phase of a step: a drop when the event fired, else no
/// change and no game-over signal.
pub open spec fn drop_phase(
    g2: Seq<BlockType>,
    c2: CurrentBlock,
    dropped: bool,
    gf: Seq<BlockType>,
    cf: CurrentBlock,
    over: bool,
) -> bool {
    if dropped {
        drop_rel(g2, c2, gf, cf, over)
    } else {
        gf == g2 && cf == c2 && !over
    }
}

/// How one whole step takes (g0, c0) to (gf, cf): the gravity phase if the
/// clock fired, then the horizontal phase, then the hard-drop phase if the
/// event fired; the step signals game over when either lock did.
pub open spec fn step_rel(
    g0: Seq<BlockType>,
    c0: CurrentBlock,
    tick: bool,
    move_left: bool,
    move_right: bool,
    dropped: bool,
    gf: Seq<BlockType>,
    cf: CurrentBlock,
    over: bool,
) -> bool {
    exists|g1: Seq<BlockType>, c1: CurrentBlock, o1: bool, g2: Seq<BlockType>, c2: CurrentBlock, o2: bool|
        {
            &&& #[trigger] gravity_phase(g0, c0, tick, g1, c1, o1)
            &&& horizontal_rel(g1, c1, move_left, move_right, g2, c2)
            &&& #[trigger] drop_phase(g2, c2, dropped, gf, cf, o2)
            &&& over == (o1 || o2)
        }
}

/// Runs one step of the simulation: the gravity tick if the clock fired,
/// then the horizontal input (left has precedence over right), then the
/// hard drop if that event fired. Returns true when a lock this step ended
/// the game; the host then stops stepping.
pub fn step(
    world: &mut World,
    tick: bool,
    move_left: bool,
    move_right: bool,
    hard_drop: bool,
) -> (over: bool)
    requires
        old(world).wf(),
    ensures
        final(world).wf(),
        step_rel(
            old(world).grid@,
            old(world).current,
            tick,
            move_left,
            move_right,
            hard_drop,
            final(world).grid@,
            final(world).current,
            over,
        ),
{
    let mut over1 = false;
    if tick {
        over1 = gravity_step(world);
    }
    let ghost g1 = world.grid@;
    let ghost c1 = world.current;

    horizontal_step(world, move_left, move_right);
    let ghost g2 = world.grid@;
    let ghost c2 = world.current;

    let mut over2 = false;
    if hard_drop {
        over2 = hard_drop_step(world);
    }
    proof {
        assert(gravity_phase(old(world).grid@, old(world).current, tick, g1, c1, over1));
        assert(horizontal_rel(g1, c1, move_left, move_right, g2, c2));
        assert(drop_phase(g2, c2, hard_drop, world.grid@, world.current, over2));
    }
    over1 || over2
}

/// A move left when some occupied cell of the piece already sits in column
/// 0 is rejected: the piece and the board stay exactly as a redraw in place
/// leaves them.
pub proof fn lemma_move_left_at_wall(
    g0: Seq<BlockType>,
    c0: CurrentBlock,
    g1: Seq<BlockType>,
    c1: CurrentBlock,
    k: int,
)
    requires
        horizontal_rel(g0, c0, true, false, g1, c1),
        0 <= k < locations_spec(c0.kind).len(),
        c0.location.0 + locations_spec(c0.kind)[k].0 == 0,
    ensures
        c1 == c0,
        g1 == draw_grid(erase_grid(g0, c0), c0),
{
    let ge = erase_grid(g0, c0);
    let ct = moved(c0, -1, 0);
    assert(!crate::board::offset_ok(ge, locations_spec(c0.kind)[k], ct.location.0 as int, ct.location.1 as int));
    assert(!piece_valid_at(ge, c0.kind, ct.location.0 as int, ct.location.1 as int));
}

/// On an empty board a placement that fails never succeeds lower down: once
/// a piece does not fit at a row, it does not fit at any deeper row either.
proof fn lemma_empty_board_valid_monotone(g: Seq<BlockType>, kind: BlockType, x: int, y: int, y2: int)
    requires
        g.len() == crate::board::grid_len(),
        crate::board::grid_all_empty(g),
        !piece_valid_at(g, kind, x, y),
        y2 >= y,
    ensures
        !piece_valid_at(g, kind, x, y2),
{
    let locs = locations_spec(kind);
    let k = choose|k: int|
        0 <= k < locs.len() && !crate::board::offset_ok(g, #[trigger] locs[k], x, y);
    assert forall|cx: int, cy: int| crate::board::in_board(cx, cy) implies crate::board::cell(
        g,
        cx,
        cy,
    ) == BlockType::No by {
        assert(0 <= crate::board::cell_index(cx, cy) < g.len());
    }
    assert(!crate::board::offset_ok(g, locs[k], x, y2));
}

/// A hard drop from a valid position on an empty board lands the piece at
/// the greatest row where it fits — every deeper placement is invalid —
/// locks it there, and spawns a fresh piece.
pub proof fn lemma_hard_drop_empty_board(
    g0: Seq<BlockType>,
    c0: CurrentBlock,
    g1: Seq<BlockType>,
    c1: CurrentBlock,
    over: bool,
)
    requires
        drop_rel(g0, c0, g1, c1, over),
        g0.len() == crate::board::grid_len(),
        crate::board::grid_all_empty(g0),
        piece_wf(c0),
        piece_valid_at(erase_grid(g0, c0), c0.kind, c0.location.0 as int, c0.location.1 as int),
    ensures
        is_spawn(c1),
        ({
            let ge = erase_grid(g0, c0);
            let rest = drop_rest(ge, c0.kind, c0.location.0 as int, c0.location.1 as int);
            &&& c0.location.1 <= rest <= 20
            &&& piece_valid_at(ge, c0.kind, c0.location.0 as int, rest)
            &&& forall|y: int| y > rest ==> !piece_valid_at(ge, c0.kind, c0.location.0 as int, y)
            &&& g1 == clear_spec(
                draw_grid(
                    ge,
                    CurrentBlock {
                        location: (c0.location.0, rest as i32),
                        rotation: c0.rotation,
                        kind: c0.kind,
                    },
                ),
            )
        }),
{
    let ge = erase_grid(g0, c0);
    let ox = c0.location.0 as int;
    let oy = c0.location.1 as int;
    assert(crate::board::grid_all_empty(ge)) by {
        assert(forall|i: int| 0 <= i < ge.len() ==> ge[i] == BlockType::No);
    }
    lemma_locations_shape(c0.kind);
    assert(crate::board::offset_ok(ge, (0i32, 0i32), ox, oy));
    assert(oy <= 19);
    lemma_drop_rest_props(ge, c0.kind, ox, oy);
    let rest = drop_rest(ge, c0.kind, ox, oy);
    assert(piece_valid_at(ge, c0.kind, ox, oy));
    assert(oy <= rest);
    assert(rest <= 20) by {
        if rest == 21 {
            assert(piece_valid_at(ge, c0.kind, ox, 21));
            assert(crate::board::offset_ok(ge, (0i32, 0i32), ox, 21));
        }
    }
    assert(!piece_valid_at(ge, c0.kind, ox, rest + 1));
    assert forall|y: int| y > rest implies !piece_valid_at(ge, c0.kind, ox, y) by {
        lemma_empty_board_valid_monotone(ge, c0.kind, ox, rest + 1, y);
    }
}

} // verus!
