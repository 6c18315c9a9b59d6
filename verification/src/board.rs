//! The board: a 10 x 20 grid of cell states held row-major (row 0 at the
//! top), with its query and mutation operations, and the line-clearing pass.

use vstd::prelude::*;
use vstd::arithmetic::div_mod::lemma_fundamental_div_mod;
use vstd::arithmetic::div_mod::lemma_mod_bound;

use crate::block::BlockType;
use crate::block::CurrentBlock;
use crate::block::is_spawn;

verus! {

/// Number of cells of the board.
pub open spec fn grid_len() -> int {
    crate::WIDTH * crate::HEIGHT
}

/// Index of the cell at column `x` of row `y` in the row-major grid.
pub open spec fn cell_index(x: int, y: int) -> int {
    y * crate::WIDTH + x
}

/// Whether (x, y) lies on the board.
pub open spec fn in_board(x: int, y: int) -> bool {
    0 <= x < crate::WIDTH && 0 <= y < crate::HEIGHT
}

/// The state of the cell at column `x` of row `y`.
pub open spec fn cell(g: Seq<BlockType>, x: int, y: int) -> BlockType {
    g[cell_index(x, y)]
}

/// Whether every cell of row `y` is occupied.
pub open spec fn row_is_full(g: Seq<BlockType>, y: int) -> bool {
    forall|x: int| 0 <= x < crate::WIDTH ==> cell(g, x, y) != BlockType::No
}

/// Whether some cell of the cutoff row is occupied: the game-over signal.
pub open spec fn cutoff_breached_spec(g: Seq<BlockType>) -> bool {
    exists|x: int| 0 <= x < crate::WIDTH && cell(g, x, crate::CUTOFF as int) != BlockType::No
}

/// Whether every cell of the grid is empty.
pub open spec fn grid_all_empty(g: Seq<BlockType>) -> bool {
    forall|i: int| 0 <= i < g.len() ==> g[i] == BlockType::No
}

/// The active piece keeps its kind non-empty and its origin within one row
/// of the board: columns stay on the board, and the origin row ranges from
/// the spawn row down to just below the bottom.
pub open spec fn piece_wf(c: CurrentBlock) -> bool {
    &&& c.kind != BlockType::No
    &&& 0 <= c.location.0 < crate::WIDTH
    &&& 0 <= c.location.1 <= crate::HEIGHT + 1
}

/// The grid of settled cell states plus the currently falling piece.
pub struct World {
    pub grid: Vec<BlockType>,
    pub current: CurrentBlock,
}

impl World {
    /// The grid holds exactly one state per board cell.
    pub open spec fn grid_ok(self) -> bool {
        self.grid@.len() == grid_len()
    }

    /// Well-formedness: a full grid and a sane active piece.
    pub open spec fn wf(self) -> bool {
        self.grid_ok() && piece_wf(self.current)
    }

    /// A fresh world: every cell empty, with a newly spawned random piece.
    pub fn new() -> (w: World)
        ensures
            w.wf(),
            grid_all_empty(w.grid@),
            is_spawn(w.current),
    {
        let mut grid: Vec<BlockType> = Vec::new();
        let mut i: usize = 0;
        while i < 200
            invariant
                i <= 200,
                grid@.len() == i,
                forall|j: int| 0 <= j < i ==> grid@[j] == BlockType::No,
            decreases 200 - i,
        {
            grid.push(BlockType::No);
            i = i + 1;
        }
        World { grid, current: CurrentBlock::new() }
    }

    /// Reads the cell at column `x` of row `y`.
    pub fn get(&self, x: usize, y: usize) -> (b: BlockType)
        requires
            self.grid_ok(),
            x < crate::WIDTH,
            y < crate::HEIGHT,
        ensures
            b == cell(self.grid@, x as int, y as int),
    {
        self.grid[y * 10 + x]
    }

    /// Writes the cell at column `x` of row `y`; out-of-range coordinates
    /// leave the board unchanged.
    pub fn set(&mut self, x: i32, y: i32, state: BlockType)
        requires
            old(self).grid_ok(),
        ensures
            final(self).grid_ok(),
            final(self).current == old(self).current,
            in_board(x as int, y as int) ==> final(self).grid@ == old(self).grid@.update(
                cell_index(x as int, y as int),
                state,
            ),
            !in_board(x as int, y as int) ==> final(self).grid@ == old(self).grid@,
    {
        if 0 <= x && x < 10 && 0 <= y && y < 20 {
            let idx: usize = (y as usize) * 10 + (x as usize);
            self.grid.set(idx, state);
        }
    }

    /// True iff every cell of row `y` is occupied.
    pub fn is_row_full(&self, y: usize) -> (r: bool)
        requires
            self.grid_ok(),
            y < crate::HEIGHT,
        ensures
            r == row_is_full(self.grid@, y as int),
    {
        let mut x: usize = 0;
        while x < 10
            invariant
                self.grid_ok(),
                y < crate::HEIGHT,
                x <= 10,
                forall|c: int| 0 <= c < x ==> cell(self.grid@, c, y as int) != BlockType::No,
            decreases 10 - x,
        {
            if self.grid[y * 10 + x] == BlockType::No {
                assert(cell(self.grid@, x as int, y as int) == BlockType::No);
                return false;
            }
            x = x + 1;
        }
        true
    }

    /// True iff some cell of the cutoff row is occupied.
    pub fn is_cutoff_breached(&self) -> (r: bool)
        requires
            self.grid_ok(),
        ensures
            r == cutoff_breached_spec(self.grid@),
    {
        let mut x: usize = 0;
        while x < 10
            invariant
                self.grid_ok(),
                x <= 10,
                forall|c: int| 0 <= c < x ==> cell(self.grid@, c, crate::CUTOFF as int)
                    == BlockType::No,
            decreases 10 - x,
        {
            if self.grid[(crate::CUTOFF as usize) * 10 + x] != BlockType::No {
                assert(cell(self.grid@, x as int, crate::CUTOFF as int) != BlockType::No);
                return true;
            }
            x = x + 1;
        }
        false
    }
}

/// Position of the character for cell (x, y) in a rendered text frame:
/// eleven characters per row, the cells then a line break.
pub open spec fn text_index(y: int, x: int) -> int {
    y * 11 + x
}

impl World {
    /// A text frame of the board: for each of the twenty rows, the display
    /// character of each of its ten cells, then a line break.
    pub fn render_chars(&self) -> (r: Vec<char>)
        requires
            self.grid_ok(),
        ensures
            r@.len() == 220,
            forall|y: int, x: int|
                0 <= y < 20 && 0 <= x < 10 ==> r@[#[trigger] text_index(y, x)] == cell(
                    self.grid@,
                    x,
                    y,
                ).to_char_spec(),
            forall|y: int| 0 <= y < 20 ==> r@[#[trigger] text_index(y, 10)] == '\n',
    {
        let mut out: Vec<char> = Vec::new();
        let mut y: usize = 0;
        while y < 20
            invariant
                self.grid_ok(),
                y <= 20,
                out@.len() == 11 * y,
                forall|ry: int, rx: int|
                    0 <= ry < y && 0 <= rx < 10 ==> out@[#[trigger] text_index(ry, rx)] == cell(
                        self.grid@,
                        rx,
                        ry,
                    ).to_char_spec(),
                forall|ry: int| 0 <= ry < y ==> out@[#[trigger] text_index(ry, 10)] == '\n',
            decreases 20 - y,
        {
            let mut x: usize = 0;
            while x < 10
                invariant
                    self.grid_ok(),
                    y < 20,
                    x <= 10,
                    out@.len() == 11 * y + x,
                    forall|ry: int, rx: int|
                        0 <= ry < y && 0 <= rx < 10 ==> out@[#[trigger] text_index(ry, rx)] == cell(
                            self.grid@,
                            rx,
                            ry,
                        ).to_char_spec(),
                    forall|ry: int| 0 <= ry < y ==> out@[#[trigger] text_index(ry, 10)] == '\n',
                    forall|rx: int|
                        0 <= rx < x ==> out@[#[trigger] text_index(y as int, rx)] == cell(
                            self.grid@,
                            rx,
                            y as int,
                        ).to_char_spec(),
                decreases 10 - x,
            {
                out.push(self.get(x, y).to_char());
                x = x + 1;
            }
            out.push('\n');
            y = y + 1;
        }
        out
    }
}

/// True iff the game is over: some cell of the cutoff row is occupied.
pub fn check_game_over(world: &World) -> (r: bool)
    requires
        world.grid_ok(),
    ensures
        r == cutoff_breached_spec(world.grid@),
{
    world.is_cutoff_breached()
}

/// Whether one of the offsets, shifted by the origin (ox, oy), lands on the
/// board cell with flat index `i`.
pub open spec fn covers(locs: Seq<(i32, i32)>, ox: int, oy: int, i: int) -> bool {
    exists|k: int|
        0 <= k < locs.len() && in_board(ox + (#[trigger] locs[k]).0, oy + locs[k].1)
            && cell_index(ox + locs[k].0, oy + locs[k].1) == i
}

/// The grid after writing `filler` into every board cell that the offsets,
/// shifted by the origin, land on; cells off the board are skipped.
pub open spec fn fill_spec(
    g: Seq<BlockType>,
    locs: Seq<(i32, i32)>,
    ox: int,
    oy: int,
    filler: BlockType,
) -> Seq<BlockType> {
    Seq::new(g.len(), |i: int| if covers(locs, ox, oy, i) { filler } else { g[i] })
}

/// Extending the offsets by one more either covers the same cells or adds
/// the cell that the new offset lands on.
proof fn lemma_covers_take_step(locs: Seq<(i32, i32)>, ox: int, oy: int, k: int, i: int)
    requires
        0 <= k < locs.len(),
    ensures
        covers(locs.take(k + 1), ox, oy, i) <==> (covers(locs.take(k), ox, oy, i) || (in_board(
            ox + locs[k].0,
            oy + locs[k].1,
        ) && cell_index(ox + locs[k].0, oy + locs[k].1) == i)),
{
    let short = locs.take(k);
    let long = locs.take(k + 1);
    if covers(long, ox, oy, i) {
        let w = choose|w: int|
            0 <= w < long.len() && in_board(ox + (#[trigger] long[w]).0, oy + long[w].1)
                && cell_index(ox + long[w].0, oy + long[w].1) == i;
        if w < k {
            assert(short[w] == long[w]);
            assert(covers(short, ox, oy, i));
        } else {
            assert(long[w] == locs[k]);
        }
    }
    if covers(short, ox, oy, i) {
        let w = choose|w: int|
            0 <= w < short.len() && in_board(ox + (#[trigger] short[w]).0, oy + short[w].1)
                && cell_index(ox + short[w].0, oy + short[w].1) == i;
        assert(long[w] == short[w]);
        assert(covers(long, ox, oy, i));
    }
    if in_board(ox + locs[k].0, oy + locs[k].1) && cell_index(ox + locs[k].0, oy + locs[k].1)
        == i {
        assert(long[k] == locs[k]);
        assert(covers(long, ox, oy, i));
    }
}

/// Fills every board cell that the offsets, shifted by the origin, land on
/// with the given state; cells off the board are skipped.
pub fn fill(world: &mut World, locs: Vec<(i32, i32)>, off: (i32, i32), filler: BlockType)
    requires
        old(world).grid_ok(),
    ensures
        final(world).grid_ok(),
        final(world).current == old(world).current,
        final(world).grid@ == fill_spec(
            old(world).grid@,
            locs@,
            off.0 as int,
            off.1 as int,
            filler,
        ),
{
    let ghost g0 = world.grid@;
    let ghost ox = off.0 as int;
    let ghost oy = off.1 as int;
    let mut k: usize = 0;
    while k < locs.len()
        invariant
            k <= locs@.len(),
            world.grid_ok(),
            world.current == old(world).current,
            g0 == old(world).grid@,
            ox == off.0 as int,
            oy == off.1 as int,
            world.grid@ == fill_spec(g0, locs@.take(k as int), ox, oy, filler),
        decreases locs@.len() - k,
    {
        let (a, b) = locs[k];
        let x: i64 = off.0 as i64 + a as i64;
        let y: i64 = off.1 as i64 + b as i64;
        let ghost prev = world.grid@;
        if 0 <= x && x < 10 && 0 <= y && y < 20 {
            let idx: usize = (y as usize) * 10 + (x as usize);
            assert(idx == cell_index(x as int, y as int));
            world.grid.set(idx, filler);
        }
        proof {
            assert forall|i: int| 0 <= i < g0.len() implies world.grid@[i] == fill_spec(
                g0,
                locs@.take(k as int + 1),
                ox,
                oy,
                filler,
            )[i] by {
                lemma_covers_take_step(locs@, ox, oy, k as int, i);
            }
            assert(world.grid@ =~= fill_spec(g0, locs@.take(k as int + 1), ox, oy, filler));
        }
        k = k + 1;
    }
    proof {
        assert(locs@.take(locs@.len() as int) =~= locs@);
    }
}

/// One offset, shifted by the origin, is acceptable: its column is on the
/// board, its row is above the bottom, and where it lies on the board the
/// cell is empty. Rows above the top (negative y) are unconstrained space.
pub open spec fn offset_ok(g: Seq<BlockType>, p: (i32, i32), ox: int, oy: int) -> bool {
    let x = ox + p.0;
    let y = oy + p.1;
    &&& 0 <= x < crate::WIDTH
    &&& y < crate::HEIGHT
    &&& (0 <= y ==> cell(g, x, y) == BlockType::No)
}

/// A placement is valid when every offset of the piece is acceptable.
pub open spec fn valid_spec(g: Seq<BlockType>, locs: Seq<(i32, i32)>, ox: int, oy: int) -> bool {
    forall|k: int| 0 <= k < locs.len() ==> offset_ok(g, #[trigger] locs[k], ox, oy)
}

/// Checks whether the piece cells given by the offsets and origin may be
/// placed: every cell on the board horizontally, above the bottom, and not
/// colliding with a settled block.
pub fn valid_position(world: &World, locs: &[(i32, i32)], off: (i32, i32)) -> (r: bool)
    requires
        world.grid_ok(),
    ensures
        r == valid_spec(world.grid@, locs@, off.0 as int, off.1 as int),
{
    let mut k: usize = 0;
    while k < locs.len()
        invariant
            k <= locs@.len(),
            world.grid_ok(),
            forall|j: int| 0 <= j < k ==> offset_ok(
                world.grid@,
                #[trigger] locs@[j],
                off.0 as int,
                off.1 as int,
            ),
        decreases locs@.len() - k,
    {
        let (a, b) = locs[k];
        let x: i64 = off.0 as i64 + a as i64;
        let y: i64 = off.1 as i64 + b as i64;
        if x < 0 || x >= 10 {
            assert(!offset_ok(world.grid@, locs@[k as int], off.0 as int, off.1 as int));
            return false;
        }
        if y >= 20 {
            // No height check above the board: space up there is infinite.
            assert(!offset_ok(world.grid@, locs@[k as int], off.0 as int, off.1 as int));
            return false;
        }
        if y >= 0 {
            let idx: usize = (y as usize) * 10 + (x as usize);
            assert(idx == cell_index(x as int, y as int));
            if world.grid[idx] != BlockType::No {
                assert(!offset_ok(world.grid@, locs@[k as int], off.0 as int, off.1 as int));
                return false;
            }
        }
        assert(offset_ok(world.grid@, locs@[k as int], off.0 as int, off.1 as int));
        k = k + 1;
    }
    true
}

/// A row of ten empty cells.
pub open spec fn empty_row() -> Seq<BlockType> {
    Seq::new(crate::WIDTH as nat, |x: int| BlockType::No)
}

/// Row `y` of the grid as a sequence of ten cells.
pub open spec fn row_seq(g: Seq<BlockType>, y: int) -> Seq<BlockType> {
    Seq::new(crate::WIDTH as nat, |x: int| cell(g, x, y))
}

/// The grid as its twenty rows, top to bottom.
pub open spec fn rows_of(g: Seq<BlockType>) -> Seq<Seq<BlockType>> {
    Seq::new(crate::HEIGHT as nat, |y: int| row_seq(g, y))
}

/// Whether every cell of a row is occupied.
pub open spec fn row_full_seq(r: Seq<BlockType>) -> bool {
    forall|x: int| 0 <= x < r.len() ==> r[x] != BlockType::No
}

/// The rows that line clearing keeps: the full rows removed, the rest in
/// their original relative order.
pub open spec fn surviving_rows(rs: Seq<Seq<BlockType>>) -> Seq<Seq<BlockType>>
    decreases rs.len(),
{
    if rs.len() == 0 {
        Seq::empty()
    } else {
        let rest = surviving_rows(rs.drop_last());
        if row_full_seq(rs.last()) {
            rest
        } else {
            rest.push(rs.last())
        }
    }
}

/// Clearing keeps at most as many rows as there were.
pub proof fn lemma_surviving_len(rs: Seq<Seq<BlockType>>)
    ensures
        surviving_rows(rs).len() <= rs.len(),
    decreases rs.len(),
{
    if rs.len() > 0 {
        lemma_surviving_len(rs.drop_last());
    }
}

/// A full row appended to the rows is dropped; any other appended row is
/// kept at the end.
pub proof fn lemma_surviving_push(rs: Seq<Seq<BlockType>>, r: Seq<BlockType>)
    ensures
        row_full_seq(r) ==> surviving_rows(rs.push(r)) == surviving_rows(rs),
        !row_full_seq(r) ==> surviving_rows(rs.push(r)) == surviving_rows(rs).push(r),
{
    assert(rs.push(r).drop_last() =~= rs);
    assert(rs.push(r).last() == r);
}

/// Each kept row is one of the original rows, and rows only move downwards:
/// the m-th kept row came from an original index k with m <= k, and k
/// exceeds m by at most the number of rows dropped.
pub proof fn lemma_surviving_source(rs: Seq<Seq<BlockType>>, m: int)
    requires
        0 <= m < surviving_rows(rs).len(),
    ensures
        exists|k: int|
            m <= k <= m + (rs.len() - surviving_rows(rs).len()) && 0 <= k < rs.len()
                && surviving_rows(rs)[m] == rs[k] && !row_full_seq(rs[k]),
    decreases rs.len(),
{
    lemma_surviving_len(rs);
    let kept = surviving_rows(rs);
    let rest = surviving_rows(rs.drop_last());
    lemma_surviving_len(rs.drop_last());
    if row_full_seq(rs.last()) {
        lemma_surviving_source(rs.drop_last(), m);
        let k = choose|k: int|
            m <= k <= m + (rs.drop_last().len() - rest.len()) && 0 <= k < rs.drop_last().len()
                && rest[m] == rs.drop_last()[k] && !row_full_seq(rs.drop_last()[k]);
        assert(rs.drop_last()[k] == rs[k]);
        assert(kept[m] == rs[k] && !row_full_seq(rs[k]));
    } else {
        if m < rest.len() {
            lemma_surviving_source(rs.drop_last(), m);
            let k = choose|k: int|
                m <= k <= m + (rs.drop_last().len() - rest.len()) && 0 <= k < rs.drop_last().len()
                    && rest[m] == rs.drop_last()[k] && !row_full_seq(rs.drop_last()[k]);
            assert(rs.drop_last()[k] == rs[k]);
            assert(kept[m] == rest[m]);
            assert(kept[m] == rs[k] && !row_full_seq(rs[k]));
        } else {
            let k = rs.len() - 1;
            assert(kept[m] == rs.last());
            assert(rs.last() == rs[k]);
            assert(m <= k <= m + (rs.len() - kept.len()));
        }
    }
}

/// The kept rows, with enough empty rows on top to restore the board height.
pub open spec fn padded_rows(kept: Seq<Seq<BlockType>>) -> Seq<Seq<BlockType>> {
    Seq::new((crate::HEIGHT - kept.len()) as nat, |i: int| empty_row()) + kept
}

/// A sequence of twenty rows laid out again as a flat row-major grid.
pub open spec fn rows_to_grid(rs: Seq<Seq<BlockType>>) -> Seq<BlockType> {
    Seq::new(
        (crate::WIDTH * crate::HEIGHT) as nat,
        |i: int| rs[i / (crate::WIDTH as int)][i % (crate::WIDTH as int)],
    )
}

/// The grid after one full line-clearing pass: the full rows removed, the
/// remaining rows pushed to the bottom in their original order, and empty
/// rows filling the space at the top.
pub open spec fn clear_spec(g: Seq<BlockType>) -> Seq<BlockType> {
    rows_to_grid(padded_rows(surviving_rows(rows_of(g))))
}

/// A grid whose rows are `rs` is exactly `rs` laid out flat again.
proof fn lemma_grid_from_rows(g: Seq<BlockType>, rs: Seq<Seq<BlockType>>)
    requires
        g.len() == grid_len(),
        rows_of(g) == rs,
    ensures
        g == rows_to_grid(rs),
{
    assert forall|i: int| 0 <= i < 200 implies g[i] == rows_to_grid(rs)[i] by {
        let j = i / 10;
        let x = i % 10;
        lemma_fundamental_div_mod(i, 10);
        lemma_mod_bound(i, 10);
        assert(0 <= x < 10);
        assert(10 * j + x == i);
        assert(0 <= j < 20);
        assert(rs[j] == row_seq(g, j));
        assert(rs[j][x] == cell(g, x, j));
        assert(cell_index(x, j) == i);
    }
    assert(g =~= rows_to_grid(rs));
}

impl World {
    /// Empties row `y` and shifts every row above it down by one, leaving
    /// row 0 empty; rows below `y` keep their contents.
    pub fn clear_row(&mut self, y: usize)
        requires
            old(self).grid_ok(),
            y < crate::HEIGHT,
        ensures
            final(self).grid_ok(),
            final(self).current == old(self).current,
            forall|x: int|
                0 <= x < crate::WIDTH ==> cell(final(self).grid@, x, 0) == BlockType::No,
            forall|x: int, j: int|
                0 <= x < crate::WIDTH && 0 < j <= y ==> cell(final(self).grid@, x, j) == cell(
                    old(self).grid@,
                    x,
                    j - 1,
                ),
            forall|x: int, j: int|
                0 <= x < crate::WIDTH && y < j < crate::HEIGHT ==> cell(final(self).grid@, x, j)
                    == cell(old(self).grid@, x, j),
    {
        let bound: usize = (y + 1) * 10;
        let mut fresh: Vec<BlockType> = Vec::new();
        let mut i: usize = 0;
        while i < 200
            invariant
                self.grid_ok(),
                y < crate::HEIGHT,
                bound == (y + 1) * 10,
                i <= 200,
                fresh@.len() == i,
                forall|m: int|
                    0 <= m < i ==> fresh@[m] == (if m < 10 {
                        BlockType::No
                    } else if m < bound {
                        self.grid@[m - 10]
                    } else {
                        self.grid@[m]
                    }),
            decreases 200 - i,
        {
            if i < 10 {
                fresh.push(BlockType::No);
            } else if i < bound {
                fresh.push(self.grid[i - 10]);
            } else {
                fresh.push(self.grid[i]);
            }
            i = i + 1;
        }
        let ghost g0 = self.grid@;
        self.grid = fresh;
        proof {
            assert forall|x: int, j: int| 0 <= x < crate::WIDTH && 0 < j <= y implies cell(
                self.grid@,
                x,
                j,
            ) == cell(g0, x, j - 1) by {
                assert(10 <= j * 10 + x < bound);
            }
            assert forall|x: int, j: int| 0 <= x < crate::WIDTH && y < j
                < crate::HEIGHT implies cell(self.grid@, x, j) == cell(g0, x, j) by {
                assert(j * 10 + x >= bound);
            }
        }
    }
}

/// Scans the rows from the top and clears every full one, shifting the rows
/// above it down; the board ends up as `clear_spec` describes: exactly the
/// full rows removed, the rest in order at the bottom, empty rows on top.
pub fn row_clearing(world: &mut World)
    requires
        old(world).grid_ok(),
    ensures
        final(world).grid_ok(),
        final(world).current == old(world).current,
        final(world).grid@ == clear_spec(old(world).grid@),
{
    let ghost g0 = world.grid@;
    let ghost rows0 = rows_of(g0);
    let mut y: usize = 0;
    proof {
        assert(rows_of(world.grid@).take(0) =~= Seq::<Seq<BlockType>>::empty());
        assert(rows0.take(0) =~= Seq::<Seq<BlockType>>::empty());
        assert(rows_of(world.grid@).take(0) =~= padded_prefix(0, surviving_rows(rows0.take(0))));
    }
    while y < 20
        invariant
            world.grid_ok(),
            world.current == old(world).current,
            g0 == old(world).grid@,
            g0.len() == grid_len(),
            rows0 == rows_of(g0),
            y <= 20,
            surviving_rows(rows0.take(y as int)).len() <= y,
            rows_of(world.grid@).take(y as int) == padded_prefix(
                y as int,
                surviving_rows(rows0.take(y as int)),
            ),
            forall|j: int| y <= j < 20 ==> row_seq(world.grid@, j) == row_seq(g0, j),
        decreases 20 - y,
    {
        let ghost gy = world.grid@;
        let ghost kept = surviving_rows(rows0.take(y as int));
        let ghost row_y = rows0[y as int];
        proof {
            lemma_surviving_len(rows0.take(y as int));
            assert(row_seq(gy, y as int) == row_seq(g0, y as int));
            assert(row_y == row_seq(g0, y as int));
            assert(rows0.take(y as int).push(row_y) =~= rows0.take(y as int + 1));
            lemma_surviving_push(rows0.take(y as int), row_y);
        }
        let full = world.is_row_full(y);
        proof {
            if full {
                assert forall|x: int| 0 <= x < row_y.len() implies row_y[x] != BlockType::No by {
                    assert(cell(gy, x, y as int) != BlockType::No);
                    assert(row_seq(g0, y as int)[x] == cell(g0, x, y as int));
                }
                assert(row_full_seq(row_y));
            } else {
                let x = choose|x: int|
                    0 <= x < crate::WIDTH && cell(gy, x, y as int) == BlockType::No;
                assert(row_seq(g0, y as int)[x] == BlockType::No);
                assert(!row_full_seq(row_y));
            }
        }
        if full {
            world.clear_row(y);
            proof {
                let gn = world.grid@;
                assert(surviving_rows(rows0.take(y as int + 1)) == kept);
                assert forall|j: int| 0 <= j < y + 1 implies #[trigger] rows_of(gn).take(
                    y as int + 1,
                )[j] == padded_prefix(y as int + 1, kept)[j] by {
                    if j == 0 {
                        assert(row_seq(gn, 0) =~= empty_row());
                    } else {
                        assert(row_seq(gn, j) =~= row_seq(gy, j - 1));
                        assert(rows_of(gy).take(y as int)[j - 1] == padded_prefix(
                            y as int,
                            kept,
                        )[j - 1]);
                        if j - 1 < y - kept.len() {
                            assert(padded_prefix(y as int, kept)[j - 1] == empty_row());
                        } else {
                            assert(padded_prefix(y as int, kept)[j - 1] == kept[j - 1 - (y
                                - kept.len())]);
                        }
                    }
                }
                assert(rows_of(gn).take(y as int + 1) =~= padded_prefix(y as int + 1, kept));
                assert forall|j: int| y + 1 <= j < 20 implies #[trigger] row_seq(gn, j) == row_seq(
                    g0,
                    j,
                ) by {
                    assert(row_seq(gn, j) =~= row_seq(gy, j));
                }
            }
        } else {
            proof {
                let gn = world.grid@;
                assert(surviving_rows(rows0.take(y as int + 1)) == kept.push(row_y));
                assert forall|j: int| 0 <= j < y + 1 implies #[trigger] rows_of(gn).take(
                    y as int + 1,
                )[j] == padded_prefix(y as int + 1, kept.push(row_y))[j] by {
                    if j < y {
                        assert(rows_of(gn).take(y as int)[j] == padded_prefix(y as int, kept)[j]);
                    } else {
                        assert(rows_of(gn)[j] == row_seq(gn, j));
                        assert(row_seq(gn, j) == row_seq(g0, j));
                    }
                }
                assert(rows_of(gn).take(y as int + 1) =~= padded_prefix(
                    y as int + 1,
                    kept.push(row_y),
                ));
            }
        }
        y = y + 1;
    }
    proof {
        let gfin = world.grid@;
        let keptall = surviving_rows(rows0);
        assert(rows0.take(20) =~= rows0);
        assert(rows_of(gfin).take(20) =~= rows_of(gfin));
        lemma_surviving_len(rows0);
        assert(padded_prefix(20, keptall) =~= padded_rows(keptall));
        assert(rows_of(gfin) == padded_rows(keptall));
        lemma_grid_from_rows(gfin, padded_rows(keptall));
    }
}

/// The kept rows with empty rows on top, padded to a prefix of `n` rows.
pub open spec fn padded_prefix(n: int, kept: Seq<Seq<BlockType>>) -> Seq<Seq<BlockType>> {
    Seq::new((n - kept.len()) as nat, |i: int| empty_row()) + kept
}

/// Distinct on-board coordinates have distinct flat indices.
proof fn lemma_cell_index_injective(x1: int, y1: int, x2: int, y2: int)
    requires
        in_board(x1, y1),
        in_board(x2, y2),
        cell_index(x1, y1) == cell_index(x2, y2),
    ensures
        x1 == x2 && y1 == y2,
{
}

/// A placement with any cell off the board horizontally, or at or below the
/// bottom row, is rejected, whatever the piece.
pub proof fn lemma_valid_position_rejects(
    g: Seq<BlockType>,
    locs: Seq<(i32, i32)>,
    ox: int,
    oy: int,
    k: int,
)
    requires
        0 <= k < locs.len(),
        !(0 <= ox + locs[k].0 < crate::WIDTH) || oy + locs[k].1 >= crate::HEIGHT,
    ensures
        !valid_spec(g, locs, ox, oy),
{
    assert(!offset_ok(g, locs[k], ox, oy));
}

/// The original indices of the rows that a clearing pass keeps.
pub open spec fn surviving_indices(rs: Seq<Seq<BlockType>>) -> Seq<int>
    decreases rs.len(),
{
    if rs.len() == 0 {
        Seq::empty()
    } else {
        let rest = surviving_indices(rs.drop_last());
        if row_full_seq(rs.last()) {
            rest
        } else {
            rest.push(rs.len() - 1)
        }
    }
}

/// A clearing pass removes exactly the full rows and preserves the relative
/// order of all remaining rows: the kept rows are the rows of the board at
/// the strictly increasing sequence of its non-full row indices, and every
/// non-full row index appears there.
pub proof fn lemma_surviving_exact(rs: Seq<Seq<BlockType>>)
    ensures
        surviving_indices(rs).len() == surviving_rows(rs).len(),
        forall|m: int|
            0 <= m < surviving_rows(rs).len() ==> {
                let k = #[trigger] surviving_indices(rs)[m];
                0 <= k < rs.len() && surviving_rows(rs)[m] == rs[k] && !row_full_seq(rs[k])
            },
        forall|m1: int, m2: int|
            0 <= m1 < m2 < surviving_rows(rs).len() ==> #[trigger] surviving_indices(rs)[m1]
                < #[trigger] surviving_indices(rs)[m2],
        forall|k: int|
            0 <= k < rs.len() && !row_full_seq(rs[k]) ==> surviving_indices(rs).contains(k),
    decreases rs.len(),
{
    if rs.len() > 0 {
        let rest_rows = surviving_rows(rs.drop_last());
        let rest_idx = surviving_indices(rs.drop_last());
        lemma_surviving_exact(rs.drop_last());
        assert forall|k: int|
            0 <= k < rs.len() && !row_full_seq(rs[k]) implies surviving_indices(rs).contains(
            k,
        ) by {
            if k < rs.len() - 1 {
                assert(rs.drop_last()[k] == rs[k]);
                assert(rest_idx.contains(k));
                let m = choose|m: int| 0 <= m < rest_idx.len() && rest_idx[m] == k;
                assert(surviving_indices(rs)[m] == k);
            } else {
                assert(!row_full_seq(rs.last()));
                assert(surviving_indices(rs)[surviving_indices(rs).len() - 1] == k);
            }
        }
        assert forall|m: int| 0 <= m < surviving_rows(rs).len() implies {
            let k = #[trigger] surviving_indices(rs)[m];
            0 <= k < rs.len() && surviving_rows(rs)[m] == rs[k] && !row_full_seq(rs[k])
        } by {
            if m < rest_rows.len() {
                assert(surviving_indices(rs)[m] == rest_idx[m]);
                assert(surviving_rows(rs)[m] == rest_rows[m]);
                assert(rs.drop_last()[rest_idx[m]] == rs[rest_idx[m]]);
            } else {
                assert(!row_full_seq(rs.last()));
                assert(surviving_rows(rs)[m] == rs.last());
                assert(surviving_indices(rs)[m] == rs.len() - 1);
            }
        }
    }
}

/// A freshly constructed, fully empty board has no cutoff breach.
pub proof fn lemma_fresh_board_not_breached(g: Seq<BlockType>)
    requires
        g.len() == grid_len(),
        grid_all_empty(g),
    ensures
        !cutoff_breached_spec(g),
{
    assert forall|x: int| 0 <= x < crate::WIDTH implies cell(g, x, crate::CUTOFF as int)
        == BlockType::No by {
        assert(0 <= cell_index(x, crate::CUTOFF as int) < g.len());
    }
}

/// A cutoff breach appears under a fill only when the fill writes a
/// non-empty state into some cell of the cutoff row.
pub proof fn lemma_fill_breach(
    g: Seq<BlockType>,
    locs: Seq<(i32, i32)>,
    ox: int,
    oy: int,
    filler: BlockType,
)
    requires
        g.len() == grid_len(),
        !cutoff_breached_spec(g),
        cutoff_breached_spec(fill_spec(g, locs, ox, oy, filler)),
    ensures
        filler != BlockType::No,
        exists|k: int|
            0 <= k < locs.len() && oy + (#[trigger] locs[k]).1 == crate::CUTOFF && 0 <= ox
                + locs[k].0 < crate::WIDTH,
{
    let g2 = fill_spec(g, locs, ox, oy, filler);
    let cut = crate::CUTOFF as int;
    let x = choose|x: int| 0 <= x < crate::WIDTH && cell(g2, x, cut) != BlockType::No;
    let i = cell_index(x, cut);
    assert(0 <= i < g.len());
    if !covers(locs, ox, oy, i) {
        assert(cell(g2, x, cut) == cell(g, x, cut));
        assert(false);
    }
    let k = choose|k: int|
        0 <= k < locs.len() && in_board(ox + (#[trigger] locs[k]).0, oy + locs[k].1) && cell_index(
            ox + locs[k].0,
            oy + locs[k].1,
        ) == i;
    lemma_cell_index_injective(ox + locs[k].0, oy + locs[k].1, x, cut);
    assert(oy + locs[k].1 == crate::CUTOFF && 0 <= ox + locs[k].0 < crate::WIDTH);
}

/// If every row at or above row `r` is empty, a clearing pass keeps them
/// empty: rows only move downwards.
pub proof fn lemma_clear_preserves_top_empty(g: Seq<BlockType>, r: int)
    requires
        g.len() == grid_len(),
        0 <= r < crate::HEIGHT,
        forall|x: int, j: int|
            0 <= x < crate::WIDTH && 0 <= j <= r ==> #[trigger] cell(g, x, j) == BlockType::No,
    ensures
        forall|x: int, j: int|
            0 <= x < crate::WIDTH && 0 <= j <= r ==> #[trigger] cell(clear_spec(g), x, j)
                == BlockType::No,
{
    let rows = rows_of(g);
    let kept = surviving_rows(rows);
    lemma_surviving_len(rows);
    let e = crate::HEIGHT - kept.len();
    let c = clear_spec(g);
    assert forall|x: int, j: int| 0 <= x < crate::WIDTH && 0 <= j <= r implies #[trigger] cell(
        c,
        x,
        j,
    ) == BlockType::No by {
        let i = cell_index(x, j);
        lemma_fundamental_div_mod(i, 10);
        lemma_mod_bound(i, 10);
        assert(i / 10 == j && i % 10 == x);
        assert(c[i] == padded_rows(kept)[j][x]);
        if j >= e {
            let m = j - e;
            lemma_surviving_source(rows, m);
            let k = choose|k: int|
                m <= k <= m + (rows.len() - kept.len()) && 0 <= k < rows.len() && kept[m] == rows[k]
                    && !row_full_seq(rows[k]);
            assert(k <= j);
            assert(padded_rows(kept)[j] == kept[m]);
            assert(rows[k] == row_seq(g, k));
            assert(row_seq(g, k)[x] == cell(g, x, k));
            assert(cell(g, x, k) == BlockType::No);
        } else {
            assert(padded_rows(kept)[j] == empty_row());
        }
    }
}

/// A lock whose cells all lie strictly below the cutoff row, on a board
/// empty at and above the cutoff row, never ends the game: neither the fill
/// nor the clearing pass can put a block into the cutoff row.
pub proof fn lemma_lock_below_cutoff_safe(
    g: Seq<BlockType>,
    locs: Seq<(i32, i32)>,
    ox: int,
    oy: int,
    filler: BlockType,
)
    requires
        g.len() == grid_len(),
        forall|x: int, j: int|
            0 <= x < crate::WIDTH && 0 <= j <= crate::CUTOFF ==> #[trigger] cell(g, x, j)
                == BlockType::No,
        forall|k: int| 0 <= k < locs.len() ==> oy + (#[trigger] locs[k]).1 > crate::CUTOFF,
    ensures
        !cutoff_breached_spec(clear_spec(fill_spec(g, locs, ox, oy, filler))),
{
    let g2 = fill_spec(g, locs, ox, oy, filler);
    assert forall|x: int, j: int| 0 <= x < crate::WIDTH && 0 <= j
        <= crate::CUTOFF implies #[trigger] cell(g2, x, j) == BlockType::No by {
        let i = cell_index(x, j);
        assert(0 <= i < g.len());
        if covers(locs, ox, oy, i) {
            let k = choose|k: int|
                0 <= k < locs.len() && in_board(ox + (#[trigger] locs[k]).0, oy + locs[k].1)
                    && cell_index(ox + locs[k].0, oy + locs[k].1) == i;
            lemma_cell_index_injective(ox + locs[k].0, oy + locs[k].1, x, j);
            assert(false);
        }
        assert(cell(g2, x, j) == cell(g, x, j));
    }
    lemma_clear_preserves_top_empty(g2, crate::CUTOFF as int);
    let c = clear_spec(g2);
    assert forall|x: int| 0 <= x < crate::WIDTH implies cell(c, x, crate::CUTOFF as int)
        == BlockType::No by {
        assert(cell(c, x, crate::CUTOFF as int) == BlockType::No);
    }
}

} // verus!
