use tetris_core::block::BlockType;
use tetris_core::block::CurrentBlock;
use tetris_core::block::Rotation;
use tetris_core::block::get_locations;
use tetris_core::board::World;
use tetris_core::board::fill;
use tetris_core::board::valid_position;
use tetris_core::engine::gravity_step;
use tetris_core::engine::hard_drop_step;
use tetris_core::engine::horizontal_step;
use tetris_core::engine::step;

fn world_with(kind: BlockType, x: i32, y: i32) -> World {
    let mut w = World::new();
    w.current = CurrentBlock { location: (x, y), rotation: Rotation::Rot0, kind };
    w
}

fn count_filled(w: &World) -> usize {
    let mut n = 0;
    for y in 0..20 {
        for x in 0..10 {
            if w.get(x, y) != BlockType::No {
                n += 1;
            }
        }
    }
    n
}

#[test]
fn valid_position_rejects_out_of_bounds() {
    let w = World::new();
    let locs = get_locations(BlockType::O);
    // O occupies columns x and x + 1: column 9 pushes a cell to column 10.
    assert!(!valid_position(&w, &locs, (9, 5)));
    assert!(!valid_position(&w, &locs, (-1, 5)));
    // O occupies rows y and y + 1: row 19 pushes a cell to row 20.
    assert!(!valid_position(&w, &locs, (4, 19)));
    assert!(valid_position(&w, &locs, (4, 18)));
    // Space above the board is unconstrained.
    assert!(valid_position(&w, &locs, (4, -5)));
}

#[test]
fn valid_position_rejects_collisions() {
    let mut w = World::new();
    w.set(5, 11, BlockType::T);
    let locs = get_locations(BlockType::O);
    assert!(!valid_position(&w, &locs, (4, 10)));
    assert!(!valid_position(&w, &locs, (4, 11)));
    assert!(!valid_position(&w, &locs, (5, 10)));
    assert!(valid_position(&w, &locs, (4, 12)));
    assert!(valid_position(&w, &locs, (6, 10)));
}

#[test]
fn fill_writes_cells_and_clips() {
    let mut w = world_with(BlockType::I, 4, 10);
    let locs = get_locations(BlockType::I);
    fill(&mut w, locs, (0, 0), BlockType::I);
    // The I at origin (0, 0) reaches rows -1 and -2, which lie off the
    // board and are skipped.
    assert_eq!(w.get(0, 0), BlockType::I);
    assert_eq!(w.get(0, 1), BlockType::I);
    assert_eq!(count_filled(&w), 2);
    let locs = get_locations(BlockType::I);
    fill(&mut w, locs, (0, 0), BlockType::No);
    assert_eq!(count_filled(&w), 0);
}

#[test]
fn gravity_moves_o_one_row() {
    let mut w = world_with(BlockType::O, 4, 0);
    let over = gravity_step(&mut w);
    assert!(!over);
    assert_eq!(w.current.location, (4, 1));
    assert_eq!(w.get(4, 1), BlockType::O);
    assert_eq!(w.get(5, 1), BlockType::O);
    assert_eq!(w.get(4, 2), BlockType::O);
    assert_eq!(w.get(5, 2), BlockType::O);
    assert_eq!(count_filled(&w), 4);
}

#[test]
fn gravity_ticks_land_o_on_floor() {
    let mut w = world_with(BlockType::O, 4, 0);
    // The O spans rows y and y + 1, so it keeps falling until y = 18 and
    // the 19th tick locks it.
    for i in 0..18 {
        let over = gravity_step(&mut w);
        assert!(!over);
        assert_eq!(w.current.location, (4, (i + 1)));
    }
    let over = gravity_step(&mut w);
    assert!(!over);
    // Locked at rows 18-19, columns 4-5; the rest of the board is empty and
    // a fresh piece has spawned.
    assert_eq!(w.get(4, 18), BlockType::O);
    assert_eq!(w.get(5, 18), BlockType::O);
    assert_eq!(w.get(4, 19), BlockType::O);
    assert_eq!(w.get(5, 19), BlockType::O);
    assert_eq!(count_filled(&w), 4);
    assert_eq!(w.current.location, (4, 0));
    assert!(matches!(w.current.rotation, Rotation::Rot0));
    assert!(w.current.kind != BlockType::No);
}

#[test]
fn gravity_locks_on_stack() {
    let mut w = world_with(BlockType::O, 4, 10);
    w.set(4, 12, BlockType::T);
    let over = gravity_step(&mut w);
    assert!(!over);
    // Moving to row 11 would overlap (4, 12): the piece locks at row 10.
    assert_eq!(w.get(4, 10), BlockType::O);
    assert_eq!(w.get(5, 10), BlockType::O);
    assert_eq!(w.get(4, 11), BlockType::O);
    assert_eq!(w.get(5, 11), BlockType::O);
    assert_eq!(w.get(4, 12), BlockType::T);
    assert_eq!(w.current.location, (4, 0));
}

#[test]
fn gravity_lock_at_cutoff_ends_game() {
    let mut w = world_with(BlockType::O, 4, 0);
    w.set(4, 2, BlockType::T);
    let over = gravity_step(&mut w);
    // The piece cannot move to row 1, so it locks at rows 0-1; row 1 is the
    // cutoff row.
    assert!(over);
    assert_eq!(w.get(4, 1), BlockType::O);
}

#[test]
fn hard_drop_lands_at_lowest_valid_row() {
    let mut w = world_with(BlockType::O, 4, 0);
    let over = hard_drop_step(&mut w);
    assert!(!over);
    assert_eq!(w.get(4, 18), BlockType::O);
    assert_eq!(w.get(5, 18), BlockType::O);
    assert_eq!(w.get(4, 19), BlockType::O);
    assert_eq!(w.get(5, 19), BlockType::O);
    assert_eq!(count_filled(&w), 4);
    assert_eq!(w.current.location, (4, 0));
    assert!(w.current.kind != BlockType::No);
}

#[test]
fn hard_drop_rests_on_stack() {
    let mut w = world_with(BlockType::O, 4, 0);
    w.set(4, 15, BlockType::T);
    let over = hard_drop_step(&mut w);
    assert!(!over);
    // Rows 14-15 would overlap the block at (4, 15): it rests at rows 13-14.
    assert_eq!(w.get(4, 13), BlockType::O);
    assert_eq!(w.get(5, 13), BlockType::O);
    assert_eq!(w.get(4, 14), BlockType::O);
    assert_eq!(w.get(5, 14), BlockType::O);
    assert_eq!(w.get(4, 15), BlockType::T);
}

#[test]
fn hard_drop_stops_at_first_obstacle() {
    let mut w = world_with(BlockType::O, 4, 0);
    // A single floating block: the piece stops on top of it even though
    // there is free space underneath the overhang.
    w.set(4, 10, BlockType::T);
    let over = hard_drop_step(&mut w);
    assert!(!over);
    assert_eq!(w.get(4, 8), BlockType::O);
    assert_eq!(w.get(5, 8), BlockType::O);
    assert_eq!(w.get(4, 9), BlockType::O);
    assert_eq!(w.get(5, 9), BlockType::O);
    assert_eq!(w.get(4, 10), BlockType::T);
    assert_eq!(w.get(4, 19), BlockType::No);
    assert_eq!(count_filled(&w), 5);
}

#[test]
fn vertical_i_drop_clears_bottom_row() {
    let mut w = world_with(BlockType::I, 9, 0);
    for x in 0..9 {
        w.set(x, 19, BlockType::S);
    }
    let over = hard_drop_step(&mut w);
    assert!(!over);
    // The I fell down column 9 to rows 16-19, completing row 19; that row
    // cleared and everything above slid down one, leaving the I's other
    // three cells at rows 17-19 and row 0 empty.
    assert_eq!(w.get(9, 17), BlockType::I);
    assert_eq!(w.get(9, 18), BlockType::I);
    assert_eq!(w.get(9, 19), BlockType::I);
    assert_eq!(count_filled(&w), 3);
    for x in 0..10 {
        assert_eq!(w.get(x, 0), BlockType::No);
    }
    assert_eq!(w.current.location, (4, 0));
}

#[test]
fn move_left_at_wall_is_reverted() {
    let mut w = world_with(BlockType::O, 0, 10);
    horizontal_step(&mut w, true, false);
    assert_eq!(w.current.location, (0, 10));
    assert_eq!(w.get(0, 10), BlockType::O);
    assert_eq!(w.get(1, 10), BlockType::O);
    assert_eq!(w.get(0, 11), BlockType::O);
    assert_eq!(w.get(1, 11), BlockType::O);
    assert_eq!(count_filled(&w), 4);
}

#[test]
fn move_right_at_wall_is_reverted() {
    let mut w = world_with(BlockType::O, 8, 10);
    horizontal_step(&mut w, false, true);
    assert_eq!(w.current.location, (8, 10));
    assert_eq!(w.get(8, 10), BlockType::O);
    assert_eq!(w.get(9, 10), BlockType::O);
}

#[test]
fn horizontal_moves_commit_when_free() {
    let mut w = world_with(BlockType::O, 4, 10);
    horizontal_step(&mut w, true, false);
    assert_eq!(w.current.location, (3, 10));
    assert_eq!(w.get(3, 10), BlockType::O);
    horizontal_step(&mut w, false, true);
    assert_eq!(w.current.location, (4, 10));
    assert_eq!(w.get(4, 10), BlockType::O);
    assert_eq!(w.get(3, 10), BlockType::No);
}

#[test]
fn move_into_stack_is_reverted() {
    let mut w = world_with(BlockType::O, 4, 10);
    w.set(3, 10, BlockType::T);
    horizontal_step(&mut w, true, false);
    assert_eq!(w.current.location, (4, 10));
    assert_eq!(w.get(3, 10), BlockType::T);
    assert_eq!(w.get(4, 10), BlockType::O);
}

#[test]
fn left_takes_precedence_over_right() {
    let mut w = world_with(BlockType::O, 4, 10);
    horizontal_step(&mut w, true, true);
    assert_eq!(w.current.location, (3, 10));
}

#[test]
fn step_without_events_redraws_in_place() {
    let mut w = world_with(BlockType::T, 4, 10);
    let over = step(&mut w, false, false, false, false);
    assert!(!over);
    assert_eq!(w.current.location, (4, 10));
    assert_eq!(w.get(4, 10), BlockType::T);
    assert_eq!(w.get(4, 9), BlockType::T);
    assert_eq!(w.get(3, 10), BlockType::T);
    assert_eq!(w.get(5, 10), BlockType::T);
    assert_eq!(count_filled(&w), 4);
}

#[test]
fn step_with_tick_and_move() {
    let mut w = world_with(BlockType::O, 4, 10);
    let over = step(&mut w, true, false, true, false);
    assert!(!over);
    // Gravity first (down one row), then the move right.
    assert_eq!(w.current.location, (5, 11));
    assert_eq!(w.get(5, 11), BlockType::O);
    assert_eq!(w.get(6, 12), BlockType::O);
    assert_eq!(count_filled(&w), 4);
}

#[test]
fn step_with_drop_locks_and_respawns() {
    let mut w = world_with(BlockType::O, 4, 10);
    let over = step(&mut w, false, false, false, true);
    assert!(!over);
    assert_eq!(w.get(4, 18), BlockType::O);
    assert_eq!(w.get(4, 19), BlockType::O);
    assert_eq!(w.current.location, (4, 0));
}
