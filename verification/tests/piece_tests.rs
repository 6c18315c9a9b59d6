use tetris_core::block::BlockType;
use tetris_core::block::CurrentBlock;
use tetris_core::block::Rotation;
use tetris_core::block::get_locations;
use tetris_core::block::get_rotation;
use tetris_core::block::kind_from_index;
use tetris_core::block::occupied_cells;

const KINDS: [BlockType; 7] = [
    BlockType::I,
    BlockType::J,
    BlockType::L,
    BlockType::O,
    BlockType::S,
    BlockType::Z,
    BlockType::T,
];

const ROTATIONS: [Rotation; 4] = [Rotation::Rot0, Rotation::Rot90, Rotation::Rot180, Rotation::Rot270];

#[test]
fn locations_match_catalog() {
    assert_eq!(get_locations(BlockType::I), vec![(0, 0), (0, 1), (0, -1), (0, -2)]);
    assert_eq!(get_locations(BlockType::J), vec![(0, 0), (0, 1), (0, -1), (-1, -1)]);
    assert_eq!(get_locations(BlockType::L), vec![(0, 0), (0, 1), (0, -1), (1, -1)]);
    assert_eq!(get_locations(BlockType::O), vec![(0, 0), (0, 1), (1, 0), (1, 1)]);
    assert_eq!(get_locations(BlockType::T), vec![(0, 0), (0, -1), (-1, 0), (1, 0)]);
    assert_eq!(get_locations(BlockType::S), vec![(0, 0), (0, -1), (1, -1), (-1, 0)]);
    assert_eq!(get_locations(BlockType::Z), vec![(0, 0), (0, -1), (-1, -1), (1, 0)]);
    assert_eq!(get_locations(BlockType::No), Vec::<(i32, i32)>::new());
}

#[test]
fn rotation_matrix_on_j() {
    let base = get_locations(BlockType::J);
    let r0 = get_rotation(&base, &Rotation::Rot0, &BlockType::J);
    assert_eq!(r0, base);
    let r90 = get_rotation(&base, &Rotation::Rot90, &BlockType::J);
    assert_eq!(r90, vec![(0, 0), (-1, 0), (1, 0), (1, -1)]);
    let r180 = get_rotation(&base, &Rotation::Rot180, &BlockType::J);
    assert_eq!(r180, vec![(0, 0), (0, -1), (0, 1), (1, 1)]);
    let r270 = get_rotation(&base, &Rotation::Rot270, &BlockType::J);
    assert_eq!(r270, vec![(0, 0), (1, 0), (-1, 0), (-1, 1)]);
}

#[test]
fn rotation_tables_for_i() {
    let base = get_locations(BlockType::I);
    assert_eq!(get_rotation(&base, &Rotation::Rot0, &BlockType::I), base);
    assert_eq!(
        get_rotation(&base, &Rotation::Rot90, &BlockType::I),
        vec![(0, 0), (1, 0), (-2, 0), (-1, 0)]
    );
    assert_eq!(
        get_rotation(&base, &Rotation::Rot180, &BlockType::I),
        vec![(-1, -1), (-1, 0), (-1, 1), (-1, 2)]
    );
    assert_eq!(
        get_rotation(&base, &Rotation::Rot270, &BlockType::I),
        vec![(-2, 1), (-1, 1), (0, 1), (1, 1)]
    );
}

#[test]
fn rotation_leaves_o_invariant() {
    let base = get_locations(BlockType::O);
    for rot in ROTATIONS.iter() {
        assert_eq!(get_rotation(&base, rot, &BlockType::O), base);
    }
}

#[test]
fn rotation_cycles() {
    let r = Rotation::Rot0;
    let once = r.rot_left();
    assert!(matches!(once, Rotation::Rot90));
    let back = once.rot_right();
    assert!(matches!(back, Rotation::Rot0));
    let full = r.rot_left().rot_left().rot_left().rot_left();
    assert!(matches!(full, Rotation::Rot0));
    assert!(matches!(Rotation::Rot270.rot_left(), Rotation::Rot0));
    assert!(matches!(Rotation::Rot0.rot_right(), Rotation::Rot270));
}

#[test]
fn occupied_cells_four_distinct_everywhere() {
    for kind in KINDS.iter() {
        for rot in ROTATIONS.iter() {
            let piece = CurrentBlock { location: (4, 10), rotation: *rot, kind: *kind };
            let cells = occupied_cells(&piece);
            assert_eq!(cells.len(), 4, "kind {:?}", kind);
            for i in 0..4 {
                for j in (i + 1)..4 {
                    assert_ne!(cells[i], cells[j], "kind {:?}", kind);
                }
            }
        }
    }
}

#[test]
fn occupied_cells_are_origin_plus_offsets() {
    let piece = CurrentBlock { location: (4, 0), rotation: Rotation::Rot0, kind: BlockType::O };
    let cells = occupied_cells(&piece);
    assert_eq!(cells, vec![(4, 0), (4, 1), (5, 0), (5, 1)]);
    let piece = CurrentBlock { location: (9, 18), rotation: Rotation::Rot0, kind: BlockType::I };
    let cells = occupied_cells(&piece);
    assert_eq!(cells, vec![(9, 18), (9, 19), (9, 17), (9, 16)]);
}

#[test]
fn kind_index_covers_all_seven() {
    let mut seen = Vec::new();
    for i in 0..7 {
        let k = kind_from_index(i);
        assert!(k != BlockType::No);
        assert!(!seen.contains(&k));
        seen.push(k);
    }
    assert_eq!(seen.len(), 7);
}

#[test]
fn spawn_is_at_fixed_coordinate() {
    for _ in 0..20 {
        let c = CurrentBlock::new();
        assert_eq!(c.location, (4, 0));
        assert!(matches!(c.rotation, Rotation::Rot0));
        assert!(c.kind != BlockType::No);
    }
}

#[test]
fn with_kind_is_deterministic() {
    let c = CurrentBlock::with_kind(BlockType::Z);
    assert_eq!(c.location, (4, 0));
    assert!(matches!(c.rotation, Rotation::Rot0));
    assert_eq!(c.kind, BlockType::Z);
}
