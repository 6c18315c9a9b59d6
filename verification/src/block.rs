//! Block catalog: the kinds of pieces, their colors, their relative cell
//! offsets, and the rotation transforms.

use vstd::prelude::*;

verus! {

/// What a cell of the board holds: one of the seven piece kinds, or nothing.
#[derive(Copy, Clone, Debug, PartialEq, Eq, Structural)]
pub enum BlockType {
    I,
    J,
    L,
    O,
    S,
    Z,
    T,
    No,
}

impl BlockType {
    /// The display color of this kind of block, as a 0xRRGGBB code.
    pub fn color_hex(&self) -> (hex: i32)
        ensures
            hex == self.color_hex_spec(),
    {
        match self {
            BlockType::I => 0x00ffff,
            BlockType::J => 0x0000ff,
            BlockType::L => 0xff7f00,
            BlockType::O => 0xffff00,
            BlockType::S => 0x00ff00,
            BlockType::Z => 0xff0000,
            BlockType::T => 0x800080,
            BlockType::No => 0x2b2b2b,
        }
    }

    /// The color code of each kind of block.
    pub open spec fn color_hex_spec(self) -> i32 {
        match self {
            BlockType::I => 0x00ffff,
            BlockType::J => 0x0000ff,
            BlockType::L => 0xff7f00,
            BlockType::O => 0xffff00,
            BlockType::S => 0x00ff00,
            BlockType::Z => 0xff0000,
            BlockType::T => 0x800080,
            BlockType::No => 0x2b2b2b,
        }
    }

    /// The single character that stands for this kind of block in a text
    /// rendering of the board.
    pub fn to_char(&self) -> (c: char)
        ensures
            c == self.to_char_spec(),
    {
        match self {
            BlockType::I => 'I',
            BlockType::J => 'J',
            BlockType::L => 'L',
            BlockType::O => 'O',
            BlockType::S => 'S',
            BlockType::Z => 'Z',
            BlockType::T => 'T',
            BlockType::No => ' ',
        }
    }

    /// The display character of each kind of block.
    pub open spec fn to_char_spec(self) -> char {
        match self {
            BlockType::I => 'I',
            BlockType::J => 'J',
            BlockType::L => 'L',
            BlockType::O => 'O',
            BlockType::S => 'S',
            BlockType::Z => 'Z',
            BlockType::T => 'T',
            BlockType::No => ' ',
        }
    }
}

/// Splits a 0xRRGGBB color code into its red, green and blue components,
/// each in [0, 256). A front end divides them by 256 to obtain channel
/// intensities.
pub fn hex_components(hex: i32) -> (rgb: (i32, i32, i32))
    requires
        0 <= hex,
    ensures
        rgb.0 == (hex / 256 / 256) % 256,
        rgb.1 == (hex / 256) % 256,
        rgb.2 == hex % 256,
{
    let blue = hex % 256;
    let rest: i32 = hex / 256;
    let green = rest % 256;
    let red = (rest / 256) % 256;
    (red, green, blue)
}

/// The four discrete rotation states of a piece.
#[derive(Copy, Clone, Debug, PartialEq, Eq, Structural)]
pub enum Rotation {
    Rot0,
    Rot90,
    Rot180,
    Rot270,
}

impl Rotation {
    /// The next rotation state counterclockwise.
    pub open spec fn rot_left_spec(self) -> Rotation {
        match self {
            Rotation::Rot0 => Rotation::Rot90,
            Rotation::Rot90 => Rotation::Rot180,
            Rotation::Rot180 => Rotation::Rot270,
            Rotation::Rot270 => Rotation::Rot0,
        }
    }

    /// The next rotation state clockwise.
    pub open spec fn rot_right_spec(self) -> Rotation {
        match self {
            Rotation::Rot0 => Rotation::Rot270,
            Rotation::Rot90 => Rotation::Rot0,
            Rotation::Rot180 => Rotation::Rot90,
            Rotation::Rot270 => Rotation::Rot180,
        }
    }

    /// Cycles one step counterclockwise through the four rotation states.
    pub fn rot_left(&self) -> (r: Self)
        ensures
            r == self.rot_left_spec(),
    {
        match self {
            Rotation::Rot0 => Rotation::Rot90,
            Rotation::Rot90 => Rotation::Rot180,
            Rotation::Rot180 => Rotation::Rot270,
            Rotation::Rot270 => Rotation::Rot0,
        }
    }

    /// Cycles one step clockwise through the four rotation states.
    pub fn rot_right(&self) -> (r: Self)
        ensures
            r == self.rot_right_spec(),
    {
        match self {
            Rotation::Rot0 => Rotation::Rot270,
            Rotation::Rot90 => Rotation::Rot0,
            Rotation::Rot180 => Rotation::Rot90,
            Rotation::Rot270 => Rotation::Rot180,
        }
    }
}

/// The four cell offsets of each piece kind, relative to its origin and
/// before any rotation. The empty kind has no cells.
pub open spec fn locations_spec(kind: BlockType) -> Seq<(i32, i32)> {
    match kind {
        BlockType::I => seq![(0i32, 0i32), (0i32, 1i32), (0i32, -1i32), (0i32, -2i32)],
        BlockType::J => seq![(0i32, 0i32), (0i32, 1i32), (0i32, -1i32), (-1i32, -1i32)],
        BlockType::L => seq![(0i32, 0i32), (0i32, 1i32), (0i32, -1i32), (1i32, -1i32)],
        BlockType::O => seq![(0i32, 0i32), (0i32, 1i32), (1i32, 0i32), (1i32, 1i32)],
        BlockType::T => seq![(0i32, 0i32), (0i32, -1i32), (-1i32, 0i32), (1i32, 0i32)],
        BlockType::S => seq![(0i32, 0i32), (0i32, -1i32), (1i32, -1i32), (-1i32, 0i32)],
        BlockType::Z => seq![(0i32, 0i32), (0i32, -1i32), (-1i32, -1i32), (1i32, 0i32)],
        BlockType::No => Seq::empty(),
    }
}

/// Returns the cell offsets of a piece kind relative to its origin point.
pub fn get_locations(kind: BlockType) -> (r: Vec<(i32, i32)>)
    ensures
        r@ == locations_spec(kind),
{
    match kind {
        BlockType::I => vec![(0, 0), (0, 1), (0, -1), (0, -2)],
        BlockType::J => vec![(0, 0), (0, 1), (0, -1), (-1, -1)],
        BlockType::L => vec![(0, 0), (0, 1), (0, -1), (1, -1)],
        BlockType::O => vec![(0, 0), (0, 1), (1, 0), (1, 1)],
        BlockType::T => vec![(0, 0), (0, -1), (-1, 0), (1, 0)],
        BlockType::S => vec![(0, 0), (0, -1), (1, -1), (-1, 0)],
        BlockType::Z => vec![(0, 0), (0, -1), (-1, -1), (1, 0)],
        BlockType::No => Vec::new(),
    }
}

/// Every cell offset of every piece kind lies within [-2, 2] in both
/// coordinates, and the origin cell (0, 0) comes first; each non-empty kind
/// has exactly 4 offsets, pairwise distinct.
pub proof fn lemma_locations_shape(kind: BlockType)
    requires
        kind != BlockType::No,
    ensures
        locations_spec(kind).len() == 4,
        locations_spec(kind)[0] == (0i32, 0i32),
        forall|i: int|
            0 <= i < 4 ==> -2 <= (#[trigger] locations_spec(kind)[i]).0 <= 2
                && -2 <= locations_spec(kind)[i].1 <= 2,
        forall|i: int, j: int|
            0 <= i < j < 4 ==> locations_spec(kind)[i] != locations_spec(kind)[j],
{
}

/// One relative offset turned by a rotation state, following the standard
/// 2 x 2 rotation matrices: 0 keeps (x, y), 90 gives (-y, x), 180 gives
/// (-x, -y), 270 gives (y, -x).
pub open spec fn rotate_offset_spec(p: (i32, i32), rotation: Rotation) -> (i32, i32) {
    match rotation {
        Rotation::Rot0 => p,
        Rotation::Rot90 => ((-p.1) as i32, p.0),
        Rotation::Rot180 => ((-p.0) as i32, (-p.1) as i32),
        Rotation::Rot270 => (p.1, (-p.0) as i32),
    }
}

/// The relative offsets of a set of positions after a rotation. I uses a
/// fixed table per rotation (it is not symmetric under the generic matrix at
/// origin-relative coordinates) and O is rotation-invariant; every other
/// kind goes through the rotation matrix.
pub open spec fn rotated_cells_spec(
    positions: Seq<(i32, i32)>,
    rotation: Rotation,
    kind: BlockType,
) -> Seq<(i32, i32)> {
    match kind {
        BlockType::I => match rotation {
            Rotation::Rot0 => positions,
            Rotation::Rot90 => seq![(0i32, 0i32), (1i32, 0i32), (-2i32, 0i32), (-1i32, 0i32)],
            Rotation::Rot180 => seq![(-1i32, -1i32), (-1i32, 0i32), (-1i32, 1i32), (-1i32, 2i32)],
            Rotation::Rot270 => seq![(-2i32, 1i32), (-1i32, 1i32), (0i32, 1i32), (1i32, 1i32)],
        },
        BlockType::O => positions,
        _ => positions.map_values(|p: (i32, i32)| rotate_offset_spec(p, rotation)),
    }
}

/// Rotates the given relative positions into the given rotation state.
pub fn get_rotation(positions: &[(i32, i32)], rotation: &Rotation, kind: &BlockType) -> (r: Vec<
    (i32, i32),
>)
    requires
        forall|i: int|
            0 <= i < positions@.len() ==> (#[trigger] positions@[i]).0 > i32::MIN
                && positions@[i].1 > i32::MIN,
    ensures
        r@ == rotated_cells_spec(positions@, *rotation, *kind),
{
    match kind {
        BlockType::I => match rotation {
            Rotation::Rot0 => slice_to_owned(positions),
            Rotation::Rot90 => vec![(0, 0), (1, 0), (-2, 0), (-1, 0)],
            Rotation::Rot180 => vec![(-1, -1), (-1, 0), (-1, 1), (-1, 2)],
            Rotation::Rot270 => vec![(-2, 1), (-1, 1), (0, 1), (1, 1)],
        },
        BlockType::O => slice_to_owned(positions),
        _ => {
            let mut r: Vec<(i32, i32)> = Vec::new();
            let mut i: usize = 0;
            while i < positions.len()
                invariant
                    i <= positions@.len(),
                    r@.len() == i,
                    forall|j: int|
                        0 <= j < positions@.len() ==> (#[trigger] positions@[j]).0 > i32::MIN
                            && positions@[j].1 > i32::MIN,
                    forall|j: int|
                        0 <= j < i ==> r@[j] == rotate_offset_spec(
                            #[trigger] positions@[j],
                            *rotation,
                        ),
                decreases positions@.len() - i,
            {
                let (x, y) = positions[i];
                let turned = match rotation {
                    Rotation::Rot0 => (x, y),
                    Rotation::Rot90 => (-y, x),
                    Rotation::Rot180 => (-x, -y),
                    Rotation::Rot270 => (y, -x),
                };
                r.push(turned);
                i = i + 1;
            }
            assert(r@ =~= positions@.map_values(
                |p: (i32, i32)| rotate_offset_spec(p, *rotation),
            ));
            r
        },
    }
}

/// Copies a slice of positions into a fresh vector.
fn slice_to_owned(positions: &[(i32, i32)]) -> (r: Vec<(i32, i32)>)
    ensures
        r@ == positions@,
{
    let mut r: Vec<(i32, i32)> = Vec::new();
    let mut i: usize = 0;
    while i < positions.len()
        invariant
            i <= positions@.len(),
            r@ =~= positions@.take(i as int),
        decreases positions@.len() - i,
    {
        r.push(positions[i]);
        i = i + 1;
    }
    assert(r@ =~= positions@);
    r
}

/// The currently falling piece: its kind, rotation state, and the grid
/// coordinates of its rotation origin.
#[derive(Copy, Clone, Debug)]
pub struct CurrentBlock {
    pub location: (i32, i32),
    pub rotation: Rotation,
    pub kind: BlockType,
}

/// A freshly spawned piece: one of the seven non-empty kinds, in rotation
/// state 0, with its origin at the fixed spawn coordinate.
pub open spec fn is_spawn(c: CurrentBlock) -> bool {
    &&& c.location == (crate::SPAWN_X, crate::SPAWN_Y)
    &&& c.rotation == Rotation::Rot0
    &&& c.kind != BlockType::No
}

/// The piece kind drawn for each index below 7.
pub open spec fn kind_from_index_spec(i: int) -> BlockType {
    if i == 0 {
        BlockType::I
    } else if i == 1 {
        BlockType::J
    } else if i == 2 {
        BlockType::L
    } else if i == 3 {
        BlockType::O
    } else if i == 4 {
        BlockType::S
    } else if i == 5 {
        BlockType::Z
    } else {
        BlockType::T
    }
}

/// Maps an index below 7 to a piece kind, covering all seven non-empty kinds.
pub fn kind_from_index(i: usize) -> (k: BlockType)
    requires
        i < 7,
    ensures
        k == kind_from_index_spec(i as int),
        k != BlockType::No,
{
    if i == 0 {
        BlockType::I
    } else if i == 1 {
        BlockType::J
    } else if i == 2 {
        BlockType::L
    } else if i == 3 {
        BlockType::O
    } else if i == 4 {
        BlockType::S
    } else if i == 5 {
        BlockType::Z
    } else {
        BlockType::T
    }
}

/// Relies on rand::random_range: a uniform draw from the half-open range
/// given to it, here 0..7, so the result is always below 7.
#[verifier::external_body]
fn random_piece_index() -> (i: usize)
    ensures
        i < 7,
{
    rand::random_range(0..7)
}

impl CurrentBlock {
    /// Spawns a piece of a uniformly random kind at the spawn coordinate, in
    /// rotation state 0.
    pub fn new() -> (c: Self)
        ensures
            is_spawn(c),
    {
        let i: usize = random_piece_index();
        CurrentBlock { location: (crate::SPAWN_X, crate::SPAWN_Y), rotation: Rotation::Rot0, kind: kind_from_index(i) }
    }

    /// Spawns a piece of the given kind at the spawn coordinate, in rotation
    /// state 0. Hosts and tests that want a deterministic sequence of pieces
    /// use this in place of the random constructor.
    pub fn with_kind(kind: BlockType) -> (c: Self)
        requires
            kind != BlockType::No,
        ensures
            is_spawn(c),
            c.kind == kind,
    {
        CurrentBlock { location: (crate::SPAWN_X, crate::SPAWN_Y), rotation: Rotation::Rot0, kind }
    }
}

/// The relative cell offsets of a piece kind in a rotation state.
pub open spec fn rel_cells(kind: BlockType, rotation: Rotation) -> Seq<(i32, i32)> {
    rotated_cells_spec(locations_spec(kind), rotation, kind)
}

/// The absolute grid cells a piece occupies: its origin plus each relative
/// offset of its kind in its rotation state.
pub open spec fn abs_cells(c: CurrentBlock) -> Seq<(i64, i64)> {
    rel_cells(c.kind, c.rotation).map_values(
        |p: (i32, i32)| ((c.location.0 + p.0) as i64, (c.location.1 + p.1) as i64),
    )
}

/// Returns the absolute grid cells the piece occupies.
pub fn occupied_cells(piece: &CurrentBlock) -> (r: Vec<(i64, i64)>)
    ensures
        r@ == abs_cells(*piece),
{
    let base = get_locations(piece.kind);
    proof {
        if piece.kind != BlockType::No {
            lemma_locations_shape(piece.kind);
        }
    }
    let rel = get_rotation(base.as_slice(), &piece.rotation, &piece.kind);
    let mut r: Vec<(i64, i64)> = Vec::new();
    let mut i: usize = 0;
    while i < rel.len()
        invariant
            i <= rel@.len(),
            r@.len() == i,
            rel@ == rel_cells(piece.kind, piece.rotation),
            forall|j: int|
                0 <= j < i ==> r@[j] == (
                    (piece.location.0 + (#[trigger] rel@[j]).0) as i64,
                    (piece.location.1 + rel@[j].1) as i64,
                ),
        decreases rel@.len() - i,
    {
        let (dx, dy) = rel[i];
        let x: i64 = piece.location.0 as i64 + dx as i64;
        let y: i64 = piece.location.1 as i64 + dy as i64;
        r.push((x, y));
        i = i + 1;
    }
    assert(r@ =~= abs_cells(*piece));
    r
}

/// Rotating by the matrix never collapses two distinct small offsets into
/// one: on offsets within [-2, 2] the transform is injective.
proof fn lemma_rotate_offset_injective(p1: (i32, i32), p2: (i32, i32), rotation: Rotation)
    requires
        -2 <= p1.0 <= 2,
        -2 <= p1.1 <= 2,
        -2 <= p2.0 <= 2,
        -2 <= p2.1 <= 2,
        rotate_offset_spec(p1, rotation) == rotate_offset_spec(p2, rotation),
    ensures
        p1 == p2,
{
}

/// Every piece, in every rotation state, occupies exactly 4 relative cells,
/// pairwise distinct.
pub proof fn lemma_rel_cells_distinct(kind: BlockType, rotation: Rotation)
    requires
        kind != BlockType::No,
    ensures
        rel_cells(kind, rotation).len() == 4,
        forall|i: int, j: int|
            0 <= i < j < 4 ==> rel_cells(kind, rotation)[i] != rel_cells(kind, rotation)[j],
{
    lemma_locations_shape(kind);
    let base = locations_spec(kind);
    let rel = rel_cells(kind, rotation);
    match kind {
        BlockType::I => {
        },
        BlockType::O => {
        },
        BlockType::No => {
        },
        _ => {
            assert forall|i: int, j: int| 0 <= i < j < 4 implies rel[i] != rel[j] by {
                assert(rel[i] == rotate_offset_spec(base[i], rotation));
                assert(rel[j] == rotate_offset_spec(base[j], rotation));
                if rel[i] == rel[j] {
                    lemma_rotate_offset_injective(base[i], base[j], rotation);
                }
            }
        },
    }
}

/// For every piece and every rotation state, `occupied_cells` yields exactly
/// 4 cells, pairwise distinct.
pub proof fn lemma_occupied_cells_distinct(c: CurrentBlock)
    requires
        c.kind != BlockType::No,
    ensures
        abs_cells(c).len() == 4,
        forall|i: int, j: int| 0 <= i < j < 4 ==> abs_cells(c)[i] != abs_cells(c)[j],
{
    lemma_rel_cells_distinct(c.kind, c.rotation);
    let rel = rel_cells(c.kind, c.rotation);
    let abs = abs_cells(c);
    assert forall|i: int, j: int| 0 <= i < j < 4 implies abs[i] != abs[j] by {
        assert(abs[i] == ((c.location.0 + rel[i].0) as i64, (c.location.1 + rel[i].1) as i64));
        assert(abs[j] == ((c.location.0 + rel[j].0) as i64, (c.location.1 + rel[j].1) as i64));
    }
}

} // verus!
