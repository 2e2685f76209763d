use vstd::prelude::*;
use vstd::relations::{sorted_by, total_ordering};

use crate::block_pos::{fits_i32, rotated_xz, BlockPos};
use crate::blocks::Blocks;
use crate::direction::Direction;
use crate::world::{World, WorldEdit};

verus! {

/// The x coordinate of the world position where grid cell (0, 0) starts.
pub const DUNGEON_ORIGIN_X: i32 = -200;

/// The z coordinate of the world position where grid cell (0, 0) starts.
pub const DUNGEON_ORIGIN_Z: i32 = -200;

/// The layout a room has on the dungeon grid.
#[derive(Clone, Copy, Debug, PartialEq, Eq, Structural, Hash)]
pub enum RoomShape {
    OneByOne,
    OneByOneCross,
    OneByOneEnd,
    OneByOneStraight,
    OneByOneBend,
    OneByOneTriple,
    OneByTwo,
    OneByThree,
    OneByFour,
    TwoByTwo,
    L,
}

/// What a room is for.
#[derive(Clone, Copy, Debug, PartialEq, Eq, Structural, Hash)]
pub enum RoomType {
    Normal,
    Blood,
    Entrance,
    Fairy,
    Trap,
    Yellow,
    Puzzle,
    Rare,
}

/// A door of the dungeon, at world coordinates `(x, z)`.
#[derive(Clone, Copy, Debug, PartialEq, Eq, Structural, Hash)]
pub struct Door {
    pub x: i32,
    pub z: i32,
}

/// A crusher: a moving wall of blocks, `width` blocks wide, that starts at
/// `block_pos` and moves toward `direction`.
#[derive(Clone, Copy, Debug, PartialEq, Eq, Structural, Hash)]
pub struct Crusher {
    pub block_pos: BlockPos,
    pub direction: Direction,
    pub width: i32,
}

/// What is stored about a kind of room: its type and shape, its size in
/// blocks (`length` along x, `width` along z), the y of its floor, its
/// blocks, and its crushers in room coordinates (unrotated, relative to the
/// room's corner).
pub struct RoomData {
    pub room_type: RoomType,
    pub shape: RoomShape,
    pub length: i32,
    pub width: i32,
    pub bottom: i32,
    pub block_data: Vec<Blocks>,
    pub crusher_data: Vec<Crusher>,
}

/// A room of the dungeon: its grid cells, sorted by x and then by z, what
/// is stored about it, its rotation, how many ticks it has run, and its
/// crushers in world coordinates.
pub struct Room {
    pub segments: Vec<(usize, usize)>,
    pub room_data: RoomData,
    pub rotation: Direction,
    pub tick_amount: u32,
    pub crushers: Vec<Crusher>,
}

/// A grid coordinate as the world computations use it: cast to `i32`.
pub open spec fn grid(v: usize) -> int {
    (v as i32) as int
}

/// The x coordinates of the segments.
pub open spec fn xs(segments: Seq<(usize, usize)>) -> Seq<usize> {
    segments.map_values(|s: (usize, usize)| s.0)
}

/// The z coordinates of the segments.
pub open spec fn zs(segments: Seq<(usize, usize)>) -> Seq<usize> {
    segments.map_values(|s: (usize, usize)| s.1)
}

/// The smallest value of a non-empty sequence.
pub open spec fn seq_min(s: Seq<usize>) -> usize
    decreases s.len(),
{
    if s.len() <= 1 {
        s[0]
    } else {
        let m = seq_min(s.drop_last());
        if s.last() < m {
            s.last()
        } else {
            m
        }
    }
}

/// The largest value of a non-empty sequence.
pub open spec fn seq_max(s: Seq<usize>) -> usize
    decreases s.len(),
{
    if s.len() <= 1 {
        s[0]
    } else {
        let m = seq_max(s.drop_last());
        if s.last() > m {
            s.last()
        } else {
            m
        }
    }
}

/// The smallest value is one of the values and no value is smaller.
pub proof fn lemma_seq_min(s: Seq<usize>)
    requires
        s.len() > 0,
    ensures
        s.contains(seq_min(s)),
        forall|i: int| 0 <= i < s.len() ==> seq_min(s) <= #[trigger] s[i],
    decreases s.len(),
{
    if s.len() > 1 {
        lemma_seq_min(s.drop_last());
        assert(forall|i: int| 0 <= i < s.len() - 1 ==> s.drop_last()[i] == s[i]);
        if !(s.last() < seq_min(s.drop_last())) {
            let j = choose|j: int| 0 <= j < s.drop_last().len() && s.drop_last()[j] == seq_min(s.drop_last());
            assert(s[j] == seq_min(s));
        }
    }
}

/// The largest value is one of the values and no value is larger.
pub proof fn lemma_seq_max(s: Seq<usize>)
    requires
        s.len() > 0,
    ensures
        s.contains(seq_max(s)),
        forall|i: int| 0 <= i < s.len() ==> seq_max(s) >= #[trigger] s[i],
    decreases s.len(),
{
    if s.len() > 1 {
        lemma_seq_max(s.drop_last());
        assert(forall|i: int| 0 <= i < s.len() - 1 ==> s.drop_last()[i] == s[i]);
        if !(s.last() > seq_max(s.drop_last())) {
            let j = choose|j: int| 0 <= j < s.drop_last().len() && s.drop_last()[j] == seq_max(s.drop_last());
            assert(s[j] == seq_max(s));
        }
    }
}

/// The smallest or largest x or z coordinate of non-empty segments.
fn coordinate_extreme(segments: &Vec<(usize, usize)>, along_x: bool, smallest: bool) -> (r: usize)
    requires
        segments@.len() > 0,
    ensures
        r == (if along_x {
            if smallest {
                seq_min(xs(segments@))
            } else {
                seq_max(xs(segments@))
            }
        } else {
            if smallest {
                seq_min(zs(segments@))
            } else {
                seq_max(zs(segments@))
            }
        }),
{
    let ghost all = if along_x {
        xs(segments@)
    } else {
        zs(segments@)
    };
    let mut best: usize = if along_x {
        segments[0].0
    } else {
        segments[0].1
    };
    let mut i: usize = 1;
    assert(all.take(1) =~= seq![all[0]]);
    while i < segments.len()
        invariant
            1 <= i <= segments@.len(),
            all == (if along_x {
                xs(segments@)
            } else {
                zs(segments@)
            }),
            best == (if smallest {
                seq_min(all.take(i as int))
            } else {
                seq_max(all.take(i as int))
            }),
        decreases segments@.len() - i,
    {
        let v = if along_x {
            segments[i].0
        } else {
            segments[i].1
        };
        assert(all.take(i + 1).drop_last() =~= all.take(i as int));
        if smallest {
            if v < best {
                best = v;
            }
        } else {
            if v > best {
                best = v;
            }
        }
        i = i + 1;
    }
    assert(all.take(i as int) =~= all);
    best
}

/// The corner of a room in world coordinates `(x, z)`: the north-west
/// corner of its grid cells, moved to the east side for East and South and
/// to the south side for South and West (`length` blocks along x, `width`
/// along z).
pub open spec fn corner_xz(segments: Seq<(usize, usize)>, rotation: Direction, length: int, width: int) -> (int, int) {
    let x = grid(seq_min(xs(segments))) * 32 + DUNGEON_ORIGIN_X;
    let z = grid(seq_min(zs(segments))) * 32 + DUNGEON_ORIGIN_Z;
    match rotation {
        Direction::East => (x + length - 1, z),
        Direction::South => (x + length - 1, z + width - 1),
        Direction::West => (x, z + width - 1),
        _ => (x, z),
    }
}

/// Whether every step of computing the corner stays in `i32`.
pub open spec fn corner_fits(segments: Seq<(usize, usize)>, rotation: Direction, length: int, width: int) -> bool {
    let gx = grid(seq_min(xs(segments))) * 32;
    let gz = grid(seq_min(zs(segments))) * 32;
    let x = gx + DUNGEON_ORIGIN_X;
    let z = gz + DUNGEON_ORIGIN_Z;
    &&& fits_i32(gx)
    &&& fits_i32(gz)
    &&& fits_i32(x)
    &&& fits_i32(z)
    &&& (rotation is East || rotation is South) ==> fits_i32(x + length) && fits_i32(x + length - 1)
    &&& (rotation is South || rotation is West) ==> fits_i32(z + width) && fits_i32(z + width - 1)
}

/// The y at which a room's corner stands.
pub const CORNER_Y: i32 = 68;

impl Room {
    /// The world position of the corner of a room with these grid cells,
    /// rotation and size.
    pub fn get_corner_pos_from(segments: &Vec<(usize, usize)>, rotation: &Direction, room_data: &RoomData) -> (pos: BlockPos)
        requires
            segments@.len() > 0,
            rotation.is_horizontal(),
            corner_fits(segments@, *rotation, room_data.length as int, room_data.width as int),
        ensures
            pos.x == corner_xz(segments@, *rotation, room_data.length as int, room_data.width as int).0,
            pos.y == CORNER_Y,
            pos.z == corner_xz(segments@, *rotation, room_data.length as int, room_data.width as int).1,
    {
        let min_x = coordinate_extreme(segments, true, true);
        let min_y = coordinate_extreme(segments, false, true);
        let x = min_x as i32 * 32 + DUNGEON_ORIGIN_X;
        let y = CORNER_Y;
        let z = min_y as i32 * 32 + DUNGEON_ORIGIN_Z;
        match rotation {
            Direction::North => BlockPos { x, y, z },
            Direction::East => BlockPos { x: x + room_data.length - 1, y, z },
            Direction::South => BlockPos { x: x + room_data.length - 1, y, z: z + room_data.width - 1 },
            _ => BlockPos { x: x, y, z: z + room_data.width - 1 },
        }
    }
}

/// Whether some door stands at world coordinates `(x, z)`.
pub open spec fn has_door_at(doors: Seq<Door>, x: int, z: int) -> bool {
    exists|i: int| 0 <= i < doors.len() && doors[i].x == x && doors[i].z == z
}

/// The shape and rotation of a one-cell room with doors on the given sides.
pub open spec fn one_by_one_shape(north: bool, east: bool, south: bool, west: bool) -> (RoomShape, Direction) {
    if north && east && south && west {
        (RoomShape::OneByOneCross, Direction::North)
    } else if north && !east && !south && !west {
        (RoomShape::OneByOneEnd, Direction::North)
    } else if !north && east && !south && !west {
        (RoomShape::OneByOneEnd, Direction::East)
    } else if !north && !east && south && !west {
        (RoomShape::OneByOneEnd, Direction::South)
    } else if !north && !east && !south && west {
        (RoomShape::OneByOneEnd, Direction::West)
    } else if !north && east && !south && west {
        (RoomShape::OneByOneStraight, Direction::North)
    } else if north && !east && south && !west {
        (RoomShape::OneByOneStraight, Direction::East)
    } else if !north && !east && south && west {
        (RoomShape::OneByOneBend, Direction::North)
    } else if north && !east && !south && west {
        (RoomShape::OneByOneBend, Direction::East)
    } else if north && east && !south && !west {
        (RoomShape::OneByOneBend, Direction::South)
    } else if !north && east && south && !west {
        (RoomShape::OneByOneBend, Direction::West)
    } else if north && !east && south && west {
        (RoomShape::OneByOneTriple, Direction::North)
    } else if north && east && !south && west {
        (RoomShape::OneByOneTriple, Direction::East)
    } else if north && east && south && !west {
        (RoomShape::OneByOneTriple, Direction::South)
    } else if !north && east && south && west {
        (RoomShape::OneByOneTriple, Direction::West)
    } else {
        (RoomShape::OneByOne, Direction::North)
    }
}

/// The world coordinates `(x, z)` of the centre of the first grid cell.
pub open spec fn first_cell_centre(segments: Seq<(usize, usize)>) -> (int, int) {
    (grid(segments[0].0) * 32 + 15, grid(segments[0].1) * 32 + 15)
}

/// Whether the door positions around the centre of the first cell, 16
/// blocks away on each side, stay in `i32`.
pub open spec fn first_cell_fits(segments: Seq<(usize, usize)>) -> bool {
    let c = first_cell_centre(segments);
    &&& fits_i32(grid(segments[0].0) * 32)
    &&& fits_i32(grid(segments[0].1) * 32)
    &&& fits_i32(c.0 - 16)
    &&& fits_i32(c.0 + 16)
    &&& fits_i32(c.1 - 16)
    &&& fits_i32(c.1 + 16)
}

/// The shape and rotation of a one-cell room, found from which of its four
/// sides have a door: a door is on the north side when one stands 16 blocks
/// toward negative z from the centre of the first cell, and so on.
pub open spec fn spec_one_by_one(segments: Seq<(usize, usize)>, doors: Seq<Door>) -> (RoomShape, Direction) {
    let c = first_cell_centre(segments);
    one_by_one_shape(
        has_door_at(doors, c.0, c.1 - 16),
        has_door_at(doors, c.0 + 16, c.1),
        has_door_at(doors, c.0, c.1 + 16),
        has_door_at(doors, c.0 - 16, c.1),
    )
}

/// Whether some door stands at `(x, z)`.
fn door_at(doors: &Vec<Door>, x: i32, z: i32) -> (found: bool)
    ensures
        found == has_door_at(doors@, x as int, z as int),
{
    let mut i: usize = 0;
    while i < doors.len()
        invariant
            i <= doors@.len(),
            forall|j: int| 0 <= j < i ==> !(doors@[j].x == x && doors@[j].z == z),
        decreases doors@.len() - i,
    {
        if doors[i].x == x && doors[i].z == z {
            return true;
        }
        i = i + 1;
    }
    false
}

impl Room {
    /// The shape and rotation of a one-cell room from the doors around its
    /// first cell.
    pub fn get_1x1_shape_and_type(segments: &Vec<(usize, usize)>, dungeon_doors: &Vec<Door>) -> (r: (RoomShape, Direction))
        requires
            segments@.len() > 0,
            first_cell_fits(segments@),
        ensures
            r == spec_one_by_one(segments@, dungeon_doors@),
    {
        let center_x = segments[0].0 as i32 * 32 + 15;
        let center_z = segments[0].1 as i32 * 32 + 15;
        let north = door_at(dungeon_doors, center_x, center_z - 16);
        let east = door_at(dungeon_doors, center_x + 16, center_z);
        let south = door_at(dungeon_doors, center_x, center_z + 16);
        let west = door_at(dungeon_doors, center_x - 16, center_z);
        let num: u8 = (if north { 8u8 } else { 0u8 }) + (if east { 4u8 } else { 0u8 }) + (if south {
            2u8
        } else {
            0u8
        }) + (if west { 1u8 } else { 0u8 });
        match num {
            0b1111 => (RoomShape::OneByOneCross, Direction::North),
            0b1000 => (RoomShape::OneByOneEnd, Direction::North),
            0b0100 => (RoomShape::OneByOneEnd, Direction::East),
            0b0010 => (RoomShape::OneByOneEnd, Direction::South),
            0b0001 => (RoomShape::OneByOneEnd, Direction::West),
            0b0101 => (RoomShape::OneByOneStraight, Direction::North),
            0b1010 => (RoomShape::OneByOneStraight, Direction::East),
            0b0011 => (RoomShape::OneByOneBend, Direction::North),
            0b1001 => (RoomShape::OneByOneBend, Direction::East),
            0b1100 => (RoomShape::OneByOneBend, Direction::South),
            0b0110 => (RoomShape::OneByOneBend, Direction::West),
            0b1011 => (RoomShape::OneByOneTriple, Direction::North),
            0b1101 => (RoomShape::OneByOneTriple, Direction::East),
            0b1110 => (RoomShape::OneByOneTriple, Direction::South),
            0b0111 => (RoomShape::OneByOneTriple, Direction::West),
            _ => (RoomShape::OneByOne, Direction::North),
        }
    }
}

/// The number of different values in a sequence.
pub open spec fn distinct_count(s: Seq<usize>) -> nat {
    s.to_set().len()
}

/// The grid distance between two cells: steps along x plus steps along z.
pub open spec fn cell_distance(a: (usize, usize), b: (usize, usize)) -> int {
    let dx = a.0 as int - b.0 as int;
    let dz = a.1 as int - b.1 as int;
    (if dx < 0 {
        -dx
    } else {
        dx
    }) + (if dz < 0 {
        -dz
    } else {
        dz
    })
}

/// Whether segment `i` is at most one step from every segment: the corner
/// of an L-shaped room.
pub open spec fn is_corner(segments: Seq<(usize, usize)>, i: int) -> bool {
    forall|j: int| 0 <= j < segments.len() ==> cell_distance(segments[i], #[trigger] segments[j]) <= 1
}

/// The first segment that is a corner.
pub open spec fn first_corner(segments: Seq<(usize, usize)>) -> int {
    choose|i: int|
        0 <= i < segments.len() && is_corner(segments, i) && forall|j: int|
            0 <= j < i ==> !is_corner(segments, j)
}

/// The rotation of a straight room: North when all its cells share one z
/// (it runs along x), East otherwise.
pub open spec fn straight_rotation(segments: Seq<(usize, usize)>) -> Direction {
    if distinct_count(zs(segments)) == 1 {
        Direction::North
    } else {
        Direction::East
    }
}

/// Whether a room's cells use more than one x and more than one z.
pub open spec fn not_long(segments: Seq<(usize, usize)>) -> bool {
    distinct_count(xs(segments)) > 1 && distinct_count(zs(segments)) > 1
}

/// The rotation of an L-shaped room, from where its corner cell lies in
/// the box of its cells: East at the north-west, South at the north-east,
/// West at the south-east and North at the south-west.
pub open spec fn l_rotation(segments: Seq<(usize, usize)>) -> Direction {
    let c = segments[first_corner(segments)];
    let min_x = seq_min(xs(segments));
    let min_z = seq_min(zs(segments));
    let max_x = seq_max(xs(segments));
    let max_z = seq_max(zs(segments));
    if c == (min_x, min_z) {
        Direction::East
    } else if c == (max_x, min_z) {
        Direction::South
    } else if c == (max_x, max_z) {
        Direction::West
    } else {
        Direction::North
    }
}

/// The rotation of a room of one to four cells.
pub open spec fn spec_rotation(segments: Seq<(usize, usize)>, doors: Seq<Door>) -> Direction {
    if segments.len() == 1 {
        spec_one_by_one(segments, doors).1
    } else if segments.len() == 3 && not_long(segments) {
        l_rotation(segments)
    } else if segments.len() == 4 && distinct_count(xs(segments)) == 2 && distinct_count(zs(segments)) == 2 {
        Direction::North
    } else {
        straight_rotation(segments)
    }
}

/// Whether a rotation can be found for these cells: one to four of them,
/// a one-cell room near enough to the origin, and a corner in a room of
/// three cells that spans more than one x and more than one z.
pub open spec fn rotation_defined(segments: Seq<(usize, usize)>) -> bool {
    &&& 1 <= segments.len() <= 4
    &&& segments.len() == 1 ==> first_cell_fits(segments)
    &&& (segments.len() == 3 && not_long(segments)) ==> exists|i: int|
        0 <= i < segments.len() && is_corner(segments, i)
}

/// The number of different x (or z) coordinates among the segments.
fn count_distinct(segments: &Vec<(usize, usize)>, along_x: bool) -> (n: usize)
    ensures
        n == distinct_count(if along_x {
            xs(segments@)
        } else {
            zs(segments@)
        }),
{
    let ghost all = if along_x {
        xs(segments@)
    } else {
        zs(segments@)
    };
    let mut seen: Vec<usize> = Vec::new();
    let mut i: usize = 0;
    while i < segments.len()
        invariant
            i <= segments@.len(),
            all == (if along_x {
                xs(segments@)
            } else {
                zs(segments@)
            }),
            seen@.no_duplicates(),
            seen@.to_set() == all.take(i as int).to_set(),
        decreases segments@.len() - i,
    {
        let v = if along_x {
            segments[i].0
        } else {
            segments[i].1
        };
        let mut found = false;
        let mut k: usize = 0;
        while k < seen.len()
            invariant
                k <= seen@.len(),
                found ==> seen@.contains(v),
                !found ==> forall|j: int| 0 <= j < k ==> seen@[j] != v,
            decreases seen@.len() - k,
        {
            if seen[k] == v {
                found = true;
            }
            k = k + 1;
        }
        assert(all.take(i + 1) =~= all.take(i as int).push(v));
        if !found {
            let ghost before = seen@;
            seen.push(v);
            assert forall|w: usize| seen@.to_set().contains(w) <==> all.take(i + 1).to_set().contains(w) by {
                broadcast use vstd::seq_lib::group_seq_properties;
                assert(seen@.contains(w) <==> (before.contains(w) || w == v));
                assert(all.take(i + 1).contains(w) <==> (all.take(i as int).contains(w) || w == v));
                assert(before.to_set().contains(w) <==> before.contains(w));
                assert(all.take(i as int).to_set().contains(w) <==> all.take(i as int).contains(w));
            }
            assert(seen@.no_duplicates()) by {
                assert(!before.contains(v));
            }
        } else {
            assert forall|w: usize| seen@.to_set().contains(w) <==> all.take(i + 1).to_set().contains(w) by {
                broadcast use vstd::seq_lib::group_seq_properties;
                assert(all.take(i + 1).contains(w) <==> (all.take(i as int).contains(w) || w == v));
                assert(all.take(i as int).to_set().contains(w) <==> all.take(i as int).contains(w));
                assert(seen@.to_set().contains(v));
            }
        }
        assert(seen@.to_set() =~= all.take(i + 1).to_set());
        i = i + 1;
    }
    assert(all.take(i as int) =~= all);
    proof {
        seen@.unique_seq_to_set();
    }
    seen.len()
}

/// Whether segment `i` is at most one step from every segment.
fn corner_at(segments: &Vec<(usize, usize)>, i: usize) -> (r: bool)
    requires
        i < segments@.len(),
    ensures
        r == is_corner(segments@, i as int),
{
    let a = segments[i];
    let mut j: usize = 0;
    while j < segments.len()
        invariant
            j <= segments@.len(),
            a == segments@[i as int],
            forall|k: int| 0 <= k < j ==> cell_distance(a, #[trigger] segments@[k]) <= 1,
        decreases segments@.len() - j,
    {
        let b = segments[j];
        let dx = if a.0 > b.0 {
            a.0 - b.0
        } else {
            b.0 - a.0
        };
        let dz = if a.1 > b.1 {
            a.1 - b.1
        } else {
            b.1 - a.1
        };
        if dx > 1 || dz > 1 || dx + dz > 1 {
            assert(cell_distance(a, segments@[j as int]) > 1);
            return false;
        }
        j = j + 1;
    }
    true
}

impl Room {
    /// The rotation of a room from its grid cells (and, for a one-cell room,
    /// from the doors around it).
    pub fn get_rotation_from_segments(segments: &Vec<(usize, usize)>, dungeon_doors: &Vec<Door>) -> (r: Direction)
        requires
            rotation_defined(segments@),
        ensures
            r == spec_rotation(segments@, dungeon_doors@),
            r.is_horizontal(),
    {
        let unique_x = count_distinct(segments, true);
        let unique_z = count_distinct(segments, false);
        let not_long = unique_x > 1 && unique_z > 1;
        let len = segments.len();
        assert(not_long == crate::room::not_long(segments@));
        if len == 1 {
            let (_, direction) = Room::get_1x1_shape_and_type(segments, dungeon_doors);
            return direction;
        }
        if len == 3 && not_long {
            let mut i: usize = 0;
            while i < len
                invariant
                    len == segments@.len(),
                    len == 3,
                    not_long,
                    crate::room::not_long(segments@),
                    rotation_defined(segments@),
                    i <= len,
                    forall|j: int| 0 <= j < i ==> !is_corner(segments@, j),
                decreases len - i,
            {
                if corner_at(segments, i) {
                    assert(first_corner(segments@) == i as int) by {
                        let f = first_corner(segments@);
                        assert(0 <= f < segments@.len() && is_corner(segments@, f));
                        if f < i {
                        } else if f > i {
                        }
                    }
                    let corner_value = segments[i];
                    assert(corner_value == segments@[first_corner(segments@)]);
                    let min_x = coordinate_extreme(segments, true, true);
                    let min_y = coordinate_extreme(segments, false, true);
                    let max_x = coordinate_extreme(segments, true, false);
                    let max_y = coordinate_extreme(segments, false, false);
                    if corner_value.0 == min_x && corner_value.1 == min_y {
                        return Direction::East;
                    }
                    if corner_value.0 == max_x && corner_value.1 == min_y {
                        return Direction::South;
                    }
                    if corner_value.0 == max_x && corner_value.1 == max_y {
                        return Direction::West;
                    }
                    return Direction::North;
                }
                i = i + 1;
            }
            assert(false);
        }
        if len == 4 && unique_x == 2 && unique_z == 2 {
            return Direction::North;
        }
        if unique_z == 1 {
            Direction::North
        } else {
            Direction::East
        }
    }
}

/// Cells in order of x, and of z among equal x.
pub open spec fn cell_leq(a: (usize, usize), b: (usize, usize)) -> bool {
    a.0 < b.0 || (a.0 == b.0 && a.1 <= b.1)
}

/// The order of `cell_leq` as a relation.
pub open spec fn cell_order() -> spec_fn((usize, usize), (usize, usize)) -> bool {
    |a: (usize, usize), b: (usize, usize)| cell_leq(a, b)
}

/// The order of cells is a total order.
pub proof fn lemma_cell_order_total()
    ensures
        total_ordering(cell_order()),
{
    let r = cell_order();
    assert(vstd::relations::reflexive(r));
    assert(vstd::relations::antisymmetric(r));
    assert(vstd::relations::transitive(r));
    assert(vstd::relations::strongly_connected(r));
}

/// The cells sorted by x and then by z, which is what sorting them by z and
/// then stably by x gives.
pub open spec fn sorted_cells(segments: Seq<(usize, usize)>) -> Seq<(usize, usize)> {
    segments.sort_by(cell_order())
}

/// Sorts cells by x, and by z among equal x.
fn sort_cells(segments: Vec<(usize, usize)>) -> (r: Vec<(usize, usize)>)
    ensures
        r@ == sorted_cells(segments@),
{
    let mut out: Vec<(usize, usize)> = Vec::new();
    let mut i: usize = 0;
    proof {
        broadcast use vstd::multiset::group_multiset_axioms;
        assert(out@ =~= segments@.take(0));
        assert(out@.to_multiset() =~= segments@.take(0).to_multiset());
    }
    while i < segments.len()
        invariant
            i <= segments@.len(),
            sorted_by(out@, cell_order()),
            out@.to_multiset() == segments@.take(i as int).to_multiset(),
        decreases segments@.len() - i,
    {
        let e = segments[i];
        let mut p: usize = 0;
        while p < out.len() && (out[p].0 < e.0 || (out[p].0 == e.0 && out[p].1 <= e.1))
            invariant
                p <= out@.len(),
                forall|q: int| 0 <= q < p ==> cell_leq(#[trigger] out@[q], e),
            decreases out@.len() - p,
        {
            p = p + 1;
        }
        let ghost before = out@;
        out.insert(p, e);
        assert(sorted_by(out@, cell_order())) by {
            assert forall|a: int, b: int| 0 <= a < b < out@.len() implies #[trigger] cell_order()(out@[a], out@[b]) by {
                if b < p {
                    assert(cell_order()(before[a], before[b]));
                } else if b == p {
                    assert(cell_leq(before[a], e));
                } else if a == p {
                    assert(!cell_leq(before[p as int], e));
                    assert(cell_order()(before[p as int], before[b - 1]) || p as int == b - 1);
                } else if a < p {
                    assert(cell_order()(before[a], before[b - 1]));
                } else {
                    assert(cell_order()(before[a - 1], before[b - 1]));
                }
            }
        }
        assert(segments@.take(i + 1) =~= segments@.take(i as int).push(e));
        proof {
            vstd::seq_lib::to_multiset_insert(before, p as int, e);
            vstd::seq_lib::to_multiset_build(segments@.take(i as int), e);
        }
        i = i + 1;
    }
    assert(segments@.take(i as int) =~= segments@);
    proof {
        lemma_cell_order_total();
        segments@.lemma_sort_by_ensures(cell_order());
        vstd::seq_lib::lemma_sorted_unique(out@, segments@.sort_by(cell_order()), cell_order());
    }
    out
}

/// A crusher of the room data placed in the world: its position turned by
/// `rotation` and moved by the room's corner `(x, z)`, its direction turned
/// by `rotation`.
pub open spec fn placed_crusher(c: Crusher, rotation: Direction, corner: (int, int)) -> Crusher {
    let r = rotated_xz(c.block_pos.x as int, c.block_pos.z as int, rotation);
    Crusher {
        block_pos: BlockPos { x: (r.0 + corner.0) as i32, y: c.block_pos.y, z: (r.1 + corner.1) as i32 },
        direction: c.direction.rotated(rotation),
        width: c.width,
    }
}

/// Whether placing a crusher stays in `i32`.
pub open spec fn crusher_fits(c: Crusher, rotation: Direction, corner: (int, int)) -> bool {
    let r = rotated_xz(c.block_pos.x as int, c.block_pos.z as int, rotation);
    &&& c.block_pos.can_rotate(rotation)
    &&& fits_i32(r.0 + corner.0)
    &&& fits_i32(r.1 + corner.1)
}

impl RoomData {
    /// The corner of a room with these cells and this rotation.
    pub open spec fn corner_of(&self, segments: Seq<(usize, usize)>, rotation: Direction) -> (int, int) {
        corner_xz(segments, rotation, self.length as int, self.width as int)
    }
}

/// Whether a room can be built from these cells, doors and room data: its
/// rotation is found, its corner and its crushers stay in `i32`.
pub open spec fn room_buildable(segments: Seq<(usize, usize)>, doors: Seq<Door>, room_data: RoomData) -> bool {
    let sorted = sorted_cells(segments);
    let rotation = spec_rotation(sorted, doors);
    let corner = room_data.corner_of(sorted, rotation);
    &&& rotation_defined(sorted)
    &&& corner_fits(sorted, rotation, room_data.length as int, room_data.width as int)
    &&& forall|i: int|
        0 <= i < room_data.crusher_data@.len() ==> crusher_fits(
            #[trigger] room_data.crusher_data@[i],
            rotation,
            corner,
        )
}

impl Room {
    /// Whether the room's corner can be computed: it has cells, a horizontal
    /// rotation, and its corner stays in `i32`.
    pub open spec fn corner_defined(&self) -> bool {
        &&& self.segments@.len() > 0
        &&& self.rotation.is_horizontal()
        &&& corner_fits(self.segments@, self.rotation, self.room_data.length as int, self.room_data.width as int)
    }

    /// The room's corner in world coordinates `(x, z)`.
    pub open spec fn corner(&self) -> (int, int) {
        self.room_data.corner_of(self.segments@, self.rotation)
    }

    /// Builds a room from its grid cells, the doors of the dungeon and its
    /// room data: the cells are sorted by x and then by z, the rotation is
    /// found from them, and each crusher of the room data is turned by the
    /// rotation and moved to the room's corner.
    pub fn new(segments: Vec<(usize, usize)>, dungeon_doors: &Vec<Door>, room_data: RoomData) -> (room: Room)
        requires
            room_buildable(segments@, dungeon_doors@, room_data),
        ensures
            room.segments@ == sorted_cells(segments@),
            room.rotation == spec_rotation(sorted_cells(segments@), dungeon_doors@),
            room.room_data == room_data,
            room.tick_amount == 0,
            room.crushers@.len() == room_data.crusher_data@.len(),
            forall|i: int|
                0 <= i < room.crushers@.len() ==> #[trigger] room.crushers@[i] == placed_crusher(
                    room_data.crusher_data@[i],
                    room.rotation,
                    room.corner(),
                ),
            room.corner_defined(),
            room.rotation == spec_rotation(segments@, dungeon_doors@),
            room.corner() == room_data.corner_of(segments@, room.rotation),
    {
        let ghost given = segments@;
        let segments = sort_cells(segments);
        proof {
            lemma_sorted_cells(given);
            lemma_rotation_order_independent(segments@, given, dungeon_doors@);
            let r = spec_rotation(segments@, dungeon_doors@);
            lemma_corner_order_independent(segments@, given, r, room_data.length as int, room_data.width as int);
        }
        let rotation = Room::get_rotation_from_segments(&segments, dungeon_doors);
        let corner_pos = Room::get_corner_pos_from(&segments, &rotation, &room_data);
        let ghost corner = room_data.corner_of(segments@, rotation);
        let mut crushers: Vec<Crusher> = Vec::new();
        let mut i: usize = 0;
        while i < room_data.crusher_data.len()
            invariant
                i <= room_data.crusher_data@.len(),
                corner_pos.x == corner.0,
                corner_pos.z == corner.1,
                forall|k: int|
                    0 <= k < room_data.crusher_data@.len() ==> crusher_fits(
                        #[trigger] room_data.crusher_data@[k],
                        rotation,
                        corner,
                    ),
                crushers@.len() == i,
                forall|k: int|
                    0 <= k < i ==> #[trigger] crushers@[k] == placed_crusher(
                        room_data.crusher_data@[k],
                        rotation,
                        corner,
                    ),
            decreases room_data.crusher_data@.len() - i,
        {
            let mut crusher = room_data.crusher_data[i];
            crusher.direction = crusher.direction.rotate(rotation);
            crusher.block_pos = crusher.block_pos.rotate(rotation);
            crusher.block_pos = crusher.block_pos.add_x(corner_pos.x).add_z(corner_pos.z);
            crushers.push(crusher);
            i = i + 1;
        }
        Room { segments, room_data, rotation, tick_amount: 0, crushers }
    }

    /// The room's corner in world coordinates.
    pub fn get_corner_pos(&self) -> (pos: BlockPos)
        requires
            self.corner_defined(),
        ensures
            pos.x == self.corner().0,
            pos.y == CORNER_Y,
            pos.z == self.corner().1,
    {
        Room::get_corner_pos_from(&self.segments, &self.rotation, &self.room_data)
    }

    /// Counts one more tick.
    pub fn tick(&mut self)
        requires
            old(self).tick_amount < u32::MAX,
        ensures
            final(self).tick_amount == old(self).tick_amount + 1,
            final(self).segments@ == old(self).segments@,
            final(self).room_data == old(self).room_data,
            final(self).rotation == old(self).rotation,
            final(self).crushers@ == old(self).crushers@,
    {
        self.tick_amount = self.tick_amount + 1;
    }
}

/// The block that a room without block data is drawn with.
pub open spec fn default_block() -> Blocks {
    Blocks::Stone { variant: 0 }
}

/// The floor fills for one cell of a room without block data, at height
/// `bottom`: the cell's 31 by 31 square, then the one-block strip toward
/// the next cell along x when the room has it, then the strip toward the
/// next cell along z when the room has it.
pub open spec fn cell_edits(cell: (usize, usize), cells: Seq<(usize, usize)>, bottom: i32) -> Seq<WorldEdit> {
    let x = grid(cell.0) * 32;
    let z = grid(cell.1) * 32;
    let floor = WorldEdit::Fill {
        block: default_block(),
        from_x: (x + DUNGEON_ORIGIN_X) as i32,
        from_y: bottom,
        from_z: (z + DUNGEON_ORIGIN_Z) as i32,
        to_x: (x + DUNGEON_ORIGIN_X + 30) as i32,
        to_y: bottom,
        to_z: (z + DUNGEON_ORIGIN_Z + 30) as i32,
    };
    let toward_x = WorldEdit::Fill {
        block: default_block(),
        from_x: (x + 31 + DUNGEON_ORIGIN_X) as i32,
        from_y: bottom,
        from_z: (z + DUNGEON_ORIGIN_Z) as i32,
        to_x: (x + 31 + DUNGEON_ORIGIN_X) as i32,
        to_y: bottom,
        to_z: (z + DUNGEON_ORIGIN_Z + 30) as i32,
    };
    let toward_z = WorldEdit::Fill {
        block: default_block(),
        from_x: (x + DUNGEON_ORIGIN_X) as i32,
        from_y: bottom,
        from_z: (z + 31 + DUNGEON_ORIGIN_Z) as i32,
        to_x: (x + DUNGEON_ORIGIN_X + 30) as i32,
        to_y: bottom,
        to_z: (z + 31 + DUNGEON_ORIGIN_Z + 30) as i32,
    };
    seq![floor] + (if cells.contains(((cell.0 + 1) as usize, cell.1)) {
        seq![toward_x]
    } else {
        Seq::empty()
    }) + (if cells.contains((cell.0, (cell.1 + 1) as usize)) {
        seq![toward_z]
    } else {
        Seq::empty()
    })
}

/// Whether drawing one cell of a room without block data stays in range.
pub open spec fn cell_fits(cell: (usize, usize), cells: Seq<(usize, usize)>) -> bool {
    let x = grid(cell.0) * 32;
    let z = grid(cell.1) * 32;
    &&& cell.0 < usize::MAX
    &&& cell.1 < usize::MAX
    &&& fits_i32(x)
    &&& fits_i32(z)
    &&& fits_i32(x + DUNGEON_ORIGIN_X)
    &&& fits_i32(x + DUNGEON_ORIGIN_X + 30)
    &&& fits_i32(z + DUNGEON_ORIGIN_Z)
    &&& fits_i32(z + DUNGEON_ORIGIN_Z + 30)
    &&& cells.contains(((cell.0 + 1) as usize, cell.1)) ==> fits_i32(x + 31) && fits_i32(x + 31 + DUNGEON_ORIGIN_X)
    &&& cells.contains((cell.0, (cell.1 + 1) as usize)) ==> fits_i32(z + 31) && fits_i32(z + 31 + DUNGEON_ORIGIN_Z)
        && fits_i32(z + 31 + DUNGEON_ORIGIN_Z + 30)
}

/// The edits for the first `n` cells of a room without block data.
pub open spec fn default_edits(cells: Seq<(usize, usize)>, bottom: i32, n: int) -> Seq<WorldEdit>
    decreases n,
{
    if n <= 0 {
        Seq::empty()
    } else {
        default_edits(cells, bottom, n - 1) + cell_edits(cells[n - 1], cells, bottom)
    }
}

/// The quotient of `a` by `b` rounded toward zero, as Rust's `/` on `i32`.
pub open spec fn trunc_div(a: int, b: int) -> int {
    let q = (if a < 0 {
        -a
    } else {
        a
    }) / (if b < 0 {
        -b
    } else {
        b
    });
    if (a < 0) != (b < 0) {
        -q
    } else {
        q
    }
}

/// The remainder of `a` by `b` with the sign of `a`, as Rust's `%` on `i32`.
pub open spec fn trunc_rem(a: int, b: int) -> int {
    a - b * trunc_div(a, b)
}

/// Rust's `/` and `%` on `i32` by a positive divisor.
fn div_rem_positive(a: i32, b: i32) -> (r: (i32, i32))
    requires
        b > 0,
    ensures
        r.0 == trunc_div(a as int, b as int),
        r.1 == trunc_rem(a as int, b as int),
        -(a as int) <= r.0 <= a || a <= r.0 <= -(a as int),
{
    let q = a / b;
    let m = a % b;
    proof {
        let aa: int = if a < 0 {
            -(a as int)
        } else {
            a as int
        };
        vstd::arithmetic::div_mod::lemma_fundamental_div_mod(aa, b as int);
        vstd::arithmetic::div_mod::lemma_div_pos_is_pos(aa, b as int);
        vstd::arithmetic::div_mod::lemma_div_is_ordered_by_denominator(aa, 1, b as int);
        let d = aa / (b as int);
        if a < 0 {
            assert(q == -d);
            assert(m == -(aa % (b as int)));
            assert((b as int) * (-d) == -((b as int) * d)) by (nonlinear_arith);
        } else {
            assert(q == d);
            assert(m == aa % (b as int));
        }
        assert(m == a - b * q);
    }
    (q, m)
}

/// Rust's `/` and `%` on `i32`, which must not divide by zero or overflow.
fn div_rem(a: i32, b: i32) -> (r: (i32, i32))
    requires
        b != 0,
        !(a == i32::MIN && b == -1),
    ensures
        r.0 == trunc_div(a as int, b as int),
        r.1 == trunc_rem(a as int, b as int),
{
    if b > 0 {
        div_rem_positive(a, b)
    } else if b == i32::MIN {
        if a == i32::MIN {
            (1, 0)
        } else {
            (0, a)
        }
    } else {
        let nb = -b;
        let (q, m) = div_rem_positive(a, nb);
        proof {
            if nb == 1 {
                assert(a != i32::MIN);
            } else {
                let aa: int = if a < 0 {
                    -(a as int)
                } else {
                    a as int
                };
                vstd::arithmetic::div_mod::lemma_div_is_ordered_by_denominator(aa, 2, nb as int);
                vstd::arithmetic::div_mod::lemma_div_pos_is_pos(aa, 2);
            }
        }
        proof {
            assert((b as int) * (-(q as int)) == (nb as int) * (q as int)) by (nonlinear_arith)
                requires
                    nb == -b,
            ;
        }
        (-q, m)
    }
}

/// The index of a block of the room data as the world computations use it:
/// cast to `i32`.
pub open spec fn block_index(i: usize) -> int {
    (i as i32) as int
}

/// The unrotated offset `(x, z)` from the room's corner and the world `y`
/// of block `i` of the room data: x runs fastest over `width`, then z over
/// `length`, then y upward from `bottom`.
pub open spec fn block_local(data: RoomData, i: int) -> (int, int, int) {
    let ind = block_index(i as usize);
    let w = data.width as int;
    let l = data.length as int;
    (trunc_rem(ind, w), trunc_rem(trunc_div(ind, w), l), data.bottom + trunc_div(ind, w * l))
}

impl Room {
    /// The edit that places block `i` of the room data, if it is not air:
    /// the block turned by the room's rotation, at the corner plus the
    /// block's offset turned by the rotation.
    pub open spec fn block_edit(&self, i: int) -> Seq<WorldEdit> {
        let block = self.room_data.block_data@[i];
        if block is Air {
            Seq::empty()
        } else {
            let local = block_local(self.room_data, i);
            let r = rotated_xz(local.0, local.1, self.rotation);
            let c = self.corner();
            seq![WorldEdit::SetBlock {
                block: block.rotated(self.rotation),
                x: (c.0 + r.0) as i32,
                y: local.2 as i32,
                z: (c.1 + r.1) as i32,
            }]
        }
    }

    /// The edits for the first `n` blocks of the room data.
    pub open spec fn block_edits(&self, n: int) -> Seq<WorldEdit>
        decreases n,
    {
        if n <= 0 {
            Seq::empty()
        } else {
            self.block_edits(n - 1) + self.block_edit(n - 1)
        }
    }

    /// Whether placing block `i` divides by no zero and stays in `i32`.
    pub open spec fn block_fits(&self, i: int) -> bool {
        let ind = block_index(i as usize);
        let w = self.room_data.width as int;
        let l = self.room_data.length as int;
        let local = block_local(self.room_data, i);
        let r = rotated_xz(local.0, local.1, self.rotation);
        let c = self.corner();
        self.room_data.block_data@[i] is Air || {
            &&& w != 0
            &&& !(ind == i32::MIN && w == -1)
            &&& l != 0
            &&& !(trunc_div(ind, w) == i32::MIN && l == -1)
            &&& fits_i32(w * l)
            &&& !(ind == i32::MIN && w * l == -1)
            &&& fits_i32(local.2)
            &&& fits_i32(r.0)
            &&& fits_i32(r.1)
            &&& fits_i32(c.0 + r.0)
            &&& fits_i32(c.1 + r.1)
        }
    }

    /// What loading the room writes to the world: with no block data, the
    /// default floor of each cell; otherwise every block of the room data
    /// that is not air, in order.
    pub open spec fn load_edits(&self) -> Seq<WorldEdit> {
        if self.room_data.block_data@.len() == 0 {
            default_edits(self.segments@, self.room_data.bottom, self.segments@.len() as int)
        } else {
            self.block_edits(self.room_data.block_data@.len() as int)
        }
    }

    /// Whether loading the room divides by no zero and stays in range.
    pub open spec fn loadable(&self) -> bool {
        if self.room_data.block_data@.len() == 0 {
            forall|k: int| 0 <= k < self.segments@.len() ==> cell_fits(#[trigger] self.segments@[k], self.segments@)
        } else {
            &&& self.corner_defined()
            &&& forall|i: int| 0 <= i < self.room_data.block_data@.len() ==> #[trigger] self.block_fits(i)
        }
    }
}

/// Whether the cells hold `cell`.
fn has_cell(cells: &Vec<(usize, usize)>, cell: (usize, usize)) -> (r: bool)
    ensures
        r == cells@.contains(cell),
{
    let mut i: usize = 0;
    while i < cells.len()
        invariant
            i <= cells@.len(),
            forall|k: int| 0 <= k < i ==> cells@[k] != cell,
        decreases cells@.len() - i,
    {
        if cells[i].0 == cell.0 && cells[i].1 == cell.1 {
            assert(cells@[i as int] == cell);
            return true;
        }
        i = i + 1;
    }
    false
}

impl Room {
    /// Draws the floor of each cell, and joins it to the next cell along x
    /// and along z when the room has those cells.
    fn load_default(&self, world: &mut World)
        requires
            forall|k: int| 0 <= k < self.segments@.len() ==> cell_fits(#[trigger] self.segments@[k], self.segments@),
        ensures
            final(world)@ == old(world)@ + default_edits(self.segments@, self.room_data.bottom, self.segments@.len() as int),
    {
        let block = Blocks::Stone { variant: 0 };
        let bottom = self.room_data.bottom;
        let mut k: usize = 0;
        while k < self.segments.len()
            invariant
                k <= self.segments@.len(),
                block == default_block(),
                bottom == self.room_data.bottom,
                forall|j: int| 0 <= j < self.segments@.len() ==> cell_fits(#[trigger] self.segments@[j], self.segments@),
                world@ == old(world)@ + default_edits(self.segments@, bottom, k as int),
            decreases self.segments@.len() - k,
        {
            let (x, z) = self.segments[k];
            let ghost before = world@;
            assert(cell_fits(self.segments@[k as int], self.segments@));
            world.fill_blocks(
                block,
                (x as i32 * 32 + DUNGEON_ORIGIN_X, bottom, z as i32 * 32 + DUNGEON_ORIGIN_Z),
                (x as i32 * 32 + DUNGEON_ORIGIN_X + 30, bottom, z as i32 * 32 + DUNGEON_ORIGIN_Z + 30),
            );
            if has_cell(&self.segments, (x + 1, z)) {
                world.fill_blocks(
                    block,
                    (x as i32 * 32 + 31 + DUNGEON_ORIGIN_X, bottom, z as i32 * 32 + DUNGEON_ORIGIN_Z),
                    (x as i32 * 32 + 31 + DUNGEON_ORIGIN_X, bottom, z as i32 * 32 + DUNGEON_ORIGIN_Z + 30),
                );
            }
            if has_cell(&self.segments, (x, z + 1)) {
                world.fill_blocks(
                    block,
                    (x as i32 * 32 + DUNGEON_ORIGIN_X, bottom, z as i32 * 32 + 31 + DUNGEON_ORIGIN_Z),
                    (x as i32 * 32 + DUNGEON_ORIGIN_X + 30, bottom, z as i32 * 32 + 31 + DUNGEON_ORIGIN_Z + 30),
                );
            }
            assert(world@ =~= before + cell_edits(self.segments@[k as int], self.segments@, bottom));
            k = k + 1;
        }
    }

    /// Writes the room into the world: with no block data, a plain floor
    /// for each cell; otherwise each block of the room data that is not air,
    /// turned by the room's rotation, at the room's corner plus the block's
    /// offset turned by the rotation.
    pub fn load_into_world(&self, world: &mut World)
        requires
            self.loadable(),
        ensures
            final(world)@ == old(world)@ + self.load_edits(),
    {
        if self.room_data.block_data.len() == 0 {
            self.load_default(world);
            return;
        }
        let corner = self.get_corner_pos();
        let w = self.room_data.width;
        let l = self.room_data.length;
        let mut i: usize = 0;
        while i < self.room_data.block_data.len()
            invariant
                i <= self.room_data.block_data@.len(),
                self.loadable(),
                self.room_data.block_data@.len() > 0,
                corner.x == self.corner().0,
                corner.z == self.corner().1,
                w == self.room_data.width,
                l == self.room_data.length,
                world@ == old(world)@ + self.block_edits(i as int),
            decreases self.room_data.block_data@.len() - i,
        {
            let ghost before = world@;
            let stored = self.room_data.block_data[i];
            if !stored.is_air() {
                assert(self.block_fits(i as int));
                let mut block = stored;
                block.rotate(self.rotation);
                let ind = i as i32;
                let (by_row, x) = div_rem(ind, w);
                let (_, z) = div_rem(by_row, l);
                assert(ind as int == block_index(i));
                assert(w as int * l as int != 0) by (nonlinear_arith)
                    requires
                        w != 0,
                        l != 0,
                ;
                let (layer, _) = div_rem(ind, w * l);
                let y = self.room_data.bottom + layer;
                let bp = BlockPos { x, y, z }.rotate(self.rotation);
                world.set_block_at(block, corner.x + bp.x, y, corner.z + bp.z);
            }
            assert(world@ =~= before + self.block_edit(i as int));
            i = i + 1;
        }
    }
}

/// The sorted cells of a room hold the same cells, in order of x and then z.
pub proof fn lemma_sorted_cells(segments: Seq<(usize, usize)>)
    ensures
        sorted_by(sorted_cells(segments), cell_order()),
        sorted_cells(segments).to_multiset() == segments.to_multiset(),
        sorted_cells(segments).len() == segments.len(),
{
    lemma_cell_order_total();
    segments.lemma_sort_by_ensures(cell_order());
    vstd::seq_lib::to_multiset_len(segments);
    vstd::seq_lib::to_multiset_len(sorted_cells(segments));
}

/// Cells with the same multiset are as many and hold the same cells.
proof fn lemma_same_cells(s1: Seq<(usize, usize)>, s2: Seq<(usize, usize)>)
    requires
        s1.to_multiset() == s2.to_multiset(),
    ensures
        s1.len() == s2.len(),
        forall|c: (usize, usize)| #[trigger] s1.contains(c) == s2.contains(c),
{
    vstd::seq_lib::to_multiset_len(s1);
    vstd::seq_lib::to_multiset_len(s2);
    assert forall|c: (usize, usize)| #[trigger] s1.contains(c) == s2.contains(c) by {
        vstd::seq_lib::to_multiset_contains(s1, c);
        vstd::seq_lib::to_multiset_contains(s2, c);
    }
}

/// The x (or z) coordinates of cells holding the same cells are the same
/// sets.
proof fn lemma_same_coordinates(s1: Seq<(usize, usize)>, s2: Seq<(usize, usize)>)
    requires
        forall|c: (usize, usize)| #[trigger] s1.contains(c) == s2.contains(c),
    ensures
        xs(s1).to_set() == xs(s2).to_set(),
        zs(s1).to_set() == zs(s2).to_set(),
{
    assert forall|v: usize| #[trigger] xs(s1).contains(v) implies xs(s2).contains(v) by {
        let i = choose|i: int| 0 <= i < xs(s1).len() && xs(s1)[i] == v;
        assert(s1.contains(s1[i]));
        let j = choose|j: int| 0 <= j < s2.len() && s2[j] == s1[i];
        assert(xs(s2)[j] == v);
    }
    assert forall|v: usize| #[trigger] xs(s2).contains(v) implies xs(s1).contains(v) by {
        let i = choose|i: int| 0 <= i < xs(s2).len() && xs(s2)[i] == v;
        assert(s2.contains(s2[i]));
        assert(s1.contains(s2[i]));
        let j = choose|j: int| 0 <= j < s1.len() && s1[j] == s2[i];
        assert(xs(s1)[j] == v);
    }
    assert forall|v: usize| #[trigger] zs(s1).contains(v) implies zs(s2).contains(v) by {
        let i = choose|i: int| 0 <= i < zs(s1).len() && zs(s1)[i] == v;
        assert(s1.contains(s1[i]));
        let j = choose|j: int| 0 <= j < s2.len() && s2[j] == s1[i];
        assert(zs(s2)[j] == v);
    }
    assert forall|v: usize| #[trigger] zs(s2).contains(v) implies zs(s1).contains(v) by {
        let i = choose|i: int| 0 <= i < zs(s2).len() && zs(s2)[i] == v;
        assert(s2.contains(s2[i]));
        assert(s1.contains(s2[i]));
        let j = choose|j: int| 0 <= j < s1.len() && s1[j] == s2[i];
        assert(zs(s1)[j] == v);
    }
    assert(xs(s1).to_set() =~= xs(s2).to_set());
    assert(zs(s1).to_set() =~= zs(s2).to_set());
}

/// The smallest and largest value depend only on the set of values.
proof fn lemma_extremes_same_values(a: Seq<usize>, b: Seq<usize>)
    requires
        a.len() > 0,
        a.to_set() == b.to_set(),
    ensures
        b.len() > 0,
        seq_min(a) == seq_min(b),
        seq_max(a) == seq_max(b),
{
    assert(a.to_set().contains(a[0]));
    assert(b.contains(a[0]));
    lemma_seq_min(a);
    lemma_seq_max(a);
    lemma_seq_min(b);
    lemma_seq_max(b);
    assert(a.to_set().contains(seq_min(a)) && a.to_set().contains(seq_max(a)));
    assert(b.to_set().contains(seq_min(b)) && b.to_set().contains(seq_max(b)));
    let i1 = choose|i: int| 0 <= i < b.len() && b[i] == seq_min(a);
    let i2 = choose|i: int| 0 <= i < a.len() && a[i] == seq_min(b);
    let i3 = choose|i: int| 0 <= i < b.len() && b[i] == seq_max(a);
    let i4 = choose|i: int| 0 <= i < a.len() && a[i] == seq_max(b);
    assert(seq_min(b) <= b[i1] && seq_min(a) <= a[i2]);
    assert(seq_max(b) >= b[i3] && seq_max(a) >= a[i4]);
}

/// The smallest and largest x and z of cells do not depend on their order.
proof fn lemma_extremes_same_cells(s1: Seq<(usize, usize)>, s2: Seq<(usize, usize)>)
    requires
        s1.len() > 0,
        forall|c: (usize, usize)| #[trigger] s1.contains(c) == s2.contains(c),
    ensures
        seq_min(xs(s1)) == seq_min(xs(s2)),
        seq_min(zs(s1)) == seq_min(zs(s2)),
        seq_max(xs(s1)) == seq_max(xs(s2)),
        seq_max(zs(s1)) == seq_max(zs(s2)),
{
    lemma_same_coordinates(s1, s2);
    lemma_extremes_same_values(xs(s1), xs(s2));
    lemma_extremes_same_values(zs(s1), zs(s2));
}

/// Two sequences of cells with the same minimal x and z give the same
/// corner, at the same height; a North corner does not depend on the
/// room's size.
pub proof fn lemma_corner_from_minima(
    s1: Seq<(usize, usize)>,
    s2: Seq<(usize, usize)>,
    rotation: Direction,
    length: int,
    width: int,
    other_length: int,
    other_width: int,
)
    requires
        seq_min(xs(s1)) == seq_min(xs(s2)),
        seq_min(zs(s1)) == seq_min(zs(s2)),
    ensures
        corner_xz(s1, rotation, length, width) == corner_xz(s2, rotation, length, width),
        corner_fits(s1, rotation, length, width) == corner_fits(s2, rotation, length, width),
        corner_xz(s1, Direction::North, length, width) == corner_xz(s1, Direction::North, other_length, other_width),
{
}

/// A room's corner depends only on which cells it has, not on their order;
/// in particular the corner of a built room is that of the cells it was
/// given.
pub proof fn lemma_corner_order_independent(
    s1: Seq<(usize, usize)>,
    s2: Seq<(usize, usize)>,
    rotation: Direction,
    length: int,
    width: int,
)
    requires
        s1.len() > 0,
        s1.to_multiset() == s2.to_multiset(),
    ensures
        corner_xz(s1, rotation, length, width) == corner_xz(s2, rotation, length, width),
        corner_fits(s1, rotation, length, width) == corner_fits(s2, rotation, length, width),
{
    lemma_same_cells(s1, s2);
    lemma_extremes_same_cells(s1, s2);
}

/// The number of sides of a one-cell room that have a door.
pub open spec fn door_count(north: bool, east: bool, south: bool, west: bool) -> int {
    (if north {
        1int
    } else {
        0
    }) + (if east {
        1int
    } else {
        0
    }) + (if south {
        1int
    } else {
        0
    }) + (if west {
        1int
    } else {
        0
    })
}

/// The shape of a one-cell room follows from its doors: a cross with four,
/// a dead end with one (rotated toward it), a straight room with two
/// opposite doors (North when they face east and west), a bend with two
/// doors side by side, a triple with three, and a plain room with none.
pub proof fn lemma_one_by_one_shape(north: bool, east: bool, south: bool, west: bool)
    ensures
        ({
            let (shape, rotation) = one_by_one_shape(north, east, south, west);
            let n = door_count(north, east, south, west);
            &&& (shape is OneByOneCross) == (n == 4)
            &&& (shape is OneByOneEnd) == (n == 1)
            &&& (shape is OneByOneTriple) == (n == 3)
            &&& (shape is OneByOneStraight) == (n == 2 && north == south)
            &&& (shape is OneByOneBend) == (n == 2 && north != south)
            &&& (shape is OneByOne) == (n == 0)
            &&& shape is OneByOneEnd ==> (rotation is North) == north && (rotation is East) == east
                && (rotation is South) == south && (rotation is West) == west
            &&& shape is OneByOneStraight ==> (rotation is North) == east
            &&& rotation.is_horizontal()
        }),
{
}


/// When a sequence uses more than one value, some element differs from any
/// given value.
proof fn lemma_other_value(values: Seq<usize>, v: usize)
    requires
        values.to_set().len() > 1,
    ensures
        exists|j: int| 0 <= j < values.len() && values[j] != v,
{
    broadcast use vstd::set::group_set_axioms;

    if forall|j: int| 0 <= j < values.len() ==> values[j] == v {
        if values.len() == 0 {
            assert(values.to_set() =~= Set::empty());
        } else {
            assert forall|x: usize| #[trigger] values.to_set().contains(x) == (x == v) by {
                if x == v {
                    assert(values[0] == v);
                    assert(values.contains(values[0]));
                }
            }
            assert(values.to_set() =~= Set::empty().insert(v));
        }
    }
}

/// In a room whose cells use more than one x and more than one z, two cells
/// that are each at most one step from every cell are the same cell.
proof fn lemma_corner_unique(segments: Seq<(usize, usize)>, a: (usize, usize), b: (usize, usize))
    requires
        not_long(segments),
        segments.contains(a),
        segments.contains(b),
        forall|j: int| 0 <= j < segments.len() ==> cell_distance(a, #[trigger] segments[j]) <= 1,
        forall|j: int| 0 <= j < segments.len() ==> cell_distance(b, #[trigger] segments[j]) <= 1,
    ensures
        a == b,
{
    let ia = choose|i: int| 0 <= i < segments.len() && segments[i] == a;
    assert(cell_distance(b, segments[ia]) <= 1);
    if a.0 != b.0 {
        lemma_other_value(zs(segments), a.1);
        let j = choose|j: int| 0 <= j < zs(segments).len() && zs(segments)[j] != a.1;
        assert(cell_distance(a, segments[j]) <= 1);
        assert(cell_distance(b, segments[j]) <= 1);
    } else if a.1 != b.1 {
        lemma_other_value(xs(segments), a.0);
        let j = choose|j: int| 0 <= j < xs(segments).len() && xs(segments)[j] != a.0;
        assert(cell_distance(a, segments[j]) <= 1);
        assert(cell_distance(b, segments[j]) <= 1);
    }
}

/// The first corner at or after `k`, when none comes before `k` and `w` is
/// one.
proof fn lemma_least_corner_from(segments: Seq<(usize, usize)>, k: int, w: int) -> (i: int)
    requires
        0 <= k <= w < segments.len(),
        is_corner(segments, w),
        forall|j: int| 0 <= j < k ==> !is_corner(segments, j),
    ensures
        0 <= i < segments.len(),
        is_corner(segments, i),
        forall|j: int| 0 <= j < i ==> !is_corner(segments, j),
    decreases w - k,
{
    if is_corner(segments, k) {
        k
    } else {
        lemma_least_corner_from(segments, k + 1, w)
    }
}

/// When some cell is a corner, the first corner is a corner.
proof fn lemma_first_corner(segments: Seq<(usize, usize)>)
    requires
        exists|i: int| 0 <= i < segments.len() && is_corner(segments, i),
    ensures
        0 <= first_corner(segments) < segments.len(),
        is_corner(segments, first_corner(segments)),
{
    let w = choose|i: int| 0 <= i < segments.len() && is_corner(segments, i);
    let _ = lemma_least_corner_from(segments, 0, w);
}

/// A one-cell room takes the rotation that its doors give.
pub proof fn lemma_one_cell_rotation(segments: Seq<(usize, usize)>, doors: Seq<Door>)
    requires
        segments.len() == 1,
    ensures
        spec_rotation(segments, doors) == spec_one_by_one(segments, doors).1,
{
}

/// A room's rotation does not depend on the order of its cells: cells with
/// the same multiset have a rotation together, and the same one.
pub proof fn lemma_rotation_order_independent(s1: Seq<(usize, usize)>, s2: Seq<(usize, usize)>, doors: Seq<Door>)
    requires
        s1.to_multiset() == s2.to_multiset(),
        rotation_defined(s1),
    ensures
        rotation_defined(s2),
        spec_rotation(s1, doors) == spec_rotation(s2, doors),
{
    lemma_same_cells(s1, s2);
    lemma_same_coordinates(s1, s2);
    if s1.len() == 1 {
        assert(s1.contains(s2[0]));
        assert(s1[0] == s2[0]);
    }
    if s1.len() == 3 && not_long(s1) {
        lemma_extremes_same_cells(s1, s2);
        lemma_first_corner(s1);
        let c1 = s1[first_corner(s1)];
        assert(s1.contains(c1));
        assert(s2.contains(c1));
        let j = choose|j: int| 0 <= j < s2.len() && s2[j] == c1;
        assert forall|k: int| 0 <= k < s2.len() implies cell_distance(s2[j], #[trigger] s2[k]) <= 1 by {
            assert(s2.contains(s2[k]));
            assert(s1.contains(s2[k]));
            let m = choose|m: int| 0 <= m < s1.len() && s1[m] == s2[k];
            assert(cell_distance(s1[first_corner(s1)], s1[m]) <= 1);
        }
        assert(is_corner(s2, j));
        lemma_first_corner(s2);
        let c2 = s2[first_corner(s2)];
        assert(s2.contains(c2));
        assert(s1.contains(c2));
        assert forall|k: int| 0 <= k < s1.len() implies cell_distance(c2, #[trigger] s1[k]) <= 1 by {
            assert(s1.contains(s1[k]));
            assert(s2.contains(s1[k]));
            let m = choose|m: int| 0 <= m < s2.len() && s2[m] == s1[k];
            assert(cell_distance(s2[first_corner(s2)], s2[m]) <= 1);
        }
        assert forall|k: int| 0 <= k < s1.len() implies cell_distance(c1, #[trigger] s1[k]) <= 1 by {
            assert(cell_distance(s1[first_corner(s1)], s1[k]) <= 1);
        }
        lemma_corner_unique(s1, c1, c2);
    }
}

/// Building a room does not depend on the order of its cells: the sorted
/// cells are the same, and so are whether it can be built and its rotation.
pub proof fn lemma_new_order_independent(
    s1: Seq<(usize, usize)>,
    s2: Seq<(usize, usize)>,
    doors: Seq<Door>,
    room_data: RoomData,
)
    requires
        s1.to_multiset() == s2.to_multiset(),
    ensures
        sorted_cells(s1) == sorted_cells(s2),
        room_buildable(s1, doors, room_data) == room_buildable(s2, doors, room_data),
{
    lemma_sorted_cells(s1);
    lemma_sorted_cells(s2);
    lemma_cell_order_total();
    vstd::seq_lib::lemma_sorted_unique(sorted_cells(s1), sorted_cells(s2), cell_order());
}

/// A one-cell room's shape and rotation depend only on its first cell and
/// on which of the four door positions around it hold a door.
pub proof fn lemma_one_by_one_local(s1: Seq<(usize, usize)>, d1: Seq<Door>, s2: Seq<(usize, usize)>, d2: Seq<Door>)
    requires
        s1.len() >= 1,
        s2.len() >= 1,
        s1[0] == s2[0],
        ({
            let c = first_cell_centre(s1);
            &&& has_door_at(d1, c.0, c.1 - 16) == has_door_at(d2, c.0, c.1 - 16)
            &&& has_door_at(d1, c.0 + 16, c.1) == has_door_at(d2, c.0 + 16, c.1)
            &&& has_door_at(d1, c.0, c.1 + 16) == has_door_at(d2, c.0, c.1 + 16)
            &&& has_door_at(d1, c.0 - 16, c.1) == has_door_at(d2, c.0 - 16, c.1)
        }),
    ensures
        spec_one_by_one(s1, d1) == spec_one_by_one(s2, d2),
{
}

/// Turning the doors of a one-cell room a quarter turn clockwise (the north
/// door to the east side, east to south, south to west, west to north)
/// keeps its shape; a dead end, bend or triple turns its rotation a quarter
/// turn clockwise, and a straight room changes its rotation.
pub proof fn lemma_one_by_one_quarter_turn(north: bool, east: bool, south: bool, west: bool)
    ensures
        ({
            let (shape, rotation) = one_by_one_shape(north, east, south, west);
            let (turned_shape, turned_rotation) = one_by_one_shape(west, north, east, south);
            &&& turned_shape == shape
            &&& (shape is OneByOneEnd || shape is OneByOneBend || shape is OneByOneTriple) ==> turned_rotation
                == rotation.rotated(Direction::East)
            &&& shape is OneByOneStraight ==> turned_rotation != rotation
            &&& (shape is OneByOneCross || shape is OneByOne) ==> turned_rotation == rotation
        }),
{
}

/// With no block data, loading a room only fills: every edit is a fill of
/// the default block.
pub proof fn lemma_default_edits_are_fills(cells: Seq<(usize, usize)>, bottom: i32, n: int)
    ensures
        forall|k: int|
            0 <= k < default_edits(cells, bottom, n).len() ==> {
                let e = #[trigger] default_edits(cells, bottom, n)[k];
                &&& e is Fill
                &&& e->Fill_block == default_block()
            },
    decreases n,
{
    if n > 0 {
        lemma_default_edits_are_fills(cells, bottom, n - 1);
        let prev = default_edits(cells, bottom, n - 1);
        let last = cell_edits(cells[n - 1], cells, bottom);
        assert forall|k: int| 0 <= k < default_edits(cells, bottom, n).len() implies {
            let e = #[trigger] default_edits(cells, bottom, n)[k];
            &&& e is Fill
            &&& e->Fill_block == default_block()
        } by {
            if k < prev.len() {
                assert(default_edits(cells, bottom, n)[k] == prev[k]);
            } else {
                assert(default_edits(cells, bottom, n)[k] == last[k - prev.len()]);
            }
        }
    }
}


/// The corner of a room, stated over its cells: there are a cell with the
/// smallest x and a cell with the smallest z such that the corner is at
/// `32 * x - 200` and `32 * z - 200` (each grid coordinate as an `i32`),
/// moved `length - 1` along x for East and South and `width - 1` along z for
/// South and West. So the corner's x follows only the cells' x coordinates
/// and its z only their z coordinates.
pub proof fn lemma_corner_from_cells(segments: Seq<(usize, usize)>, rotation: Direction, length: int, width: int)
    requires
        segments.len() > 0,
    ensures
        exists|i: int, k: int|
            0 <= i < segments.len() && 0 <= k < segments.len() && (forall|j: int|
                0 <= j < segments.len() ==> segments[i].0 <= #[trigger] segments[j].0 && segments[k].1
                    <= segments[j].1) && corner_xz(segments, rotation, length, width) == (
                ((segments[i].0 as i32) as int) * 32 - 200 + (if rotation is East || rotation is South {
                    length - 1
                } else {
                    0
                }),
                ((segments[k].1 as i32) as int) * 32 - 200 + (if rotation is South || rotation is West {
                    width - 1
                } else {
                    0
                }),
            ),
{
    lemma_seq_min(xs(segments));
    lemma_seq_min(zs(segments));
    let i = choose|i: int| 0 <= i < xs(segments).len() && xs(segments)[i] == seq_min(xs(segments));
    let k = choose|k: int| 0 <= k < zs(segments).len() && zs(segments)[k] == seq_min(zs(segments));
    assert forall|j: int| 0 <= j < segments.len() implies segments[i].0 <= #[trigger] segments[j].0 && segments[k].1
        <= segments[j].1 by {
        assert(xs(segments)[j] == segments[j].0);
        assert(zs(segments)[j] == segments[j].1);
    }
    let x = ((segments[i].0 as i32) as int) * 32 - 200;
    let z = ((segments[k].1 as i32) as int) * 32 - 200;
    let dx = if rotation is East || rotation is South {
        length - 1
    } else {
        0
    };
    let dz = if rotation is South || rotation is West {
        width - 1
    } else {
        0
    };
    assert(corner_xz(segments, rotation, length, width) == (x + dx, z + dz));
}

/// Two sequences of cells, one with two different x coordinates, one with
/// two different z coordinates, span more than one x and more than one z.
proof fn lemma_not_long_from_pairs(segments: Seq<(usize, usize)>, a: int, b: int, c: int, d: int)
    requires
        0 <= a < segments.len(),
        0 <= b < segments.len(),
        0 <= c < segments.len(),
        0 <= d < segments.len(),
        segments[a].0 != segments[b].0,
        segments[c].1 != segments[d].1,
    ensures
        not_long(segments),
{
    vstd::seq_lib::seq_to_set_is_finite(xs(segments));
    vstd::seq_lib::seq_to_set_is_finite(zs(segments));
    let px = Set::empty().insert(segments[a].0).insert(segments[b].0);
    let pz = Set::empty().insert(segments[c].1).insert(segments[d].1);
    assert(xs(segments)[a] == segments[a].0 && xs(segments)[b] == segments[b].0);
    assert(zs(segments)[c] == segments[c].1 && zs(segments)[d] == segments[d].1);
    assert(px.subset_of(xs(segments).to_set()));
    assert(pz.subset_of(zs(segments).to_set()));
    vstd::set_lib::lemma_len_subset(px, xs(segments).to_set());
    vstd::set_lib::lemma_len_subset(pz, zs(segments).to_set());
}

/// The rotation of an L room, stated over its cells: for a room of three
/// cells that span two x and two z and one of which (the corner) is at most
/// one step from every cell, the rotation is East when the corner has the
/// smallest x and the smallest z, South when it has the largest x and the
/// smallest z, West when it has the largest x and the largest z, and North
/// otherwise. Moving every cell by the same offset keeps this rotation.
pub proof fn lemma_l_rotation_from_cells(segments: Seq<(usize, usize)>, doors: Seq<Door>, i: int)
    requires
        segments.len() == 3,
        0 <= i < 3,
        forall|j: int|
            #![trigger segments[j]]
            0 <= j < 3 ==> {
                let dx = segments[i].0 as int - segments[j].0 as int;
                let dz = segments[i].1 as int - segments[j].1 as int;
                -1 <= dx <= 1 && -1 <= dz <= 1 && (dx == 0 || dz == 0)
            },
        exists|a: int, b: int| 0 <= a < 3 && 0 <= b < 3 && segments[a].0 != segments[b].0,
        exists|c: int, d: int| 0 <= c < 3 && 0 <= d < 3 && segments[c].1 != segments[d].1,
    ensures
        ({
            let c = segments[i];
            let least_x = forall|j: int| 0 <= j < 3 ==> c.0 <= #[trigger] segments[j].0;
            let least_z = forall|j: int| 0 <= j < 3 ==> c.1 <= #[trigger] segments[j].1;
            let most_x = forall|j: int| 0 <= j < 3 ==> c.0 >= #[trigger] segments[j].0;
            let most_z = forall|j: int| 0 <= j < 3 ==> c.1 >= #[trigger] segments[j].1;
            spec_rotation(segments, doors) == if least_x && least_z {
                Direction::East
            } else if most_x && least_z {
                Direction::South
            } else if most_x && most_z {
                Direction::West
            } else {
                Direction::North
            }
        }),
{
    let (a, b) = choose|a: int, b: int| 0 <= a < 3 && 0 <= b < 3 && segments[a].0 != segments[b].0;
    let (c, d) = choose|c: int, d: int| 0 <= c < 3 && 0 <= d < 3 && segments[c].1 != segments[d].1;
    lemma_not_long_from_pairs(segments, a, b, c, d);
    assert forall|j: int| 0 <= j < segments.len() implies cell_distance(segments[i], #[trigger] segments[j]) <= 1 by {
    }
    assert(is_corner(segments, i));
    lemma_first_corner(segments);
    let f = first_corner(segments);
    assert forall|j: int| 0 <= j < segments.len() implies cell_distance(segments[f], #[trigger] segments[j]) <= 1 by {
    }
    assert(segments.contains(segments[i]));
    assert(segments.contains(segments[f]));
    lemma_corner_unique(segments, segments[i], segments[f]);
    let cell = segments[i];
    lemma_seq_min(xs(segments));
    lemma_seq_min(zs(segments));
    lemma_seq_max(xs(segments));
    lemma_seq_max(zs(segments));
    assert(xs(segments)[0] == segments[0].0 && xs(segments)[1] == segments[1].0 && xs(segments)[2] == segments[2].0);
    assert(zs(segments)[0] == segments[0].1 && zs(segments)[1] == segments[1].1 && zs(segments)[2] == segments[2].1);
    assert(xs(segments)[i] == cell.0 && zs(segments)[i] == cell.1);
}


/// A placed crusher, stated over its fields: its position is its stored
/// position turned about the y axis by the room's rotation (East maps
/// `(x, z)` to `(-z, x)`, South to `(-x, -z)`, West to `(z, -x)`) and moved by
/// the corner, whatever way the crusher faces; its height and width are
/// kept and its direction turns with the room.
pub proof fn lemma_placed_crusher(c: Crusher, facing: Direction, rotation: Direction, corner: (int, int))
    ensures
        placed_crusher(c, rotation, corner).block_pos == placed_crusher(
            Crusher { direction: facing, ..c },
            rotation,
            corner,
        ).block_pos,
        placed_crusher(c, rotation, corner).block_pos.y == c.block_pos.y,
        placed_crusher(c, rotation, corner).width == c.width,
        placed_crusher(c, rotation, corner).direction == c.direction.rotated(rotation),
        ({
            let p = placed_crusher(c, rotation, corner).block_pos;
            let x = c.block_pos.x as int;
            let z = c.block_pos.z as int;
            &&& rotation is East ==> p.x == (corner.0 - z) as i32 && p.z == (corner.1 + x) as i32
            &&& rotation is South ==> p.x == (corner.0 - x) as i32 && p.z == (corner.1 - z) as i32
            &&& rotation is West ==> p.x == (corner.0 + z) as i32 && p.z == (corner.1 - x) as i32
            &&& !rotation.is_horizontal() || rotation is North ==> p.x == (corner.0 + x) as i32 && p.z == (
            corner.1 + z) as i32
        }),
{
}

/// How the blocks of room data are laid out, stated over the block index:
/// with a positive width and length, block `i` is at offset `x` along the
/// width and `z` along the length, `y - bottom` layers up, where
/// `i == x + width * z + width * length * (y - bottom)` with `x` below the
/// width and `z` below the length. So blocks with different indices get
/// different places.
pub proof fn lemma_block_layout(data: RoomData, i: usize)
    requires
        data.width > 0,
        data.length > 0,
        i <= i32::MAX,
    ensures
        ({
            let (x, z, y) = block_local(data, i as int);
            let w = data.width as int;
            let l = data.length as int;
            &&& 0 <= x < w
            &&& 0 <= z < l
            &&& y >= data.bottom
            &&& i == x + w * z + w * l * (y - data.bottom)
        }),
{
    let w = data.width as int;
    let l = data.length as int;
    let n = i as int;
    assert(((i as int) as usize) == i);
    assert(block_index(i) == n);
    vstd::arithmetic::div_mod::lemma_fundamental_div_mod(n, w);
    vstd::arithmetic::div_mod::lemma_div_pos_is_pos(n, w);
    vstd::arithmetic::div_mod::lemma_mod_bound(n, w);
    let q = n / w;
    vstd::arithmetic::div_mod::lemma_fundamental_div_mod(q, l);
    vstd::arithmetic::div_mod::lemma_div_pos_is_pos(q, l);
    vstd::arithmetic::div_mod::lemma_mod_bound(q, l);
    vstd::arithmetic::div_mod::lemma_div_denominator(n, w, l);
    vstd::arithmetic::mul::lemma_mul_strictly_positive(w, l);
    assert(trunc_div(n, w) == q);
    assert(trunc_rem(n, w) == n % w);
    assert(trunc_div(q, l) == q / l);
    assert(trunc_rem(q, l) == q % l);
    assert(trunc_div(n, w * l) == n / (w * l));
    let x = n % w;
    let z = q % l;
    let layer = q / l;
    assert(n == x + w * z + w * l * layer) by (nonlinear_arith)
        requires
            n == w * q + x,
            q == l * layer + z,
    ;
}

/// The filter that keeps cells whose next cell along x is also a cell.
pub open spec fn joined_along_x(cells: Seq<(usize, usize)>) -> spec_fn((usize, usize)) -> bool {
    |c: (usize, usize)| cells.contains(((c.0 + 1) as usize, c.1))
}

/// The filter that keeps cells whose next cell along z is also a cell.
pub open spec fn joined_along_z(cells: Seq<(usize, usize)>) -> spec_fn((usize, usize)) -> bool {
    |c: (usize, usize)| cells.contains((c.0, (c.1 + 1) as usize))
}

/// The default floor, stated over the cells: for every cell at grid
/// `(gx, gz)` (as `i32`), with `x = 32 * gx - 200` and `z = 32 * gz - 200`,
/// the edits fill its square from `(x, z)` to `(x + 30, z + 30)`, fill the
/// strip at `x + 31` when the next cell along x is a cell, and fill the strip
/// at `z + 31` when the next cell along z is a cell (each on its own, whatever
/// the other neighbour), all of stone at `bottom`; and there is one edit
/// for each cell, each joined pair along x and each joined pair along z.
pub proof fn lemma_default_floor(cells: Seq<(usize, usize)>, bottom: i32, n: int)
    requires
        0 <= n <= cells.len(),
    ensures
        ({
            let edits = default_edits(cells, bottom, n);
            &&& forall|k: int|
                #![trigger cells[k]]
                0 <= k < n ==> {
                    let c = cells[k];
                    let x = ((c.0 as i32) as int) * 32 - 200;
                    let z = ((c.1 as i32) as int) * 32 - 200;
                    let stone = Blocks::Stone { variant: 0 };
                    &&& edits.contains(
                        WorldEdit::Fill {
                            block: stone,
                            from_x: x as i32,
                            from_y: bottom,
                            from_z: z as i32,
                            to_x: (x + 30) as i32,
                            to_y: bottom,
                            to_z: (z + 30) as i32,
                        },
                    )
                    &&& cells.contains(((c.0 + 1) as usize, c.1)) ==> edits.contains(
                        WorldEdit::Fill {
                            block: stone,
                            from_x: (x + 31) as i32,
                            from_y: bottom,
                            from_z: z as i32,
                            to_x: (x + 31) as i32,
                            to_y: bottom,
                            to_z: (z + 30) as i32,
                        },
                    )
                    &&& cells.contains((c.0, (c.1 + 1) as usize)) ==> edits.contains(
                        WorldEdit::Fill {
                            block: stone,
                            from_x: x as i32,
                            from_y: bottom,
                            from_z: (z + 31) as i32,
                            to_x: (x + 30) as i32,
                            to_y: bottom,
                            to_z: (z + 61) as i32,
                        },
                    )
                }
            &&& edits.len() == n + cells.take(n).filter(joined_along_x(cells)).len() + cells.take(n).filter(
                joined_along_z(cells),
            ).len()
        }),
    decreases n,
{
    if n > 0 {
        lemma_default_floor(cells, bottom, n - 1);
        let prev = default_edits(cells, bottom, n - 1);
        let last = cell_edits(cells[n - 1], cells, bottom);
        let edits = default_edits(cells, bottom, n);
        assert(edits == prev + last);
        assert forall|e: WorldEdit| prev.contains(e) implies edits.contains(e) by {
            let j = choose|j: int| 0 <= j < prev.len() && prev[j] == e;
            assert(edits[j] == e);
        }
        assert forall|e: WorldEdit| last.contains(e) implies edits.contains(e) by {
            let j = choose|j: int| 0 <= j < last.len() && last[j] == e;
            assert(edits[prev.len() + j] == e);
        }
        let c = cells[n - 1];
        assert(last.contains(last[0]));
        if cells.contains(((c.0 + 1) as usize, c.1)) {
            assert(last.contains(last[1]));
            if cells.contains((c.0, (c.1 + 1) as usize)) {
                assert(last.contains(last[2]));
            }
        } else if cells.contains((c.0, (c.1 + 1) as usize)) {
            assert(last.contains(last[1]));
        }
        reveal_with_fuel(Seq::filter, 1);
        assert(cells.take(n).drop_last() =~= cells.take(n - 1));
        assert(cells.take(n).last() == c);
    }
}

/// Different blocks of a room land on different positions of the world,
/// whatever its rotation, when its width and length are positive and the
/// blocks' indices fit an `i32`.
pub proof fn lemma_blocks_do_not_overlap(room: Room, i: int, j: int)
    requires
        room.room_data.width > 0,
        room.room_data.length > 0,
        0 <= i < j < room.room_data.block_data@.len(),
        j <= i32::MAX,
        room.block_fits(i),
        room.block_fits(j),
        !(room.room_data.block_data@[i] is Air),
        !(room.room_data.block_data@[j] is Air),
    ensures
        room.block_edit(i)[0]->SetBlock_x != room.block_edit(j)[0]->SetBlock_x || room.block_edit(i)[0]->SetBlock_y
            != room.block_edit(j)[0]->SetBlock_y || room.block_edit(i)[0]->SetBlock_z != room.block_edit(
            j,
        )[0]->SetBlock_z,
{
    lemma_block_layout(room.room_data, i as usize);
    lemma_block_layout(room.room_data, j as usize);
    let a = block_local(room.room_data, i);
    let b = block_local(room.room_data, j);
    assert(((i as usize) as int) == i && ((j as usize) as int) == j);
    if a == b {
        assert(i == j);
    }
}


/// A sequence whose values all equal `v`, and which is not empty, holds one
/// distinct value.
proof fn lemma_one_value(values: Seq<usize>, v: usize)
    requires
        values.len() > 0,
        forall|j: int| 0 <= j < values.len() ==> values[j] == v,
    ensures
        values.to_set().len() == 1,
{
    broadcast use vstd::set::group_set_axioms;

    assert forall|x: usize| #[trigger] values.to_set().contains(x) == (x == v) by {
        if x == v {
            assert(values[0] == v);
            assert(values.contains(values[0]));
        }
    }
    assert(values.to_set() =~= Set::empty().insert(v));
}

/// The rotation of a straight room of two to four cells in a line, stated
/// over its cells: North when all its cells share one z (it runs along x),
/// East when they share one x but not one z.
pub proof fn lemma_straight_rotation_from_cells(segments: Seq<(usize, usize)>, doors: Seq<Door>)
    requires
        2 <= segments.len() <= 4,
        (forall|j: int| 0 <= j < segments.len() ==> #[trigger] segments[j].0 == segments[0].0) || (forall|j: int|
            0 <= j < segments.len() ==> #[trigger] segments[j].1 == segments[0].1),
    ensures
        spec_rotation(segments, doors) == if forall|j: int|
            0 <= j < segments.len() ==> #[trigger] segments[j].1 == segments[0].1 {
            Direction::North
        } else {
            Direction::East
        },
{
    if forall|j: int| 0 <= j < segments.len() ==> #[trigger] segments[j].1 == segments[0].1 {
        assert forall|j: int| 0 <= j < zs(segments).len() implies zs(segments)[j] == segments[0].1 by {
            assert(segments[j].1 == segments[0].1);
        }
        lemma_one_value(zs(segments), segments[0].1);
    } else {
        assert forall|j: int| 0 <= j < xs(segments).len() implies xs(segments)[j] == segments[0].0 by {
            assert(segments[j].0 == segments[0].0);
        }
        lemma_one_value(xs(segments), segments[0].0);
        let k = choose|k: int| 0 <= k < segments.len() && #[trigger] segments[k].1 != segments[0].1;
        vstd::seq_lib::seq_to_set_is_finite(zs(segments));
        let pz = Set::empty().insert(segments[0].1).insert(segments[k].1);
        assert(zs(segments)[0] == segments[0].1 && zs(segments)[k] == segments[k].1);
        assert(pz.subset_of(zs(segments).to_set()));
        vstd::set_lib::lemma_len_subset(pz, zs(segments).to_set());
    }
}


/// Where a stored block is placed, stated over its offset: a non-air block
/// whose offset is `x` along the width and `z` along the length (see
/// `lemma_block_layout`) is placed, turned with the room, at the corner
/// plus `(x, z)` for North, `(-z, x)` for East, `(-x, -z)` for South and
/// `(z, -x)` for West, at its layer's height; an air block places nothing.
pub proof fn lemma_block_edit_position(room: Room, i: int)
    requires
        0 <= i < room.room_data.block_data@.len(),
        room.rotation.is_horizontal(),
    ensures
        ({
            let block = room.room_data.block_data@[i];
            let (x, z, y) = block_local(room.room_data, i);
            let c = room.corner();
            let (dx, dz) = if room.rotation is East {
                (-z, x)
            } else if room.rotation is South {
                (-x, -z)
            } else if room.rotation is West {
                (z, -x)
            } else {
                (x, z)
            };
            &&& block is Air ==> room.block_edit(i).len() == 0
            &&& !(block is Air) ==> room.block_edit(i) == seq![
                WorldEdit::SetBlock {
                    block: block.rotated(room.rotation),
                    x: (c.0 + dx) as i32,
                    y: y as i32,
                    z: (c.1 + dz) as i32,
                },
            ]
        }),
{
}


/// Which doors a one-cell room looks at, stated over its first cell at grid
/// `(gx, gz)` (as `i32`): the north door at `(32 * gx + 15, 32 * gz - 1)`,
/// east at `(32 * gx + 31, 32 * gz + 15)`, south at `(32 * gx + 15, 32 * gz + 31)`
/// and west at `(32 * gx - 1, 32 * gz + 15)`.
pub proof fn lemma_one_by_one_doors(segments: Seq<(usize, usize)>, doors: Seq<Door>)
    requires
        segments.len() > 0,
    ensures
        ({
            let gx = (segments[0].0 as i32) as int;
            let gz = (segments[0].1 as i32) as int;
            let at = |x: int, z: int| exists|i: int| 0 <= i < doors.len() && doors[i].x == x && #[trigger] doors[i].z == z;
            spec_one_by_one(segments, doors) == one_by_one_shape(
                at(32 * gx + 15, 32 * gz - 1),
                at(32 * gx + 31, 32 * gz + 15),
                at(32 * gx + 15, 32 * gz + 31),
                at(32 * gx - 1, 32 * gz + 15),
            )
        }),
{
}

} // verus!
