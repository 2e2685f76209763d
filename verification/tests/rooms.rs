use rustclear::block_pos::BlockPos;
use rustclear::blocks::Blocks;
use rustclear::direction::Direction;
use rustclear::room::{Crusher, Door, Room, RoomData, RoomShape, RoomType};
use rustclear::world::{World, WorldEdit};

fn data(length: i32, width: i32, bottom: i32, block_data: Vec<Blocks>, crusher_data: Vec<Crusher>) -> RoomData {
    RoomData {
        room_type: RoomType::Normal,
        shape: RoomShape::OneByOne,
        length,
        width,
        bottom,
        block_data,
        crusher_data,
    }
}

/// Doors around cell (0, 0), whose centre is (15, 15).
fn doors(north: bool, east: bool, south: bool, west: bool) -> Vec<Door> {
    let mut v = Vec::new();
    if north {
        v.push(Door { x: 15, z: -1 });
    }
    if east {
        v.push(Door { x: 31, z: 15 });
    }
    if south {
        v.push(Door { x: 15, z: 31 });
    }
    if west {
        v.push(Door { x: -1, z: 15 });
    }
    v
}

#[test]
fn one_by_one_table() {
    let cell = vec![(0usize, 0usize)];
    let cases = [
        ((true, true, true, true), (RoomShape::OneByOneCross, Direction::North)),
        ((true, false, false, false), (RoomShape::OneByOneEnd, Direction::North)),
        ((false, true, false, false), (RoomShape::OneByOneEnd, Direction::East)),
        ((false, false, true, false), (RoomShape::OneByOneEnd, Direction::South)),
        ((false, false, false, true), (RoomShape::OneByOneEnd, Direction::West)),
        ((false, true, false, true), (RoomShape::OneByOneStraight, Direction::North)),
        ((true, false, true, false), (RoomShape::OneByOneStraight, Direction::East)),
        ((false, false, true, true), (RoomShape::OneByOneBend, Direction::North)),
        ((true, false, false, true), (RoomShape::OneByOneBend, Direction::East)),
        ((true, true, false, false), (RoomShape::OneByOneBend, Direction::South)),
        ((false, true, true, false), (RoomShape::OneByOneBend, Direction::West)),
        ((true, false, true, true), (RoomShape::OneByOneTriple, Direction::North)),
        ((true, true, false, true), (RoomShape::OneByOneTriple, Direction::East)),
        ((true, true, true, false), (RoomShape::OneByOneTriple, Direction::South)),
        ((false, true, true, true), (RoomShape::OneByOneTriple, Direction::West)),
        ((false, false, false, false), (RoomShape::OneByOne, Direction::North)),
    ];
    for ((n, e, s, w), expected) in cases {
        assert_eq!(Room::get_1x1_shape_and_type(&cell, &doors(n, e, s, w)), expected);
    }
}

#[test]
fn one_by_one_uses_first_cell_centre() {
    // cell (2, 1): centre (79, 47); a door to its east at (95, 47)
    let cell = vec![(2usize, 1usize)];
    let d = vec![Door { x: 95, z: 47 }, Door { x: 15, z: -1 }];
    assert_eq!(Room::get_1x1_shape_and_type(&cell, &d), (RoomShape::OneByOneEnd, Direction::East));
}

#[test]
fn one_by_one_shape_follows_door_count() {
    let cell = vec![(0usize, 0usize)];
    for mask in 0u8..16 {
        let (n, e, s, w) = (mask & 8 != 0, mask & 4 != 0, mask & 2 != 0, mask & 1 != 0);
        let count = mask.count_ones();
        let (shape, _) = Room::get_1x1_shape_and_type(&cell, &doors(n, e, s, w));
        let expected = match count {
            0 => RoomShape::OneByOne,
            1 => RoomShape::OneByOneEnd,
            2 if n == s => RoomShape::OneByOneStraight,
            2 => RoomShape::OneByOneBend,
            3 => RoomShape::OneByOneTriple,
            _ => RoomShape::OneByOneCross,
        };
        assert_eq!(shape, expected);
    }
}

#[test]
fn rotation_of_straight_rooms() {
    let none: Vec<Door> = Vec::new();
    assert_eq!(Room::get_rotation_from_segments(&vec![(0, 0), (1, 0)], &none), Direction::North);
    assert_eq!(Room::get_rotation_from_segments(&vec![(0, 0), (0, 1)], &none), Direction::East);
    assert_eq!(Room::get_rotation_from_segments(&vec![(0, 2), (1, 2), (2, 2)], &none), Direction::North);
    assert_eq!(Room::get_rotation_from_segments(&vec![(3, 0), (3, 1), (3, 2)], &none), Direction::East);
    assert_eq!(Room::get_rotation_from_segments(&vec![(0, 0), (1, 0), (2, 0), (3, 0)], &none), Direction::North);
    assert_eq!(Room::get_rotation_from_segments(&vec![(0, 0), (0, 1), (0, 2), (0, 3)], &none), Direction::East);
}

#[test]
fn rotation_of_two_by_two() {
    let none: Vec<Door> = Vec::new();
    assert_eq!(Room::get_rotation_from_segments(&vec![(0, 0), (0, 1), (1, 0), (1, 1)], &none), Direction::North);
}

#[test]
fn rotation_of_l_rooms() {
    let none: Vec<Door> = Vec::new();
    // corner at the north-west
    assert_eq!(Room::get_rotation_from_segments(&vec![(0, 0), (0, 1), (1, 0)], &none), Direction::East);
    // corner at the north-east
    assert_eq!(Room::get_rotation_from_segments(&vec![(0, 0), (1, 0), (1, 1)], &none), Direction::South);
    // corner at the south-east
    assert_eq!(Room::get_rotation_from_segments(&vec![(0, 1), (1, 0), (1, 1)], &none), Direction::West);
    // corner at the south-west
    assert_eq!(Room::get_rotation_from_segments(&vec![(0, 0), (0, 1), (1, 1)], &none), Direction::North);
}

#[test]
fn rotation_of_one_cell_room_comes_from_doors() {
    assert_eq!(Room::get_rotation_from_segments(&vec![(0, 0)], &doors(false, false, true, false)), Direction::South);
}

#[test]
fn corner_position_by_rotation() {
    let d = data(31, 63, 0, Vec::new(), Vec::new());
    let cells = vec![(2usize, 1usize), (1, 1), (1, 2)];
    assert_eq!(Room::get_corner_pos_from(&cells, &Direction::North, &d), BlockPos { x: -168, y: 68, z: -168 });
    assert_eq!(Room::get_corner_pos_from(&cells, &Direction::East, &d), BlockPos { x: -138, y: 68, z: -168 });
    assert_eq!(Room::get_corner_pos_from(&cells, &Direction::South, &d), BlockPos { x: -138, y: 68, z: -106 });
    assert_eq!(Room::get_corner_pos_from(&cells, &Direction::West, &d), BlockPos { x: -168, y: 68, z: -106 });
}

#[test]
fn corner_position_ignores_order() {
    let d = data(63, 31, 0, Vec::new(), Vec::new());
    let a = vec![(4usize, 0usize), (3, 0), (3, 1)];
    let b = vec![(3usize, 1usize), (4, 0), (3, 0)];
    for r in [Direction::North, Direction::East, Direction::South, Direction::West] {
        assert_eq!(Room::get_corner_pos_from(&a, &r, &d), Room::get_corner_pos_from(&b, &r, &d));
    }
}

#[test]
fn new_sorts_cells_and_places_crushers() {
    let crusher = Crusher { block_pos: BlockPos { x: 1, y: 70, z: 2 }, direction: Direction::North, width: 3 };
    let room = Room::new(vec![(1, 0), (0, 0)], &Vec::new(), data(63, 31, 68, Vec::new(), vec![crusher]));
    assert_eq!(room.segments, vec![(0, 0), (1, 0)]);
    assert_eq!(room.rotation, Direction::North);
    assert_eq!(room.tick_amount, 0);
    assert_eq!(room.get_corner_pos(), BlockPos { x: -200, y: 68, z: -200 });
    assert_eq!(room.crushers.len(), 1);
    assert_eq!(room.crushers[0].block_pos, BlockPos { x: -199, y: 70, z: -198 });
    assert_eq!(room.crushers[0].direction, Direction::North);
    assert_eq!(room.crushers[0].width, 3);
}

#[test]
fn new_rotates_crushers_with_the_room() {
    let crusher = Crusher { block_pos: BlockPos { x: 1, y: 70, z: 2 }, direction: Direction::North, width: 3 };
    let room = Room::new(vec![(0, 1), (0, 0)], &Vec::new(), data(31, 63, 68, Vec::new(), vec![crusher]));
    assert_eq!(room.segments, vec![(0, 0), (0, 1)]);
    assert_eq!(room.rotation, Direction::East);
    // corner: x = -200 + 31 - 1, z = -200
    assert_eq!(room.get_corner_pos(), BlockPos { x: -170, y: 68, z: -200 });
    assert_eq!(room.crushers[0].block_pos, BlockPos { x: -172, y: 70, z: -199 });
    assert_eq!(room.crushers[0].direction, Direction::East);
}

#[test]
fn new_sorts_by_x_then_z() {
    let room = Room::new(vec![(1, 1), (0, 1), (0, 0), (1, 0)], &Vec::new(), data(63, 63, 68, Vec::new(), Vec::new()));
    assert_eq!(room.segments, vec![(0, 0), (0, 1), (1, 0), (1, 1)]);
    assert_eq!(room.rotation, Direction::North);
}

#[test]
fn tick_counts() {
    let mut room = Room::new(vec![(0, 0)], &Vec::new(), data(31, 31, 68, Vec::new(), Vec::new()));
    room.tick();
    room.tick();
    assert_eq!(room.tick_amount, 2);
}

fn stone() -> Blocks {
    Blocks::Stone { variant: 0 }
}

fn fill(from: (i32, i32, i32), to: (i32, i32, i32)) -> WorldEdit {
    WorldEdit::Fill { block: stone(), from_x: from.0, from_y: from.1, from_z: from.2, to_x: to.0, to_y: to.1, to_z: to.2 }
}

#[test]
fn load_default_floor_joins_cells() {
    let room = Room::new(vec![(1, 0), (0, 0)], &Vec::new(), data(63, 31, 60, Vec::new(), Vec::new()));
    let mut world = World::new();
    room.load_into_world(&mut world);
    assert_eq!(
        world.edits(),
        &vec![
            fill((-200, 60, -200), (-170, 60, -170)),
            fill((-169, 60, -200), (-169, 60, -170)),
            fill((-168, 60, -200), (-138, 60, -170)),
        ]
    );
}

#[test]
fn load_default_joins_along_z() {
    let room = Room::new(vec![(0, 0), (0, 1)], &Vec::new(), data(31, 63, 60, Vec::new(), Vec::new()));
    let mut world = World::new();
    room.load_into_world(&mut world);
    assert_eq!(
        world.edits(),
        &vec![
            fill((-200, 60, -200), (-170, 60, -170)),
            fill((-200, 60, -169), (-170, 60, -139)),
            fill((-200, 60, -168), (-170, 60, -138)),
        ]
    );
}

#[test]
fn load_blocks_north() {
    let blocks = vec![stone(), Blocks::Air, Blocks::Ladder { facing: Direction::North }, stone(), stone()];
    let room = Room::new(vec![(0, 0)], &Vec::new(), data(2, 2, 10, blocks, Vec::new()));
    assert_eq!(room.rotation, Direction::North);
    let mut world = World::new();
    room.load_into_world(&mut world);
    assert_eq!(
        world.edits(),
        &vec![
            WorldEdit::SetBlock { block: stone(), x: -200, y: 10, z: -200 },
            WorldEdit::SetBlock { block: Blocks::Ladder { facing: Direction::North }, x: -200, y: 10, z: -199 },
            WorldEdit::SetBlock { block: stone(), x: -199, y: 10, z: -199 },
            WorldEdit::SetBlock { block: stone(), x: -200, y: 11, z: -200 },
        ]
    );
}

#[test]
fn load_blocks_east() {
    let blocks = vec![stone(), Blocks::Air, Blocks::Ladder { facing: Direction::North }];
    let room = Room::new(vec![(0, 0)], &doors(false, true, false, false), data(2, 2, 10, blocks, Vec::new()));
    assert_eq!(room.rotation, Direction::East);
    assert_eq!(room.get_corner_pos(), BlockPos { x: -199, y: 68, z: -200 });
    let mut world = World::new();
    room.load_into_world(&mut world);
    assert_eq!(
        world.edits(),
        &vec![
            WorldEdit::SetBlock { block: stone(), x: -199, y: 10, z: -200 },
            WorldEdit::SetBlock { block: Blocks::Ladder { facing: Direction::East }, x: -200, y: 10, z: -200 },
        ]
    );
}

#[test]
fn load_only_air_writes_nothing() {
    let room = Room::new(vec![(0, 0)], &Vec::new(), data(2, 2, 10, vec![Blocks::Air, Blocks::Air], Vec::new()));
    let mut world = World::new();
    room.load_into_world(&mut world);
    assert!(world.edits().is_empty());
}

#[test]
fn world_records_edits_in_order() {
    let mut world = World::new();
    world.set_block_at(stone(), 1, 2, 3);
    world.fill_blocks(Blocks::Air, (0, 0, 0), (4, 4, 4));
    assert_eq!(
        world.edits(),
        &vec![
            WorldEdit::SetBlock { block: stone(), x: 1, y: 2, z: 3 },
            WorldEdit::Fill { block: Blocks::Air, from_x: 0, from_y: 0, from_z: 0, to_x: 4, to_y: 4, to_z: 4 },
        ]
    );
}

/// The doors of `doors(n, e, s, w)` turned a quarter clockwise about (15, 15).
fn turned_doors(north: bool, east: bool, south: bool, west: bool) -> Vec<Door> {
    doors(west, north, east, south)
}

#[test]
fn one_by_one_quarter_turn() {
    let cell = vec![(0usize, 0usize)];
    for mask in 0u8..16 {
        let (n, e, s, w) = (mask & 8 != 0, mask & 4 != 0, mask & 2 != 0, mask & 1 != 0);
        let (shape, rotation) = Room::get_1x1_shape_and_type(&cell, &doors(n, e, s, w));
        let (turned_shape, turned_rotation) = Room::get_1x1_shape_and_type(&cell, &turned_doors(n, e, s, w));
        assert_eq!(turned_shape, shape);
        match shape {
            RoomShape::OneByOneEnd | RoomShape::OneByOneBend | RoomShape::OneByOneTriple => {
                assert_eq!(turned_rotation, rotation.rotate(Direction::East))
            }
            RoomShape::OneByOneStraight => assert_ne!(turned_rotation, rotation),
            _ => assert_eq!(turned_rotation, rotation),
        }
    }
}

#[test]
fn one_by_one_looks_only_at_first_cell_and_its_doors() {
    let d1 = doors(true, false, true, false);
    let mut d2 = vec![Door { x: 500, z: 500 }];
    d2.extend(doors(true, false, true, false));
    d2.push(Door { x: 15, z: -1 });
    let a = Room::get_1x1_shape_and_type(&vec![(0, 0)], &d1);
    let b = Room::get_1x1_shape_and_type(&vec![(0, 0), (5, 5), (9, 1)], &d2);
    assert_eq!(a, b);
    assert_eq!(a, (RoomShape::OneByOneStraight, Direction::East));
}

#[test]
fn one_cell_rotation_is_door_rotation() {
    for mask in 0u8..16 {
        let d = doors(mask & 8 != 0, mask & 4 != 0, mask & 2 != 0, mask & 1 != 0);
        let cell = vec![(0usize, 0usize)];
        assert_eq!(Room::get_rotation_from_segments(&cell, &d), Room::get_1x1_shape_and_type(&cell, &d).1);
    }
}

fn permutations3(v: [(usize, usize); 3]) -> Vec<Vec<(usize, usize)>> {
    let idx = [[0, 1, 2], [0, 2, 1], [1, 0, 2], [1, 2, 0], [2, 0, 1], [2, 1, 0]];
    idx.iter().map(|p| p.iter().map(|&i| v[i]).collect()).collect()
}

#[test]
fn rotation_ignores_cell_order() {
    let none: Vec<Door> = Vec::new();
    let shapes = [[(0, 0), (0, 1), (1, 0)], [(0, 0), (1, 0), (1, 1)], [(0, 1), (1, 0), (1, 1)], [(0, 0), (0, 1), (1, 1)]];
    for shape in shapes {
        let expected = Room::get_rotation_from_segments(&shape.to_vec(), &none);
        for p in permutations3(shape) {
            assert_eq!(Room::get_rotation_from_segments(&p, &none), expected);
        }
    }
}

#[test]
fn new_ignores_cell_order() {
    let crusher = Crusher { block_pos: BlockPos { x: 4, y: 70, z: 1 }, direction: Direction::West, width: 2 };
    let cells = [(3usize, 1usize), (2, 1), (3, 2)];
    let rooms: Vec<Room> = permutations3(cells)
        .into_iter()
        .map(|p| Room::new(p, &Vec::new(), data(63, 63, 68, Vec::new(), vec![crusher])))
        .collect();
    for room in &rooms {
        assert_eq!(room.segments, rooms[0].segments);
        assert_eq!(room.rotation, rooms[0].rotation);
        assert_eq!(room.tick_amount, 0);
        assert_eq!(room.crushers, rooms[0].crushers);
        assert_eq!(room.get_corner_pos(), rooms[0].get_corner_pos());
    }
    assert_eq!(rooms[0].rotation, Direction::South);
}

#[test]
fn corner_depends_on_minima_only() {
    let d = data(31, 31, 0, Vec::new(), Vec::new());
    let other = data(95, 63, 0, Vec::new(), Vec::new());
    let a = vec![(1usize, 2usize)];
    let b = vec![(1usize, 4usize), (3, 2), (2, 3)];
    for r in [Direction::North, Direction::East, Direction::South, Direction::West] {
        assert_eq!(Room::get_corner_pos_from(&a, &r, &d), Room::get_corner_pos_from(&b, &r, &d));
        assert_eq!(Room::get_corner_pos_from(&a, &r, &d).y, 68);
    }
    assert_eq!(
        Room::get_corner_pos_from(&a, &Direction::North, &d),
        Room::get_corner_pos_from(&a, &Direction::North, &other)
    );
}

#[test]
fn default_loading_only_fills_stone() {
    let room = Room::new(vec![(0, 0), (1, 0), (0, 1), (1, 1)], &Vec::new(), data(63, 63, 60, Vec::new(), Vec::new()));
    let mut world = World::new();
    room.load_into_world(&mut world);
    assert!(!world.edits().is_empty());
    for edit in world.edits() {
        assert!(matches!(edit, WorldEdit::Fill { block: Blocks::Stone { variant: 0 }, .. }));
    }
}
