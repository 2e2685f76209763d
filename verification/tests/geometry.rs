use rustclear::block_pos::{read_block_pos, try_read_block_pos, BlockPos};
use rustclear::blocks::Blocks;
use rustclear::direction::Direction;

use bytes::BytesMut;

fn pos(x: i32, y: i32, z: i32) -> BlockPos {
    BlockPos { x, y, z }
}

#[test]
fn direction_rotate_turns_clockwise() {
    assert_eq!(Direction::North.rotate(Direction::East), Direction::East);
    assert_eq!(Direction::East.rotate(Direction::East), Direction::South);
    assert_eq!(Direction::West.rotate(Direction::South), Direction::East);
    assert_eq!(Direction::South.rotate(Direction::West), Direction::East);
    assert_eq!(Direction::West.rotate(Direction::North), Direction::West);
}

#[test]
fn direction_rotate_keeps_vertical() {
    assert_eq!(Direction::Up.rotate(Direction::East), Direction::Up);
    assert_eq!(Direction::Down.rotate(Direction::South), Direction::Down);
    assert_eq!(Direction::North.rotate(Direction::Up), Direction::North);
}

#[test]
fn direction_rotate_composes() {
    let all = [Direction::North, Direction::East, Direction::South, Direction::West];
    for d in all {
        for a in all {
            for b in all {
                assert_eq!(d.rotate(a).rotate(b), d.rotate(a.rotate(b)));
            }
        }
    }
}

#[test]
fn block_pos_is_invalid() {
    assert!(!pos(0, 0, 0).is_invalid());
    assert!(pos(1, -1, 0).is_invalid());
    assert!(pos(-5, 3, 3).is_invalid());
    assert!(pos(5, 3, -3).is_invalid());
    assert!(!pos(5, 3, 3).is_invalid());
}

#[test]
fn block_pos_distance_squared() {
    assert_eq!(pos(1, 2, 3).distance_squared(&pos(4, 6, 3)), 25);
    assert_eq!(pos(-1, -1, -1).distance_squared(&pos(1, 1, 1)), 12);
    assert_eq!(pos(7, 7, 7).distance_squared(&pos(7, 7, 7)), 0);
}

#[test]
fn block_pos_moves() {
    let p = pos(1, 2, 3);
    assert_eq!(p.replace_y(70), pos(1, 70, 3));
    assert_eq!(p.add_x(-4), pos(-3, 2, 3));
    assert_eq!(p.add_y(10), pos(1, 12, 3));
    assert_eq!(p.add_z(5), pos(1, 2, 8));
    assert_eq!(p.add(pos(10, 20, 30)), pos(11, 22, 33));
}

#[test]
fn block_pos_rotate() {
    let p = pos(1, 5, 2);
    assert_eq!(p.rotate(Direction::North), pos(1, 5, 2));
    assert_eq!(p.rotate(Direction::East), pos(-2, 5, 1));
    assert_eq!(p.rotate(Direction::South), pos(-1, 5, -2));
    assert_eq!(p.rotate(Direction::West), pos(2, 5, -1));
    assert_eq!(p.rotate(Direction::Up), pos(1, 5, 2));
    assert_eq!(p.rotate(Direction::Down), pos(1, 5, 2));
}

#[test]
fn block_pos_rotate_composes() {
    let p = pos(3, -4, 9);
    let all = [Direction::North, Direction::East, Direction::South, Direction::West];
    for a in all {
        for b in all {
            assert_eq!(p.rotate(a).rotate(b), p.rotate(a.rotate(b)));
        }
    }
    let e = Direction::East;
    assert_eq!(p.rotate(e).rotate(e).rotate(e).rotate(e), p);
}

#[test]
fn block_pos_rotate_agrees_with_direction() {
    let steps = [
        (Direction::North, pos(0, 0, -1)),
        (Direction::East, pos(1, 0, 0)),
        (Direction::South, pos(0, 0, 1)),
        (Direction::West, pos(-1, 0, 0)),
    ];
    for (d, step) in steps {
        for r in [Direction::North, Direction::East, Direction::South, Direction::West] {
            let turned = d.rotate(r);
            let expected = steps.iter().find(|(dd, _)| *dd == turned).unwrap().1;
            assert_eq!(step.rotate(r), expected);
        }
    }
}

#[test]
fn block_pos_rotate_keeps_distance() {
    let p = pos(3, 8, -7);
    let q = pos(-2, 1, 5);
    for r in [Direction::North, Direction::East, Direction::South, Direction::West] {
        assert_eq!(p.rotate(r).distance_squared(&q.rotate(r)), p.distance_squared(&q));
    }
}

#[test]
fn block_pos_packs_fields() {
    assert_eq!(pos(1, 2, 3).to_packed_long(), (1i64 << 38) | (2i64 << 26) | 3);
    assert_eq!(pos(1, 2, 3).to_packed_long(), 275012124675);
    assert_eq!(pos(-1, -1, -1).to_packed_long(), -1);
    assert_eq!(pos(0, 0, 0).to_packed_long(), 0);
    assert_eq!(BlockPos::from_packed_long(275012124675), pos(1, 2, 3));
    assert_eq!(BlockPos::from_packed_long(-1), pos(-1, -1, -1));
    assert_eq!(BlockPos::from_packed_long(i64::MIN), pos(-(1 << 25), 0, 0));
}

#[test]
fn block_pos_pack_roundtrip() {
    let cases = [
        pos(0, 0, 0),
        pos(10, 69, 10),
        pos(-200, 68, -200),
        pos(-(1 << 25), -2048, -(1 << 25)),
        pos((1 << 25) - 1, 2047, (1 << 25) - 1),
        pos(123456, -7, -654321),
    ];
    for p in cases {
        assert_eq!(BlockPos::from_packed_long(p.to_packed_long()), p);
    }
    for long in [0i64, -1, 1, i64::MIN, i64::MAX, 0x0123_4567_89ab_cdef, -0x0123_4567_89ab_cdef] {
        assert_eq!(BlockPos::from_packed_long(long).to_packed_long(), long);
    }
}

#[test]
fn block_pos_packing_wraps_out_of_range() {
    // x keeps only its low 26 bits
    let p = pos(1 << 25, 0, 0);
    assert_eq!(BlockPos::from_packed_long(p.to_packed_long()), pos(-(1 << 25), 0, 0));
    let q = pos(0, 2048, 0);
    assert_eq!(BlockPos::from_packed_long(q.to_packed_long()), pos(0, -2048, 0));
}

#[test]
fn block_pos_write_is_big_endian() {
    let mut buf: Vec<u8> = vec![0xAA];
    pos(1, 2, 3).write(&mut buf);
    assert_eq!(buf, vec![0xAA, 0x00, 0x00, 0x00, 0x40, 0x08, 0x00, 0x00, 0x03]);
}

#[test]
fn read_block_pos_consumes_eight_bytes() {
    let mut buf = BytesMut::from(&[0x00u8, 0x00, 0x00, 0x40, 0x08, 0x00, 0x00, 0x03, 0x77][..]);
    let p = read_block_pos(&mut buf);
    assert_eq!(p, pos(1, 2, 3));
    assert_eq!(&buf[..], &[0x77u8][..]);
}

#[test]
fn read_after_write_gives_the_position() {
    let cases = [pos(10, 69, 10), pos(-200, 68, -200), pos(-(1 << 25), -2048, (1 << 25) - 1)];
    for p in cases {
        let mut bytes: Vec<u8> = Vec::new();
        p.write(&mut bytes);
        let mut buf = BytesMut::from(&bytes[..]);
        assert_eq!(read_block_pos(&mut buf), p);
        assert!(buf.is_empty());
    }
}

#[test]
fn try_read_block_pos_needs_eight_bytes() {
    let mut short = BytesMut::from(&[1u8, 2, 3, 4, 5, 6, 7][..]);
    assert_eq!(try_read_block_pos(&mut short), None);
    assert_eq!(short.len(), 7);
    let mut full = BytesMut::from(&[0xFFu8; 8][..]);
    assert_eq!(try_read_block_pos(&mut full), Some(pos(-1, -1, -1)));
    assert_eq!(full.len(), 0);
}

#[test]
fn blocks_rotate_facing() {
    let mut stairs = Blocks::Stairs { material: 3, facing: Direction::North, upside_down: true };
    stairs.rotate(Direction::East);
    assert_eq!(stairs, Blocks::Stairs { material: 3, facing: Direction::East, upside_down: true });
    let mut ladder = Blocks::Ladder { facing: Direction::West };
    ladder.rotate(Direction::South);
    assert_eq!(ladder, Blocks::Ladder { facing: Direction::East });
    let mut stone = Blocks::Stone { variant: 2 };
    stone.rotate(Direction::West);
    assert_eq!(stone, Blocks::Stone { variant: 2 });
    assert!(Blocks::Air.is_air());
    assert!(!stone.is_air());
}
