use vstd::prelude::*;

use bytes::BytesMut;

use crate::direction::Direction;
use crate::wire::{be_bytes64, bytes_mut_contents, get_i64, remaining, u64_from_be, write_i64};

verus! {

/// The integer coordinates of a block in the world.
#[derive(Debug, Clone, Copy, PartialEq, Eq, Structural, Hash)]
pub struct BlockPos {
    pub x: i32,
    pub y: i32,
    pub z: i32,
}

/// Whether an integer fits in an `i32`.
pub open spec fn fits_i32(v: int) -> bool {
    i32::MIN <= v <= i32::MAX
}

/// The horizontal coordinates `(x, z)` turned clockwise (seen from above)
/// by the quarter turns of `rotation`: East maps `(x, z)` to `(-z, x)`.
pub open spec fn rotated_xz(x: int, z: int, rotation: Direction) -> (int, int) {
    match rotation {
        Direction::East => (-z, x),
        Direction::South => (-x, -z),
        Direction::West => (z, -x),
        _ => (x, z),
    }
}

impl BlockPos {
    /// Whether the rotation of this position by `rotation` stays in `i32`
    /// (only the negation of `i32::MIN` does not).
    pub open spec fn can_rotate(self, rotation: Direction) -> bool {
        let r = rotated_xz(self.x as int, self.z as int, rotation);
        fits_i32(r.0) && fits_i32(r.1)
    }

    /// The squared Euclidean distance between two positions, over the integers.
    pub open spec fn spec_distance_squared(self, other: BlockPos) -> int {
        let dx = self.x - other.x;
        let dy = self.y - other.y;
        let dz = self.z - other.z;
        dx * dx + dy * dy + dz * dz
    }

    /// Whether every step of `distance_squared` stays in `i32`.
    pub open spec fn distance_squared_fits(self, other: BlockPos) -> bool {
        let dx = self.x - other.x;
        let dy = self.y - other.y;
        let dz = self.z - other.z;
        &&& fits_i32(dx)
        &&& fits_i32(dy)
        &&& fits_i32(dz)
        &&& fits_i32(dx * dx)
        &&& fits_i32(dy * dy)
        &&& fits_i32(dz * dz)
        &&& fits_i32(dx * dx + dy * dy)
        &&& fits_i32(dx * dx + dy * dy + dz * dz)
    }

    /// A position is invalid when any of its coordinates is negative.
    pub fn is_invalid(&self) -> (r: bool)
        ensures
            r == (self.x < 0 || self.y < 0 || self.z < 0),
    {
        self.x < 0 || self.y < 0 || self.z < 0
    }

    /// The squared distance to `other`.
    pub fn distance_squared(&self, other: &BlockPos) -> (d: i32)
        requires
            self.distance_squared_fits(*other),
        ensures
            d == self.spec_distance_squared(*other),
    {
        let x = self.x - other.x;
        let y = self.y - other.y;
        let z = self.z - other.z;
        x * x + y * y + z * z
    }

    /// This position with its `y` replaced.
    pub fn replace_y(&self, y: i32) -> (r: Self)
        ensures
            r == (BlockPos { x: self.x, y, z: self.z }),
    {
        Self { x: self.x, y, z: self.z }
    }

    /// This position moved by `x` along the x axis.
    pub fn add_x(&self, x: i32) -> (r: Self)
        requires
            fits_i32(self.x + x),
        ensures
            r.x == self.x + x,
            r.y == self.y,
            r.z == self.z,
    {
        Self { x: self.x + x, y: self.y, z: self.z }
    }

    /// This position moved by `y` along the y axis.
    pub fn add_y(&self, y: i32) -> (r: Self)
        requires
            fits_i32(self.y + y),
        ensures
            r.x == self.x,
            r.y == self.y + y,
            r.z == self.z,
    {
        Self { x: self.x, y: self.y + y, z: self.z }
    }

    /// This position moved by `z` along the z axis.
    pub fn add_z(&self, z: i32) -> (r: Self)
        requires
            fits_i32(self.z + z),
        ensures
            r.x == self.x,
            r.y == self.y,
            r.z == self.z + z,
    {
        Self { x: self.x, y: self.y, z: self.z + z }
    }

    /// This position turned about the y axis through the origin by the
    /// quarter turns of `rotation`; `y` is kept, and a vertical `rotation`
    /// changes nothing.
    pub fn rotate(&self, rotation: Direction) -> (r: Self)
        requires
            self.can_rotate(rotation),
        ensures
            r.x == rotated_xz(self.x as int, self.z as int, rotation).0,
            r.y == self.y,
            r.z == rotated_xz(self.x as int, self.z as int, rotation).1,
    {
        match rotation {
            Direction::North => Self { x: self.x, y: self.y, z: self.z },
            Direction::East => Self { x: -self.z, y: self.y, z: self.x },
            Direction::South => Self { x: -self.x, y: self.y, z: -self.z },
            Direction::West => Self { x: self.z, y: self.y, z: -self.x },
            _ => Self { x: self.x, y: self.y, z: self.z },
        }
    }

    /// The coordinate-wise sum of two positions.
    pub fn add(&self, other: BlockPos) -> (r: Self)
        requires
            fits_i32(self.x + other.x),
            fits_i32(self.y + other.y),
            fits_i32(self.z + other.z),
        ensures
            r.x == self.x + other.x,
            r.y == self.y + other.y,
            r.z == self.z + other.z,
    {
        Self { x: self.x + other.x, y: self.y + other.y, z: self.z + other.z }
    }
}


/// The low 26 bits of x, the low 12 bits of y and the low 26 bits of z, laid
/// out from the most significant bit down, as an unsigned 64-bit number.
pub open spec fn packed_bits(x: int, y: int, z: int) -> int {
    (x % 0x4000000) * 0x4000000000 + (y % 0x1000) * 0x4000000 + z % 0x4000000
}

/// Reads an unsigned 64-bit number as a two's complement `i64`.
pub open spec fn signed64(u: int) -> int {
    if u >= 0x8000000000000000 {
        u - 0x10000000000000000
    } else {
        u
    }
}

proof fn lemma_pack_bits(x: i32, y: i32, z: i32)
    ensures
        ((x as i64 & 0x3FFFFFFi64) << 38i64 | (y as i64 & 0xFFFi64) << 26i64 | (z as i64 & 0x3FFFFFFi64)) as int
            == signed64(packed_bits(x as int, y as int, z as int)),
{
    assert(((x as i64 & 0x3FFFFFFi64) << 38i64 | (y as i64 & 0xFFFi64) << 26i64 | (z as i64 & 0x3FFFFFFi64)) as int
            == signed64(packed_bits(x as int, y as int, z as int))) by (bit_vector);
}


/// Reads an `i64` as the unsigned 64-bit number with the same bits.
pub open spec fn unsigned64(v: int) -> int {
    if v < 0 {
        v + 0x10000000000000000
    } else {
        v
    }
}

/// A 26-bit two's complement field read as a signed number.
pub open spec fn sign_extend26(v: int) -> int {
    if v >= 0x2000000 {
        v - 0x4000000
    } else {
        v
    }
}

/// A 12-bit two's complement field read as a signed number.
pub open spec fn sign_extend12(v: int) -> int {
    if v >= 0x800 {
        v - 0x1000
    } else {
        v
    }
}

proof fn lemma_unpack_bits(long: i64)
    ensures
        ((long << 0i64) >> 38i64) as i32 as int == sign_extend26(unsigned64(long as int) / 0x4000000000),
        ((long << 26i64) >> 52i64) as i32 as int == sign_extend12((unsigned64(long as int) / 0x4000000) % 0x1000),
        ((long << 38i64) >> 38i64) as i32 as int == sign_extend26(unsigned64(long as int) % 0x4000000),
{
    assert(((long << 0i64) >> 38i64) as i32 as int == sign_extend26(unsigned64(long as int) / 0x4000000000)) by (bit_vector);
    assert(((long << 26i64) >> 52i64) as i32 as int == sign_extend12((unsigned64(long as int) / 0x4000000) % 0x1000)) by (bit_vector);
    assert(((long << 38i64) >> 38i64) as i32 as int == sign_extend26(unsigned64(long as int) % 0x4000000)) by (bit_vector);
}


/// The position that a packed `i64` holds: x in its top 26 bits, y in the
/// next 12 and z in the low 26, each a two's complement field.
pub open spec fn unpacked(long: int) -> BlockPos {
    let u = unsigned64(long);
    BlockPos {
        x: sign_extend26(u / 0x4000000000) as i32,
        y: sign_extend12((u / 0x4000000) % 0x1000) as i32,
        z: sign_extend26(u % 0x4000000) as i32,
    }
}

/// Whether a position survives packing: x and z in 26 bits, y in 12 bits.
pub open spec fn packable(pos: BlockPos) -> bool {
    &&& -0x2000000 <= pos.x < 0x2000000
    &&& -0x800 <= pos.y < 0x800
    &&& -0x2000000 <= pos.z < 0x2000000
}

impl BlockPos {
    /// The packed `i64` of this position: the low 26 bits of x, the low 12
    /// bits of y and the low 26 bits of z, from the most significant bit down.
    pub open spec fn packed(self) -> int {
        signed64(packed_bits(self.x as int, self.y as int, self.z as int))
    }

    /// Packs this position into the `i64` that the protocol sends.
    pub fn to_packed_long(&self) -> (long: i64)
        ensures
            long == self.packed(),
    {
        proof {
            lemma_pack_bits(self.x, self.y, self.z);
        }
        (self.x as i64 & 0x3FFFFFFi64) << 38i64 | (self.y as i64 & 0xFFFi64) << 26i64 | (self.z as i64
            & 0x3FFFFFFi64)
    }

    /// Unpacks a position from the `i64` that the protocol sends.
    pub fn from_packed_long(long: i64) -> (pos: BlockPos)
        ensures
            pos == unpacked(long as int),
    {
        proof {
            lemma_unpack_bits(long);
        }
        BlockPos {
            x: ((long << 0i64) >> 38i64) as i32,
            y: ((long << 26i64) >> 52i64) as i32,
            z: ((long << 38i64) >> 38i64) as i32,
        }
    }

    /// Writes the packed position as a big-endian `i64`.
    pub fn write(&self, buf: &mut Vec<u8>)
        ensures
            final(buf)@ == old(buf)@ + be_bytes64(self.packed() as i64 as u64),
    {
        let long = self.to_packed_long();
        write_i64(buf, long);
    }
}

/// Reads a packed position from the front of `buf`, which must hold at least
/// eight bytes; those eight bytes are consumed.
pub fn read_block_pos(buf: &mut BytesMut) -> (pos: BlockPos)
    requires
        bytes_mut_contents(*old(buf)).len() >= 8,
    ensures
        pos == unpacked(u64_from_be(bytes_mut_contents(*old(buf))) as i64 as int),
        bytes_mut_contents(*final(buf)) == bytes_mut_contents(*old(buf)).skip(8),
{
    let long = get_i64(buf);
    proof {
        assert(long == (long as u64) as i64) by (bit_vector);
    }
    BlockPos::from_packed_long(long)
}

/// Reads a packed position from the front of `buf` when it holds at least
/// eight bytes; otherwise returns `None` and leaves `buf` as it was.
pub fn try_read_block_pos(buf: &mut BytesMut) -> (pos: Option<BlockPos>)
    ensures
        bytes_mut_contents(*old(buf)).len() >= 8 ==> {
            &&& pos == Some(unpacked(u64_from_be(bytes_mut_contents(*old(buf))) as i64 as int))
            &&& bytes_mut_contents(*final(buf)) == bytes_mut_contents(*old(buf)).skip(8)
        },
        bytes_mut_contents(*old(buf)).len() < 8 ==> {
            &&& pos is None
            &&& bytes_mut_contents(*final(buf)) == bytes_mut_contents(*old(buf))
        },
{
    if remaining(buf) < 8 {
        None
    } else {
        Some(read_block_pos(buf))
    }
}

/// Unpacking a packed position gives it back, for every position whose
/// coordinates fit their fields.
pub proof fn lemma_unpack_pack(pos: BlockPos)
    requires
        packable(pos),
    ensures
        unpacked(pos.packed()) == pos,
{
    let x = pos.x;
    let y = pos.y;
    let z = pos.z;
    let long = ((x as i64 & 0x3FFFFFFi64) << 38i64 | (y as i64 & 0xFFFi64) << 26i64 | (z as i64 & 0x3FFFFFFi64));
    lemma_pack_bits(x, y, z);
    lemma_unpack_bits(long);
    assert(((long << 0i64) >> 38i64) as i32 == x && ((long << 26i64) >> 52i64) as i32 == y
        && ((long << 38i64) >> 38i64) as i32 == z) by (bit_vector)
        requires
            -0x2000000 <= x < 0x2000000,
            -0x800 <= y < 0x800,
            -0x2000000 <= z < 0x2000000,
            long == ((x as i64 & 0x3FFFFFFi64) << 38i64 | (y as i64 & 0xFFFi64) << 26i64 | (z as i64
                & 0x3FFFFFFi64)),
    ;
}

/// Packing an unpacked `i64` gives the same `i64` back: the three fields use
/// all 64 bits.
pub proof fn lemma_pack_unpack(long: i64)
    ensures
        unpacked(long as int).packed() == long,
{
    let p = unpacked(long as int);
    lemma_unpack_bits(long);
    let x = ((long << 0i64) >> 38i64) as i32;
    let y = ((long << 26i64) >> 52i64) as i32;
    let z = ((long << 38i64) >> 38i64) as i32;
    assert(p.x == x && p.y == y && p.z == z);
    lemma_pack_bits(x, y, z);
    assert(((x as i64 & 0x3FFFFFFi64) << 38i64 | (y as i64 & 0xFFFi64) << 26i64 | (z as i64 & 0x3FFFFFFi64))
        == long) by (bit_vector)
        requires
            x == ((long << 0i64) >> 38i64) as i32,
            y == ((long << 26i64) >> 52i64) as i32,
            z == ((long << 38i64) >> 38i64) as i32,
    ;
}

/// What `read_block_pos` reads from the bytes that `write` wrote is the
/// position that was written, for every position whose coordinates fit.
pub proof fn lemma_read_after_write(pos: BlockPos, rest: Seq<u8>)
    requires
        packable(pos),
    ensures
        unpacked(u64_from_be(be_bytes64(pos.packed() as i64 as u64) + rest) as i64 as int) == pos,
{
    let v = pos.packed() as i64 as u64;
    let s = be_bytes64(v) + rest;
    assert(s.subrange(0, 8) =~= be_bytes64(v));
    assert(u64_from_be(s) == u64_from_be(be_bytes64(v)));
    crate::wire::lemma_u64_be_roundtrip(v);
    let long = pos.packed() as i64;
    assert(long as int == pos.packed());
    assert((long as u64) as i64 == long) by (bit_vector);
    lemma_unpack_pack(pos);
}


/// The horizontal step `(dx, dz)` from a block to its neighbour toward a
/// horizontal direction: North is toward negative z, East toward positive x.
pub open spec fn step_xz(d: Direction) -> (int, int) {
    match d {
        Direction::North => (0, -1),
        Direction::East => (1, 0),
        Direction::South => (0, 1),
        Direction::West => (-1, 0),
        _ => (0, 0),
    }
}

/// Turning a position by `a` and then by `b` is turning it by `a` rotated
/// by `b`, when `a` is horizontal.
pub proof fn lemma_rotate_compose(x: int, z: int, a: Direction, b: Direction)
    requires
        a.is_horizontal(),
    ensures
        ({
            let p = rotated_xz(x, z, a);
            rotated_xz(p.0, p.1, b)
        }) == rotated_xz(x, z, a.rotated(b)),
{
}

/// Four turns by East bring a position back to where it was.
pub proof fn lemma_rotate_east_four_times(x: int, z: int)
    ensures
        ({
            let p1 = rotated_xz(x, z, Direction::East);
            let p2 = rotated_xz(p1.0, p1.1, Direction::East);
            let p3 = rotated_xz(p2.0, p2.1, Direction::East);
            rotated_xz(p3.0, p3.1, Direction::East)
        }) == (x, z),
{
}

/// Turning a position and turning a direction agree: the step toward a
/// horizontal direction, turned by `r`, is the step toward that direction
/// rotated by `r`.
pub proof fn lemma_rotate_agrees_with_direction(d: Direction, r: Direction)
    requires
        d.is_horizontal(),
    ensures
        rotated_xz(step_xz(d).0, step_xz(d).1, r) == step_xz(d.rotated(r)),
{
}

/// Turning two positions by the same rotation keeps their squared distance.
pub proof fn lemma_rotate_keeps_distance(p: BlockPos, q: BlockPos, r: Direction)
    ensures
        ({
            let rp = rotated_xz(p.x as int, p.z as int, r);
            let rq = rotated_xz(q.x as int, q.z as int, r);
            let dx = rp.0 - rq.0;
            let dy = p.y - q.y;
            let dz = rp.1 - rq.1;
            dx * dx + dy * dy + dz * dz
        }) == p.spec_distance_squared(q),
{
    let dx = p.x - q.x;
    let dz = p.z - q.z;
    assert((-dx) * (-dx) == dx * dx) by (nonlinear_arith);
    assert((-dz) * (-dz) == dz * dz) by (nonlinear_arith);
}

} // verus!
