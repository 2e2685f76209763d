use vstd::prelude::*;
use vstd::utf8::encode_utf8;

use bytes::{Buf, BytesMut};

verus! {

/// The eight bytes of a `u64`, most significant first.
pub open spec fn be_bytes64(v: u64) -> Seq<u8> {
    seq![
        (v >> 56u64) as u8,
        (v >> 48u64) as u8,
        (v >> 40u64) as u8,
        (v >> 32u64) as u8,
        (v >> 24u64) as u8,
        (v >> 16u64) as u8,
        (v >> 8u64) as u8,
        v as u8,
    ]
}

/// The four bytes of a `u32`, most significant first.
pub open spec fn be_bytes32(v: u32) -> Seq<u8> {
    seq![(v >> 24u32) as u8, (v >> 16u32) as u8, (v >> 8u32) as u8, v as u8]
}

/// The `u64` whose big-endian bytes are the first eight of `s`.
pub open spec fn u64_from_be(s: Seq<u8>) -> u64 {
    (s[0] as u64) << 56u64 | (s[1] as u64) << 48u64 | (s[2] as u64) << 40u64 | (s[3] as u64) << 32u64
        | (s[4] as u64) << 24u64 | (s[5] as u64) << 16u64 | (s[6] as u64) << 8u64 | (s[7] as u64)
}

/// The protocol's variable-length encoding of an unsigned 32-bit number:
/// seven bits per byte, least significant group first, with the high bit
/// set on every byte but the last.
pub open spec fn var_int_bytes(u: u32) -> Seq<u8>
    decreases u,
{
    if u < 0x80 {
        seq![u as u8]
    } else {
        seq![(u % 0x80 + 0x80) as u8] + var_int_bytes(u / 0x80)
    }
}

/// The encoding of a string field: its UTF-8 length as a VarInt, then its
/// UTF-8 bytes.
pub open spec fn string_bytes(utf8: Seq<u8>) -> Seq<u8> {
    var_int_bytes(utf8.len() as u32) + utf8
}

/// A framed packet: the length of the body as a VarInt, then the body, which
/// is the packet id as a VarInt followed by the encoded fields.
pub open spec fn framed_packet(packet_id: i32, fields: Seq<u8>) -> Seq<u8> {
    let body = var_int_bytes(packet_id as u32) + fields;
    var_int_bytes(body.len() as u32) + body
}

/// Reading back the big-endian bytes of a `u64` gives the number.
pub proof fn lemma_u64_be_roundtrip(v: u64)
    ensures
        u64_from_be(be_bytes64(v)) == v,
{
    let s = be_bytes64(v);
    let (b0, b1, b2, b3, b4, b5, b6, b7) = (s[0], s[1], s[2], s[3], s[4], s[5], s[6], s[7]);
    assert((b0 as u64) << 56u64 | (b1 as u64) << 48u64 | (b2 as u64) << 40u64 | (b3 as u64) << 32u64
        | (b4 as u64) << 24u64 | (b5 as u64) << 16u64 | (b6 as u64) << 8u64 | (b7 as u64) == v)
        by (bit_vector)
        requires
            b0 == (v >> 56u64) as u8,
            b1 == (v >> 48u64) as u8,
            b2 == (v >> 40u64) as u8,
            b3 == (v >> 32u64) as u8,
            b4 == (v >> 24u64) as u8,
            b5 == (v >> 16u64) as u8,
            b6 == (v >> 8u64) as u8,
            b7 == v as u8,
    ;
}

/// Going through `i32` truncates a length to the same 32 bits as going
/// straight to `u32`.
proof fn lemma_len_as_u32(n: usize)
    ensures
        (n as i32) as u32 == n as u32,
{
    assert((n as i32) as u32 == n as u32) by (bit_vector);
}

/// The number that VarInt bytes stand for: the low seven bits of each
/// byte, least significant group first.
pub open spec fn var_int_value(bytes: Seq<u8>) -> int
    decreases bytes.len(),
{
    if bytes.len() == 0 {
        0
    } else {
        (bytes[0] % 0x80) as int + 0x80 * var_int_value(bytes.drop_first())
    }
}

/// The VarInt bytes of a number read back as that number; every byte but
/// the last has its high bit set, the last has it clear, and there are one
/// to five bytes (one for numbers below 128).
pub proof fn lemma_var_int_decodes(u: u32)
    ensures
        ({
            let b = var_int_bytes(u);
            &&& var_int_value(b) == u
            &&& 1 <= b.len() <= 5
            &&& u < 0x80 ==> b.len() == 1
            &&& u < 0x4000 ==> b.len() <= 2
            &&& u < 0x200000 ==> b.len() <= 3
            &&& u < 0x10000000 ==> b.len() <= 4
            &&& b[b.len() - 1] < 0x80
            &&& forall|k: int| 0 <= k < b.len() - 1 ==> #[trigger] b[k] >= 0x80
        }),
    decreases u,
{
    let b = var_int_bytes(u);
    if u >= 0x80 {
        let rest = var_int_bytes(u / 0x80);
        lemma_var_int_decodes(u / 0x80);
        assert(b == seq![(u % 0x80 + 0x80) as u8] + rest);
        assert(b.drop_first() =~= rest);
        assert(b[0] % 0x80 == u % 0x80);
        assert forall|k: int| 0 <= k < b.len() - 1 implies #[trigger] b[k] >= 0x80 by {
            if k > 0 {
                assert(b[k] == rest[k - 1]);
            }
        }
        assert(b[b.len() - 1] == rest[rest.len() - 1]);
        vstd::arithmetic::div_mod::lemma_fundamental_div_mod(u as int, 0x80);
        assert(var_int_value(b) == (b[0] % 0x80) as int + 0x80 * var_int_value(rest));
    } else {
        assert(b.drop_first() =~= Seq::<u8>::empty());
        assert(var_int_value(Seq::<u8>::empty()) == 0);
        assert(var_int_value(b) == (b[0] % 0x80) as int + 0x80 * var_int_value(b.drop_first()));
    }
}

/// The `u32` whose big-endian bytes are the first four of `s`.
pub open spec fn u32_from_be(s: Seq<u8>) -> u32 {
    (s[0] as u32) << 24u32 | (s[1] as u32) << 16u32 | (s[2] as u32) << 8u32 | (s[3] as u32)
}

/// Reading back the big-endian bytes of a `u32` gives the number.
pub proof fn lemma_u32_be_roundtrip(v: u32)
    ensures
        be_bytes32(v).len() == 4,
        u32_from_be(be_bytes32(v)) == v,
{
    let s = be_bytes32(v);
    let (b0, b1, b2, b3) = (s[0], s[1], s[2], s[3]);
    assert((b0 as u32) << 24u32 | (b1 as u32) << 16u32 | (b2 as u32) << 8u32 | (b3 as u32) == v) by (bit_vector)
        requires
            b0 == (v >> 24u32) as u8,
            b1 == (v >> 16u32) as u8,
            b2 == (v >> 8u32) as u8,
            b3 == v as u8,
    ;
}

/// Whether `bytes` start with a complete VarInt of `k` bytes standing for
/// `value`: its first `k - 1` bytes have the high bit set and byte `k - 1`
/// has it clear.
pub open spec fn starts_with_var_int(bytes: Seq<u8>, k: int, value: int) -> bool {
    &&& 1 <= k <= 5
    &&& k <= bytes.len()
    &&& var_int_value(bytes.take(k)) == value
    &&& bytes[k - 1] < 0x80
    &&& forall|j: int| 0 <= j < k - 1 ==> #[trigger] bytes[j] >= 0x80
}

proof fn lemma_var_int_prefix(u: u32, rest: Seq<u8>)
    ensures
        starts_with_var_int(var_int_bytes(u) + rest, var_int_bytes(u).len() as int, u as int),
        (var_int_bytes(u) + rest).skip(var_int_bytes(u).len() as int) == rest,
{
    lemma_var_int_decodes(u);
    let b = var_int_bytes(u);
    let all = b + rest;
    assert(all.take(b.len() as int) =~= b);
    assert(all.skip(b.len() as int) =~= rest);
    assert(all[b.len() - 1] == b[b.len() - 1]);
    assert forall|j: int| 0 <= j < b.len() - 1 implies #[trigger] all[j] >= 0x80 by {
        assert(all[j] == b[j]);
    }
}

/// A string field reads back: it starts with a VarInt standing for the
/// string's UTF-8 length (below 2^32), followed by exactly its bytes.
pub proof fn lemma_string_bytes_decode(utf8: Seq<u8>)
    requires
        utf8.len() < 0x100000000,
    ensures
        exists|k: int|
            #![trigger string_bytes(utf8).skip(k)]
            starts_with_var_int(string_bytes(utf8), k, utf8.len() as int) && string_bytes(utf8).skip(k) == utf8,
{
    lemma_var_int_prefix(utf8.len() as u32, utf8);
    let k = var_int_bytes(utf8.len() as u32).len() as int;
    assert(starts_with_var_int(string_bytes(utf8), k, utf8.len() as int) && string_bytes(utf8).skip(k) == utf8);
}

/// A framed packet reads back: it starts with a VarInt standing for the
/// number of bytes after it, those bytes start with a VarInt standing for
/// the packet id (as an unsigned 32-bit number), and the rest are exactly
/// the fields.
pub proof fn lemma_framed_packet_decodes(packet_id: i32, fields: Seq<u8>)
    requires
        fields.len() < 0x100000000 - 5,
    ensures
        exists|k: int, m: int|
            #![trigger framed_packet(packet_id, fields).skip(k).skip(m)]
            {
                let p = framed_packet(packet_id, fields);
                &&& starts_with_var_int(p, k, p.len() - k)
                &&& starts_with_var_int(p.skip(k), m, (packet_id as u32) as int)
                &&& p.skip(k).skip(m) == fields
            },
{
    let body = var_int_bytes(packet_id as u32) + fields;
    lemma_var_int_decodes(packet_id as u32);
    lemma_var_int_prefix(packet_id as u32, fields);
    lemma_var_int_prefix(body.len() as u32, body);
    let p = framed_packet(packet_id, fields);
    let k = var_int_bytes(body.len() as u32).len() as int;
    let m = var_int_bytes(packet_id as u32).len() as int;
    assert(p.skip(k) == body);
    assert(p.len() - k == body.len());
    assert(starts_with_var_int(p, k, p.len() - k));
    assert(starts_with_var_int(p.skip(k), m, (packet_id as u32) as int));
    assert(p.skip(k).skip(m) == fields);
}

/// Whether `bytes` are a string field holding `utf8` followed by `rest`.
pub open spec fn starts_with_string(bytes: Seq<u8>, utf8: Seq<u8>, rest: Seq<u8>) -> bool {
    exists|k: int| #![trigger bytes.skip(k)] starts_with_var_int(bytes, k, utf8.len() as int) && bytes.skip(k) == utf8 + rest
}

/// A string field followed by more bytes reads back as the string and
/// those bytes.
pub proof fn lemma_string_field(utf8: Seq<u8>, rest: Seq<u8>)
    requires
        utf8.len() < 0x100000000,
    ensures
        starts_with_string(string_bytes(utf8) + rest, utf8, rest),
{
    lemma_var_int_prefix(utf8.len() as u32, utf8 + rest);
    let k = var_int_bytes(utf8.len() as u32).len() as int;
    assert(string_bytes(utf8) + rest =~= var_int_bytes(utf8.len() as u32) + (utf8 + rest));
    let b = string_bytes(utf8) + rest;
    assert(starts_with_var_int(b, k, utf8.len() as int) && b.skip(k) == utf8 + rest);
}

pub fn write_u64(buf: &mut Vec<u8>, v: u64)
    ensures
        final(buf)@ == old(buf)@ + be_bytes64(v),
{
    buf.push((v >> 56u64) as u8);
    buf.push((v >> 48u64) as u8);
    buf.push((v >> 40u64) as u8);
    buf.push((v >> 32u64) as u8);
    buf.push((v >> 24u64) as u8);
    buf.push((v >> 16u64) as u8);
    buf.push((v >> 8u64) as u8);
    buf.push(v as u8);
    assert(buf@ =~= old(buf)@ + be_bytes64(v));
}

/// Appends the big-endian bytes of `v` (a field of type `i64`).
pub fn write_i64(buf: &mut Vec<u8>, v: i64)
    ensures
        final(buf)@ == old(buf)@ + be_bytes64(v as u64),
{
    write_u64(buf, v as u64);
}

/// Appends the big-endian bytes of `v` (a field of type `i32`).
pub fn write_i32(buf: &mut Vec<u8>, v: i32)
    ensures
        final(buf)@ == old(buf)@ + be_bytes32(v as u32),
{
    let u = v as u32;
    buf.push((u >> 24u32) as u8);
    buf.push((u >> 16u32) as u8);
    buf.push((u >> 8u32) as u8);
    buf.push(u as u8);
    assert(buf@ =~= old(buf)@ + be_bytes32(v as u32));
}

/// Appends the single byte of `v` (a field of type `i8`).
pub fn write_i8(buf: &mut Vec<u8>, v: i8)
    ensures
        final(buf)@ == old(buf)@.push(v as u8),
{
    buf.push(v as u8);
}

/// Appends the VarInt encoding of `value`, read as an unsigned 32-bit number
/// (negative values take five bytes).
pub fn write_var_int(buf: &mut Vec<u8>, value: i32)
    ensures
        final(buf)@ == old(buf)@ + var_int_bytes(value as u32),
{
    let mut v: u32 = value as u32;
    loop
        invariant
            buf@ + var_int_bytes(v) == old(buf)@ + var_int_bytes(value as u32),
        decreases v,
    {
        let low = (v % 0x80) as u8;
        let rest = v / 0x80;
        if rest == 0 {
            assert(var_int_bytes(v) == seq![v as u8]);
            buf.push(low);
            assert(buf@ =~= old(buf)@ + var_int_bytes(value as u32));
            return;
        }
        let ghost before = buf@;
        buf.push(low + 0x80);
        assert(var_int_bytes(v) == seq![(v % 0x80 + 0x80) as u8] + var_int_bytes(rest));
        assert(before + var_int_bytes(v) =~= buf@ + var_int_bytes(rest));
        v = rest;
    }
}

/// Appends every byte of `bytes`.
pub fn write_bytes(buf: &mut Vec<u8>, bytes: &[u8])
    ensures
        final(buf)@ == old(buf)@ + bytes@,
{
    let mut i: usize = 0;
    while i < bytes.len()
        invariant
            i <= bytes@.len(),
            buf@ == old(buf)@ + bytes@.subrange(0, i as int),
        decreases bytes@.len() - i,
    {
        buf.push(bytes[i]);
        assert(bytes@.subrange(0, i + 1) =~= bytes@.subrange(0, i as int).push(bytes@[i as int]));
        i = i + 1;
    }
    assert(bytes@.subrange(0, i as int) =~= bytes@);
}

/// Appends a string field: its UTF-8 length as a VarInt, then its UTF-8 bytes.
pub fn write_string(buf: &mut Vec<u8>, s: &str)
    ensures
        final(buf)@ == old(buf)@ + string_bytes(encode_utf8(s@)),
{
    let bytes = s.as_bytes();
    write_var_int(buf, bytes.len() as i32);
    write_bytes(buf, bytes);
    proof { lemma_len_as_u32(bytes.len()); }
    assert(buf@ =~= old(buf)@ + string_bytes(encode_utf8(s@)));
}

/// Frames a packet: the body is `packet_id` as a VarInt followed by
/// `fields`, and the result is the body's length as a VarInt followed by the
/// body.
pub fn frame_packet(packet_id: i32, fields: &Vec<u8>) -> (packet: Vec<u8>)
    ensures
        packet@ == framed_packet(packet_id, fields@),
{
    let mut body: Vec<u8> = Vec::new();
    write_var_int(&mut body, packet_id);
    write_bytes(&mut body, fields.as_slice());
    let mut packet: Vec<u8> = Vec::new();
    write_var_int(&mut packet, body.len() as i32);
    write_bytes(&mut packet, body.as_slice());
    proof { lemma_len_as_u32(body.len()); }
    assert(packet@ =~= framed_packet(packet_id, fields@));
    packet
}


/// `bytes::BytesMut`, a growable byte buffer that is read from the front.
#[verifier::external_type_specification]
#[verifier::external_body]
pub struct ExBytesMut(bytes::BytesMut);

/// The bytes that a `BytesMut` still holds, from its read position to its end.
pub uninterp spec fn bytes_mut_contents(buf: BytesMut) -> Seq<u8>;

/// `Buf::remaining` on a `BytesMut`: its source returns `self.len()`, the
/// number of bytes it holds. Trusted: the count equals the length of the
/// contents.
#[verifier::external_body]
pub(crate) fn remaining(buf: &BytesMut) -> (n: usize)
    ensures
        n == bytes_mut_contents(*buf).len(),
{
    buf.remaining()
}

/// `Buf::get_i64` on a `BytesMut`: its documentation and source read the
/// first eight bytes in big-endian order as an `i64` and advance the read
/// position by eight; it panics when fewer than eight bytes remain, which the
/// `requires` rules out. Trusted: the result has the bits of those bytes, and
/// the contents lose exactly those bytes.
#[verifier::external_body]
pub(crate) fn get_i64(buf: &mut BytesMut) -> (v: i64)
    requires
        bytes_mut_contents(*old(buf)).len() >= 8,
    ensures
        v as u64 == u64_from_be(bytes_mut_contents(*old(buf))),
        bytes_mut_contents(*final(buf)) == bytes_mut_contents(*old(buf)).skip(8),
{
    buf.get_i64()
}

} // verus!
