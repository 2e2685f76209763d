use vstd::prelude::*;
use vstd::utf8::encode_utf8;

use crate::wire::{
    be_bytes32, frame_packet, framed_packet, lemma_framed_packet_decodes, lemma_string_field, lemma_u32_be_roundtrip,
    starts_with_string, starts_with_var_int, string_bytes, u32_from_be, write_i32, write_i8, write_string,
};

verus! {

/// The id of the login success packet.
pub const LOGIN_SUCCESS_ID: i32 = 0x02;

/// The id of the entity attach packet.
pub const ENTITY_ATTACH_ID: i32 = 0x1B;

/// Tells a client that it has logged in, with its UUID and name.
#[derive(Debug, Clone)]
pub struct LoginSuccess {
    pub uuid: String,
    pub name: String,
}

impl LoginSuccess {
    /// The bytes of this packet on the wire: the uuid and then the name as
    /// string fields, framed under the login success id.
    pub open spec fn spec_bytes(&self) -> Seq<u8> {
        framed_packet(
            LOGIN_SUCCESS_ID,
            string_bytes(encode_utf8(self.uuid@)) + string_bytes(encode_utf8(self.name@)),
        )
    }

    /// Encodes this packet as it is sent to the client.
    pub fn packet_bytes(&self) -> (bytes: Vec<u8>)
        ensures
            bytes@ == self.spec_bytes(),
    {
        let mut fields: Vec<u8> = Vec::new();
        write_string(&mut fields, self.uuid.as_str());
        write_string(&mut fields, self.name.as_str());
        assert(fields@ =~= string_bytes(encode_utf8(self.uuid@)) + string_bytes(encode_utf8(self.name@)));
        frame_packet(LOGIN_SUCCESS_ID, &fields)
    }
}

/// Attaches an entity to a vehicle (or, with `leash` set, leashes it).
#[derive(Debug, Clone, Copy, PartialEq, Eq, Structural)]
pub struct EntityAttach {
    pub entity_id: i32,
    pub vehicle_id: i32,
    pub leash: i8,
}

impl EntityAttach {
    /// The bytes of this packet on the wire: the entity id and the vehicle
    /// id as big-endian `i32` fields (not VarInts) and the leash byte,
    /// framed under the entity attach id.
    pub open spec fn spec_bytes(&self) -> Seq<u8> {
        framed_packet(
            ENTITY_ATTACH_ID,
            be_bytes32(self.entity_id as u32) + be_bytes32(self.vehicle_id as u32) + seq![self.leash as u8],
        )
    }

    /// Encodes this packet as it is sent to the client.
    pub fn packet_bytes(&self) -> (bytes: Vec<u8>)
        ensures
            bytes@ == self.spec_bytes(),
    {
        let mut fields: Vec<u8> = Vec::new();
        write_i32(&mut fields, self.entity_id);
        write_i32(&mut fields, self.vehicle_id);
        write_i8(&mut fields, self.leash);
        assert(fields@ =~= be_bytes32(self.entity_id as u32) + be_bytes32(self.vehicle_id as u32) + seq![
            self.leash as u8,
        ]);
        frame_packet(ENTITY_ATTACH_ID, &fields)
    }
}


/// Whether `packet` is a framed packet: a VarInt standing for the number of
/// bytes after it, then a VarInt standing for `packet_id`, then `fields`.
pub open spec fn is_framed(packet: Seq<u8>, packet_id: i32, fields: Seq<u8>) -> bool {
    exists|k: int, m: int|
        #![trigger packet.skip(k).skip(m)]
        {
            &&& starts_with_var_int(packet, k, packet.len() - k)
            &&& starts_with_var_int(packet.skip(k), m, (packet_id as u32) as int)
            &&& packet.skip(k).skip(m) == fields
        }
}

/// A login success packet reads back: it is framed under the login success
/// id, and its fields are the uuid as a string field and then the name as a
/// string field, with nothing after.
pub proof fn lemma_login_success_decodes(packet: LoginSuccess)
    requires
        encode_utf8(packet.uuid@).len() < 0x10000000,
        encode_utf8(packet.name@).len() < 0x10000000,
    ensures
        exists|fields: Seq<u8>, rest: Seq<u8>|
            #![trigger starts_with_string(fields, encode_utf8(packet.uuid@), rest)]
            {
                &&& is_framed(packet.spec_bytes(), LOGIN_SUCCESS_ID, fields)
                &&& starts_with_string(fields, encode_utf8(packet.uuid@), rest)
                &&& starts_with_string(rest, encode_utf8(packet.name@), Seq::empty())
            },
{
    let uuid = encode_utf8(packet.uuid@);
    let name = encode_utf8(packet.name@);
    let rest = string_bytes(name);
    let fields = string_bytes(uuid) + rest;
    lemma_string_field(uuid, rest);
    lemma_string_field(name, Seq::empty());
    crate::wire::lemma_var_int_decodes(uuid.len() as u32);
    crate::wire::lemma_var_int_decodes(name.len() as u32);
    assert(string_bytes(name) + Seq::<u8>::empty() =~= string_bytes(name));
    lemma_framed_packet_decodes(LOGIN_SUCCESS_ID, fields);
    assert(is_framed(packet.spec_bytes(), LOGIN_SUCCESS_ID, fields));
}

/// An entity attach packet reads back: it is framed under the entity attach
/// id, and its nine field bytes are the entity id and the vehicle id as
/// big-endian `i32`s and then the leash byte.
pub proof fn lemma_entity_attach_decodes(packet: EntityAttach)
    ensures
        exists|fields: Seq<u8>|
            #![trigger fields.subrange(4, 8)]
            {
                &&& is_framed(packet.spec_bytes(), ENTITY_ATTACH_ID, fields)
                &&& fields.len() == 9
                &&& u32_from_be(fields) as i32 == packet.entity_id
                &&& u32_from_be(fields.subrange(4, 8)) as i32 == packet.vehicle_id
                &&& fields[8] as i8 == packet.leash
            },
{
    let fields = be_bytes32(packet.entity_id as u32) + be_bytes32(packet.vehicle_id as u32) + seq![packet.leash as u8];
    lemma_u32_be_roundtrip(packet.entity_id as u32);
    lemma_u32_be_roundtrip(packet.vehicle_id as u32);
    assert(fields.subrange(4, 8) =~= be_bytes32(packet.vehicle_id as u32));
    assert(fields.take(4) =~= be_bytes32(packet.entity_id as u32));
    assert(u32_from_be(fields) == u32_from_be(be_bytes32(packet.entity_id as u32)));
    let e = packet.entity_id;
    let v = packet.vehicle_id;
    let l = packet.leash;
    assert((e as u32) as i32 == e && (v as u32) as i32 == v && (l as u8) as i8 == l) by (bit_vector);
    lemma_framed_packet_decodes(ENTITY_ATTACH_ID, fields);
    assert(is_framed(packet.spec_bytes(), ENTITY_ATTACH_ID, fields));
}

} // verus!
