use rustclear::packets::{EntityAttach, LoginSuccess};
use rustclear::wire::{frame_packet, write_i32, write_i64, write_i8, write_string, write_var_int};

#[test]
fn var_int_encoding() {
    let cases: [(i32, Vec<u8>); 6] = [
        (0, vec![0x00]),
        (1, vec![0x01]),
        (127, vec![0x7F]),
        (128, vec![0x80, 0x01]),
        (300, vec![0xAC, 0x02]),
        (-1, vec![0xFF, 0xFF, 0xFF, 0xFF, 0x0F]),
    ];
    for (v, expected) in cases {
        let mut buf = Vec::new();
        write_var_int(&mut buf, v);
        assert_eq!(buf, expected);
    }
    let mut buf = vec![9u8];
    write_var_int(&mut buf, i32::MAX);
    assert_eq!(buf, vec![9, 0xFF, 0xFF, 0xFF, 0xFF, 0x07]);
}

#[test]
fn fixed_width_fields() {
    let mut buf = Vec::new();
    write_i32(&mut buf, 0x01020304);
    write_i32(&mut buf, -2);
    write_i8(&mut buf, -1);
    write_i64(&mut buf, 0x0102030405060708);
    assert_eq!(
        buf,
        vec![1, 2, 3, 4, 0xFF, 0xFF, 0xFF, 0xFE, 0xFF, 1, 2, 3, 4, 5, 6, 7, 8]
    );
}

#[test]
fn string_field() {
    let mut buf = Vec::new();
    write_string(&mut buf, "hé");
    assert_eq!(buf, vec![3, b'h', 0xC3, 0xA9]);
}

#[test]
fn framing_prefixes_body_length() {
    let packet = frame_packet(0x05, &vec![1, 2, 3]);
    assert_eq!(packet, vec![4, 0x05, 1, 2, 3]);
    let long = vec![7u8; 200];
    let packet = frame_packet(0x10, &long);
    assert_eq!(packet.len(), 2 + 1 + 200);
    assert_eq!(&packet[..3], &[0xC9, 0x01, 0x10][..]);
}

#[test]
fn login_success_bytes() {
    let packet = LoginSuccess { uuid: "abc".to_string(), name: "Bob".to_string() };
    assert_eq!(packet.packet_bytes(), vec![9, 0x02, 3, b'a', b'b', b'c', 3, b'B', b'o', b'b']);
}

#[test]
fn entity_attach_bytes() {
    let packet = EntityAttach { entity_id: 1, vehicle_id: 2, leash: 1 };
    assert_eq!(packet.packet_bytes(), vec![10, 0x1B, 0, 0, 0, 1, 0, 0, 0, 2, 1]);
    let detach = EntityAttach { entity_id: 300, vehicle_id: -1, leash: 0 };
    assert_eq!(packet.packet_bytes().len(), detach.packet_bytes().len());
    assert_eq!(detach.packet_bytes(), vec![10, 0x1B, 0, 0, 1, 44, 0xFF, 0xFF, 0xFF, 0xFF, 0]);
}
