use scanpipe::mc_packet::MCPacket;
use scanpipe::protocol_string::ProtocolString;
use scanpipe::varint::{encode_varint, VarInt};

fn varint_round_trip(n: u64) {
    let v = VarInt::from_int(n);
    assert_eq!(v.int_val(), n);
    let mut wire: Vec<u8> = Vec::new();
    v.write_to_stream(&mut wire);
    let mut pos: usize = 0;
    let back = VarInt::from_stream(wire.as_slice(), &mut pos).unwrap();
    assert_eq!(back.int_val(), n);
    assert_eq!(pos, wire.len());
}

#[test]
fn varint_round_trips_reference_values() {
    for n in [0u64, 1, 127, 128, 255, 2097151, 2147483647] {
        varint_round_trip(n);
    }
}

#[test]
fn varint_zero_is_single_zero_byte() {
    assert_eq!(encode_varint(0), vec![0u8]);
    let mut wire: Vec<u8> = Vec::new();
    VarInt::from_int(0).write_to_stream(&mut wire);
    assert_eq!(wire, vec![0u8]);
}

#[test]
fn varint_known_encodings() {
    assert_eq!(encode_varint(1), vec![0x01]);
    assert_eq!(encode_varint(127), vec![0x7f]);
    assert_eq!(encode_varint(128), vec![0x80, 0x01]);
    assert_eq!(encode_varint(255), vec![0xff, 0x01]);
    assert_eq!(encode_varint(2097151), vec![0xff, 0xff, 0x7f]);
    assert_eq!(encode_varint(2147483647), vec![0xff, 0xff, 0xff, 0xff, 0x07]);
    assert_eq!(encode_varint(34359738367), vec![0xff, 0xff, 0xff, 0xff, 0x7f]);
}

#[test]
fn varint_rejects_truncated_and_overlong_input() {
    let mut pos: usize = 0;
    assert!(VarInt::from_stream(&[0x80], &mut pos).is_err());
    assert_eq!(pos, 0);
    let mut pos2: usize = 0;
    assert!(VarInt::from_stream(&[0x80, 0x80, 0x80, 0x80, 0x80, 0x01], &mut pos2).is_err());
    let mut pos3: usize = 0;
    assert!(VarInt::from_stream(&[], &mut pos3).is_err());
}

#[test]
fn varint_rejects_values_above_the_limit_at_encode() {
    assert!(VarInt::try_from_int(34359738367).is_some());
    assert!(VarInt::try_from_int(34359738368).is_none());
    assert!(VarInt::try_from_int(u64::MAX).is_none());
}

#[test]
fn protocol_string_round_trip() {
    for text in ["", "a", "hello world", "1.2.3.4", "snow\u{2603}man"] {
        let p = ProtocolString::from_str(text);
        let mut wire: Vec<u8> = Vec::new();
        p.write_to_stream(&mut wire);
        let mut pos: usize = 0;
        let back = ProtocolString::from_stream(wire.as_slice(), &mut pos).unwrap();
        assert_eq!(back.to_str(), text);
        assert_eq!(pos, wire.len());
    }
}

#[test]
fn protocol_string_encoding_is_length_prefixed() {
    let p = ProtocolString::from_str("hi");
    let mut wire: Vec<u8> = Vec::new();
    p.write_to_stream(&mut wire);
    assert_eq!(wire, vec![2u8, b'h', b'i']);
}

#[test]
fn protocol_string_rejects_truncated_and_invalid_utf8() {
    let mut pos: usize = 0;
    assert!(ProtocolString::from_stream(&[5, b'a', b'b'], &mut pos).is_err());
    assert_eq!(pos, 0);
    let mut pos2: usize = 0;
    assert!(ProtocolString::from_stream(&[2, 0xff, 0xfe], &mut pos2).is_err());
}

#[test]
fn packet_frames_id_and_payload_behind_length() {
    let mut packet = MCPacket::new(0);
    packet.write_var_int(5);
    let bytes = packet.to_bytes();
    assert_eq!(bytes, vec![2u8, 0x00, 0x05]);
}

#[test]
fn packet_write_u16_is_big_endian() {
    let mut packet = MCPacket::new(0);
    packet.write_u16(25565);
    assert_eq!(packet.to_bytes(), vec![3u8, 0x00, 0x63, 0xdd]);
}

#[test]
fn packet_write_i64_is_big_endian() {
    let mut packet = MCPacket::new(0);
    packet.write_i64(-2);
    assert_eq!(
        packet.to_bytes(),
        vec![9u8, 0x00, 0xff, 0xff, 0xff, 0xff, 0xff, 0xff, 0xff, 0xfe]
    );
}

#[test]
fn packet_write_string_prefixes_byte_count() {
    let mut packet = MCPacket::new(0);
    packet.write_string("abc");
    assert_eq!(packet.to_bytes(), vec![5u8, 0x00, 0x03, b'a', b'b', b'c']);
}

#[test]
fn packet_read_var_int_matches_writer() {
    let wire = [0xf8u8, 0x05, 0xaa];
    let mut pos: usize = 0;
    let v = MCPacket::read_var_int(&wire, &mut pos).unwrap();
    assert_eq!(v, 760);
    assert_eq!(pos, 2);
}

#[test]
fn packet_read_string_matches_writer() {
    let wire = [3u8, b'x', b'y', b'z', 9];
    let mut pos: usize = 0;
    let s = MCPacket::read_string(&wire, &mut pos).unwrap();
    assert_eq!(s, "xyz");
    assert_eq!(pos, 4);
}

#[test]
fn packet_read_string_fails_on_bad_utf8() {
    let wire = [2u8, 0xc0, 0x00];
    let mut pos: usize = 0;
    assert!(MCPacket::read_string(&wire, &mut pos).is_err());
}

#[test]
fn status_handshake_bytes_are_exact() {
    let packet = MCPacket::status_handshake("1.2.3.4", 25565);
    let expected = vec![
        0x0eu8, 0x00, 0xf8, 0x05, 0x07, b'1', b'.', b'2', b'.', b'3', b'.', b'4', 0x63, 0xdd,
        0x01,
    ];
    assert_eq!(packet.to_bytes(), expected);
}

#[test]
fn int_to_var_int_matches_encoder() {
    assert_eq!(MCPacket::int_to_var_int(760), vec![0xf8, 0x05]);
    assert_eq!(MCPacket::int_to_var_int(0), vec![0x00]);
}
