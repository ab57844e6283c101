use chipscraft::codec::{encode_packet, decode_packet, payload_len, i16_to_be, i16_from_be, write_string, read_string};
use chipscraft::packet::Packet;

fn round_trip(p: Packet) -> Packet {
    let bytes = encode_packet(&p).expect("encodable");
    assert_eq!(bytes.len(), 1 + payload_len(bytes[0]));
    decode_packet(&bytes)
}

#[test]
fn big_endian_words_round_trip() {
    for v in [0i16, 1, -1, 256, -256, i16::MAX, i16::MIN, 0x1234] {
        let (a, b) = i16_to_be(v);
        assert_eq!(i16_from_be(a, b), v);
    }
    assert_eq!(i16_to_be(0x1234), (0x12, 0x34));
}

#[test]
fn simple_packets_round_trip() {
    assert_eq!(round_trip(Packet::Ping), Packet::Ping);
    assert_eq!(round_trip(Packet::LevelStart), Packet::LevelStart);
    assert_eq!(
        round_trip(Packet::LevelSize { x: 128, y: 64, z: 128 }),
        Packet::LevelSize { x: 128, y: 64, z: 128 }
    );
    assert_eq!(
        round_trip(Packet::PlaceBlock { x: 1, y: -2, z: 3, mode: 1, block: 44 }),
        Packet::PlaceBlock { x: 1, y: -2, z: 3, mode: 1, block: 44 }
    );
    assert_eq!(
        round_trip(Packet::SetBlock { x: -1, y: 2, z: -3, block: 9 }),
        Packet::SetBlock { x: -1, y: 2, z: -3, block: 9 }
    );
    assert_eq!(
        round_trip(Packet::SetPosAndLook { id: -1, x: 100, y: 200, z: 300, yaw: 4, pitch: 5 }),
        Packet::SetPosAndLook { id: -1, x: 100, y: 200, z: 300, yaw: 4, pitch: 5 }
    );
    assert_eq!(
        round_trip(Packet::UpdatePosAndLook { id: 3, x: -5, y: 6, z: -7, yaw: 8, pitch: 9 }),
        Packet::UpdatePosAndLook { id: 3, x: -5, y: 6, z: -7, yaw: 8, pitch: 9 }
    );
    assert_eq!(
        round_trip(Packet::UpdatePos { id: 3, x: 0, y: 0, z: 3 }),
        Packet::UpdatePos { id: 3, x: 0, y: 0, z: 3 }
    );
    assert_eq!(
        round_trip(Packet::UpdateLook { id: 2, yaw: 30, pitch: 40 }),
        Packet::UpdateLook { id: 2, yaw: 30, pitch: 40 }
    );
    assert_eq!(round_trip(Packet::Despawn { id: -1 }), Packet::Despawn { id: -1 });
    assert_eq!(
        round_trip(Packet::UpdateUserMode { user_mode: 0x64 }),
        Packet::UpdateUserMode { user_mode: 0x64 }
    );
}

#[test]
fn string_packets_round_trip() {
    assert_eq!(
        round_trip(Packet::Identification {
            protocol: 7,
            name: String::from("a server"),
            data: String::from("welcome"),
            user_mode: 0,
        }),
        Packet::Identification {
            protocol: 7,
            name: String::from("a server"),
            data: String::from("welcome"),
            user_mode: 0,
        }
    );
    assert_eq!(
        round_trip(Packet::Message { id: 4, message: String::from("hello there") }),
        Packet::Message { id: 4, message: String::from("hello there") }
    );
    assert_eq!(
        round_trip(Packet::Disconnect { reason: String::from("bye") }),
        Packet::Disconnect { reason: String::from("bye") }
    );
    assert_eq!(
        round_trip(Packet::Spawn {
            id: 1,
            name: String::from("Bob"),
            x: 5,
            y: 6,
            z: 7,
            yaw: 8,
            pitch: 9,
        }),
        Packet::Spawn {
            id: 1,
            name: String::from("Bob"),
            x: 5,
            y: 6,
            z: 7,
            yaw: 8,
            pitch: 9,
        }
    );
}

#[test]
fn cp437_text_survives_the_wire() {
    // a character outside ASCII but inside the code page
    let p = round_trip(Packet::Message { id: 0, message: String::from("caf\u{e9}") });
    assert_eq!(p, Packet::Message { id: 0, message: String::from("caf\u{e9}") });
}

#[test]
fn unencodable_text_is_refused() {
    let p = Packet::Message { id: 0, message: String::from("\u{4e16}\u{754c}") };
    assert!(encode_packet(&p).is_none());
}

#[test]
fn long_strings_are_truncated_with_a_marker() {
    let long: String = std::iter::repeat('a').take(70).collect();
    let p = round_trip(Packet::Message { id: 0, message: long });
    let expected: String = std::iter::repeat('a').take(61).collect::<String>() + "...";
    assert_eq!(p, Packet::Message { id: 0, message: expected });
}

#[test]
fn a_dangling_color_initiator_is_defused() {
    let p = round_trip(Packet::Message { id: 0, message: String::from("hi&") });
    assert_eq!(p, Packet::Message { id: 0, message: String::from("hi%") });
}

#[test]
fn trailing_spaces_are_trimmed_on_read() {
    let p = round_trip(Packet::Message { id: 0, message: String::from("hi   ") });
    assert_eq!(p, Packet::Message { id: 0, message: String::from("hi") });
}

#[test]
fn level_data_is_padded_to_the_chunk_size() {
    let p = Packet::LevelData { length: 3, data: vec![1, 2, 3], percentage: 50 };
    match round_trip(p) {
        Packet::LevelData { length, data, percentage } => {
            assert_eq!(length, 3);
            assert_eq!(percentage, 50);
            assert_eq!(data.len(), 1024);
            assert_eq!(&data[0..3], &[1, 2, 3]);
            assert!(data[3..].iter().all(|b| *b == 0));
        },
        other => panic!("unexpected packet {:?}", other),
    }
}

#[test]
fn oversized_level_data_is_refused() {
    let p = Packet::LevelData { length: 1025, data: vec![0; 1025], percentage: 1 };
    assert!(encode_packet(&p).is_none());
}

#[test]
fn unknown_packets_cannot_be_sent() {
    assert!(encode_packet(&Packet::Unknown { id: 0x77 }).is_none());
}

#[test]
fn unknown_opcodes_decode_to_unknown() {
    let bytes = vec![0x77u8];
    assert_eq!(payload_len(0x77), 0);
    assert_eq!(decode_packet(&bytes), Packet::Unknown { id: 0x77 });
}

#[test]
fn wire_strings_are_exactly_64_bytes() {
    let w = write_string("hello").unwrap();
    assert_eq!(w.len(), 64);
    assert_eq!(&w[0..5], b"hello");
    assert!(w[5..].iter().all(|b| *b == b' '));
    assert_eq!(read_string(&w), "hello");
}
