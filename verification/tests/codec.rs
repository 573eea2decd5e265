use announce_au::{
    read_data, read_packed, read_packet, write_data, write_packed, write_packet, Data,
    DecodeError, FreeWeekendState, HazelMessage, HelloMessage, Language,
};

fn roundtrip_packed(v: u32) -> u32 {
    let mut buf: Vec<u8> = Vec::new();
    write_packed(v, &mut buf);
    let mut pos: usize = 0;
    let out = read_packed(&buf, &mut pos).expect("varint decode");
    assert_eq!(pos, buf.len());
    out
}

#[test]
fn packed_round_trip_edges() {
    assert_eq!(roundtrip_packed(0), 0);
    assert_eq!(roundtrip_packed(127), 127);
    assert_eq!(roundtrip_packed(128), 128);
    assert_eq!(roundtrip_packed(1 << 31), 1 << 31);
    assert_eq!(roundtrip_packed(u32::MAX), u32::MAX);
}

#[test]
fn packed_known_bytes() {
    let mut buf: Vec<u8> = Vec::new();
    assert_eq!(write_packed(0, &mut buf), 1);
    assert_eq!(buf, vec![0x00]);
    buf.clear();
    assert_eq!(write_packed(127, &mut buf), 1);
    assert_eq!(buf, vec![0x7f]);
    buf.clear();
    assert_eq!(write_packed(128, &mut buf), 2);
    assert_eq!(buf, vec![0x80, 0x01]);
    buf.clear();
    assert_eq!(write_packed(u32::MAX, &mut buf), 5);
    assert_eq!(buf, vec![0xff, 0xff, 0xff, 0xff, 0x0f]);
}

#[test]
fn packed_errors() {
    let mut pos: usize = 0;
    assert_eq!(read_packed(&[], &mut pos), Err(DecodeError::UnexpectedEnd));
    let mut pos: usize = 0;
    assert_eq!(read_packed(&[0x80, 0x80], &mut pos), Err(DecodeError::UnexpectedEnd));
    let mut pos: usize = 0;
    assert_eq!(
        read_packed(&[0x80, 0x80, 0x80, 0x80, 0x80], &mut pos),
        Err(DecodeError::MalformedVarint)
    );
}

#[test]
fn data_record_round_trip() {
    let records = vec![
        Data::CacheAnnouncement,
        Data::Announcement((36, String::from("h\u{e9}llo"))),
        Data::FreeWeekend(FreeWeekendState::Free),
    ];
    let mut buf: Vec<u8> = Vec::new();
    write_data(&records, &mut buf);
    let mut pos: usize = 0;
    let back = read_data(&buf, &mut pos).expect("record decode");
    assert_eq!(pos, buf.len());
    assert_eq!(back.len(), 3);
    assert!(matches!(back[0], Data::CacheAnnouncement));
    match &back[1] {
        Data::Announcement((id, text)) => {
            assert_eq!(*id, 36);
            assert_eq!(text, "h\u{e9}llo");
        },
        other => panic!("wrong record: {:?}", other),
    }
    assert!(matches!(back[2], Data::FreeWeekend(FreeWeekendState::Free)));
}

#[test]
fn data_record_known_bytes() {
    // tag, little-endian length, payload: id varint, text length varint, text.
    let records = vec![Data::Announcement((5, String::from("ab")))];
    let mut buf: Vec<u8> = Vec::new();
    write_data(&records, &mut buf);
    assert_eq!(buf, vec![1, 4, 0, 5, 2, b'a', b'b']);

    let mut buf: Vec<u8> = Vec::new();
    write_data(&vec![Data::CacheAnnouncement], &mut buf);
    assert_eq!(buf, vec![0, 0, 0]);

    let mut buf: Vec<u8> = Vec::new();
    write_data(&vec![Data::FreeWeekend(FreeWeekendState::FreeMIRA)], &mut buf);
    assert_eq!(buf, vec![2, 1, 0, 1]);
}

#[test]
fn data_record_errors() {
    let mut pos: usize = 0;
    assert!(matches!(read_data(&[0], &mut pos), Err(DecodeError::UnexpectedEnd)));
    let mut pos: usize = 0;
    assert!(matches!(read_data(&[7, 0, 0], &mut pos), Err(DecodeError::InvalidDataTag)));
    let mut pos: usize = 0;
    assert!(matches!(
        read_data(&[2, 1, 0, 3], &mut pos),
        Err(DecodeError::InvalidFreeWeekendState)
    ));
    // Declared text length runs past the end of the datagram.
    let mut pos: usize = 0;
    assert!(matches!(
        read_data(&[1, 4, 0, 5, 9, b'a'], &mut pos),
        Err(DecodeError::InvalidStringLength)
    ));
    // A lone continuation byte is not UTF-8.
    let mut pos: usize = 0;
    assert!(matches!(read_data(&[1, 3, 0, 5, 1, 0xff], &mut pos), Err(DecodeError::InvalidUtf8)));
    // Empty input is a normal empty record sequence.
    let mut pos: usize = 0;
    assert_eq!(read_data(&[], &mut pos).expect("empty sequence").len(), 0);
}

#[test]
fn language_mapping_total() {
    assert!(matches!(Language::from(0u32), Language::English));
    assert!(matches!(Language::from(1u32), Language::Spanish));
    assert!(matches!(Language::from(2u32), Language::Portuguese));
    assert!(matches!(Language::from(3u32), Language::Korean));
    assert!(matches!(Language::from(4u32), Language::Russian));
    assert!(matches!(Language::from(5u32), Language::English));
    assert!(matches!(Language::from(u32::MAX), Language::English));
    for v in 0u32..5 {
        assert_eq!(u32::from(Language::from(v)), v);
    }
}

fn roundtrip_packet(m: &HazelMessage) -> HazelMessage {
    let mut buf: Vec<u8> = Vec::new();
    write_packet(m, &mut buf);
    read_packet(&buf).expect("packet decode")
}

#[test]
fn packet_round_trip_all_kinds() {
    let records = || {
        vec![
            Data::CacheAnnouncement,
            Data::Announcement((9, String::from("news"))),
            Data::FreeWeekend(FreeWeekendState::NotFree),
        ]
    };
    match roundtrip_packet(&HazelMessage::Unreliable(records())) {
        HazelMessage::Unreliable(v) => assert_eq!(v.len(), 3),
        other => panic!("wrong packet: {:?}", other),
    }
    match roundtrip_packet(&HazelMessage::Reliable((0xBEEF, records()))) {
        HazelMessage::Reliable((nonce, v)) => {
            assert_eq!(nonce, 0xBEEF);
            assert_eq!(v.len(), 3);
            match &v[1] {
                Data::Announcement((id, text)) => {
                    assert_eq!(*id, 9);
                    assert_eq!(text, "news");
                },
                other => panic!("wrong record: {:?}", other),
            }
        },
        other => panic!("wrong packet: {:?}", other),
    }
    let hello = HelloMessage { version: 5, id: 1234567, language: Language::Korean };
    match roundtrip_packet(&HazelMessage::Hello((7, hello))) {
        HazelMessage::Hello((nonce, h)) => {
            assert_eq!(nonce, 7);
            assert_eq!(h.version, 5);
            assert_eq!(h.id, 1234567);
            assert!(matches!(h.language, Language::Korean));
        },
        other => panic!("wrong packet: {:?}", other),
    }
    assert!(matches!(roundtrip_packet(&HazelMessage::Disconnect), HazelMessage::Disconnect));
    match roundtrip_packet(&HazelMessage::Ack(41)) {
        HazelMessage::Ack(nonce) => assert_eq!(nonce, 41),
        other => panic!("wrong packet: {:?}", other),
    }
    match roundtrip_packet(&HazelMessage::Ping(65535)) {
        HazelMessage::Ping(nonce) => assert_eq!(nonce, 65535),
        other => panic!("wrong packet: {:?}", other),
    }
}

#[test]
fn packet_known_bytes() {
    let hello = HelloMessage { version: 1, id: 128, language: Language::Spanish };
    let mut buf: Vec<u8> = Vec::new();
    write_packet(&HazelMessage::Hello((0x0102, hello)), &mut buf);
    // opcode, big-endian nonce, reserved zero word, version, id, language.
    assert_eq!(buf, vec![8, 1, 2, 0, 0, 1, 0x80, 0x01, 1]);

    let mut buf: Vec<u8> = Vec::new();
    write_packet(&HazelMessage::Ack(0xABCD), &mut buf);
    assert_eq!(buf, vec![10, 0xAB, 0xCD]);

    let mut buf: Vec<u8> = Vec::new();
    write_packet(&HazelMessage::Disconnect, &mut buf);
    assert_eq!(buf, vec![9]);
}

#[test]
fn packet_with_empty_body_is_an_empty_record_list() {
    match read_packet(&[0]).expect("empty unreliable") {
        HazelMessage::Unreliable(v) => assert_eq!(v.len(), 0),
        other => panic!("wrong packet: {:?}", other),
    }
    match read_packet(&[1, 0, 7]).expect("empty reliable") {
        HazelMessage::Reliable((nonce, v)) => {
            assert_eq!(nonce, 7);
            assert_eq!(v.len(), 0);
        },
        other => panic!("wrong packet: {:?}", other),
    }
}

#[test]
fn packet_errors() {
    assert!(matches!(read_packet(&[]), Err(DecodeError::UnexpectedEnd)));
    assert!(matches!(read_packet(&[5]), Err(DecodeError::InvalidOpcode)));
    assert!(matches!(read_packet(&[1, 0]), Err(DecodeError::UnexpectedEnd)));
    assert!(matches!(read_packet(&[8, 0, 0, 0]), Err(DecodeError::UnexpectedEnd)));
}
