use announce_au::{
    handle_datagram, write_packet, Data, DecodeError, FreeWeekendState, HazelMessage,
    HelloMessage, Language, Message, PeerAddr, SessionStore,
};

fn catalog() -> Message {
    Message {
        unique_id: 7,
        default_message: String::from("Hi"),
        message: [
            String::new(),
            String::from("Hola"),
            String::new(),
            String::new(),
            String::new(),
        ],
    }
}

fn peer(n: u16) -> PeerAddr {
    PeerAddr { ip: 0x7f000001, port: n }
}

fn hello_bytes(nonce: u16, id: u32, language: Language) -> Vec<u8> {
    let mut buf: Vec<u8> = Vec::new();
    let hello = HelloMessage { version: 1, id, language };
    write_packet(&HazelMessage::Hello((nonce, hello)), &mut buf);
    buf
}

#[test]
fn hello_cached_client_gets_cache_hint() {
    // message_id = 7 * 5 + 1 = 36; a client already holding it gets the hint.
    let msg = catalog();
    let mut store = SessionStore::new();
    let replies = handle_datagram(&hello_bytes(3, 36, Language::Spanish), peer(1), &mut store,
        &msg, false).expect("dispatch");
    assert_eq!(replies.len(), 2);
    match &replies[1] {
        HazelMessage::Reliable((_, body)) => {
            assert_eq!(body.len(), 1);
            assert!(matches!(body[0], Data::CacheAnnouncement));
        },
        other => panic!("wrong reply: {:?}", other),
    }
}

#[test]
fn hello_gets_language_text() {
    let msg = catalog();
    let mut store = SessionStore::new();
    let replies = handle_datagram(&hello_bytes(3, 0, Language::Spanish), peer(1), &mut store,
        &msg, false).expect("dispatch");
    assert_eq!(replies.len(), 2);
    match &replies[1] {
        HazelMessage::Reliable((nonce, body)) => {
            // A fresh session replies under its stored nonce, which is zero.
            assert_eq!(*nonce, 0);
            assert_eq!(body.len(), 1);
            match &body[0] {
                Data::Announcement((id, text)) => {
                    assert_eq!(*id, 36);
                    assert_eq!(text, "Hola");
                },
                other => panic!("wrong record: {:?}", other),
            }
        },
        other => panic!("wrong reply: {:?}", other),
    }
}

#[test]
fn hello_empty_slot_falls_back_to_default() {
    let msg = catalog();
    let mut store = SessionStore::new();
    let replies = handle_datagram(&hello_bytes(3, 0, Language::English), peer(1), &mut store,
        &msg, false).expect("dispatch");
    match &replies[1] {
        HazelMessage::Reliable((_, body)) => match &body[0] {
            Data::Announcement((id, text)) => {
                assert_eq!(*id, 35);
                assert_eq!(text, "Hi");
            },
            other => panic!("wrong record: {:?}", other),
        },
        other => panic!("wrong reply: {:?}", other),
    }
}

#[test]
fn hello_free_weekend_toggle_appends_record() {
    let msg = catalog();
    let mut store = SessionStore::new();
    let replies = handle_datagram(&hello_bytes(3, 0, Language::Spanish), peer(1), &mut store,
        &msg, true).expect("dispatch");
    match &replies[1] {
        HazelMessage::Reliable((_, body)) => {
            assert_eq!(body.len(), 2);
            assert!(matches!(body[0], Data::Announcement(_)));
            assert!(matches!(body[1], Data::FreeWeekend(FreeWeekendState::Free)));
        },
        other => panic!("wrong reply: {:?}", other),
    }
}

#[test]
fn ack_comes_first_for_acknowledged_kinds() {
    let msg = catalog();
    let mut store = SessionStore::new();

    let replies = handle_datagram(&hello_bytes(0x1234, 0, Language::Spanish), peer(1), &mut store,
        &msg, false).expect("dispatch");
    assert!(matches!(replies[0], HazelMessage::Ack(0x1234)));

    let mut reliable: Vec<u8> = Vec::new();
    write_packet(&HazelMessage::Reliable((0x4242, vec![Data::CacheAnnouncement])), &mut reliable);
    let replies = handle_datagram(&reliable, peer(1), &mut store, &msg, false).expect("dispatch");
    assert_eq!(replies.len(), 1);
    assert!(matches!(replies[0], HazelMessage::Ack(0x4242)));

    let mut ping: Vec<u8> = Vec::new();
    write_packet(&HazelMessage::Ping(9), &mut ping);
    let replies = handle_datagram(&ping, peer(1), &mut store, &msg, false).expect("dispatch");
    assert_eq!(replies.len(), 1);
    assert!(matches!(replies[0], HazelMessage::Ack(9)));

    // Unreliable, disconnect and ack draw no reply at all.
    let mut unreliable: Vec<u8> = Vec::new();
    write_packet(&HazelMessage::Unreliable(vec![Data::CacheAnnouncement]), &mut unreliable);
    let replies = handle_datagram(&unreliable, peer(1), &mut store, &msg, false)
        .expect("dispatch");
    assert_eq!(replies.len(), 0);
    let mut ack: Vec<u8> = Vec::new();
    write_packet(&HazelMessage::Ack(1), &mut ack);
    let replies = handle_datagram(&ack, peer(1), &mut store, &msg, false).expect("dispatch");
    assert_eq!(replies.len(), 0);
}

#[test]
fn disconnect_removes_session_after_flush() {
    let msg = catalog();
    let mut store = SessionStore::new();
    let addr = peer(7);

    handle_datagram(&hello_bytes(1, 555, Language::English), addr, &mut store, &msg, false)
        .expect("hello");
    assert_eq!(store.get_or_create(addr).client_id, 555);

    let mut disconnect: Vec<u8> = Vec::new();
    write_packet(&HazelMessage::Disconnect, &mut disconnect);
    handle_datagram(&disconnect, addr, &mut store, &msg, false).expect("disconnect");
    // Removal is deferred: the session still exists until the flush.
    assert_eq!(store.get_or_create(addr).client_id, 555);

    store.flush_removals();
    // A later packet starts over from a fresh session.
    assert_eq!(store.get_or_create(addr).client_id, 0);
}

#[test]
fn malformed_datagram_changes_nothing() {
    let msg = catalog();
    let mut store = SessionStore::new();
    let addr = peer(3);
    handle_datagram(&hello_bytes(1, 99, Language::English), addr, &mut store, &msg, false)
        .expect("hello");

    // Truncated and tag-invalid datagrams are reported, not fatal.
    assert!(matches!(
        handle_datagram(&[1, 0], addr, &mut store, &msg, false),
        Err(DecodeError::UnexpectedEnd)
    ));
    assert!(matches!(
        handle_datagram(&[0, 9, 0, 0], addr, &mut store, &msg, false),
        Err(DecodeError::InvalidDataTag)
    ));
    assert!(matches!(
        handle_datagram(&[77], addr, &mut store, &msg, false),
        Err(DecodeError::InvalidOpcode)
    ));

    // The existing session is untouched.
    assert_eq!(store.get_or_create(addr).client_id, 99);
}

#[test]
fn sessions_are_kept_per_address() {
    let msg = catalog();
    let mut store = SessionStore::new();
    handle_datagram(&hello_bytes(1, 11, Language::English), peer(1), &mut store, &msg, false)
        .expect("hello");
    handle_datagram(&hello_bytes(1, 22, Language::English), peer(2), &mut store, &msg, false)
        .expect("hello");
    assert_eq!(store.get_or_create(peer(1)).client_id, 11);
    assert_eq!(store.get_or_create(peer(2)).client_id, 22);
}
