use vstd::prelude::*;

verus! {

use crate::announcements::{
    spec_language_index, view_of_datas, Data, DataView, FreeWeekendState, HelloMessage,
};
use crate::config::Message;
use crate::errors::DecodeError;
use crate::hazel::{read_packet, spec_read_packet, HazelMessage, HazelMessageView};
use crate::session::{ClientSession, PeerAddr, SessionStore};

/// The message id served for a language ordinal: the catalog's family id
/// times the number of languages, plus the ordinal, as a 32-bit register
/// holds the product.
pub open spec fn spec_message_id(unique_id: u32, lang: u32) -> u32 {
    (((unique_id * 5) + lang) % 0x1_0000_0000) as u32
}

/// The record body of the reply to a hello: a bare cache hint when the
/// client already carries the current message id, otherwise the
/// announcement text for its language — the fallback text when that slot
/// is empty — plus a free-weekend record when the toggle asks for one.
pub open spec fn spec_hello_reply_records(
    h: HelloMessage,
    msg: Message,
    free_weekend: bool,
) -> Seq<DataView> {
    let lang = spec_language_index(h.language);
    let mid = spec_message_id(msg.unique_id, lang);
    if h.id == mid {
        seq![DataView::CacheAnnouncement]
    } else {
        let slot = msg.message@[lang as int]@;
        let text = if slot.len() == 0 {
            msg.default_message@
        } else {
            slot
        };
        if free_weekend {
            seq![
                DataView::Announcement(mid, text),
                DataView::FreeWeekend(FreeWeekendState::Free),
            ]
        } else {
            seq![DataView::Announcement(mid, text)]
        }
    }
}

/// The packet views of a reply list.
pub open spec fn view_of_messages(s: Seq<HazelMessage>) -> Seq<HazelMessageView> {
    s.map_values(|m: HazelMessage| m@)
}

/// The packets sent back for one decoded packet: an acknowledgement of its
/// nonce first for the three acknowledged kinds, then, for a hello, the
/// reply body sent reliable under the session's stored nonce.
pub open spec fn spec_replies(
    m: HazelMessageView,
    stored_nonce: u16,
    msg: Message,
    free_weekend: bool,
) -> Seq<HazelMessageView> {
    let acks = match m {
        HazelMessageView::Reliable(n, _) => seq![HazelMessageView::Ack(n)],
        HazelMessageView::Hello(n, _) => seq![HazelMessageView::Ack(n)],
        HazelMessageView::Ping(n) => seq![HazelMessageView::Ack(n)],
        _ => Seq::<HazelMessageView>::empty(),
    };
    match m {
        HazelMessageView::Hello(_, h) => acks + seq![
            HazelMessageView::Reliable(
                stored_nonce,
                spec_hello_reply_records(h, msg, free_weekend),
            ),
        ],
        _ => acks,
    }
}

/// The session a packet leaves behind for its peer: what was stored (or a
/// fresh session), with the client id overwritten by a hello.
pub open spec fn spec_session_after(m: HazelMessageView, base: ClientSession) -> ClientSession {
    match m {
        HazelMessageView::Hello(_, h) => ClientSession { nonce: base.nonce, client_id: h.id },
        _ => base,
    }
}

/// The peer's session before the packet acts: the stored one, or a fresh
/// one when the address was never seen.
pub open spec fn spec_base_session(store: SessionStore, peer: PeerAddr) -> ClientSession {
    if store.contains(peer) {
        store.session_of(peer)
    } else {
        ClientSession { nonce: 0, client_id: 0 }
    }
}

/// Handles one inbound datagram: decodes it, keeps the session book, and
/// returns the packets to send back, in order.  A datagram that does not
/// decode is reported as the error and changes nothing.
pub fn handle_datagram(
    bytes: &[u8],
    peer: PeerAddr,
    store: &mut SessionStore,
    msg: &Message,
    free_weekend: bool,
) -> (r: Result<Vec<HazelMessage>, DecodeError>)
    requires
        old(store).wf(),
    ensures
        final(store).wf(),
        match spec_read_packet(bytes@) {
            Err(e) => r == Err::<Vec<HazelMessage>, DecodeError>(e) && *final(store) == *old(
                store,
            ),
            Ok(m) => {
                let base = spec_base_session(*old(store), peer);
                &&& r matches Ok(replies) && view_of_messages(replies@) == spec_replies(
                    m,
                    base.nonce,
                    *msg,
                    free_weekend,
                )
                &&& final(store).contains(peer)
                &&& final(store).session_of(peer) == spec_session_after(m, base)
                &&& forall|b: PeerAddr|
                    b != peer ==> final(store).contains(b) == old(store).contains(b)
                &&& forall|b: PeerAddr|
                    b != peer && old(store).contains(b) ==> final(store).session_of(b) == old(
                        store,
                    ).session_of(b)
                &&& final(store).pending_removals() == (if m is Disconnect {
                    old(store).pending_removals().push(peer)
                } else {
                    old(store).pending_removals()
                })
            },
        },
{
    let packet = match read_packet(bytes) {
        Ok(p) => p,
        Err(e) => {
            return Err(e);
        },
    };
    let session = store.get_or_create(peer);
    let mut replies: Vec<HazelMessage> = Vec::new();
    match &packet {
        HazelMessage::Reliable((n, _)) => replies.push(HazelMessage::Ack(*n)),
        HazelMessage::Hello((n, _)) => replies.push(HazelMessage::Ack(*n)),
        HazelMessage::Ping(n) => replies.push(HazelMessage::Ack(*n)),
        _ => {},
    }
    let ghost acks = view_of_messages(replies@);
    match packet {
        HazelMessage::Hello((_, hello)) => {
            store.set_client_id(peer, hello.id);
            let lang = u32::from(hello.language);
            assert(lang <= 4);
            let mid = (((msg.unique_id as u64) * 5 + (lang as u64)) % 0x1_0000_0000) as u32;
            let mut body: Vec<Data> = Vec::new();
            if hello.id == mid {
                body.push(Data::CacheAnnouncement);
                assert(view_of_datas(body@) =~= spec_hello_reply_records(
                    hello,
                    *msg,
                    free_weekend,
                ));
            } else {
                let slot_empty = msg.message[lang as usize].as_str().is_empty();
                let chosen: &String = if slot_empty {
                    &msg.default_message
                } else {
                    &msg.message[lang as usize]
                };
                body.push(Data::Announcement((mid, chosen.clone())));
                if free_weekend {
                    body.push(Data::FreeWeekend(FreeWeekendState::Free));
                }
                assert(view_of_datas(body@) =~= spec_hello_reply_records(
                    hello,
                    *msg,
                    free_weekend,
                ));
            }
            replies.push(HazelMessage::Reliable((session.nonce, body)));
            assert(view_of_messages(replies@) =~= acks + seq![
                HazelMessageView::Reliable(
                    session.nonce,
                    spec_hello_reply_records(hello, *msg, free_weekend),
                ),
            ]);
        },
        HazelMessage::Disconnect => {
            store.mark_for_removal(peer);
        },
        _ => {},
    }
    Ok(replies)
}

/// The acknowledgement comes first: a reliable, hello or ping packet with
/// nonce `n` is answered with `Ack(n)` before any content reply.
pub proof fn lemma_ack_on_reliable(
    m: HazelMessageView,
    stored_nonce: u16,
    msg: Message,
    free_weekend: bool,
)
    ensures
        match m {
            HazelMessageView::Reliable(n, _) => spec_replies(m, stored_nonce, msg, free_weekend)
                == seq![HazelMessageView::Ack(n)],
            HazelMessageView::Hello(n, _) => spec_replies(m, stored_nonce, msg, free_weekend).len()
                == 2 && spec_replies(m, stored_nonce, msg, free_weekend)[0]
                == HazelMessageView::Ack(n),
            HazelMessageView::Ping(n) => spec_replies(m, stored_nonce, msg, free_weekend) == seq![
                HazelMessageView::Ack(n),
            ],
            _ => spec_replies(m, stored_nonce, msg, free_weekend) == Seq::<
                HazelMessageView,
            >::empty(),
        },
{
    match m {
        HazelMessageView::Reliable(n, _) => {
            assert(seq![HazelMessageView::Ack(n)] =~= spec_replies(
                m,
                stored_nonce,
                msg,
                free_weekend,
            ));
        },
        HazelMessageView::Ping(n) => {
            assert(seq![HazelMessageView::Ack(n)] =~= spec_replies(
                m,
                stored_nonce,
                msg,
                free_weekend,
            ));
        },
        _ => {},
    }
}

} // verus!
