use vstd::prelude::*;

verus! {

use crate::announcements::{
    data_valid, read_data, read_hello, spec_read_data_from, spec_read_hello, spec_write_data,
    spec_write_hello, view_of_datas, write_data, write_hello, Data, DataView, HelloMessage,
};
use crate::errors::DecodeError;
use crate::wire::{read_u16_be, spec_read_u16_be, spec_u16_be, write_u16_be};

/// One transport message: the outer envelope of a datagram.
#[derive(Debug)]
pub enum HazelMessage {
    Unreliable(Vec<Data>),
    Reliable((u16, Vec<Data>)),
    Hello((u16, HelloMessage)),
    Disconnect,
    Ack(u16),
    Ping(u16),
}

/// The mathematical value of a [`HazelMessage`].
pub enum HazelMessageView {
    Unreliable(Seq<DataView>),
    Reliable(u16, Seq<DataView>),
    Hello(u16, HelloMessage),
    Disconnect,
    Ack(u16),
    Ping(u16),
}

impl View for HazelMessage {
    type V = HazelMessageView;

    open spec fn view(&self) -> HazelMessageView {
        match self {
            HazelMessage::Unreliable(v) => HazelMessageView::Unreliable(view_of_datas(v@)),
            HazelMessage::Reliable((n, v)) => HazelMessageView::Reliable(*n, view_of_datas(v@)),
            HazelMessage::Hello((n, h)) => HazelMessageView::Hello(*n, *h),
            HazelMessage::Disconnect => HazelMessageView::Disconnect,
            HazelMessage::Ack(n) => HazelMessageView::Ack(*n),
            HazelMessage::Ping(n) => HazelMessageView::Ping(*n),
        }
    }
}

/// The wire bytes of a packet: one opcode byte, a big-endian nonce for the
/// four nonce-bearing kinds, then the kind's body.
pub open spec fn spec_write_packet(m: HazelMessageView) -> Seq<u8> {
    match m {
        HazelMessageView::Unreliable(records) => seq![0u8] + spec_write_data(records),
        HazelMessageView::Reliable(nonce, records) => seq![1u8] + spec_u16_be(nonce)
            + spec_write_data(records),
        HazelMessageView::Hello(nonce, h) => seq![8u8] + spec_u16_be(nonce) + spec_write_hello(h),
        HazelMessageView::Disconnect => seq![9u8],
        HazelMessageView::Ack(nonce) => seq![10u8] + spec_u16_be(nonce),
        HazelMessageView::Ping(nonce) => seq![12u8] + spec_u16_be(nonce),
    }
}

/// The packet a datagram's bytes decode to.  Record bodies run to the end
/// of the datagram; bytes after a hello or a bare-nonce body are ignored.
pub open spec fn spec_read_packet(s: Seq<u8>) -> Result<HazelMessageView, DecodeError> {
    if s.len() == 0 {
        Err(DecodeError::UnexpectedEnd)
    } else {
        let op = s[0];
        if op == 0 {
            match spec_read_data_from(s, 1) {
                Err(e) => Err(e),
                Ok(records) => Ok(HazelMessageView::Unreliable(records)),
            }
        } else if op == 1 {
            match spec_read_u16_be(s, 1) {
                Err(e) => Err(e),
                Ok((nonce, p)) => match spec_read_data_from(s, p) {
                    Err(e) => Err(e),
                    Ok(records) => Ok(HazelMessageView::Reliable(nonce, records)),
                },
            }
        } else if op == 8 {
            match spec_read_u16_be(s, 1) {
                Err(e) => Err(e),
                Ok((nonce, p)) => match spec_read_hello(s, p) {
                    Err(e) => Err(e),
                    Ok((h, _)) => Ok(HazelMessageView::Hello(nonce, h)),
                },
            }
        } else if op == 9 {
            Ok(HazelMessageView::Disconnect)
        } else if op == 10 {
            match spec_read_u16_be(s, 1) {
                Err(e) => Err(e),
                Ok((nonce, _)) => Ok(HazelMessageView::Ack(nonce)),
            }
        } else if op == 12 {
            match spec_read_u16_be(s, 1) {
                Err(e) => Err(e),
                Ok((nonce, _)) => Ok(HazelMessageView::Ping(nonce)),
            }
        } else {
            Err(DecodeError::InvalidOpcode)
        }
    }
}

/// Decodes one datagram into a packet.
pub fn read_packet(bytes: &[u8]) -> (r: Result<HazelMessage, DecodeError>)
    ensures
        match r {
            Ok(m) => spec_read_packet(bytes@) == Ok::<HazelMessageView, DecodeError>(m@),
            Err(e) => spec_read_packet(bytes@) == Err::<HazelMessageView, DecodeError>(e),
        },
{
    if bytes.len() == 0 {
        return Err(DecodeError::UnexpectedEnd);
    }
    let op = bytes[0];
    let mut pos: usize = 1;
    if op == 0 {
        match read_data(bytes, &mut pos) {
            Ok(records) => Ok(HazelMessage::Unreliable(records)),
            Err(e) => Err(e),
        }
    } else if op == 1 {
        let nonce = match read_u16_be(bytes, &mut pos) {
            Ok(v) => v,
            Err(e) => {
                return Err(e);
            },
        };
        match read_data(bytes, &mut pos) {
            Ok(records) => Ok(HazelMessage::Reliable((nonce, records))),
            Err(e) => Err(e),
        }
    } else if op == 8 {
        let nonce = match read_u16_be(bytes, &mut pos) {
            Ok(v) => v,
            Err(e) => {
                return Err(e);
            },
        };
        match read_hello(bytes, &mut pos) {
            Ok(h) => Ok(HazelMessage::Hello((nonce, h))),
            Err(e) => Err(e),
        }
    } else if op == 9 {
        Ok(HazelMessage::Disconnect)
    } else if op == 10 {
        match read_u16_be(bytes, &mut pos) {
            Ok(nonce) => Ok(HazelMessage::Ack(nonce)),
            Err(e) => Err(e),
        }
    } else if op == 12 {
        match read_u16_be(bytes, &mut pos) {
            Ok(nonce) => Ok(HazelMessage::Ping(nonce)),
            Err(e) => Err(e),
        }
    } else {
        Err(DecodeError::InvalidOpcode)
    }
}

/// Encodes a packet onto `out`.
pub fn write_packet(value: &HazelMessage, out: &mut Vec<u8>)
    ensures
        final(out)@ == old(out)@ + spec_write_packet(value@),
{
    let ghost orig = out@;
    match value {
        HazelMessage::Unreliable(records) => {
            out.push(0);
            write_data(records, out);
            assert(out@ =~= orig + spec_write_packet(value@));
        },
        HazelMessage::Reliable((nonce, records)) => {
            out.push(1);
            write_u16_be(*nonce, out);
            write_data(records, out);
            assert(out@ =~= orig + spec_write_packet(value@));
        },
        HazelMessage::Hello((nonce, hello)) => {
            out.push(8);
            write_u16_be(*nonce, out);
            write_hello(*hello, out);
            assert(out@ =~= orig + spec_write_packet(value@));
        },
        HazelMessage::Disconnect => {
            out.push(9);
            assert(out@ =~= orig + spec_write_packet(value@));
        },
        HazelMessage::Ack(nonce) => {
            out.push(10);
            write_u16_be(*nonce, out);
            assert(out@ =~= orig + spec_write_packet(value@));
        },
        HazelMessage::Ping(nonce) => {
            out.push(12);
            write_u16_be(*nonce, out);
            assert(out@ =~= orig + spec_write_packet(value@));
        },
    }
}

/// Whether a packet can be reproduced from its own encoding: every record
/// it carries must be reproducible.
pub open spec fn packet_valid(m: HazelMessageView) -> bool {
    match m {
        HazelMessageView::Unreliable(records) => forall|i: int|
            0 <= i < records.len() ==> data_valid(#[trigger] records[i]),
        HazelMessageView::Reliable(nonce, records) => forall|i: int|
            0 <= i < records.len() ==> data_valid(#[trigger] records[i]),
        _ => true,
    }
}

/// A packet decodes back from its own encoding: the packet round trip.
pub proof fn lemma_packet_round_trip(m: HazelMessageView)
    requires
        packet_valid(m),
    ensures
        spec_read_packet(spec_write_packet(m)) == Ok::<HazelMessageView, DecodeError>(m),
{
    let s = spec_write_packet(m);
    match m {
        HazelMessageView::Unreliable(records) => {
            assert(s.subrange(1, s.len() as int) =~= spec_write_data(records));
            crate::announcements::lemma_read_data_at(s, 1, records);
        },
        HazelMessageView::Reliable(nonce, records) => {
            assert(s.subrange(1, 3) =~= spec_u16_be(nonce));
            crate::wire::lemma_read_u16_be_at(s, 1, nonce);
            assert(s.subrange(3, s.len() as int) =~= spec_write_data(records));
            crate::announcements::lemma_read_data_at(s, 3, records);
        },
        HazelMessageView::Hello(nonce, h) => {
            assert(s.subrange(1, 3) =~= spec_u16_be(nonce));
            crate::wire::lemma_read_u16_be_at(s, 1, nonce);
            assert(s.subrange(3, s.len() as int) =~= spec_write_hello(h));
            crate::announcements::lemma_read_hello_at(s, 3, h);
        },
        HazelMessageView::Disconnect => {},
        HazelMessageView::Ack(nonce) => {
            assert(s.subrange(1, 3) =~= spec_u16_be(nonce));
            crate::wire::lemma_read_u16_be_at(s, 1, nonce);
        },
        HazelMessageView::Ping(nonce) => {
            assert(s.subrange(1, 3) =~= spec_u16_be(nonce));
            crate::wire::lemma_read_u16_be_at(s, 1, nonce);
        },
    }
}

} // verus!
