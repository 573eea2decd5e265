use vstd::prelude::*;

verus! {

use crate::errors::DecodeError;
use crate::varint::{read_packed, spec_read_packed, spec_varint, write_packed};
use crate::wire::{
    read_u16_be, read_u16_le, spec_read_u16_be, spec_u16_be, spec_u16_le, write_u16_be,
    write_u16_le,
};
use vstd::slice::{slice_subrange, slice_to_vec};
use vstd::utf8::{decode_utf8, encode_utf8, valid_utf8};

/// State of the free-weekend promotion carried by a data record.
#[derive(Clone, Copy, Debug, PartialEq, Eq, Structural)]
pub enum FreeWeekendState {
    NotFree,
    FreeMIRA,
    Free,
}

/// One typed application record of an announcement message body.
#[derive(Debug)]
pub enum Data {
    CacheAnnouncement,
    Announcement((u32, String)),
    FreeWeekend(FreeWeekendState),
}

/// The mathematical value of a [`Data`] record: announcement text is a
/// character sequence.
pub enum DataView {
    CacheAnnouncement,
    Announcement(u32, Seq<char>),
    FreeWeekend(FreeWeekendState),
}

impl View for Data {
    type V = DataView;

    open spec fn view(&self) -> DataView {
        match self {
            Data::CacheAnnouncement => DataView::CacheAnnouncement,
            Data::Announcement((id, text)) => DataView::Announcement(*id, text@),
            Data::FreeWeekend(w) => DataView::FreeWeekend(*w),
        }
    }
}

/// The record views of a record sequence.
pub open spec fn view_of_datas(s: Seq<Data>) -> Seq<DataView> {
    s.map_values(|d: Data| d@)
}

/// Client language selecting which announcement text is served.
#[derive(Clone, Copy, Debug, PartialEq, Eq, Structural)]
pub enum Language {
    English,
    Spanish,
    Portuguese,
    Korean,
    Russian,
}

/// The wire ordinal of a language.
pub open spec fn spec_language_index(l: Language) -> u32 {
    match l {
        Language::English => 0,
        Language::Spanish => 1,
        Language::Portuguese => 2,
        Language::Korean => 3,
        Language::Russian => 4,
    }
}

/// The language a wire ordinal stands for; every value of five or more
/// falls back to English (lenient decode).
pub open spec fn spec_language_of(v: u32) -> Language {
    if v == 1 {
        Language::Spanish
    } else if v == 2 {
        Language::Portuguese
    } else if v == 3 {
        Language::Korean
    } else if v == 4 {
        Language::Russian
    } else {
        Language::English
    }
}

impl From<Language> for u32 {
    fn from(val: Language) -> (r: u32) {
        match val {
            Language::English => 0,
            Language::Spanish => 1,
            Language::Portuguese => 2,
            Language::Korean => 3,
            Language::Russian => 4,
        }
    }
}

impl vstd::std_specs::convert::FromSpecImpl<Language> for u32 {
    open spec fn obeys_from_spec() -> bool {
        true
    }

    open spec fn from_spec(val: Language) -> u32 {
        spec_language_index(val)
    }
}

impl From<u32> for Language {
    fn from(val: u32) -> (r: Language) {
        match val {
            0 => Language::English,
            1 => Language::Spanish,
            2 => Language::Portuguese,
            3 => Language::Korean,
            4 => Language::Russian,
            _ => Language::English,
        }
    }
}

impl vstd::std_specs::convert::FromSpecImpl<u32> for Language {
    open spec fn obeys_from_spec() -> bool {
        true
    }

    open spec fn from_spec(val: u32) -> Language {
        spec_language_of(val)
    }
}

/// The language mapping is total, and the ordinal of the language a value
/// in range maps to is the value itself; anything out of range is English.
pub proof fn lemma_language_round_trip(v: u32)
    ensures
        v <= 4 ==> spec_language_index(spec_language_of(v)) == v,
        v >= 5 ==> spec_language_of(v) == Language::English,
        spec_language_of(spec_language_index(spec_language_of(v))) == spec_language_of(v),
{
}

/// The handshake payload of a hello packet.
#[derive(Clone, Copy, Debug, PartialEq, Eq, Structural)]
pub struct HelloMessage {
    pub version: u32,
    pub id: u32,
    pub language: Language,
}

/// The wire bytes of a hello payload: a reserved big-endian 16-bit field
/// written as zero, then version, client id and language as varints.
pub open spec fn spec_write_hello(h: HelloMessage) -> Seq<u8> {
    spec_u16_be(0) + spec_varint(h.version as nat) + spec_varint(h.id as nat) + spec_varint(
        spec_language_index(h.language) as nat,
    )
}

/// The hello payload read at `pos`: the reserved field's value is ignored,
/// and an out-of-range language ordinal maps to English.
pub open spec fn spec_read_hello(s: Seq<u8>, pos: int) -> Result<(HelloMessage, int), DecodeError> {
    match spec_read_u16_be(s, pos) {
        Err(e) => Err(e),
        Ok((_, p0)) => match spec_read_packed(s, p0) {
            Err(e) => Err(e),
            Ok((version, p1)) => match spec_read_packed(s, p1) {
                Err(e) => Err(e),
                Ok((id, p2)) => match spec_read_packed(s, p2) {
                    Err(e) => Err(e),
                    Ok((lang, p3)) => Ok(
                        (HelloMessage { version, id, language: spec_language_of(lang) }, p3),
                    ),
                },
            },
        },
    }
}

/// Decodes a hello payload from `bytes` at `*pos`.
pub fn read_hello(bytes: &[u8], pos: &mut usize) -> (r: Result<HelloMessage, DecodeError>)
    requires
        *old(pos) <= bytes@.len(),
    ensures
        *old(pos) <= *final(pos) <= bytes@.len(),
        match r {
            Ok(h) => spec_read_hello(bytes@, *old(pos) as int) == Ok::<
                (HelloMessage, int),
                DecodeError,
            >((h, *final(pos) as int)),
            Err(e) => spec_read_hello(bytes@, *old(pos) as int) == Err::<
                (HelloMessage, int),
                DecodeError,
            >(e),
        },
{
    let _reserved = match read_u16_be(bytes, pos) {
        Ok(v) => v,
        Err(e) => {
            return Err(e);
        },
    };
    let version = match read_packed(bytes, pos) {
        Ok(v) => v,
        Err(e) => {
            return Err(e);
        },
    };
    let id = match read_packed(bytes, pos) {
        Ok(v) => v,
        Err(e) => {
            return Err(e);
        },
    };
    let lang = match read_packed(bytes, pos) {
        Ok(v) => v,
        Err(e) => {
            return Err(e);
        },
    };
    Ok(HelloMessage { version, id, language: Language::from(lang) })
}

/// Encodes a hello payload onto `out`.
pub fn write_hello(value: HelloMessage, out: &mut Vec<u8>)
    ensures
        final(out)@ == old(out)@ + spec_write_hello(value),
{
    let ghost orig = out@;
    write_u16_be(0, out);
    write_packed(value.version, out);
    write_packed(value.id, out);
    write_packed(u32::from(value.language), out);
    assert(out@ =~= orig + spec_write_hello(value));
}

/// Reading a hello payload back from where its encoding stands gives the
/// payload it was written from.
pub proof fn lemma_read_hello_at(s: Seq<u8>, pos: int, h: HelloMessage)
    requires
        0 <= pos,
        pos + spec_write_hello(h).len() <= s.len(),
        s.subrange(pos, pos + spec_write_hello(h).len()) == spec_write_hello(h),
    ensures
        spec_read_hello(s, pos) == Ok::<(HelloMessage, int), DecodeError>(
            (h, pos + spec_write_hello(h).len()),
        ),
{
    let enc = spec_write_hello(h);
    let v0 = spec_u16_be(0);
    let v1 = spec_varint(h.version as nat);
    let v2 = spec_varint(h.id as nat);
    let v3 = spec_varint(spec_language_index(h.language) as nat);
    let n1 = v1.len() as int;
    let n2 = v2.len() as int;
    let n3 = v3.len() as int;
    crate::wire::lemma_subrange_at(s, pos, enc, 0, 2);
    assert(enc.subrange(0, 2) =~= v0);
    crate::wire::lemma_read_u16_be_at(s, pos, 0);
    let p1 = pos + 2;
    crate::wire::lemma_subrange_at(s, pos, enc, 2, 2 + n1);
    assert(enc.subrange(2, 2 + n1) =~= v1);
    crate::varint::lemma_read_varint_at(s, p1, h.version);
    let p2 = p1 + n1;
    crate::wire::lemma_subrange_at(s, pos, enc, 2 + n1, 2 + n1 + n2);
    assert(enc.subrange(2 + n1, 2 + n1 + n2) =~= v2);
    crate::varint::lemma_read_varint_at(s, p2, h.id);
    let p3 = p2 + n2;
    crate::wire::lemma_subrange_at(s, pos, enc, 2 + n1 + n2, 2 + n1 + n2 + n3);
    assert(enc.subrange(2 + n1 + n2, 2 + n1 + n2 + n3) =~= v3);
    crate::varint::lemma_read_varint_at(s, p3, spec_language_index(h.language));
    assert(spec_language_of(spec_language_index(h.language)) == h.language);
}

/// The wire byte of a free-weekend state.
pub open spec fn spec_state_byte(w: FreeWeekendState) -> u8 {
    match w {
        FreeWeekendState::NotFree => 0,
        FreeWeekendState::FreeMIRA => 1,
        FreeWeekendState::Free => 2,
    }
}

/// The payload of an announcement record: message id and text byte count as
/// varints, then the UTF-8 bytes of the text.  A byte count beyond 32 bits
/// is written truncated, as a 32-bit register would hold it.
pub open spec fn spec_announce_payload(id: u32, text: Seq<char>) -> Seq<u8> {
    let tb = encode_utf8(text);
    spec_varint(id as nat) + spec_varint((tb.len() % 0x1_0000_0000) as nat) + tb
}

/// The wire bytes of one data record: tag byte, 16-bit little-endian payload
/// length (truncated to 16 bits when larger), then the payload.
pub open spec fn spec_write_data_one(d: DataView) -> Seq<u8> {
    match d {
        DataView::CacheAnnouncement => seq![0u8] + spec_u16_le(0),
        DataView::Announcement(id, text) => {
            let payload = spec_announce_payload(id, text);
            seq![1u8] + spec_u16_le((payload.len() % 0x1_0000) as u16) + payload
        },
        DataView::FreeWeekend(w) => seq![2u8] + spec_u16_le(1) + seq![spec_state_byte(w)],
    }
}

/// The wire bytes of a record sequence: the records' encodings, one after
/// the other, with no terminator.
pub open spec fn spec_write_data(s: Seq<DataView>) -> Seq<u8>
    decreases s.len(),
{
    if s.len() == 0 {
        Seq::empty()
    } else {
        spec_write_data_one(s[0]) + spec_write_data(s.drop_first())
    }
}

/// The data record read at `pos`: a tag byte and a 16-bit length field
/// (whose value the decoder ignores), then the tag's payload.  The declared
/// text byte count of an announcement must be fully present and valid UTF-8.
pub open spec fn spec_read_record(s: Seq<u8>, pos: int) -> Result<(DataView, int), DecodeError> {
    if pos < 0 || pos + 3 > s.len() {
        Err(DecodeError::UnexpectedEnd)
    } else {
        let tag = s[pos];
        let body = pos + 3;
        if tag == 0 {
            Ok((DataView::CacheAnnouncement, body))
        } else if tag == 1 {
            match spec_read_packed(s, body) {
                Err(e) => Err(e),
                Ok((id, p1)) => match spec_read_packed(s, p1) {
                    Err(e) => Err(e),
                    Ok((len, p2)) => if p2 + len > s.len() {
                        Err(DecodeError::InvalidStringLength)
                    } else {
                        let tb = s.subrange(p2, p2 + len);
                        if valid_utf8(tb) {
                            Ok((DataView::Announcement(id, decode_utf8(tb)), p2 + len))
                        } else {
                            Err(DecodeError::InvalidUtf8)
                        }
                    },
                },
            }
        } else if tag == 2 {
            if body >= s.len() {
                Err(DecodeError::UnexpectedEnd)
            } else if s[body] == 0 {
                Ok((DataView::FreeWeekend(FreeWeekendState::NotFree), body + 1))
            } else if s[body] == 1 {
                Ok((DataView::FreeWeekend(FreeWeekendState::FreeMIRA), body + 1))
            } else if s[body] == 2 {
                Ok((DataView::FreeWeekend(FreeWeekendState::Free), body + 1))
            } else {
                Err(DecodeError::InvalidFreeWeekendState)
            }
        } else {
            Err(DecodeError::InvalidDataTag)
        }
    }
}

/// A successful record decode consumes at least one byte and stays within
/// the sequence.
pub proof fn lemma_read_record_advances(s: Seq<u8>, pos: int)
    ensures
        spec_read_record(s, pos) matches Ok((d, p2)) ==> pos < p2 <= s.len(),
{
    if 0 <= pos && pos + 3 <= s.len() && s[pos] == 1 {
        crate::varint::lemma_read_packed_advances(s, pos + 3);
        match spec_read_packed(s, pos + 3) {
            Ok((_, p1)) => {
                crate::varint::lemma_read_packed_advances(s, p1);
            },
            Err(_) => {},
        }
    }
}

/// The record sequence read from `pos` to the end of the bytes: exhaustion
/// at a record boundary is the normal end of the sequence, never an error.
pub open spec fn spec_read_data_from(s: Seq<u8>, pos: int) -> Result<Seq<DataView>, DecodeError>
    decreases s.len() - pos,
        when 0 <= pos <= s.len()
{
    if pos == s.len() {
        Ok(Seq::empty())
    } else {
        match spec_read_record(s, pos) {
            Err(e) => Err(e),
            Ok((d, p2)) => if pos < p2 <= s.len() {
                // The bound always holds (`lemma_read_record_advances`); the
                // test keeps the recursion visibly well-founded.
                match spec_read_data_from(s, p2) {
                    Err(e) => Err(e),
                    Ok(rest) => Ok(seq![d] + rest),
                }
            } else {
                Err(DecodeError::InvalidDataTag)
            },
        }
    }
}

/// Relies on `String::from_utf8`: it succeeds exactly on input that is
/// valid UTF-8, and then returns the string those bytes encode.
#[verifier::external_body]
fn string_from_utf8(bytes: Vec<u8>) -> (r: Option<String>)
    ensures
        r is Some <==> valid_utf8(bytes@),
        r matches Some(text) ==> text@ == decode_utf8(bytes@),
{
    String::from_utf8(bytes).ok()
}

/// Decodes one data record from `bytes` at `*pos`.
fn read_record(bytes: &[u8], pos: &mut usize) -> (r: Result<Data, DecodeError>)
    requires
        *old(pos) <= bytes@.len(),
    ensures
        *old(pos) <= *final(pos) <= bytes@.len(),
        match r {
            Ok(d) => spec_read_record(bytes@, *old(pos) as int) == Ok::<
                (DataView, int),
                DecodeError,
            >((d@, *final(pos) as int)),
            Err(e) => spec_read_record(bytes@, *old(pos) as int) == Err::<
                (DataView, int),
                DecodeError,
            >(e),
        },
{
    if *pos >= bytes.len() {
        return Err(DecodeError::UnexpectedEnd);
    }
    let tag = bytes[*pos];
    *pos += 1;
    // The 16-bit length field is read over but its value is not used:
    // each tag determines how much payload follows.
    let _len = match read_u16_le(bytes, pos) {
        Ok(v) => v,
        Err(e) => {
            return Err(e);
        },
    };
    if tag == 0 {
        Ok(Data::CacheAnnouncement)
    } else if tag == 1 {
        let id = match read_packed(bytes, pos) {
            Ok(v) => v,
            Err(e) => {
                return Err(e);
            },
        };
        let len = match read_packed(bytes, pos) {
            Ok(v) => v,
            Err(e) => {
                return Err(e);
            },
        };
        if (len as u64) > ((bytes.len() - *pos) as u64) {
            return Err(DecodeError::InvalidStringLength);
        }
        let end = *pos + (len as usize);
        let tv = slice_to_vec(slice_subrange(bytes, *pos, end));
        *pos = end;
        match string_from_utf8(tv) {
            Some(text) => Ok(Data::Announcement((id, text))),
            None => Err(DecodeError::InvalidUtf8),
        }
    } else if tag == 2 {
        if *pos >= bytes.len() {
            return Err(DecodeError::UnexpectedEnd);
        }
        let b = bytes[*pos];
        *pos += 1;
        if b == 0 {
            Ok(Data::FreeWeekend(FreeWeekendState::NotFree))
        } else if b == 1 {
            Ok(Data::FreeWeekend(FreeWeekendState::FreeMIRA))
        } else if b == 2 {
            Ok(Data::FreeWeekend(FreeWeekendState::Free))
        } else {
            Err(DecodeError::InvalidFreeWeekendState)
        }
    } else {
        Err(DecodeError::InvalidDataTag)
    }
}

/// Decodes data records from `bytes` at `*pos` until the bytes run out.
pub fn read_data(bytes: &[u8], pos: &mut usize) -> (r: Result<Vec<Data>, DecodeError>)
    requires
        *old(pos) <= bytes@.len(),
    ensures
        *old(pos) <= *final(pos) <= bytes@.len(),
        match r {
            Ok(v) => spec_read_data_from(bytes@, *old(pos) as int) == Ok::<
                Seq<DataView>,
                DecodeError,
            >(view_of_datas(v@)),
            Err(e) => spec_read_data_from(bytes@, *old(pos) as int) == Err::<
                Seq<DataView>,
                DecodeError,
            >(e),
        },
{
    let mut out: Vec<Data> = Vec::new();
    loop
        invariant
            *old(pos) <= *pos <= bytes@.len(),
            match spec_read_data_from(bytes@, *pos as int) {
                Ok(rest) => spec_read_data_from(bytes@, *old(pos) as int) == Ok::<
                    Seq<DataView>,
                    DecodeError,
                >(view_of_datas(out@) + rest),
                Err(e) => spec_read_data_from(bytes@, *old(pos) as int) == Err::<
                    Seq<DataView>,
                    DecodeError,
                >(e),
            },
        decreases bytes@.len() - *pos,
    {
        if *pos == bytes.len() {
            proof {
                assert(view_of_datas(out@) + Seq::<DataView>::empty() =~= view_of_datas(out@));
            }
            return Ok(out);
        }
        let ghost pos_here = *pos as int;
        let d = match read_record(bytes, pos) {
            Ok(d) => d,
            Err(e) => {
                return Err(e);
            },
        };
        proof {
            lemma_read_record_advances(bytes@, pos_here);
            assert(view_of_datas(out@.push(d)) =~= view_of_datas(out@) + seq![d@]);
            match spec_read_data_from(bytes@, *pos as int) {
                Ok(rest) => {
                    assert((view_of_datas(out@) + seq![d@]) + rest =~= view_of_datas(out@) + (seq![
                        d@,
                    ] + rest));
                },
                Err(_) => {},
            }
        }
        out.push(d);
    }
}

/// Encodes one data record onto `out`.
fn write_record(value: &Data, out: &mut Vec<u8>)
    ensures
        final(out)@ == old(out)@ + spec_write_data_one(value@),
{
    let ghost orig = out@;
    match value {
        Data::CacheAnnouncement => {
            out.push(0);
            write_u16_le(0, out);
            assert(out@ =~= orig + spec_write_data_one(value@));
        },
        Data::Announcement((id, text)) => {
            let ghost vid = spec_varint(*id as nat);
            let mut payload: Vec<u8> = Vec::new();
            write_packed(*id, &mut payload);
            let tb = text.as_str().as_bytes();
            assert(tb@ == encode_utf8(text@));
            let len32: u32 = ((tb.len() as u64) % 0x1_0000_0000) as u32;
            proof {
                assert(len32 as nat == tb@.len() % 0x1_0000_0000);
            }
            write_packed(len32, &mut payload);
            let mut tv = slice_to_vec(tb);
            payload.append(&mut tv);
            assert(payload@ =~= spec_announce_payload(*id, text@));
            out.push(1);
            let plen: u16 = ((payload.len() as u64) % 0x1_0000) as u16;
            write_u16_le(plen, out);
            out.append(&mut payload);
            assert(out@ =~= orig + spec_write_data_one(value@));
        },
        Data::FreeWeekend(w) => {
            out.push(2);
            write_u16_le(1, out);
            let b: u8 = match w {
                FreeWeekendState::NotFree => 0,
                FreeWeekendState::FreeMIRA => 1,
                FreeWeekendState::Free => 2,
            };
            out.push(b);
            assert(out@ =~= orig + spec_write_data_one(value@));
        },
    }
}

/// Appending a record to a sequence appends its encoding to the wire bytes.
proof fn lemma_write_data_snoc(s: Seq<DataView>, d: DataView)
    ensures
        spec_write_data(s.push(d)) == spec_write_data(s) + spec_write_data_one(d),
    decreases s.len(),
{
    let e = Seq::<DataView>::empty();
    if s.len() == 0 {
        assert(s.push(d)[0] == d);
        assert(s.push(d).drop_first() =~= e);
        assert(spec_write_data(e) == Seq::<u8>::empty());
        assert(spec_write_data(s.push(d)) == spec_write_data_one(d) + Seq::<u8>::empty());
        assert(s =~= e);
        assert(spec_write_data_one(d) + Seq::<u8>::empty() =~= spec_write_data(s)
            + spec_write_data_one(d));
    } else {
        let t = s.drop_first();
        assert(s.push(d)[0] == s[0]);
        assert(s.push(d).drop_first() =~= t.push(d));
        lemma_write_data_snoc(t, d);
        assert(spec_write_data(s.push(d)) == spec_write_data_one(s[0]) + (spec_write_data(t)
            + spec_write_data_one(d)));
        assert(spec_write_data_one(s[0]) + (spec_write_data(t) + spec_write_data_one(d))
            =~= (spec_write_data_one(s[0]) + spec_write_data(t)) + spec_write_data_one(d));
    }
}

/// Encodes a record sequence onto `out`: the concatenation of the records'
/// encodings, in order.
pub fn write_data(value: &Vec<Data>, out: &mut Vec<u8>)
    ensures
        final(out)@ == old(out)@ + spec_write_data(view_of_datas(value@)),
{
    let ghost orig = out@;
    let mut i: usize = 0;
    while i < value.len()
        invariant
            i <= value@.len(),
            out@ == orig + spec_write_data(view_of_datas(value@.take(i as int))),
        decreases value@.len() - i,
    {
        let ghost before = view_of_datas(value@.take(i as int));
        write_record(&value[i], out);
        proof {
            assert(view_of_datas(value@.take(i + 1)) =~= before.push(value@[i as int]@));
            lemma_write_data_snoc(before, value@[i as int]@);
            assert(out@ =~= orig + spec_write_data(view_of_datas(value@.take(i + 1))));
        }
        i += 1;
    }
    proof {
        assert(value@.take(value@.len() as int) =~= value@);
    }
}

/// Whether a record can be reproduced from its own encoding: announcement
/// text must not exceed the 32-bit byte count the wire format carries.
pub open spec fn data_valid(d: DataView) -> bool {
    match d {
        DataView::Announcement(id, text) => encode_utf8(text).len() < 0x1_0000_0000,
        _ => true,
    }
}

/// Reading a data record back from where its encoding stands gives the
/// record it was written from.
pub proof fn lemma_read_record_at(s: Seq<u8>, pos: int, d: DataView)
    requires
        0 <= pos,
        data_valid(d),
        pos + spec_write_data_one(d).len() <= s.len(),
        s.subrange(pos, pos + spec_write_data_one(d).len()) == spec_write_data_one(d),
    ensures
        spec_read_record(s, pos) == Ok::<(DataView, int), DecodeError>(
            (d, pos + spec_write_data_one(d).len()),
        ),
{
    let enc = spec_write_data_one(d);
    assert(s[pos] == enc[0]);
    match d {
        DataView::CacheAnnouncement => {},
        DataView::Announcement(id, text) => {
            let tb = encode_utf8(text);
            let vid = spec_varint(id as nat);
            let vlen = spec_varint((tb.len() % 0x1_0000_0000) as nat);
            let nid = vid.len() as int;
            let nlen = vlen.len() as int;
            let blen = tb.len() as int;
            assert(tb.len() % 0x1_0000_0000 == tb.len());
            crate::wire::lemma_subrange_at(s, pos, enc, 3, 3 + nid);
            assert(enc.subrange(3, 3 + nid) =~= vid);
            crate::varint::lemma_read_varint_at(s, pos + 3, id);
            let p1 = pos + 3 + nid;
            crate::wire::lemma_subrange_at(s, pos, enc, 3 + nid, 3 + nid + nlen);
            assert(enc.subrange(3 + nid, 3 + nid + nlen) =~= vlen);
            let len32 = tb.len() as u32;
            assert(len32 as nat == tb.len());
            crate::varint::lemma_read_varint_at(s, p1, len32);
            let p2 = p1 + nlen;
            crate::wire::lemma_subrange_at(s, pos, enc, 3 + nid + nlen, enc.len() as int);
            assert(enc.subrange(3 + nid + nlen, enc.len() as int) =~= tb);
            assert(s.subrange(p2, p2 + blen) == tb);
            vstd::utf8::encode_utf8_valid_utf8(text);
            vstd::utf8::encode_utf8_decode_utf8(text);
        },
        DataView::FreeWeekend(w) => {
            assert(s[pos + 3] == enc[3]);
            assert(enc[3] == spec_state_byte(w));
        },
    }
}

/// Wire bytes that are exactly the encoding of a record sequence decode
/// back to that sequence.
pub proof fn lemma_read_data_at(s: Seq<u8>, pos: int, records: Seq<DataView>)
    requires
        0 <= pos <= s.len(),
        forall|i: int| 0 <= i < records.len() ==> data_valid(#[trigger] records[i]),
        s.subrange(pos, s.len() as int) == spec_write_data(records),
    ensures
        spec_read_data_from(s, pos) == Ok::<Seq<DataView>, DecodeError>(records),
    decreases records.len(),
{
    if records.len() == 0 {
        assert(pos == s.len());
        assert(records =~= Seq::<DataView>::empty());
    } else {
        let d = records[0];
        let whole = spec_write_data(records);
        let enc1 = spec_write_data_one(d);
        let rest = spec_write_data(records.drop_first());
        assert(whole == enc1 + rest);
        let n1 = enc1.len() as int;
        assert(n1 >= 3);
        assert(pos < s.len());
        crate::wire::lemma_subrange_at(s, pos, whole, 0, n1);
        assert(whole.subrange(0, n1) =~= enc1);
        lemma_read_record_at(s, pos, d);
        crate::wire::lemma_subrange_at(s, pos, whole, n1, whole.len() as int);
        assert(whole.subrange(n1, whole.len() as int) =~= rest);
        assert(s.subrange(pos + n1, s.len() as int) == rest);
        assert(forall|i: int|
            0 <= i < records.drop_first().len() ==> data_valid(
                #[trigger] records.drop_first()[i],
            )) by {
            assert(forall|i: int|
                0 <= i < records.drop_first().len() ==> records.drop_first()[i] == #[trigger]
                records[i + 1]);
        }
        lemma_read_data_at(s, pos + n1, records.drop_first());
        assert(seq![d] + records.drop_first() =~= records);
    }
}

/// A record sequence decodes back from its own encoding: the data-record
/// round trip.
pub proof fn lemma_data_round_trip(records: Seq<DataView>)
    requires
        forall|i: int| 0 <= i < records.len() ==> data_valid(#[trigger] records[i]),
    ensures
        spec_read_data_from(spec_write_data(records), 0) == Ok::<Seq<DataView>, DecodeError>(
            records,
        ),
{
    let s = spec_write_data(records);
    assert(s.subrange(0, s.len() as int) =~= s);
    lemma_read_data_at(s, 0, records);
}

} // verus!
