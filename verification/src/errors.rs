use vstd::prelude::*;

verus! {

/// Why a decode of wire bytes failed.
///
/// `UnexpectedEnd` stands for exhaustion of the byte source in the middle of
/// a field; the remaining variants classify structurally invalid data.
#[derive(Clone, Copy, Debug, PartialEq, Eq, Structural)]
pub enum DecodeError {
    /// The byte source ran out before a complete field was read.
    UnexpectedEnd,
    /// A variable-length integer carried a continuation flag past the
    /// five-byte limit that a 32-bit value allows.
    MalformedVarint,
    /// A data record carried a tag other than the three known ones.
    InvalidDataTag,
    /// A free-weekend record carried a state byte other than 0, 1 or 2.
    InvalidFreeWeekendState,
    /// An announcement record declared more text bytes than remain.
    InvalidStringLength,
    /// Announcement text bytes were not valid UTF-8.
    InvalidUtf8,
    /// The packet opcode was not one of the six known ones.
    InvalidOpcode,
}

} // verus!
