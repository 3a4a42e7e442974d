//! The codec's error taxonomy. Frame-structural and addressing errors are
//! connection-fatal for a session; payload errors too. Every variant carries
//! what a caller needs to log or to reject the frame.
use vstd::prelude::*;

use crate::protocol::Category;

verus! {

/// Why raw bytes could not be read as a serialized value.
#[derive(Clone, Copy, Debug, PartialEq, Eq, Structural)]
pub enum MsgpackError {
    /// The input ended before the value did.
    Truncated,
    /// A marker that cannot begin the expected value.
    TypeMismatch { marker: u8 },
}

/// Why a whole inbound frame was rejected.
#[derive(Clone, Copy, Debug, PartialEq, Eq, Structural)]
pub enum PacketDecodeError {
    /// The outer frame is not a two-element sequence.
    InvalidStructure,
    /// The category is known but the opcode is not a member of it.
    UnknownOpcode { category: Category, opcode: u16 },
    /// The address's high half names no known category.
    UnknownCategory { given_category: u16 },
    /// A required payload field is missing or of the wrong wire type.
    InvalidPayload { category: Category, opcode: u16 },
    /// The raw serialization itself could not be read.
    Msgpack(MsgpackError),
}

/// Why a packet of one known category was rejected, before the category is
/// attached to the error.
#[derive(Clone, Copy, Debug, PartialEq, Eq, Structural)]
pub enum PacketCategoryDecodeError<Opcode> {
    /// The opcode is not a member of this category.
    UnknownOpcode { opcode: u16 },
    /// The opcode is known but its payload does not validate.
    InvalidPayload { opcode: Opcode },
}

/// Why an opcode's payload was rejected.
#[derive(Clone, Copy, Debug, PartialEq, Eq, Structural)]
pub enum PayloadDecodeError {
    /// A required field is missing, mistyped, or the record is malformed.
    InvalidPayload,
}

/// Why an outbound packet could not be written.
#[derive(Clone, Copy, Debug, PartialEq, Eq, Structural)]
pub enum EncodeError {
    /// A field's bytes exceed what a wire length header can announce.
    ValueTooLong,
}

impl PacketDecodeError {
    /// Attaches the category to a category-local error.
    pub fn from_category<Opcode>(
        category: Category,
        err: PacketCategoryDecodeError<Opcode>,
        raw_opcode: u16,
    ) -> (r: PacketDecodeError)
        ensures
            r == match err {
                PacketCategoryDecodeError::UnknownOpcode { opcode } =>
                    PacketDecodeError::UnknownOpcode { category, opcode },
                PacketCategoryDecodeError::InvalidPayload { opcode: _ } =>
                    PacketDecodeError::InvalidPayload { category, opcode: raw_opcode },
            },
    {
        match err {
            PacketCategoryDecodeError::UnknownOpcode { opcode } => PacketDecodeError::UnknownOpcode {
                category,
                opcode,
            },
            PacketCategoryDecodeError::InvalidPayload { opcode: _ } => PacketDecodeError::InvalidPayload {
                category,
                opcode: raw_opcode,
            },
        }
    }
}

} // verus!
