//! Datagrams: one opcode byte, then a bit-packed payload.
//!
//! | opcode | message     | payload                                            |
//! |--------|-------------|----------------------------------------------------|
//! | 0      | actor join  | name reference, 16 bits                            |
//! | 1      | actor leave | actor id, 16 bits, not zero                        |
//! | 2      | input batch | actor id, 16 bits; newest frame, 32 bits; count, 8 bits; `count` commands of 32 bits |
//!
//! Signed fields are in two's complement. Bits after the payload are ignored.

use super::actor_ids::ActorId;
use crate::shared::bits::BitReader;
use crate::shared::bitseq::{bits_value, byte_bits, lemma_bits_value_bound};
use crate::shared::types::{FrameId, SimCommand};
use vstd::arithmetic::power2::lemma2_to64;
use vstd::prelude::*;
use vstd::slice::slice_subrange;

verus! {

/// Opcode of an actor join.
pub const OPCODE_ACTOR_JOIN: u8 = 0;

/// Opcode of an actor leave.
pub const OPCODE_ACTOR_LEAVE: u8 = 1;

/// Opcode of an input batch.
pub const OPCODE_INPUT_BATCH: u8 = 2;

/// Why a datagram was dropped.
#[derive(Debug, Clone, Copy, PartialEq, Eq, Structural)]
pub enum RouterError {
    /// The datagram ends before its message does.
    TruncatedPacket,
    /// The first byte is no known opcode.
    UnknownOpcode,
    /// A field holds a value that it may not hold.
    MalformedPayload,
}

/// A message from a client.
#[derive(Debug)]
pub enum Message {
    /// A client asks to join under a name reference.
    ActorJoin { name: u16 },
    /// The actor leaves.
    ActorLeave { actor: ActorId },
    /// The actor's commands for the consecutive frames that end at
    /// `most_recent`.
    InputBatch { actor: ActorId, most_recent: FrameId, commands: Vec<SimCommand> },
}

/// A message as plain values.
pub enum MessageView {
    ActorJoin { name: u16 },
    ActorLeave { actor: i16 },
    InputBatch { actor: i16, most_recent: FrameId, commands: Seq<SimCommand> },
}

impl View for Message {
    type V = MessageView;

    open spec fn view(&self) -> MessageView {
        match *self {
            Message::ActorJoin { name } => MessageView::ActorJoin { name },
            Message::ActorLeave { actor } => MessageView::ActorLeave { actor: actor@ },
            Message::InputBatch { actor, most_recent, commands } => MessageView::InputBatch {
                actor: actor@,
                most_recent,
                commands: commands@,
            },
        }
    }
}

/// The number that the `width` bits from `offset` on spell.
pub open spec fn field(bits: Seq<bool>, offset: int, width: int) -> nat {
    bits_value(bits.subrange(offset, offset + width))
}

/// A 16-bit pattern read as two's complement.
pub open spec fn signed16(raw: nat) -> int {
    if raw < 0x8000 {
        raw as int
    } else {
        raw - 0x1_0000
    }
}

/// A 32-bit pattern read as two's complement.
pub open spec fn signed32(raw: nat) -> int {
    if raw < 0x8000_0000 {
        raw as int
    } else {
        raw - 0x1_0000_0000
    }
}

/// The command that stands at place `index` of an input batch.
pub open spec fn batch_command(bits: Seq<bool>, index: int) -> SimCommand {
    SimCommand { buttons: signed32(field(bits, 56 + 32 * index, 32)) as i32 }
}

/// What the payload of an actor join says.
pub open spec fn decode_join(bits: Seq<bool>) -> Result<MessageView, RouterError> {
    if bits.len() < 16 {
        Err(RouterError::TruncatedPacket)
    } else {
        Ok(MessageView::ActorJoin { name: field(bits, 0, 16) as u16 })
    }
}

/// What the payload of an actor leave says.
pub open spec fn decode_leave(bits: Seq<bool>) -> Result<MessageView, RouterError> {
    if bits.len() < 16 {
        Err(RouterError::TruncatedPacket)
    } else if field(bits, 0, 16) == 0 {
        Err(RouterError::MalformedPayload)
    } else {
        Ok(MessageView::ActorLeave { actor: signed16(field(bits, 0, 16)) as i16 })
    }
}

/// What the payload of an input batch says.
pub open spec fn decode_batch(bits: Seq<bool>) -> Result<MessageView, RouterError> {
    if bits.len() < 16 {
        Err(RouterError::TruncatedPacket)
    } else if field(bits, 0, 16) == 0 {
        Err(RouterError::MalformedPayload)
    } else if bits.len() < 56 + 32 * field(bits, 48, 8) {
        Err(RouterError::TruncatedPacket)
    } else {
        Ok(
            MessageView::InputBatch {
                actor: signed16(field(bits, 0, 16)) as i16,
                most_recent: signed32(field(bits, 16, 32)) as i32,
                commands: Seq::new(field(bits, 48, 8), |index: int| batch_command(bits, index)),
            },
        )
    }
}

/// What a datagram says.
pub open spec fn decode(datagram: Seq<u8>) -> Result<MessageView, RouterError> {
    if datagram.len() == 0 {
        Err(RouterError::TruncatedPacket)
    } else if datagram[0] == OPCODE_ACTOR_JOIN {
        decode_join(byte_bits(datagram.skip(1)))
    } else if datagram[0] == OPCODE_ACTOR_LEAVE {
        decode_leave(byte_bits(datagram.skip(1)))
    } else if datagram[0] == OPCODE_INPUT_BATCH {
        decode_batch(byte_bits(datagram.skip(1)))
    } else {
        Err(RouterError::UnknownOpcode)
    }
}

/// Reads a 16-bit field.
fn read_u16(reader: &mut BitReader) -> (result: Result<u16, RouterError>)
    requires
        old(reader).wf(),
    ensures
        final(reader).wf(),
        final(reader).source() == old(reader).source(),
        match result {
            Ok(value) => {
                &&& 16 <= old(reader).remaining()
                &&& value == old(reader).upcoming(16)
                &&& final(reader).position() == old(reader).position() + 16
            },
            Err(error) => {
                &&& old(reader).remaining() < 16
                &&& error == RouterError::TruncatedPacket
                &&& final(reader).position() == old(reader).position()
            },
        },
{
    match reader.read_bits(16) {
        Ok(value) => {
            proof {
                lemma_bits_value_bound(
                    byte_bits(old(reader).source()).subrange(
                        old(reader).position() as int,
                        old(reader).position() as int + 16,
                    ),
                );
                lemma2_to64();
            }
            Ok(value as u16)
        },
        Err(_) => Err(RouterError::TruncatedPacket),
    }
}

/// Reads a 32-bit field as two's complement.
fn read_i32(reader: &mut BitReader) -> (result: Result<i32, RouterError>)
    requires
        old(reader).wf(),
    ensures
        final(reader).wf(),
        final(reader).source() == old(reader).source(),
        match result {
            Ok(value) => {
                &&& 32 <= old(reader).remaining()
                &&& value == signed32(old(reader).upcoming(32))
                &&& final(reader).position() == old(reader).position() + 32
            },
            Err(error) => {
                &&& old(reader).remaining() < 32
                &&& error == RouterError::TruncatedPacket
                &&& final(reader).position() == old(reader).position()
            },
        },
{
    match reader.read_bits(32) {
        Ok(value) => {
            if value < 0x8000_0000 {
                Ok(value as i32)
            } else {
                Ok((value as i64 - 0x1_0000_0000) as i32)
            }
        },
        Err(_) => Err(RouterError::TruncatedPacket),
    }
}

/// Reads a 16-bit field as an actor id.
fn read_actor(reader: &mut BitReader) -> (result: Result<ActorId, RouterError>)
    requires
        old(reader).wf(),
    ensures
        final(reader).wf(),
        final(reader).source() == old(reader).source(),
        match result {
            Ok(id) => {
                &&& 16 <= old(reader).remaining()
                &&& old(reader).upcoming(16) != 0
                &&& id@ == signed16(old(reader).upcoming(16))
                &&& final(reader).position() == old(reader).position() + 16
            },
            Err(error) => error == if old(reader).remaining() < 16 {
                RouterError::TruncatedPacket
            } else {
                RouterError::MalformedPayload
            } && (old(reader).remaining() < 16 || old(reader).upcoming(16) == 0),
        },
{
    let raw = match read_u16(reader) {
        Ok(raw) => raw,
        Err(error) => {
            return Err(error);
        },
    };
    let value: i16 = if raw < 0x8000 {
        raw as i16
    } else {
        (raw as i32 - 0x1_0000) as i16
    };
    match ActorId::new(value) {
        Some(id) => Ok(id),
        None => Err(RouterError::MalformedPayload),
    }
}

/// Reads the payload of an input batch.
fn parse_batch(reader: &mut BitReader) -> (result: Result<Message, RouterError>)
    requires
        old(reader).wf(),
        old(reader).position() == 0,
    ensures
        match result {
            Ok(message) => decode_batch(byte_bits(old(reader).source())) == Ok::<
                MessageView,
                RouterError,
            >(message@),
            Err(error) => decode_batch(byte_bits(old(reader).source())) == Err::<
                MessageView,
                RouterError,
            >(error),
        },
{
    let ghost bits = byte_bits(reader.source());
    let actor = match read_actor(reader) {
        Ok(actor) => actor,
        Err(error) => {
            return Err(error);
        },
    };
    let most_recent = match read_i32(reader) {
        Ok(frame) => frame,
        Err(error) => {
            return Err(error);
        },
    };
    let count = match reader.read_byte() {
        Ok(count) => count,
        Err(_) => {
            return Err(RouterError::TruncatedPacket);
        },
    };
    let mut commands: Vec<SimCommand> = Vec::with_capacity(count as usize);
    let mut index: u8 = 0;
    while index < count
        invariant
            reader.wf(),
            reader.source() == old(reader).source(),
            bits == byte_bits(reader.source()),
            index <= count,
            count == field(bits, 48, 8),
            field(bits, 0, 16) != 0,
            reader.position() == 56 + 32 * index,
            reader.position() <= bits.len(),
            commands@.len() == index,
            forall|k: int| 0 <= k < index ==> commands@[k] == batch_command(bits, k),
        decreases count - index,
    {
        let buttons = match read_i32(reader) {
            Ok(buttons) => buttons,
            Err(error) => {
                return Err(error);
            },
        };
        commands.push(SimCommand { buttons });
        index = index + 1;
    }
    proof {
        assert(commands@ =~= Seq::new(
            field(bits, 48, 8),
            |index: int| batch_command(bits, index),
        ));
    }
    Ok(Message::InputBatch { actor, most_recent, commands })
}

/// Parses one datagram.
///
/// A datagram that is empty or ends too early is truncated; a first byte
/// above 2 is an unknown opcode; an actor id of zero is malformed. Fields
/// are read in order, and the first fault met decides.
pub fn parse(datagram: &[u8]) -> (result: Result<Message, RouterError>)
    ensures
        match result {
            Ok(message) => decode(datagram@) == Ok::<MessageView, RouterError>(message@),
            Err(error) => decode(datagram@) == Err::<MessageView, RouterError>(error),
        },
{
    if datagram.len() == 0 {
        return Err(RouterError::TruncatedPacket);
    }
    let opcode = datagram[0];
    let payload = slice_subrange(datagram, 1, datagram.len());
    proof {
        assert(payload@ =~= datagram@.skip(1));
    }
    let mut reader = BitReader::new(payload);
    if opcode == OPCODE_ACTOR_JOIN {
        match read_u16(&mut reader) {
            Ok(name) => Ok(Message::ActorJoin { name }),
            Err(error) => Err(error),
        }
    } else if opcode == OPCODE_ACTOR_LEAVE {
        match read_actor(&mut reader) {
            Ok(actor) => Ok(Message::ActorLeave { actor }),
            Err(error) => Err(error),
        }
    } else if opcode == OPCODE_INPUT_BATCH {
        parse_batch(&mut reader)
    } else {
        Err(RouterError::UnknownOpcode)
    }
}

} // verus!
