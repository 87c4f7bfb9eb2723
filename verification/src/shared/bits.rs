//! Bit-level writer and reader over byte buffers.
//!
//! Values are packed most significant bit first, one after another, with no
//! alignment between them.

use super::bitreg::{fits, lemma_bits_of_zero, lemma_fits_pow2, lemma_shift_in, lemma_split};
use super::bitseq::{
    bits_of, bits_value, byte_bits, lemma_bits_of_len, lemma_bits_value_bound,
    lemma_bits_value_of, lemma_byte_bits_at, lemma_byte_bits_injective, lemma_byte_bits_push,
    lemma_byte_bits_take, zero_bits,
};
use vstd::arithmetic::power2::{lemma2_to64, pow2};
use vstd::prelude::*;

verus! {

/// Why a codec operation was refused.
#[derive(Debug, Clone, Copy, PartialEq, Eq, Structural)]
pub enum Error {
    /// The buffer has too few bits left.
    OutOfMemory,
    /// The bit count is outside `1..=32`.
    InvalidArgument,
    /// The value does not fit in the given number of bits.
    ValueOutOfBounds,
}

/// Packs values into a borrowed byte buffer.
///
/// Bits first collect in a scratch register; whole bytes move from its top to
/// the buffer once it holds more than 32 bits, and on `flush`.
pub struct BitWriter<'a> {
    dest: &'a mut [u8],
    cursor: usize,
    scratch: u64,
    scratch_bits: u64,
}

impl<'a> BitWriter<'a> {
    /// The destination buffer as it stands now.
    pub closed spec fn buffer(&self) -> Seq<u8> {
        (*self.dest)@
    }

    /// How many bytes at the front of the buffer have been emitted.
    pub closed spec fn committed(&self) -> nat {
        self.cursor as nat
    }

    /// The scratch register.
    pub closed spec fn pending(&self) -> u64 {
        self.scratch
    }

    /// How many bits the scratch register holds.
    pub closed spec fn pending_bits(&self) -> nat {
        self.scratch_bits as nat
    }

    /// Every bit written so far, in wire order: the emitted bytes, then the
    /// bits still held in the scratch register.
    pub open spec fn stream(&self) -> Seq<bool> {
        byte_bits(self.buffer().take(self.committed() as int)) + bits_of(
            self.pending() as nat,
            self.pending_bits(),
        )
    }

    /// The number of bits that can still be written.
    pub open spec fn room(&self) -> int {
        8 * self.buffer().len() - 8 * self.committed() - self.pending_bits()
    }

    /// The scratch register holds at most `limit` bits, all of which still
    /// have room in the buffer.
    pub open spec fn holds_at_most(&self, limit: nat) -> bool {
        &&& self.pending_bits() <= limit
        &&& fits(self.pending(), self.pending_bits())
        &&& self.room() >= 0
        &&& 8 * self.buffer().len() <= i64::MAX
    }

    /// The writer's invariant: between calls the scratch register holds at
    /// most 32 bits.
    pub open spec fn wf(&self) -> bool {
        self.holds_at_most(32)
    }

    /// What `write_bits` answers, given the room left in the buffer.
    pub open spec fn write_verdict(room: int, value: u32, bits: i32) -> Result<(), Error> {
        if bits < 1 || bits > 32 {
            Err(Error::InvalidArgument)
        } else if value >= pow2(bits as nat) {
            Err(Error::ValueOutOfBounds)
        } else if room < bits {
            Err(Error::OutOfMemory)
        } else {
            Ok(())
        }
    }

    /// How many bytes leave a scratch register that holds `held` bits, so
    /// that at most 32 stay.
    pub open spec fn spill(held: int) -> int {
        if held > 32 {
            (held - 25) / 8
        } else {
            0
        }
    }

    /// The bits that `flush` adds to a stream of `len` bits to end it on a
    /// byte boundary.
    pub open spec fn padding(len: int) -> nat {
        ((8 - len % 8) % 8) as nat
    }

    /// `other` differs from `self` at most in buffer bytes `from..to`.
    pub open spec fn same_outside(&self, other: &Self, from: int, to: int) -> bool {
        &&& self.buffer().len() == other.buffer().len()
        &&& forall|i: int|
            0 <= i < self.buffer().len() && !(from <= i < to) ==> self.buffer()[i]
                == other.buffer()[i]
    }

    /// Nothing of the writer's state differs between `self` and `other`.
    pub open spec fn same_state(&self, other: &Self) -> bool {
        &&& self.buffer() == other.buffer()
        &&& self.committed() == other.committed()
        &&& self.pending() == other.pending()
        &&& self.pending_bits() == other.pending_bits()
    }

    /// A writer at the start of `dest`.
    pub fn new(dest: &'a mut [u8]) -> (writer: BitWriter<'a>)
        requires
            8 * old(dest)@.len() <= i64::MAX,
        ensures
            writer.wf(),
            writer.buffer() == old(dest)@,
            writer.committed() == 0,
            writer.pending_bits() == 0,
            writer.pending() == 0,
            writer.stream() == Seq::<bool>::empty(),
    {
        let writer = BitWriter { dest, cursor: 0, scratch: 0, scratch_bits: 0 };
        proof {
            assert(0u64 >> 0u64 == 0) by (bit_vector);
            assert(writer.stream() =~= Seq::<bool>::empty());
        }
        writer
    }

    /// Moves the top eight bits of the scratch register to the buffer.
    fn emit_byte(&mut self)
        requires
            old(self).holds_at_most(64),
            old(self).pending_bits() >= 8,
        ensures
            final(self).holds_at_most(64),
            final(self).pending_bits() == old(self).pending_bits() - 8,
            final(self).committed() == old(self).committed() + 1,
            final(self).stream() == old(self).stream(),
            final(self).same_outside(
                old(self),
                old(self).committed() as int,
                old(self).committed() as int + 1,
            ),
    {
        let offset: u64 = self.scratch_bits - 8;
        let wide: u64 = self.scratch >> offset;
        proof {
            lemma_split(self.scratch, self.scratch_bits as nat, 8);
            assert(wide < 256) by (bit_vector)
                requires
                    wide >> 8 == 0,
            ;
        }
        let byte: u8 = wide as u8;
        let ghost before = self.buffer().take(self.cursor as int);
        self.dest[self.cursor] = byte;
        self.cursor = self.cursor + 1;
        self.scratch = self.scratch & ((1u64 << offset) - 1);
        self.scratch_bits = offset;
        proof {
            assert(self.buffer().take(self.cursor as int) =~= before.push(byte));
            lemma_byte_bits_push(before, byte);
            assert(self.stream() =~= old(self).stream());
        }
    }

    /// Appends the `bits` low bits of `value` to the stream, most significant
    /// first.
    ///
    /// Refused, with the writer untouched, when `bits` is outside `1..=32`,
    /// when `value` needs more than `bits` bits, or when fewer than `bits`
    /// bits of room are left.
    pub fn write_bits(&mut self, value: u32, bits: i32) -> (result: Result<(), Error>)
        requires
            old(self).wf(),
        ensures
            final(self).wf(),
            result == Self::write_verdict(old(self).room(), value, bits),
            result is Err ==> final(self).same_state(old(self)),
            result is Ok ==> {
                &&& final(self).stream() == old(self).stream() + bits_of(
                    value as nat,
                    bits as nat,
                )
                &&& final(self).committed() == old(self).committed() + Self::spill(
                    old(self).pending_bits() + bits,
                )
                &&& final(self).pending_bits() == old(self).pending_bits() + bits - 8
                    * Self::spill(old(self).pending_bits() + bits)
                &&& final(self).room() == old(self).room() - bits
                &&& final(self).same_outside(
                    old(self),
                    old(self).committed() as int,
                    final(self).committed() as int,
                )
            },
    {
        if bits < 1 || bits > 32 {
            return Err(Error::InvalidArgument);
        }
        let count: u64 = bits as u64;
        let wide: u64 = value as u64;
        proof {
            lemma_fits_pow2(wide, count as nat);
        }
        if wide >> count != 0 {
            return Err(Error::ValueOutOfBounds);
        }
        if self.available_bits() < bits as i64 {
            return Err(Error::OutOfMemory);
        }
        proof {
            lemma_shift_in(self.scratch, self.scratch_bits as nat, wide, count as nat);
        }
        self.scratch = (self.scratch << count) | wide;
        self.scratch_bits = self.scratch_bits + count;
        let ghost target = old(self).stream() + bits_of(value as nat, bits as nat);
        let ghost held = old(self).pending_bits() + bits;
        assert(self.stream() =~= target);
        while self.scratch_bits > 32
            invariant
                self.holds_at_most(64),
                self.stream() == target,
                self.same_outside(old(self), old(self).committed() as int, self.committed() as int),
                self.committed() >= old(self).committed(),
                self.pending_bits() + 8 * (self.committed() - old(self).committed()) == held,
                32 < held <= 64 || self.committed() == old(self).committed(),
                self.pending_bits() > 24 || self.committed() == old(self).committed(),
            decreases self.pending_bits(),
        {
            self.emit_byte();
        }
        Ok(())
    }

    /// Appends the eight bits of `value` to the stream.
    pub fn write_byte(&mut self, value: u8) -> (result: Result<(), Error>)
        requires
            old(self).wf(),
        ensures
            final(self).wf(),
            result == if old(self).room() < 8 {
                Err::<(), Error>(Error::OutOfMemory)
            } else {
                Ok::<(), Error>(())
            },
            result is Err ==> final(self).same_state(old(self)),
            result is Ok ==> {
                &&& final(self).stream() == old(self).stream() + bits_of(value as nat, 8)
                &&& final(self).committed() == old(self).committed() + Self::spill(
                    old(self).pending_bits() as int + 8,
                )
                &&& final(self).pending_bits() == old(self).pending_bits() + 8 - 8 * Self::spill(
                    old(self).pending_bits() as int + 8,
                )
                &&& final(self).room() == old(self).room() - 8
                &&& final(self).same_outside(
                    old(self),
                    old(self).committed() as int,
                    final(self).committed() as int,
                )
            },
    {
        proof {
            lemma2_to64();
        }
        self.write_bits(value as u32, 8)
    }

    /// Ends the stream on a byte boundary and moves all of it to the buffer.
    ///
    /// Whole bytes leave the scratch register first; a last partial byte is
    /// filled up with zero bits on the right. A second `flush` changes
    /// nothing.
    pub fn flush(&mut self)
        requires
            old(self).wf(),
        ensures
            final(self).wf(),
            final(self).pending_bits() == 0,
            final(self).pending() == 0,
            final(self).stream() == old(self).stream() + zero_bits(
                Self::padding(old(self).stream().len() as int),
            ),
            final(self).stream() == byte_bits(
                final(self).buffer().take(final(self).committed() as int),
            ),
            8 * final(self).committed() == final(self).stream().len(),
            final(self).committed() == old(self).committed() + (old(self).pending_bits() + 7) / 8,
            final(self).same_outside(
                old(self),
                old(self).committed() as int,
                final(self).committed() as int,
            ),
            old(self).pending_bits() == 0 ==> final(self).same_state(old(self)),
    {
        proof {
            lemma_bits_of_len(self.pending() as nat, self.pending_bits());
        }
        while self.scratch_bits >= 8
            invariant
                self.wf(),
                self.stream() == old(self).stream(),
                self.same_outside(old(self), old(self).committed() as int, self.committed() as int),
                self.committed() >= old(self).committed(),
                8 * self.committed() + self.pending_bits() == old(self).stream().len(),
                self.committed() == old(self).committed() ==> self.same_state(old(self)),
            decreases self.pending_bits(),
        {
            self.emit_byte();
        }
        if self.scratch_bits > 0 {
            let shift: u64 = 8 - self.scratch_bits;
            let wide: u64 = self.scratch << shift;
            proof {
                assert(0u64 >> shift == 0) by (bit_vector);
                lemma_shift_in(self.scratch, self.scratch_bits as nat, 0, shift as nat);
                lemma_bits_of_zero(shift as nat);
                assert(wide | 0 == wide) by (bit_vector);
                assert(wide < 256) by (bit_vector)
                    requires
                        wide >> 8 == 0,
                ;
            }
            let byte: u8 = wide as u8;
            let ghost before = self.buffer().take(self.cursor as int);
            self.dest[self.cursor] = byte;
            self.cursor = self.cursor + 1;
            self.scratch = 0;
            self.scratch_bits = 0;
            proof {
                assert(self.buffer().take(self.cursor as int) =~= before.push(byte));
                lemma_byte_bits_push(before, byte);
                assert(0u64 >> 0u64 == 0) by (bit_vector);
                assert(self.stream() =~= old(self).stream() + zero_bits(shift as nat));
            }
        } else {
            proof {
                let held: u64 = self.scratch;
                assert(held == 0) by (bit_vector)
                    requires
                        held >> 0 == 0,
                ;
                assert(self.stream() =~= old(self).stream() + zero_bits(0));
            }
        }
        proof {
            assert(self.stream() =~= byte_bits(self.buffer().take(self.committed() as int)));
        }
    }

    /// The destination buffer, emitted bytes first.
    pub fn bytes(&self) -> (out: &[u8])
        ensures
            out@ == self.buffer(),
    {
        &*self.dest
    }

    /// The scratch register's value.
    pub fn scratch(&self) -> (value: u64)
        ensures
            value == self.pending(),
    {
        self.scratch
    }

    /// The number of bits in the scratch register.
    pub fn scratch_bits(&self) -> (count: i32)
        requires
            self.wf(),
        ensures
            count == self.pending_bits(),
    {
        self.scratch_bits as i32
    }

    /// Whole bytes written so far, those still in the scratch register
    /// included.
    pub fn written_bytes(&self) -> (count: i64)
        requires
            self.wf(),
        ensures
            count == self.committed() + self.pending_bits() / 8,
            count == self.stream().len() / 8,
    {
        proof {
            lemma_bits_of_len(self.pending() as nat, self.pending_bits());
        }
        self.cursor as i64 + (self.scratch_bits / 8) as i64
    }

    /// Bits written so far.
    pub fn written_bits(&self) -> (count: i64)
        requires
            self.wf(),
        ensures
            count == self.stream().len(),
            count == 8 * self.committed() + self.pending_bits(),
    {
        proof {
            lemma_bits_of_len(self.pending() as nat, self.pending_bits());
        }
        self.cursor as i64 * 8 + self.scratch_bits as i64
    }

    /// Bits that can still be written.
    pub fn available_bits(&self) -> (count: i64)
        requires
            self.wf(),
        ensures
            count == self.room(),
            count == 8 * self.buffer().len() - self.stream().len(),
    {
        proof {
            lemma_bits_of_len(self.pending() as nat, self.pending_bits());
        }
        (self.dest.len() - self.cursor) as i64 * 8 - self.scratch_bits as i64
    }
}

/// Unpacks values from a borrowed byte buffer.
///
/// Bytes move from the buffer into a scratch register as a read needs them;
/// the bits of a byte that a read leaves over stay there for the next one.
pub struct BitReader<'a> {
    source: &'a [u8],
    cursor: usize,
    scratch_bits: u64,
    scratch: u64,
}

impl<'a> BitReader<'a> {
    /// The bytes being read.
    pub closed spec fn source(&self) -> Seq<u8> {
        self.source@
    }

    /// How many bits have been read.
    pub closed spec fn position(&self) -> nat {
        (8 * self.cursor - self.scratch_bits) as nat
    }

    /// How many bits are left to read.
    pub open spec fn remaining(&self) -> int {
        8 * self.source().len() - self.position()
    }

    /// The `count` bits that come next, as a number.
    pub open spec fn upcoming(&self, count: int) -> nat {
        bits_value(
            byte_bits(self.source()).subrange(
                self.position() as int,
                self.position() as int + count,
            ),
        )
    }

    /// The reader's invariant: the scratch register holds the bits between
    /// the read position and the next byte not yet fetched.
    pub closed spec fn wf(&self) -> bool {
        &&& self.cursor <= self.source@.len()
        &&& self.scratch_bits < 8
        &&& self.scratch_bits <= 8 * self.cursor
        &&& fits(self.scratch, self.scratch_bits as nat)
        &&& bits_of(self.scratch as nat, self.scratch_bits as nat) == byte_bits(
            self.source@,
        ).subrange(8 * self.cursor - self.scratch_bits, 8 * self.cursor as int)
    }

    /// A reader at the start of `source`.
    pub fn new(source: &'a [u8]) -> (reader: BitReader<'a>)
        ensures
            reader.wf(),
            reader.source() == source@,
            reader.position() == 0,
    {
        let reader = BitReader { source, cursor: 0, scratch_bits: 0, scratch: 0 };
        proof {
            assert(0u64 >> 0u64 == 0) by (bit_vector);
            assert(bits_of(0, 0) =~= byte_bits(source@).subrange(0, 0));
        }
        reader
    }

    /// Whether at least `count` bits are left.
    fn has_bits(&self, count: u64) -> (enough: bool)
        requires
            self.wf(),
            count <= 32,
        ensures
            enough == (count <= self.remaining()),
    {
        let left: usize = self.source.len() - self.cursor;
        left >= 4 || left as u64 * 8 + self.scratch_bits >= count
    }

    /// Reads the next `bits` bits as a number, most significant bit first.
    ///
    /// Refused, with the reader untouched, when `bits` is outside `1..=32` or
    /// when fewer than `bits` bits are left.
    pub fn read_bits(&mut self, bits: i32) -> (result: Result<u32, Error>)
        requires
            old(self).wf(),
        ensures
            final(self).wf(),
            final(self).source() == old(self).source(),
            match result {
                Ok(value) => {
                    &&& 1 <= bits <= 32
                    &&& bits <= old(self).remaining()
                    &&& value == old(self).upcoming(bits as int)
                    &&& final(self).position() == old(self).position() + bits
                },
                Err(error) => {
                    &&& final(self).position() == old(self).position()
                    &&& error == if bits < 1 || bits > 32 {
                        Error::InvalidArgument
                    } else {
                        Error::OutOfMemory
                    }
                    &&& bits < 1 || bits > 32 || old(self).remaining() < bits
                },
            },
    {
        if bits < 1 || bits > 32 {
            return Err(Error::InvalidArgument);
        }
        let count: u64 = bits as u64;
        if !self.has_bits(count) {
            return Err(Error::OutOfMemory);
        }
        let ghost all = byte_bits(self.source@);
        let ghost start = self.position() as int;
        while self.scratch_bits < count
            invariant
                self.source@ == old(self).source@,
                all == byte_bits(self.source@),
                self.cursor <= self.source@.len(),
                8 * self.cursor - self.scratch_bits == start,
                0 <= start,
                self.scratch_bits < count + 8,
                count <= 32,
                fits(self.scratch, self.scratch_bits as nat),
                bits_of(self.scratch as nat, self.scratch_bits as nat) == all.subrange(
                    start,
                    8 * self.cursor as int,
                ),
                start + count <= 8 * self.source@.len(),
            decreases self.source@.len() - self.cursor,
        {
            let byte: u8 = self.source[self.cursor];
            let wide: u64 = byte as u64;
            proof {
                assert(wide >> 8 == 0) by (bit_vector)
                    requires
                        wide < 256,
                ;
                lemma_shift_in(self.scratch, self.scratch_bits as nat, wide, 8);
                lemma_byte_bits_at(self.source@, self.cursor as int);
                assert(all.subrange(start, 8 * self.cursor as int) + all.subrange(
                    8 * self.cursor as int,
                    8 * self.cursor as int + 8,
                ) =~= all.subrange(start, 8 * self.cursor as int + 8));
            }
            self.scratch = (self.scratch << 8) | wide;
            self.scratch_bits = self.scratch_bits + 8;
            self.cursor = self.cursor + 1;
        }
        let shift: u64 = self.scratch_bits - count;
        let value: u64 = self.scratch >> shift;
        proof {
            lemma_split(self.scratch, self.scratch_bits as nat, count as nat);
            lemma_bits_of_len(value as nat, count as nat);
            let low: u64 = self.scratch & (((1u64 << shift) - 1) as u64);
            let whole = bits_of(self.scratch as nat, self.scratch_bits as nat);
            let high_bits = bits_of(value as nat, count as nat);
            let low_bits = bits_of(low as nat, shift as nat);
            assert(high_bits =~= whole.take(count as int));
            assert(low_bits =~= whole.skip(count as int));
            assert(high_bits =~= all.subrange(start, start + count));
            assert(low_bits =~= all.subrange(start + count, 8 * self.cursor as int));
            lemma_fits_pow2(value, count as nat);
            lemma_bits_value_of(value as nat, count as nat);
            assert(value <= 0xffff_ffff) by (bit_vector)
                requires
                    value >> count == 0,
                    count <= 32,
            ;
        }
        self.scratch = self.scratch & ((1u64 << shift) - 1);
        self.scratch_bits = shift;
        Ok(value as u32)
    }

    /// Reads the next eight bits as a byte.
    pub fn read_byte(&mut self) -> (result: Result<u8, Error>)
        requires
            old(self).wf(),
        ensures
            final(self).wf(),
            final(self).source() == old(self).source(),
            match result {
                Ok(value) => {
                    &&& 8 <= old(self).remaining()
                    &&& value == old(self).upcoming(8)
                    &&& final(self).position() == old(self).position() + 8
                },
                Err(error) => {
                    &&& final(self).position() == old(self).position()
                    &&& error == Error::OutOfMemory
                    &&& old(self).remaining() < 8
                },
            },
    {
        match self.read_bits(8) {
            Ok(value) => {
                proof {
                    let next = byte_bits(old(self).source()).subrange(
                        old(self).position() as int,
                        old(self).position() as int + 8,
                    );
                    lemma_bits_value_bound(next);
                    lemma2_to64();
                }
                Ok(value as u8)
            },
            Err(error) => Err(error),
        }
    }
}

/// A value that stands in a stream is read back from its place: if the bits
/// of the reader's source begin with `prefix`, then the `bits` bits of
/// `value`, then `suffix`, a reader that has read `prefix` finds `bits` bits
/// to read, and they spell `value`.
pub proof fn lemma_read_back(
    reader: BitReader,
    prefix: Seq<bool>,
    value: u32,
    bits: i32,
    suffix: Seq<bool>,
)
    requires
        1 <= bits <= 32,
        value < pow2(bits as nat),
        reader.position() == prefix.len(),
        (prefix + bits_of(value as nat, bits as nat) + suffix).is_prefix_of(
            byte_bits(reader.source()),
        ),
    ensures
        bits <= reader.remaining(),
        reader.upcoming(bits as int) == value,
{
    let payload = bits_of(value as nat, bits as nat);
    let all = byte_bits(reader.source());
    lemma_bits_of_len(value as nat, bits as nat);
    assert(all.subrange(prefix.len() as int, prefix.len() + bits) =~= payload) by {
        assert forall|i: int| 0 <= i < bits implies all[prefix.len() + i] == payload[i] by {
            assert((prefix + payload + suffix)[prefix.len() + i] == payload[i]);
        }
    }
    lemma_bits_value_of(value as nat, bits as nat);
}

/// Round trip of one value: a fresh writer takes `bits` bits of `value` and
/// is flushed; a fresh reader over the writer's buffer then finds `bits` bits
/// to read, and they spell `value`.
pub proof fn lemma_write_flush_read(
    fresh: BitWriter,
    written: BitWriter,
    flushed: BitWriter,
    reader: BitReader,
    value: u32,
    bits: i32,
)
    requires
        fresh.wf(),
        written.wf(),
        flushed.wf(),
        fresh.stream() == Seq::<bool>::empty(),
        BitWriter::write_verdict(fresh.room(), value, bits) is Ok,
        written.stream() == fresh.stream() + bits_of(value as nat, bits as nat),
        flushed.stream() == written.stream() + zero_bits(
            BitWriter::padding(written.stream().len() as int),
        ),
        flushed.stream() == byte_bits(flushed.buffer().take(flushed.committed() as int)),
        reader.source() == flushed.buffer(),
        reader.position() == 0,
    ensures
        bits <= reader.remaining(),
        reader.upcoming(bits as int) == value,
{
    let payload = bits_of(value as nat, bits as nat);
    let pad = zero_bits(BitWriter::padding(written.stream().len() as int));
    lemma_byte_bits_take(flushed.buffer(), flushed.committed() as int);
    assert(Seq::<bool>::empty() + payload + pad =~= flushed.stream());
    lemma_read_back(reader, Seq::empty(), value, bits, pad);
}

/// Round trip of one byte: a fresh writer takes `value` and is flushed; the
/// buffer then starts with `value`, and a fresh reader over it reads `value`.
pub proof fn lemma_write_flush_read_byte(
    fresh: BitWriter,
    written: BitWriter,
    flushed: BitWriter,
    reader: BitReader,
    value: u8,
)
    requires
        fresh.wf(),
        written.wf(),
        flushed.wf(),
        fresh.stream() == Seq::<bool>::empty(),
        fresh.room() >= 8,
        written.stream() == fresh.stream() + bits_of(value as nat, 8),
        flushed.stream() == written.stream() + zero_bits(
            BitWriter::padding(written.stream().len() as int),
        ),
        flushed.stream() == byte_bits(flushed.buffer().take(flushed.committed() as int)),
        reader.source() == flushed.buffer(),
        reader.position() == 0,
    ensures
        flushed.committed() == 1,
        flushed.buffer()[0] == value,
        8 <= reader.remaining(),
        reader.upcoming(8) == value,
{
    lemma2_to64();
    lemma_write_flush_read(fresh, written, flushed, reader, value as u32, 8);
    lemma_bits_of_len(value as nat, 8);
    let first = flushed.buffer()[0];
    let emitted = flushed.buffer().take(flushed.committed() as int);
    assert(flushed.stream() =~= bits_of(value as nat, 8));
    lemma_byte_bits_at(emitted, 0);
    assert(byte_bits(emitted).subrange(0, 8) =~= byte_bits(emitted));
    lemma_bits_value_of(first as nat, 8);
    lemma_bits_value_of(value as nat, 8);
}

/// Bytes written on byte boundaries come out as they went in: where the
/// stream of a flushed writer is made of the bits of `inputs`, the bytes it
/// has emitted are `inputs`.
pub proof fn lemma_bytes_in_bytes_out(flushed: BitWriter, inputs: Seq<u8>)
    requires
        flushed.wf(),
        flushed.pending_bits() == 0,
        flushed.stream() == byte_bits(inputs),
    ensures
        flushed.committed() == inputs.len(),
        flushed.buffer().take(flushed.committed() as int) == inputs,
{
    let emitted = flushed.buffer().take(flushed.committed() as int);
    assert(flushed.stream() =~= byte_bits(emitted));
    lemma_byte_bits_injective(emitted, inputs);
}

} // verus!
