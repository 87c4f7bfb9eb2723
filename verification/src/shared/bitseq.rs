//! Bit sequences: the mathematical model of a bit-packed stream.
//!
//! A stream is a `Seq<bool>` whose first element is the first bit on the wire.
//! Numbers are laid out most significant bit first.

use vstd::arithmetic::power2::{lemma_pow2_unfold, pow2};
use vstd::prelude::*;

verus! {

/// The `count` low bits of `value`, most significant first.
pub open spec fn bits_of(value: nat, count: nat) -> Seq<bool>
    decreases count,
{
    if count == 0 {
        Seq::empty()
    } else {
        bits_of(value / 2, (count - 1) as nat).push(value % 2 == 1)
    }
}

/// The number that a bit sequence spells, most significant bit first.
pub open spec fn bits_value(bits: Seq<bool>) -> nat
    decreases bits.len(),
{
    if bits.len() == 0 {
        0
    } else {
        2 * bits_value(bits.drop_last()) + if bits.last() {
            1nat
        } else {
            0nat
        }
    }
}

/// The bits of a byte string: eight per byte, in order.
pub open spec fn byte_bits(bytes: Seq<u8>) -> Seq<bool> {
    Seq::new(8 * bytes.len(), |i: int| bits_of(bytes[i / 8] as nat, 8)[i % 8])
}

/// `count` zero bits.
pub open spec fn zero_bits(count: nat) -> Seq<bool> {
    Seq::new(count, |i: int| false)
}

/// `bits_of` yields exactly `count` bits.
pub proof fn lemma_bits_of_len(value: nat, count: nat)
    ensures
        bits_of(value, count).len() == count,
    decreases count,
{
    if count > 0 {
        lemma_bits_of_len(value / 2, (count - 1) as nat);
    }
}

/// A number below `2^count` is recovered from its `count` bits.
pub proof fn lemma_bits_value_of(value: nat, count: nat)
    requires
        value < pow2(count),
    ensures
        bits_value(bits_of(value, count)) == value,
    decreases count,
{
    if count == 0 {
        assert(pow2(0) == 1) by {
            vstd::arithmetic::power2::lemma2_to64();
        }
    } else {
        let rest = bits_of(value / 2, (count - 1) as nat);
        lemma_pow2_unfold(count);
        lemma_bits_value_of(value / 2, (count - 1) as nat);
        lemma_bits_of_len(value, count);
        assert(rest.push(value % 2 == 1).drop_last() =~= rest);
    }
}

/// A bit sequence spells a number below `2^len`.
pub proof fn lemma_bits_value_bound(bits: Seq<bool>)
    ensures
        bits_value(bits) < pow2(bits.len()),
    decreases bits.len(),
{
    if bits.len() == 0 {
        assert(pow2(0) == 1) by {
            vstd::arithmetic::power2::lemma2_to64();
        }
    } else {
        lemma_bits_value_bound(bits.drop_last());
        lemma_pow2_unfold(bits.len());
    }
}

/// A bit sequence is recovered from the number it spells.
pub proof fn lemma_bits_of_value(bits: Seq<bool>)
    ensures
        bits_of(bits_value(bits), bits.len()) == bits,
    decreases bits.len(),
{
    if bits.len() > 0 {
        lemma_bits_of_value(bits.drop_last());
        assert(bits.drop_last().push(bits.last()) =~= bits);
    }
}

/// Appending a byte appends its eight bits.
pub proof fn lemma_byte_bits_push(bytes: Seq<u8>, byte: u8)
    ensures
        byte_bits(bytes.push(byte)) == byte_bits(bytes) + bits_of(byte as nat, 8),
{
    lemma_bits_of_len(byte as nat, 8);
    assert(byte_bits(bytes.push(byte)) =~= byte_bits(bytes) + bits_of(byte as nat, 8));
}

/// The bits of the first `count` bytes are the first `8 * count` bits.
pub proof fn lemma_byte_bits_take(bytes: Seq<u8>, count: int)
    requires
        0 <= count <= bytes.len(),
    ensures
        byte_bits(bytes.take(count)) == byte_bits(bytes).take(8 * count),
{
    assert(byte_bits(bytes.take(count)) =~= byte_bits(bytes).take(8 * count));
}

/// Byte `index` supplies bits `8 * index` to `8 * index + 7`.
pub proof fn lemma_byte_bits_at(bytes: Seq<u8>, index: int)
    requires
        0 <= index < bytes.len(),
    ensures
        byte_bits(bytes).subrange(8 * index, 8 * index + 8) == bits_of(bytes[index] as nat, 8),
{
    lemma_bits_of_len(bytes[index] as nat, 8);
    assert(byte_bits(bytes).subrange(8 * index, 8 * index + 8) =~= bits_of(
        bytes[index] as nat,
        8,
    ));
}

/// A byte is recovered from its eight bits.
pub proof fn lemma_byte_of_bits(byte: u8)
    ensures
        bits_value(bits_of(byte as nat, 8)) == byte,
{
    vstd::arithmetic::power2::lemma2_to64();
    lemma_bits_value_of(byte as nat, 8);
}

/// Byte strings with the same bits are the same.
pub proof fn lemma_byte_bits_injective(left: Seq<u8>, right: Seq<u8>)
    requires
        byte_bits(left) == byte_bits(right),
    ensures
        left == right,
{
    assert(byte_bits(left).len() == 8 * left.len());
    assert(byte_bits(right).len() == 8 * right.len());
    assert forall|i: int| 0 <= i < left.len() implies left[i] == right[i] by {
        lemma_byte_bits_at(left, i);
        lemma_byte_bits_at(right, i);
        lemma_byte_of_bits(left[i]);
        lemma_byte_of_bits(right[i]);
    }
    assert(left =~= right);
}

} // verus!
