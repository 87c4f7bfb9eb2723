//! How a 64-bit scratch register holds a run of stream bits.
//!
//! A register `x` holds `n` bits when everything above its `n` low bits is
//! zero; the bits it holds are then `bits_of(x, n)`.

use super::bitseq::{bits_of, lemma_bits_of_len, zero_bits};
use vstd::arithmetic::div_mod::{lemma_basic_div, lemma_small_div_converse};
use vstd::arithmetic::power2::{lemma_pow2_pos, pow2};
use vstd::bits::lemma_u64_shr_is_div;
use vstd::prelude::*;

verus! {

/// Everything above the `n` low bits of `x` is zero.
pub open spec fn fits(x: u64, n: nat) -> bool {
    n >= 64 || x >> (n as u64) == 0
}

/// Element `i` of `bits_of(x, n)` is bit `n - 1 - i` of `x`.
pub proof fn lemma_bits_of_index(x: u64, n: nat, i: int)
    requires
        n <= 64,
        0 <= i < n,
    ensures
        bits_of(x as nat, n).len() == n,
        bits_of(x as nat, n)[i] == (((x >> ((n - 1 - i) as u64)) & 1) == 1),
    decreases n,
{
    lemma_bits_of_len(x as nat, n);
    let y: u64 = x >> 1;
    assert(y == x / 2) by (bit_vector)
        requires
            y == x >> 1,
    ;
    lemma_bits_of_len(y as nat, (n - 1) as nat);
    if i == n - 1 {
        assert(((x >> 0u64) & 1 == 1) == (x % 2 == 1)) by (bit_vector);
    } else {
        lemma_bits_of_index(y, (n - 1) as nat, i);
        let k: u64 = (n - 2 - i) as u64;
        let k1: u64 = (n - 1 - i) as u64;
        assert((y >> k) & 1 == (x >> k1) & 1) by (bit_vector)
            requires
                y == x >> 1,
                k < 63,
                k1 == k + 1,
        ;
    }
}

/// A register holds `n` bits exactly when its value is below `2^n`.
pub proof fn lemma_fits_pow2(x: u64, n: nat)
    requires
        n < 64,
    ensures
        fits(x, n) <==> (x as nat) < pow2(n),
{
    lemma_u64_shr_is_div(x, n as u64);
    lemma_pow2_pos(n);
    if (x as nat) < pow2(n) {
        lemma_basic_div(x as int, pow2(n) as int);
    } else {
        lemma_small_div_converse(x as int, pow2(n) as int);
    }
}

/// Shifting `n` new bits in below the `held` bits of a register appends them.
pub proof fn lemma_shift_in(s: u64, held: nat, v: u64, n: nat)
    requires
        held + n <= 64,
        n < 64,
        fits(s, held),
        fits(v, n),
    ensures
        bits_of(((s << (n as u64)) | v) as nat, held + n) == bits_of(s as nat, held) + bits_of(
            v as nat,
            n,
        ),
        fits((s << (n as u64)) | v, held + n),
{
    let n64: u64 = n as u64;
    let r: u64 = (s << n64) | v;
    let whole = bits_of(r as nat, held + n);
    let parts = bits_of(s as nat, held) + bits_of(v as nat, n);
    lemma_bits_of_len(r as nat, held + n);
    lemma_bits_of_len(s as nat, held);
    lemma_bits_of_len(v as nat, n);
    assert forall|i: int| 0 <= i < held + n implies whole[i] == parts[i] by {
        lemma_bits_of_index(r, held + n, i);
        let j: u64 = (held + n - 1 - i) as u64;
        if i < held {
            lemma_bits_of_index(s, held, i);
            let k: u64 = (held - 1 - i) as u64;
            assert((r >> j) & 1 == (s >> k) & 1) by (bit_vector)
                requires
                    r == (s << n64) | v,
                    n64 < 64,
                    v >> n64 == 0,
                    j < 64,
                    j == k + n64,
            ;
        } else {
            lemma_bits_of_index(v, n, i - held);
            assert((r >> j) & 1 == (v >> j) & 1) by (bit_vector)
                requires
                    r == (s << n64) | v,
                    n64 < 64,
                    j < n64,
            ;
        }
    }
    assert(whole =~= parts);
    if held + n < 64 {
        let top: u64 = (held + n) as u64;
        let h64: u64 = held as u64;
        assert(r >> top == 0) by (bit_vector)
            requires
                r == (s << n64) | v,
                top == h64 + n64,
                top < 64,
                s >> h64 == 0,
                v >> n64 == 0,
        ;
    }
}

/// The `held` bits of a register split into the `k` high ones, obtained by a
/// right shift, and the rest, obtained by a mask.
pub proof fn lemma_split(s: u64, held: nat, k: nat)
    requires
        k <= held <= 64,
        held - k < 64,
        fits(s, held),
    ensures
        bits_of(s as nat, held) == bits_of((s >> ((held - k) as u64)) as nat, k) + bits_of(
            (s & (((1u64 << ((held - k) as u64)) - 1) as u64)) as nat,
            (held - k) as nat,
        ),
        fits(s >> ((held - k) as u64), k),
        fits(s & (((1u64 << ((held - k) as u64)) - 1) as u64), (held - k) as nat),
        (1u64 << ((held - k) as u64)) >= 1,
{
    let m: u64 = (held - k) as u64;
    assert((1u64 << m) >= 1) by (bit_vector)
        requires
            m < 64,
    ;
    let mask: u64 = ((1u64 << m) - 1) as u64;
    let hi: u64 = s >> m;
    let lo: u64 = s & mask;
    let whole = bits_of(s as nat, held);
    let parts = bits_of(hi as nat, k) + bits_of(lo as nat, (held - k) as nat);
    lemma_bits_of_len(s as nat, held);
    lemma_bits_of_len(hi as nat, k);
    lemma_bits_of_len(lo as nat, (held - k) as nat);
    assert forall|i: int| 0 <= i < held implies whole[i] == parts[i] by {
        lemma_bits_of_index(s, held, i);
        let j: u64 = (held - 1 - i) as u64;
        if i < k {
            lemma_bits_of_index(hi, k, i);
            let t: u64 = (k - 1 - i) as u64;
            assert((hi >> t) & 1 == (s >> j) & 1) by (bit_vector)
                requires
                    hi == s >> m,
                    j == t + m,
                    j < 64,
            ;
        } else {
            lemma_bits_of_index(lo, (held - k) as nat, i - k);
            assert((lo >> j) & 1 == (s >> j) & 1) by (bit_vector)
                requires
                    lo == s & mask,
                    mask == ((1u64 << m) - 1) as u64,
                    j < m,
                    m < 64,
            ;
        }
    }
    assert(whole =~= parts);
    if k < 64 {
        let k64: u64 = k as u64;
        let h64: u64 = held as u64;
        assert(hi >> k64 == 0) by (bit_vector)
            requires
                hi == s >> m,
                k64 + m == h64,
                h64 <= 64,
                k64 < 64,
                m < 64,
                h64 < 64 ==> s >> h64 == 0,
        ;
    }
    assert(lo >> m == 0) by (bit_vector)
        requires
            lo == s & mask,
            mask == ((1u64 << m) - 1) as u64,
            m < 64,
    ;
}

/// The bits of zero are zero bits.
pub proof fn lemma_bits_of_zero(n: nat)
    ensures
        bits_of(0, n) == zero_bits(n),
    decreases n,
{
    lemma_bits_of_len(0, n);
    if n > 0 {
        lemma_bits_of_zero((n - 1) as nat);
        assert(0nat / 2 == 0);
    }
    assert(bits_of(0, n) =~= zero_bits(n));
}

} // verus!
