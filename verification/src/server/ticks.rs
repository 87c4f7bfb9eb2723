//! Arithmetic of fixed-rate ticks: how many whole frames fit in a span of
//! time.

use vstd::arithmetic::div_mod::lemma_fundamental_div_mod_converse;
use vstd::prelude::*;

verus! {

/// The sum of the spans.
pub open spec fn total_nanos(deltas: Seq<nat>) -> nat
    decreases deltas.len(),
{
    if deltas.len() == 0 {
        0
    } else {
        total_nanos(deltas.drop_last()) + deltas.last()
    }
}

/// `count` whole frames that fit in `total` are at most its quotient by the
/// frame's length.
pub proof fn lemma_frames_fit(total: nat, frame: nat, count: nat)
    requires
        frame > 0,
        count * frame <= total,
    ensures
        count <= total / frame,
{
    let quotient = total / frame;
    let rest = total % frame;
    assert(total == quotient * frame + rest && 0 <= rest < frame) by (nonlinear_arith)
        requires
            frame > 0,
            quotient == total / frame,
            rest == total % frame,
    ;
    assert(count <= quotient) by (nonlinear_arith)
        requires
            frame > 0,
            count * frame <= total,
            total == quotient * frame + rest,
            rest < frame,
    ;
}

/// `count` frames and a rest shorter than a frame make up `total` only when
/// `count` is its quotient by the frame's length, and the rest its
/// remainder.
pub proof fn lemma_frames_exact(total: nat, frame: nat, count: nat, rest: nat)
    requires
        frame > 0,
        rest < frame,
        count * frame + rest == total,
    ensures
        count == total / frame,
        rest == total % frame,
{
    lemma_fundamental_div_mod_converse(total as int, frame as int, count as int, rest as int);
}

/// Frames may be counted span by span: the frames due after a first span,
/// plus those due once the rest it left and a second span have passed, are
/// the frames due after both spans together.
pub proof fn lemma_frames_add(held: nat, first: nat, second: nat, frame: nat)
    requires
        frame > 0,
    ensures
        (held + first) / frame + ((held + first) % frame + second) / frame == (held + first
            + second) / frame,
        ((held + first) % frame + second) % frame == (held + first + second) % frame,
{
    let q1 = (held + first) / frame;
    let r1 = (held + first) % frame;
    let q2 = (r1 + second) / frame;
    let r2 = (r1 + second) % frame;
    assert(held + first == q1 * frame + r1 && r1 + second == q2 * frame + r2 && 0 <= r2 < frame)
        by (nonlinear_arith)
        requires
            frame > 0,
            q1 == (held + first) / frame,
            r1 == (held + first) % frame,
            q2 == (r1 + second) / frame,
            r2 == (r1 + second) % frame,
    ;
    assert((q1 + q2) * frame + r2 == held + first + second) by (nonlinear_arith)
        requires
            held + first == q1 * frame + r1,
            r1 + second == q2 * frame + r2,
    ;
    lemma_frames_exact(held + first + second, frame, q1 + q2, r2);
}

} // verus!
