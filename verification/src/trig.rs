//! Cosine and sine in fixed point, for the angles that decoding uses.
//!
//! A turn is divided into 260 steps. One sector of the data ring is 20 steps,
//! a tenth of a sector is 2 steps, and the quarter turn that separates sine
//! from cosine is 65 steps, so every angle that decoding meets is a whole
//! number of steps. Values are scaled by 2^30.

use vstd::prelude::*;

verus! {

/// Angular steps in a full turn.
pub const TURN: i64 = 260;

/// Angular steps in a quarter turn.
pub const QUARTER: i64 = 65;

/// Angular steps that one sector of the data ring spans.
pub const ARC: i64 = 20;

/// The fixed-point value of 1.
pub const TRIG_ONE: i64 = 0x4000_0000;

/// Cosine of the first 66 steps, from 0 to a quarter turn, scaled by
/// [`TRIG_ONE`] and rounded to the nearest integer.
pub const QUARTER_COSINES: [i64; 66] = [
    1073741824, 1073428307, 1072487937, 1070921265, 1068729205, 1065913037,
    1062474406, 1058415320, 1053738149, 1048445625, 1042540838, 1036027237,
    1028908624, 1021189159, 1012873347, 1003966046, 994472457, 984398124,
    973748930, 962531095, 950751168, 938416029, 925532882, 912109250,
    898152972, 883672197, 868675383, 853171287, 837168963, 820677756,
    803707296, 786267494, 768368533, 750020867, 731235210, 712022533,
    692394054, 672361236, 651935779, 631129609, 609954877, 588423949,
    566549398, 544343998, 521820717, 498992706, 475873299, 452475994,
    428814456, 404902503, 380754098, 356383344, 331804471, 307031834,
    282079899, 256963238, 231696517, 206294492, 180771997, 155143936,
    129425275, 103631033, 77776274, 51876096, 25945624, 0,
];

/// Cosine of `k` steps, scaled by [`TRIG_ONE`]: the table entry of the angle
/// folded into the first quarter, with the sign of its quadrant.
pub open spec fn cos_steps(k: int) -> int {
    let m = k % 260;
    if m <= 65 {
        QUARTER_COSINES[m] as int
    } else if m <= 130 {
        -(QUARTER_COSINES[130 - m] as int)
    } else if m <= 195 {
        -(QUARTER_COSINES[m - 130] as int)
    } else {
        QUARTER_COSINES[260 - m] as int
    }
}

/// Sine of `k` steps, scaled by [`TRIG_ONE`]: the cosine a quarter turn back.
pub open spec fn sin_steps(k: int) -> int {
    cos_steps(k - 65)
}

/// One entry of the table, with its range.
fn quarter_cosine(j: usize) -> (c: i64)
    requires
        j <= 65,
    ensures
        c == QUARTER_COSINES[j as int],
        0 <= c <= TRIG_ONE,
{
    QUARTER_COSINES[j]
}

/// Cosine of `k` steps, scaled by [`TRIG_ONE`].
pub fn cosine(k: i64) -> (c: i64)
    ensures
        c == cos_steps(k as int),
        -TRIG_ONE <= c <= TRIG_ONE,
{
    let r: i64 = k % TURN;
    let m: i64 = if r < 0 {
        r + TURN
    } else {
        r
    };
    if m <= 65 {
        quarter_cosine(m as usize)
    } else if m <= 130 {
        -quarter_cosine((130 - m) as usize)
    } else if m <= 195 {
        -quarter_cosine((m - 130) as usize)
    } else {
        quarter_cosine((260 - m) as usize)
    }
}

/// Sine of `k` steps, scaled by [`TRIG_ONE`].
pub fn sine(k: i64) -> (s: i64)
    ensures
        s == sin_steps(k as int),
        -TRIG_ONE <= s <= TRIG_ONE,
{
    // Whole turns come off first, so that the quarter can be taken off
    // the least angle too.
    let r: i64 = k % TURN;
    proof {
        // The remainder differs from the angle by whole turns.
        let turns = (k - r) / 260;
        assert(k - r == 260 * turns);
        vstd::arithmetic::div_mod::lemma_mod_multiples_vanish(turns, r - 65, 260);
    }
    cosine(r - QUARTER)
}

} // verus!
