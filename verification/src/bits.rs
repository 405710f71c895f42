//! Counting and rotating the 13 bits of a code.

use vstd::prelude::*;

verus! {

/// The low 13 bits.
pub const CODE_MASK: u32 = 0x1fff;

/// The number of values that 0 to 13 bits can hold.
pub const PLACES: [u32; 14] = [1, 2, 4, 8, 16, 32, 64, 128, 256, 512, 1024, 2048, 4096, 8192];

/// One more bit doubles the number of values.
pub proof fn lemma_places(n: int)
    requires
        0 <= n < 13,
    ensures
        PLACES[n + 1] == 2 * PLACES[n],
        PLACES[n] <= 4096,
{
}

/// Bit `i` of `bits`: 0 or 1.
pub open spec fn bit_of(bits: u32, i: nat) -> int {
    ((bits >> (i as u32)) & 1) as int
}

/// Number of bits set among the low `n` bits.
pub open spec fn bits_set(bits: u32, n: nat) -> int
    decreases n,
{
    if n == 0 {
        0
    } else {
        bits_set(bits, (n - 1) as nat) + bit_of(bits, (n - 1) as nat)
    }
}

/// The 13-bit pattern turned left by one place: bit 12 comes round to bit 0.
pub open spec fn rotate_once(bits: u32) -> u32 {
    ((bits << 1) & 0x1fff) | (bits >> 12)
}

/// The pattern turned left by `n` places.
pub open spec fn rotated(bits: u32, n: nat) -> u32
    decreases n,
{
    if n == 0 {
        bits
    } else {
        rotate_once(rotated(bits, (n - 1) as nat))
    }
}

/// The lowest value among the rotations by 0 to `n` places, and the smallest
/// number of places that gives it.
pub open spec fn lowest_upto(bits: u32, n: nat) -> (u32, nat)
    decreases n,
{
    if n == 0 {
        (bits, 0)
    } else {
        let before = lowest_upto(bits, (n - 1) as nat);
        let here = rotated(bits, n);
        if here < before.0 {
            (here, n)
        } else {
            before
        }
    }
}

/// The lowest of the rotations of a pattern.
pub open spec fn lowest_rotation(bits: u32) -> u32 {
    lowest_upto(bits, 13).0
}

/// The smallest number of places by which the pattern is turned to reach
/// its lowest rotation.
pub open spec fn lowest_rotation_index(bits: u32) -> nat {
    lowest_upto(bits, 13).1
}

/// `lowest_upto` gives a rotation among those it has seen, no rotation that
/// it has seen is lower, and none before it is as low.
pub proof fn lemma_lowest_upto(bits: u32, n: nat)
    ensures
        lowest_upto(bits, n).1 <= n,
        lowest_upto(bits, n).0 == rotated(bits, lowest_upto(bits, n).1),
        forall|i: nat| i <= n ==> lowest_upto(bits, n).0 <= #[trigger] rotated(bits, i),
        forall|i: nat|
            i < lowest_upto(bits, n).1 ==> lowest_upto(bits, n).0 < #[trigger] rotated(bits, i),
    decreases n,
{
    if n > 0 {
        lemma_lowest_upto(bits, (n - 1) as nat);
    }
}

/// The lowest rotation is the numeric minimum of the rotations, reached
/// first at the index that is given.
pub proof fn lemma_lowest_rotation(bits: u32)
    ensures
        lowest_rotation_index(bits) <= 13,
        lowest_rotation(bits) == rotated(bits, lowest_rotation_index(bits)),
        forall|i: nat| i <= 13 ==> lowest_rotation(bits) <= #[trigger] rotated(bits, i),
        forall|i: nat|
            i < lowest_rotation_index(bits) ==> lowest_rotation(bits) < #[trigger] rotated(bits, i),
{
    lemma_lowest_upto(bits, 13);
}

/// A turn keeps a 13-bit pattern within 13 bits.
pub proof fn lemma_rotated_range(bits: u32, n: nat)
    requires
        bits <= CODE_MASK,
    ensures
        rotated(bits, n) <= CODE_MASK,
    decreases n,
{
    if n > 0 {
        lemma_rotated_range(bits, (n - 1) as nat);
        let before = rotated(bits, (n - 1) as nat);
        assert(((before << 1) & 0x1fff) | (before >> 12) <= 0x1fff) by (bit_vector)
            requires
                before <= 0x1fff,
        ;
    }
}

/// Turning by `a` places and then by `n` is turning by `a` + `n`.
pub proof fn lemma_rotated_adds(bits: u32, a: nat, n: nat)
    ensures
        rotated(rotated(bits, a), n) == rotated(bits, a + n),
    decreases n,
{
    if n > 0 {
        lemma_rotated_adds(bits, a, (n - 1) as nat);
    }
}

/// Turning a 13-bit pattern by up to 13 places moves the high bits that
/// leave at the top in at the bottom.
proof fn lemma_rotated_shifts(bits: u32, n: nat)
    requires
        bits <= CODE_MASK,
        n <= 13,
    ensures
        rotated(bits, n) == ((bits << (n as u32)) & 0x1fff) | (bits >> ((13 - n) as u32)),
    decreases n,
{
    if n == 0 {
        assert(((bits << 0) & 0x1fff) | (bits >> 13) == bits) by (bit_vector)
            requires
                bits <= 0x1fff,
        ;
    } else {
        lemma_rotated_shifts(bits, (n - 1) as nat);
        let m: u32 = (n - 1) as u32;
        let before = rotated(bits, (n - 1) as nat);
        assert(((before << 1) & 0x1fff) | (before >> 12) == ((bits << ((m + 1) as u32)) & 0x1fff) | (
        bits >> ((12 - m) as u32))) by (bit_vector)
            requires
                bits <= 0x1fff,
                m < 13,
                before == ((bits << m) & 0x1fff) | (bits >> ((13 - m) as u32)),
        ;
    }
}

/// Thirteen turns bring a 13-bit pattern back to itself.
pub proof fn lemma_full_turn(bits: u32)
    requires
        bits <= CODE_MASK,
    ensures
        rotated(bits, 13) == bits,
{
    lemma_rotated_shifts(bits, 13);
    assert(((bits << 13) & 0x1fff) | (bits >> 0) == bits) by (bit_vector)
        requires
            bits <= 0x1fff,
    ;
}

/// A turn moves each of the 13 bits and loses none: as many are set after
/// it as before.
pub proof fn lemma_rotate_once_keeps_count(bits: u32)
    requires
        bits <= CODE_MASK,
    ensures
        bits_set(rotate_once(bits), 13) == bits_set(bits, 13),
{
    let r = rotate_once(bits);
    assert({
        &&& (r >> 0) & 1 == (bits >> 12) & 1
        &&& (r >> 1) & 1 == (bits >> 0) & 1
        &&& (r >> 2) & 1 == (bits >> 1) & 1
        &&& (r >> 3) & 1 == (bits >> 2) & 1
        &&& (r >> 4) & 1 == (bits >> 3) & 1
        &&& (r >> 5) & 1 == (bits >> 4) & 1
        &&& (r >> 6) & 1 == (bits >> 5) & 1
        &&& (r >> 7) & 1 == (bits >> 6) & 1
        &&& (r >> 8) & 1 == (bits >> 7) & 1
        &&& (r >> 9) & 1 == (bits >> 8) & 1
        &&& (r >> 10) & 1 == (bits >> 9) & 1
        &&& (r >> 11) & 1 == (bits >> 10) & 1
        &&& (r >> 12) & 1 == (bits >> 11) & 1
    }) by (bit_vector)
        requires
            bits <= 0x1fff,
            r == ((bits << 1) & 0x1fff) | (bits >> 12),
    ;
    reveal_with_fuel(bits_set, 14);
}

/// As many of the 13 bits are set in every rotation of a pattern.
pub proof fn lemma_rotated_keeps_count(bits: u32, n: nat)
    requires
        bits <= CODE_MASK,
    ensures
        bits_set(rotated(bits, n), 13) == bits_set(bits, 13),
    decreases n,
{
    if n > 0 {
        lemma_rotated_keeps_count(bits, (n - 1) as nat);
        lemma_rotated_range(bits, (n - 1) as nat);
        lemma_rotate_once_keeps_count(rotated(bits, (n - 1) as nat));
    }
}

/// Where no rotation by up to `n` places is lower than the pattern itself,
/// the lowest is the pattern, reached without a turn.
proof fn lemma_lowest_upto_of_lowest(bits: u32, n: nat)
    requires
        forall|i: nat| i <= n ==> bits <= #[trigger] rotated(bits, i),
    ensures
        lowest_upto(bits, n) == (bits, 0nat),
    decreases n,
{
    if n > 0 {
        lemma_lowest_upto_of_lowest(bits, (n - 1) as nat);
    }
}

/// Canonical rotation is stable: the lowest rotation of a 13-bit pattern is
/// its own lowest rotation, reached without a further turn. It is a 13-bit
/// pattern with as many bits set.
pub proof fn lemma_lowest_rotation_stable(bits: u32)
    requires
        bits <= CODE_MASK,
    ensures
        lowest_rotation(lowest_rotation(bits)) == lowest_rotation(bits),
        lowest_rotation_index(lowest_rotation(bits)) == 0,
        lowest_rotation(bits) <= CODE_MASK,
        bits_set(lowest_rotation(bits), 13) == bits_set(bits, 13),
{
    let low = lowest_rotation(bits);
    let r = lowest_rotation_index(bits);
    lemma_lowest_rotation(bits);
    lemma_rotated_range(bits, r);
    lemma_rotated_keeps_count(bits, r);
    assert forall|i: nat| i <= 13 implies low <= #[trigger] rotated(low, i) by {
        lemma_rotated_adds(bits, r, i);
        if r + i > 13 {
            let rest = (r + i - 13) as nat;
            lemma_rotated_adds(bits, 13, rest);
            lemma_full_turn(bits);
            assert(rotated(bits, r + i) == rotated(bits, rest));
        }
    }
    lemma_lowest_upto_of_lowest(low, 13);
}

} // verus!
