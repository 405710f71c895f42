//! The 32-bit word that holds one pixel.
//!
//! Before thresholding a word holds an opaque marker in its top byte and the
//! red, green and blue channels below it. After thresholding bit 24 holds the
//! class (0 black, 1 white), bit 25 marks a candidate centre, and the low 24
//! bits hold the running intensity average that the row below will read.
//!
//! The model reads a word by division and remainder; the executable
//! functions shift and mask and are proved to agree with it.

use vstd::prelude::*;

verus! {

/// Value of bit 24, the class bit.
pub const CLASS_BIT: u32 = 0x100_0000;

/// Value of bit 25, the candidate flag.
pub const CANDIDATE_BIT: u32 = 0x200_0000;

/// The opaque marker of a word that has not been thresholded.
pub const OPAQUE: u32 = 0xff00_0000;

/// The red channel of a word that was not thresholded: its third byte.
pub open spec fn word_red(w: u32) -> int {
    (w as int / 0x1_0000) % 0x100
}

/// The green channel: the second byte.
pub open spec fn word_green(w: u32) -> int {
    (w as int / 0x100) % 0x100
}

/// The blue channel: the lowest byte.
pub open spec fn word_blue(w: u32) -> int {
    w as int % 0x100
}

/// The top byte: the opaque marker before thresholding, class and candidate
/// flag after it.
pub open spec fn word_alpha(w: u32) -> int {
    w as int / 0x100_0000
}

/// Mean of the three colour channels, rounded down: between 0 and 255.
pub open spec fn word_intensity(w: u32) -> int {
    (word_red(w) + word_green(w) + word_blue(w)) / 3
}

/// The low 24 bits: the running average stored by the thresholding pass.
pub open spec fn word_average(w: u32) -> int {
    w as int % 0x100_0000
}

/// Bit 24: 0 for black, 1 for white.
pub open spec fn word_class(w: u32) -> int {
    (w as int / 0x100_0000) % 2
}

/// Bit 25: whether the ring scan marked this pixel.
pub open spec fn word_flagged(w: u32) -> bool {
    (w as int / 0x200_0000) % 2 == 1
}

/// The word of a pixel that has not been thresholded.
pub open spec fn rgb_word(r: u8, g: u8, b: u8) -> u32 {
    (0xff00_0000 + r as int * 0x1_0000 + g as int * 0x100 + b as int) as u32
}

/// The word of a thresholded pixel without candidate flag.
pub open spec fn class_word(white: bool, average: int) -> u32 {
    ((if white { 0x100_0000int } else { 0int }) + average) as u32
}

/// The word with its candidate flag set and nothing else changed.
pub open spec fn flag_word(w: u32) -> u32 {
    if word_flagged(w) {
        w
    } else {
        (w + 0x200_0000) as u32
    }
}

/// Packs the channels of a pixel under the opaque marker.
pub fn pack_rgb(r: u8, g: u8, b: u8) -> (w: u32)
    ensures
        w == rgb_word(r, g, b),
        word_red(w) == r,
        word_green(w) == g,
        word_blue(w) == b,
{
    let r32: u32 = r as u32;
    let g32: u32 = g as u32;
    let b32: u32 = b as u32;
    assert({
        let w = (0xff00_0000u32 + (r32 << 16) + (g32 << 8) + b32) as u32;
        &&& (r32 << 16) == r32 * 0x1_0000
        &&& (g32 << 8) == g32 * 0x100
        &&& (w / 0x1_0000) % 0x100 == r32
        &&& (w / 0x100) % 0x100 == g32
        &&& w % 0x100 == b32
    }) by (bit_vector)
        requires
            r32 < 0x100,
            g32 < 0x100,
            b32 < 0x100,
    ;
    OPAQUE + (r32 << 16) + (g32 << 8) + b32
}

/// Packs the class of a thresholded pixel over the running average.
pub fn pack_class(white: bool, average: u32) -> (w: u32)
    requires
        average < 0x100_0000,
    ensures
        w == class_word(white, average as int),
        word_class(w) == (if white { 1int } else { 0int }),
        word_average(w) == average,
        !word_flagged(w),
{
    let class: u32 = if white { 1 } else { 0 };
    assert({
        let w = ((class << 24) + average) as u32;
        &&& (class << 24) == class * 0x100_0000
        &&& (w / 0x100_0000) % 2 == class
        &&& w % 0x100_0000 == average
        &&& (w / 0x200_0000) % 2 == 0
    }) by (bit_vector)
        requires
            class < 2,
            average < 0x100_0000,
    ;
    (class << 24) + average
}

/// The third byte of the word.
pub fn red(w: u32) -> (r: u32)
    ensures
        r == word_red(w),
        r < 0x100,
{
    assert((w >> 16) & 0xff == (w / 0x1_0000) % 0x100) by (bit_vector);
    (w >> 16) & 0xff
}

/// The second byte of the word.
pub fn green(w: u32) -> (r: u32)
    ensures
        r == word_green(w),
        r < 0x100,
{
    assert((w >> 8) & 0xff == (w / 0x100) % 0x100) by (bit_vector);
    (w >> 8) & 0xff
}

/// The lowest byte of the word.
pub fn blue(w: u32) -> (r: u32)
    ensures
        r == word_blue(w),
        r < 0x100,
{
    assert(w & 0xff == w % 0x100) by (bit_vector);
    w & 0xff
}

/// The top byte of the word.
pub fn alpha(w: u32) -> (r: u32)
    ensures
        r == word_alpha(w),
        r < 0x100,
{
    assert((w >> 24) & 0xff == w / 0x100_0000) by (bit_vector);
    (w >> 24) & 0xff
}

/// Mean of the three colour channels, rounded down.
pub fn intensity(w: u32) -> (r: u32)
    ensures
        r == word_intensity(w),
        r < 0x100,
{
    (red(w) + green(w) + blue(w)) / 3
}

/// The running average that the word stores.
pub fn average(w: u32) -> (r: u32)
    ensures
        r == word_average(w),
        r < 0x100_0000,
{
    assert(w & 0xff_ffff == w % 0x100_0000) by (bit_vector);
    w & 0xff_ffff
}

/// The class of the pixel: 0 for black, 1 for white.
pub fn class(w: u32) -> (r: u32)
    ensures
        r == word_class(w),
        r <= 1,
{
    assert((w >> 24) & 0x01 == (w / 0x100_0000) % 2) by (bit_vector);
    (w >> 24) & 0x01
}

/// Whether the pixel is flagged as a candidate.
pub fn flagged(w: u32) -> (r: bool)
    ensures
        r == word_flagged(w),
{
    assert(((w & 0x200_0000) > 0) == ((w / 0x200_0000) % 2 == 1)) by (bit_vector);
    (w & CANDIDATE_BIT) > 0
}

/// The word with its candidate flag set.
pub fn with_flag(w: u32) -> (r: u32)
    ensures
        r == flag_word(w),
        word_flagged(r),
        word_class(r) == word_class(w),
        word_average(r) == word_average(w),
{
    proof {
        lemma_flag_word(w);
    }
    assert((w / 0x200_0000) % 2 == 1 ==> (w | 0x200_0000) == w) by (bit_vector);
    assert((w / 0x200_0000) % 2 != 1 ==> (w | 0x200_0000) == w + 0x200_0000) by (bit_vector);
    w | CANDIDATE_BIT
}

/// Setting the flag changes neither class nor average, and a second setting
/// changes nothing.
pub proof fn lemma_flag_word(w: u32)
    ensures
        word_flagged(flag_word(w)),
        word_class(flag_word(w)) == word_class(w),
        word_average(flag_word(w)) == word_average(w),
        flag_word(flag_word(w)) == flag_word(w),
{
    let f = w | 0x200_0000;
    assert({
        &&& ((w / 0x200_0000) % 2 == 1 ==> f == w)
        &&& ((w / 0x200_0000) % 2 != 1 ==> f == w + 0x200_0000)
        &&& (f / 0x200_0000) % 2 == 1
        &&& (f / 0x100_0000) % 2 == (w / 0x100_0000) % 2
        &&& f % 0x100_0000 == w % 0x100_0000
    }) by (bit_vector)
        requires
            f == w | 0x200_0000,
    ;
}

} // verus!
