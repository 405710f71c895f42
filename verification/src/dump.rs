//! What a field is written out as for inspection: a plain-text PPM, and the
//! bytes of a picture with four channels.

use vstd::prelude::*;
use vstd::string::StringExecFns;
use crate::field::Field;
use crate::pixel::{alpha, blue, green, red, word_alpha, word_blue, word_green, word_red};
use crate::utils::{decimal, push_digits};

verus! {

/// The line of one pixel in a plain PPM: red, green and blue in decimal with
/// a space between them.
pub open spec fn ppm_line(w: u32) -> Seq<char> {
    decimal(word_red(w)) + seq![' '] + decimal(word_green(w)) + seq![' '] + decimal(word_blue(w))
        + seq!['\n']
}

/// The lines of the first `n` pixels.
pub open spec fn ppm_lines(words: Seq<u32>, n: int) -> Seq<char>
    decreases n,
{
    if n <= 0 {
        Seq::empty()
    } else {
        ppm_lines(words, n - 1) + ppm_line(words[n - 1])
    }
}

/// The head of a plain PPM: the magic number, the dimensions with a tab
/// between them, and the largest value of a channel.
pub open spec fn ppm_head(width: int, height: int) -> Seq<char> {
    seq!['P', '3', '\n'] + decimal(width) + seq!['\t'] + decimal(height) + seq![
        '\n',
        '2',
        '5',
        '5',
        '\n',
    ]
}

/// The field as a plain PPM. The low three bytes of each word are taken as
/// red, green and blue, whatever the word holds.
pub open spec fn ppm_text(f: Field) -> Seq<char> {
    ppm_head(f.width, f.height) + ppm_lines(f.words, f.words.len() as int)
}

/// The four bytes of one pixel: red, green, blue and, for alpha, the top byte.
pub open spec fn rgba_of(w: u32) -> Seq<u8> {
    seq![word_red(w) as u8, word_green(w) as u8, word_blue(w) as u8, word_alpha(w) as u8]
}

/// The bytes of the first `n` pixels.
pub open spec fn rgba_bytes(words: Seq<u32>, n: int) -> Seq<u8>
    decreases n,
{
    if n <= 0 {
        Seq::empty()
    } else {
        rgba_bytes(words, n - 1) + rgba_of(words[n - 1])
    }
}

/// There are four bytes for each pixel.
pub proof fn lemma_rgba_len(words: Seq<u32>, n: int)
    requires
        0 <= n,
    ensures
        rgba_bytes(words, n).len() == 4 * n,
    decreases n,
{
    if n > 0 {
        lemma_rgba_len(words, n - 1);
    }
}

/// The four bytes of pixel `k` stand at four times its index.
pub proof fn lemma_rgba_at(words: Seq<u32>, n: int, k: int)
    requires
        0 <= k < n,
    ensures
        rgba_bytes(words, n).len() == 4 * n,
        rgba_bytes(words, n)[4 * k] == word_red(words[k]) as u8,
        rgba_bytes(words, n)[4 * k + 1] == word_green(words[k]) as u8,
        rgba_bytes(words, n)[4 * k + 2] == word_blue(words[k]) as u8,
        rgba_bytes(words, n)[4 * k + 3] == word_alpha(words[k]) as u8,
    decreases n,
{
    lemma_rgba_len(words, n - 1);
    if k < n - 1 {
        lemma_rgba_at(words, n - 1, k);
    }
}

/// Appends the head of a plain PPM.
pub fn push_ppm_head(text: &mut String, width: usize, height: usize)
    ensures
        final(text)@ == old(text)@ + ppm_head(width as int, height as int),
{
    proof {
        reveal_strlit("P3\n");
        reveal_strlit("\t");
        reveal_strlit("\n255\n");
    }
    text.append("P3\n");
    push_digits(text, width as u128);
    text.append("\t");
    push_digits(text, height as u128);
    text.append("\n255\n");
    assert(final(text)@ =~= old(text)@ + ppm_head(width as int, height as int));
}

/// Appends the line of one pixel.
pub fn push_ppm_line(text: &mut String, w: u32)
    ensures
        final(text)@ == old(text)@ + ppm_line(w),
{
    proof {
        reveal_strlit(" ");
        reveal_strlit("\n");
    }
    push_digits(text, red(w) as u128);
    text.append(" ");
    push_digits(text, green(w) as u128);
    text.append(" ");
    push_digits(text, blue(w) as u128);
    text.append("\n");
    assert(final(text)@ =~= old(text)@ + ppm_line(w));
}

/// Appends the four bytes of one pixel.
pub fn push_rgba(bytes: &mut Vec<u8>, w: u32)
    ensures
        final(bytes)@ == old(bytes)@ + rgba_of(w),
{
    bytes.push(red(w) as u8);
    bytes.push(green(w) as u8);
    bytes.push(blue(w) as u8);
    bytes.push(alpha(w) as u8);
    assert(final(bytes)@ =~= old(bytes)@ + rgba_of(w));
}

} // verus!
