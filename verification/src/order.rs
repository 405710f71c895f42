//! The order in which the thresholding pass reads the pixels: row by row,
//! even rows from the left and odd rows from the right.

use vstd::prelude::*;
use crate::field::Pass;

verus! {

/// Index of the `m`-th pixel that the pass reads in row `r`.
pub open spec fn cell(width: int, r: int, m: int) -> int {
    r * width + (if r % 2 == 0 {
        m
    } else {
        width - 1 - m
    })
}

/// Whether the pass has read the `m`-th pixel of row `r` when it comes to
/// the `i`-th pixel of row `j`.
pub open spec fn read(j: int, i: int, r: int, m: int) -> bool {
    r < j || (r == j && m < i)
}

/// The word of the `m`-th pixel of row `r`.
pub open spec fn word_of(p: Pass, width: int, r: int, m: int) -> u32 {
    p.words[cell(width, r, m)]
}

/// The pixels that the pass reads lie in the field, each at a place of its
/// own, and the pixel above one lies as far from the end of its row as the
/// pixel below from the start.
pub proof fn lemma_cell(width: int, height: int, r: int, m: int)
    requires
        0 <= r < height,
        0 <= m < width,
    ensures
        0 <= cell(width, r, m) < width * height,
        r * width <= cell(width, r, m) < r * width + width,
        r > 0 ==> cell(width, r, m) - width == cell(width, r - 1, width - 1 - m),
{
    assert(0 <= r * width && r * width + width <= height * width && height * width == width
        * height && (r - 1) * width == r * width - width) by (nonlinear_arith)
        requires
            0 <= r < height,
            0 < width,
    ;
}

/// Two pixels at one place are one pixel.
pub proof fn lemma_cell_apart(width: int, r: int, m: int, r2: int, m2: int)
    requires
        0 <= m < width,
        0 <= m2 < width,
        cell(width, r, m) == cell(width, r2, m2),
    ensures
        r == r2,
        m == m2,
{
    if r < r2 {
        assert(r2 * width >= r * width + width) by (nonlinear_arith)
            requires
                r < r2,
                width > 0,
        ;
    }
    if r2 < r {
        assert(r * width >= r2 * width + width) by (nonlinear_arith)
            requires
                r2 < r,
                width > 0,
        ;
    }
}

} // verus!
