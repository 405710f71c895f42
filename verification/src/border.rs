//! The thresholding pass flags no pixel in the first or the last column:
//! the centre of a bullseye lies inside the runs that were counted in its
//! row, at least two pixels from either end of them.

use vstd::prelude::*;
use crate::field::{flag_three, is_white, Field, Pass, AVERAGE_MAX};
use crate::pixel::{class_word, word_average, word_flagged, word_intensity};
use crate::ring::{lemma_centre_within_span, lemma_step_span};
use crate::search::flagged_at;
use crate::order::{cell, lemma_cell, lemma_cell_apart, read, word_of};

verus! {

/// What holds of the pass when it comes to the `i`-th pixel of row `j`: of
/// the pixels that it has read, the first and the last of each row are not
/// flagged.
spec fn inner_pass(f: Field, p: Pass, j: int, i: int) -> bool {
    &&& p.words.len() == f.words.len()
    &&& 0 <= p.average <= AVERAGE_MAX
    &&& p.ring.wf()
    &&& p.ring.span() <= i
    &&& forall|r: int, m: int|
        0 <= r < f.height && 0 <= m < f.width && read(j, i, r, m) && (m == 0 || m == f.width - 1)
            ==> !word_flagged(#[trigger] word_of(p, f.width, r, m))
}

/// A word of class and average holds no flag.
proof fn lemma_class_word_unflagged(white: bool, average: int)
    requires
        0 <= average <= AVERAGE_MAX,
    ensures
        !word_flagged(class_word(white, average)),
{
}

/// The intensity of a word lies between 0 and 255.
proof fn lemma_intensity_range(w: u32)
    ensures
        0 <= word_intensity(w) <= 255,
{
}

/// One pixel on, the first and last pixels read are still not flagged.
proof fn lemma_inner_step(f: Field, p: Pass, j: int, i: int)
    requires
        f.width > 0,
        f.words.len() == f.width * f.height,
        0 <= j < f.height,
        0 <= i < f.width,
        inner_pass(f, p, j, i),
    ensures
        inner_pass(f, f.pass_step(p, j, i), j, i + 1),
{
    let w = f.width;
    let k = cell(w, j, i);
    let q = f.pass_step(p, j, i);
    lemma_cell(w, f.height, j, i);
    lemma_intensity_range(p.words[k]);
    let intensity = word_intensity(p.words[k]);
    let average = p.average + intensity - p.average / 30;
    assert(q.average == average);
    assert(0 <= average <= AVERAGE_MAX);
    let threshold = if j > 0 {
        (average + word_average(p.words[k - w])) / 60
    } else {
        average / 30
    };
    let white = is_white(intensity, threshold);
    let word = class_word(white, average);
    lemma_class_word_unflagged(white, average);
    let written = p.words.update(k, word);
    lemma_step_span(p.ring, white);
    assert(q.ring == p.ring.step(white));
    let hit = p.ring.centre_back(white, f.max_unit);
    if let Some(d) = hit {
        lemma_centre_within_span(p.ring, white, f.max_unit);
        lemma_cell(w, f.height, j, i - d - 1);
        lemma_cell(w, f.height, j, i - d);
        lemma_cell(w, f.height, j, i - d + 1);
        let centre = if j % 2 == 0 {
            k - d
        } else {
            k + d
        };
        assert(centre == cell(w, j, i - d));
        assert(0 <= centre - 1 && centre + 1 < written.len());
        assert(q.words == flag_three(written, centre));
    }
    assert(q.words.len() == f.words.len());
    assert forall|r: int, m: int|
        0 <= r < f.height && 0 <= m < w && read(j, i + 1, r, m) && (m == 0 || m == w - 1) implies
        !word_flagged(#[trigger] word_of(q, w, r, m)) by {
        lemma_cell(w, f.height, r, m);
        let at = cell(w, r, m);
        // What the pixel's own step wrote there, or what was there before.
        assert(!word_flagged(written[at])) by {
            if r == j && m == i {
            } else {
                if at == k {
                    lemma_cell_apart(w, r, m, j, i);
                }
                assert(read(j, i, r, m));
                assert(written[at] == word_of(p, w, r, m));
            }
        }
        if let Some(d) = hit {
            // The three pixels flagged are those read d - 1, d and d + 1
            // pixels before this one.
            let centre = cell(w, j, i - d);
            if at == centre - 1 || at == centre || at == centre + 1 {
                if j % 2 == 0 {
                    assert(centre - 1 == cell(w, j, i - d - 1));
                    assert(centre + 1 == cell(w, j, i - d + 1));
                } else {
                    assert(centre - 1 == cell(w, j, i - d + 1));
                    assert(centre + 1 == cell(w, j, i - d - 1));
                }
                if at == cell(w, j, i - d - 1) {
                    lemma_cell_apart(w, r, m, j, i - d - 1);
                }
                if at == cell(w, j, i - d) {
                    lemma_cell_apart(w, r, m, j, i - d);
                }
                if at == cell(w, j, i - d + 1) {
                    lemma_cell_apart(w, r, m, j, i - d + 1);
                }
            }
            assert(q.words[at] == written[at]);
        } else {
            assert(q.words == written);
        }
    }
}

/// At every pixel of the pass, the first and last pixels read are not
/// flagged.
proof fn lemma_inner_pass(f: Field, j: int, i: int)
    requires
        f.width > 0,
        f.words.len() == f.width * f.height,
        0 <= j <= f.height,
        0 <= i <= f.width,
        j == f.height ==> i == 0,
    ensures
        inner_pass(f, f.pass_before(j, i), j, i),
    decreases j, i,
{
    let w = f.width;
    if i > 0 {
        lemma_inner_pass(f, j, i - 1);
        lemma_inner_step(f, f.pass_before(j, i - 1), j, i - 1);
    } else if j > 0 {
        lemma_inner_pass(f, j - 1, w);
        let p = f.pass_before(j - 1, w);
        let q = f.pass_before(j, 0);
        assert forall|r: int, m: int|
            0 <= r < f.height && 0 <= m < w && read(j, 0, r, m) && (m == 0 || m == w - 1) implies
            !word_flagged(#[trigger] word_of(q, w, r, m)) by {
            assert(read(j - 1, w, r, m));
            assert(word_of(q, w, r, m) == word_of(p, w, r, m));
        }
    }
}

/// After thresholding no pixel of the first or the last column is flagged,
/// whatever the field held before. So a flagged pixel has a pixel on either
/// side of it in its row.
pub proof fn lemma_border_columns_unflagged(f: Field, y: int)
    requires
        f.width > 0,
        f.words.len() == f.width * f.height,
        0 <= y < f.height,
    ensures
        !flagged_at(f.thresholded(), 0, y),
        !flagged_at(f.thresholded(), f.width - 1, y),
{
    let w = f.width;
    let p = f.pass_before(f.height, 0);
    lemma_inner_pass(f, f.height, 0);
    assert(read(f.height, 0, y, 0) && read(f.height, 0, y, w - 1));
    let first = if y % 2 == 0 {
        0
    } else {
        w - 1
    };
    assert(cell(w, y, first) == y * w + 0);
    assert(cell(w, y, w - 1 - first) == y * w + (w - 1));
    assert(!word_flagged(word_of(p, w, y, first)));
    assert(!word_flagged(word_of(p, w, y, w - 1 - first)));
}

} // verus!
