//! The pixel field as a mathematical value, and what sampling reads from it.

use vstd::prelude::*;
use crate::pixel::{class_word, flag_word, rgb_word, word_average, word_class, word_intensity};
use crate::ring::Ring;

verus! {

/// Largest ring width, in pixels, that the ring scan accepts by default.
pub const DEFAULT_MAX_UNIT: usize = 80;

/// A field of `width` × `height` pixel words in row-major order, with the
/// settings and counters of the scan that owns it.
pub struct Field {
    pub width: int,
    pub height: int,
    pub words: Seq<u32>,
    /// Largest accepted width of one ring, in pixels.
    pub max_unit: int,
    /// Number of candidate flags set by the last thresholding pass.
    pub candidates: int,
}

/// Number of pixels over which the running intensity average decays.
pub const AVERAGE_SPAN: u32 = 30;

/// The running average at the start of a pass, as a sum over the span.
pub const INITIAL_AVERAGE: u32 = 128;

/// The running average never exceeds this: 255 per pixel of the span, and
/// the remainder that the decay leaves.
pub const AVERAGE_MAX: u32 = 7679;

/// The thresholding pass part of the way through a field.
pub struct Pass {
    /// The words, thresholded as far as the pass has come.
    pub words: Seq<u32>,
    /// Decayed sum of the intensities read so far.
    pub average: int,
    /// The ring automaton on the current row.
    pub ring: Ring,
    /// Number of candidate flags set so far.
    pub candidates: int,
}

/// The words with the candidate flag set on the pixel at `centre` and on its
/// two neighbours in the row.
pub open spec fn flag_three(words: Seq<u32>, centre: int) -> Seq<u32> {
    let one = words.update(centre - 1, flag_word(words[centre - 1]));
    let two = one.update(centre, flag_word(one[centre]));
    two.update(centre + 1, flag_word(two[centre + 1]))
}

/// Whether a pixel of the given intensity is white against a threshold: the
/// intensity is at least 97.5% of the threshold.
pub open spec fn is_white(intensity: int, threshold: int) -> bool {
    40 * intensity >= 39 * threshold
}

/// A pixel inside a `width` × `height` field has its word inside the array.
pub proof fn lemma_index_in_bounds(x: int, y: int, width: int, height: int)
    requires
        0 <= x < width,
        0 <= y < height,
    ensures
        0 <= y * width <= y * width + x < width * height,
        (y + 1) * width == y * width + width,
        (y + 1) * width <= width * height,
{
    assert(y * width >= 0) by (nonlinear_arith)
        requires
            y >= 0,
            width >= 0,
    ;
    assert((y + 1) * width == y * width + width) by (nonlinear_arith);
    assert((y + 1) * width <= height * width) by (nonlinear_arith)
        requires
            y + 1 <= height,
            width >= 0,
    ;
    assert(height * width == width * height) by (nonlinear_arith);
}

/// Each side of a well-formed field is at most a third of the largest index,
/// so it can be counted with a sign.
pub proof fn lemma_sides_small(f: Field)
    requires
        f.wf(),
    ensures
        3 * f.width <= usize::MAX,
        3 * f.height <= usize::MAX,
        f.width <= isize::MAX,
        f.height <= isize::MAX,
        f.width <= f.width * f.height,
        f.height <= f.width * f.height,
{
    assert(f.width <= f.width * f.height && f.height <= f.width * f.height) by (nonlinear_arith)
        requires
            f.width >= 1,
            f.height >= 1,
    ;
}

impl Field {
    /// The field holds one word per pixel, is not empty, and its bytes could
    /// be indexed.
    pub open spec fn wf(self) -> bool {
        &&& self.width > 0
        &&& self.height > 0
        &&& self.words.len() == self.width * self.height
        &&& 3 * (self.width * self.height) <= usize::MAX
        &&& 0 <= self.max_unit <= usize::MAX
        &&& 0 <= self.candidates <= usize::MAX
    }

    /// The field packed from interleaved red, green and blue bytes.
    pub open spec fn from_rgb(bytes: Seq<u8>, width: int, height: int) -> Field {
        Field {
            width,
            height,
            words: Seq::new(
                (width * height) as nat,
                |i: int| rgb_word(bytes[3 * i], bytes[3 * i + 1], bytes[3 * i + 2]),
            ),
            max_unit: DEFAULT_MAX_UNIT as int,
            candidates: 0,
        }
    }

    /// Whether the pixel lies in the field.
    pub open spec fn contains(self, x: int, y: int) -> bool {
        0 <= x < self.width && 0 <= y < self.height
    }

    /// Whether the pixel has all eight neighbours inside the field.
    pub open spec fn interior(self, x: int, y: int) -> bool {
        1 <= x < self.width - 1 && 1 <= y < self.height - 1
    }

    /// The word of one pixel.
    pub open spec fn word_at(self, x: int, y: int) -> u32 {
        self.words[y * self.width + x]
    }

    /// Class of one pixel: 0 black, 1 white.
    pub open spec fn class_at(self, x: int, y: int) -> int {
        word_class(self.word_at(x, y))
    }

    /// Number of white pixels in one row of three around column `x`.
    pub open spec fn white_in_row(self, x: int, y: int) -> int {
        self.class_at(x - 1, y) + self.class_at(x, y) + self.class_at(x + 1, y)
    }

    /// Number of white pixels among the nine around (`x`, `y`).
    pub open spec fn white_around(self, x: int, y: int) -> int {
        self.white_in_row(x, y - 1) + self.white_in_row(x, y) + self.white_in_row(x, y + 1)
    }

    /// Share of white among the nine pixels around (`x`, `y`), from 0 (all
    /// black) to 255 (all white); 0 where the pixel is not interior.
    #[verifier::opaque]
    pub open spec fn sample_3x3(self, x: int, y: int) -> int {
        if self.interior(x, y) {
            255 * self.white_around(x, y) / 9
        } else {
            0
        }
    }

    /// Majority class of the nine pixels around (`x`, `y`): 1 where at least
    /// five are white, else 0; 0 where the pixel is not interior.
    #[verifier::opaque]
    pub open spec fn bw_3x3(self, x: int, y: int) -> int {
        if self.interior(x, y) && self.white_around(x, y) >= 5 {
            1
        } else {
            0
        }
    }

    /// Column of the `i`-th pixel that the pass reads in row `j`: even rows
    /// run left to right, odd rows right to left.
    pub open spec fn pass_column(self, j: int, i: int) -> int {
        if j % 2 == 0 {
            i
        } else {
            self.width - 1 - i
        }
    }

    /// The pass after it has read the `i`-th pixel of row `j`, from its state
    /// `p` before.
    ///
    /// The pixel's intensity joins the running average. The threshold is that
    /// average per pixel of the span, averaged with the one stored in the
    /// pixel above where there is a row above. The word becomes class and
    /// average. Where the pixel completes a bullseye for the ring automaton,
    /// three pixels around the bullseye's centre are flagged.
    pub open spec fn pass_step(self, p: Pass, j: int, i: int) -> Pass {
        let k = j * self.width + self.pass_column(j, i);
        let intensity = word_intensity(p.words[k]);
        let average = p.average + intensity - p.average / (AVERAGE_SPAN as int);
        let threshold = if j > 0 {
            (average + word_average(p.words[k - self.width])) / (2 * AVERAGE_SPAN as int)
        } else {
            average / (AVERAGE_SPAN as int)
        };
        let white = is_white(intensity, threshold);
        let words = p.words.update(k, class_word(white, average));
        match p.ring.centre_back(white, self.max_unit) {
            Some(d) => Pass {
                words: flag_three(
                    words,
                    if j % 2 == 0 {
                        k - d
                    } else {
                        k + d
                    },
                ),
                average,
                ring: p.ring.step(white),
                candidates: p.candidates + 3,
            },
            None => Pass { words, average, ring: p.ring.step(white), candidates: p.candidates },
        }
    }

    /// The pass before it reads the `i`-th pixel of row `j`. Rows follow each
    /// other in serpentine order; the running average goes on from one row
    /// into the next, the ring automaton starts each row afresh.
    pub open spec fn pass_before(self, j: int, i: int) -> Pass
        decreases j, i,
    {
        if i > 0 {
            self.pass_step(self.pass_before(j, i - 1), j, i - 1)
        } else if j > 0 {
            Pass { ring: Ring::Seek, ..self.pass_before(j - 1, self.width) }
        } else {
            Pass {
                words: self.words,
                average: INITIAL_AVERAGE as int,
                ring: Ring::Seek,
                candidates: 0,
            }
        }
    }

    /// The field after the thresholding pass over all its rows.
    pub open spec fn thresholded(self) -> Field {
        let p = self.pass_before(self.height, 0);
        Field { words: p.words, candidates: p.candidates, ..self }
    }

    /// Walks along row `y` from column `i` in steps of `d` (1 or -1) until the
    /// majority class differs from `start`, and gives the distance from
    /// column `x` to that column; -1 where the walk comes within one pixel of
    /// the border first.
    pub open spec fn run_x(self, start: int, x: int, y: int, d: int, i: int) -> int
        decreases
            (if d > 0 {
                self.width - i
            } else {
                i
            }),
    {
        if i <= 1 || i >= self.width - 1 || !(d == 1 || d == -1) {
            -1
        } else if self.bw_3x3(i, y) != start {
            if d > 0 {
                i - x
            } else {
                x - i
            }
        } else {
            self.run_x(start, x, y, d, i + d)
        }
    }

    /// Walks along column `x` from row `j`: see [`Field::run_x`].
    pub open spec fn run_y(self, start: int, x: int, y: int, d: int, j: int) -> int
        decreases
            (if d > 0 {
                self.height - j
            } else {
                j
            }),
    {
        if j <= 1 || j >= self.height - 1 || !(d == 1 || d == -1) {
            -1
        } else if self.bw_3x3(x, j) != start {
            if d > 0 {
                j - y
            } else {
                y - j
            }
        } else {
            self.run_y(start, x, y, d, j + d)
        }
    }

    /// Number of pixels from (`x`, `y`) to the next change of majority class
    /// to the right (`d` = 1) or to the left (`d` = -1); -1 where there is
    /// none before the border.
    pub open spec fn x_dist(self, x: int, y: int, d: int) -> int {
        self.run_x(self.bw_3x3(x, y), x, y, d, x + d)
    }

    /// Number of pixels from (`x`, `y`) to the next change of majority class
    /// downwards (`d` = 1) or upwards (`d` = -1); -1 where there is none
    /// before the border.
    pub open spec fn y_dist(self, x: int, y: int, d: int) -> int {
        self.run_y(self.bw_3x3(x, y), x, y, d, y + d)
    }
}

/// What a walk along a row finds: where it gives a distance `r`, the
/// majority class differs from `start` at the pixel that far from column
/// `x`, and is `start` at every pixel from column `i` up to it.
pub proof fn lemma_run_x(f: Field, start: int, x: int, y: int, d: int, i: int)
    requires
        d == 1 || d == -1,
        d > 0 ==> i > x,
        d < 0 ==> i < x,
    ensures
        ({
            let r = f.run_x(start, x, y, d, i);
            r == -1 || {
                &&& r >= d * (i - x)
                &&& 1 < x + d * r < f.width - 1
                &&& f.bw_3x3(x + d * r, y) != start
                &&& forall|c: int|
                    (if d > 0 {
                        i <= c < x + r
                    } else {
                        x - r < c <= i
                    }) ==> #[trigger] f.bw_3x3(c, y) == start
            }
        }),
    decreases
        (if d > 0 {
            f.width - i
        } else {
            i
        }),
{
    if !(i <= 1 || i >= f.width - 1) && f.bw_3x3(i, y) == start {
        lemma_run_x(f, start, x, y, d, i + d);
    }
}

/// What a walk along a column finds: see [`lemma_run_x`].
pub proof fn lemma_run_y(f: Field, start: int, x: int, y: int, d: int, j: int)
    requires
        d == 1 || d == -1,
        d > 0 ==> j > y,
        d < 0 ==> j < y,
    ensures
        ({
            let r = f.run_y(start, x, y, d, j);
            r == -1 || {
                &&& r >= d * (j - y)
                &&& 1 < y + d * r < f.height - 1
                &&& f.bw_3x3(x, y + d * r) != start
                &&& forall|c: int|
                    (if d > 0 {
                        j <= c < y + r
                    } else {
                        y - r < c <= j
                    }) ==> #[trigger] f.bw_3x3(x, c) == start
            }
        }),
    decreases
        (if d > 0 {
            f.height - j
        } else {
            j
        }),
{
    if !(j <= 1 || j >= f.height - 1) && f.bw_3x3(x, j) == start {
        lemma_run_y(f, start, x, y, d, j + d);
    }
}

/// The distance to the next change of colour, where there is one, is that
/// to the first pixel of the other colour: every pixel between has the
/// colour of the start.
pub proof fn lemma_dist_is_first_change(f: Field, x: int, y: int, d: int)
    requires
        d == 1 || d == -1,
    ensures
        ({
            let r = f.x_dist(x, y, d);
            r == -1 || {
                &&& r >= 1
                &&& f.bw_3x3(x + d * r, y) != f.bw_3x3(x, y)
                &&& forall|c: int|
                    (if d > 0 {
                        x < c < x + r
                    } else {
                        x - r < c < x
                    }) ==> #[trigger] f.bw_3x3(c, y) == f.bw_3x3(x, y)
            }
        }),
        ({
            let r = f.y_dist(x, y, d);
            r == -1 || {
                &&& r >= 1
                &&& f.bw_3x3(x, y + d * r) != f.bw_3x3(x, y)
                &&& forall|c: int|
                    (if d > 0 {
                        y < c < y + r
                    } else {
                        y - r < c < y
                    }) ==> #[trigger] f.bw_3x3(x, c) == f.bw_3x3(x, y)
            }
        }),
{
    lemma_run_x(f, f.bw_3x3(x, y), x, y, d, x + d);
    lemma_run_y(f, f.bw_3x3(x, y), x, y, d, y + d);
}

} // verus!
