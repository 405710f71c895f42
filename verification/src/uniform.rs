//! A uniformly black image holds no symbol: the thresholding pass over it
//! never sees the second black run that a bullseye must have.
//!
//! In a black image the running average only decays. On the first row the
//! threshold falls with it, so that the row is black up to some pixel and
//! white from there on. On every later row the threshold is the sum of the
//! running average and the average stored above. The row above was read in
//! the other direction, so along the row the stored averages rise, and they
//! rise at least as fast as the running average falls: the row is white up
//! to some pixel and black from there on.

use vstd::prelude::*;
use crate::field::{Field, Pass, INITIAL_AVERAGE};
use crate::order::{cell, lemma_cell, lemma_cell_apart, read, word_of};
use crate::pixel::{class_word, word_average, word_flagged, word_intensity};
use crate::ring::Ring;
use crate::search::{flagged_at, found_before, qualifies, symbols, symbols_of, MARGIN};
use crate::topcode::TopCode;

verus! {

/// Whether every pixel of the field has intensity 0.
pub open spec fn is_black(f: Field) -> bool {
    forall|k: int| 0 <= k < f.words.len() ==> word_intensity(#[trigger] f.words[k]) == 0
}

/// Whether no pixel of the field is flagged as a candidate.
pub open spec fn no_flags(f: Field) -> bool {
    forall|k: int| 0 <= k < f.words.len() ==> !word_flagged(#[trigger] f.words[k])
}

/// The running average after a pixel of intensity 0.
spec fn decay(s: int) -> int {
    s - s / 30
}

/// The average stored in the `m`-th pixel of row `r`.
spec fn stored(p: Pass, width: int, r: int, m: int) -> int {
    word_average(word_of(p, width, r, m))
}

/// What holds of the automaton during the pass over a black image.
spec fn black_ring(f: Field, p: Pass, j: int, i: int) -> bool {
    if j == 0 {
        match p.ring {
            Ring::Seek => i > 0 ==> p.average < 30,
            Ring::FirstBlack { b1 } => true,
            Ring::White { b1, w1 } => p.average < 30,
            Ring::SecondBlack { b1, w1, b2 } => false,
        }
    } else {
        match p.ring {
            Ring::Seek => true,
            Ring::FirstBlack { b1 } => i >= 1 && p.average + stored(p, f.width, j - 1, f.width - i)
                >= 60,
            _ => false,
        }
    }
}

/// What holds of the pass over a black image when it comes to the `i`-th
/// pixel of row `j`.
spec fn black_pass(f: Field, p: Pass, j: int, i: int) -> bool {
    &&& p.words.len() == f.words.len()
    &&& p.candidates == 0
    &&& 0 <= p.average <= 128
    &&& forall|r: int, m: int|
        0 <= r < f.height && 0 <= m < f.width && read(j, i, r, m) ==> {
            &&& !word_flagged(#[trigger] word_of(p, f.width, r, m))
            &&& p.average <= stored(p, f.width, r, m) <= 128
        }
    &&& forall|r: int, m: int|
        0 <= r < f.height && 0 <= m < f.width && !read(j, i, r, m) ==> #[trigger] word_of(
            p,
            f.width,
            r,
            m,
        ) == f.words[cell(f.width, r, m)]
    &&& forall|r: int, m: int|
        0 <= r < f.height && 1 <= m < f.width && read(j, i, r, m) ==> #[trigger] stored(
            p,
            f.width,
            r,
            m,
        ) == decay(stored(p, f.width, r, m - 1))
    &&& (i > 0 ==> p.average == stored(p, f.width, j, i - 1))
    &&& (i == 0 && j > 0 ==> p.average == stored(p, f.width, j - 1, f.width - 1))
    &&& black_ring(f, p, j, i)
}

/// A word of class and average that was not flagged holds its average and
/// no flag.
proof fn lemma_class_word(white: bool, average: int)
    requires
        0 <= average <= 128,
    ensures
        !word_flagged(class_word(white, average)),
        word_average(class_word(white, average)) == average,
{
}

/// One pixel on, the pass over a black image is as it was described.
proof fn lemma_black_step(f: Field, p: Pass, j: int, i: int)
    requires
        f.width > 0,
        f.words.len() == f.width * f.height,
        is_black(f),
        0 <= j < f.height,
        0 <= i < f.width,
        black_pass(f, p, j, i),
    ensures
        black_pass(f, f.pass_step(p, j, i), j, i + 1),
{
    let w = f.width;
    let k = cell(w, j, i);
    let q = f.pass_step(p, j, i);
    lemma_cell(w, f.height, j, i);
    assert(word_of(p, w, j, i) == f.words[k]);
    assert(word_intensity(p.words[k]) == 0);
    let average = decay(p.average);
    let above = if j > 0 {
        stored(p, w, j - 1, w - 1 - i)
    } else {
        0
    };
    if j > 0 {
        lemma_cell(w, f.height, j - 1, w - 1 - i);
        assert(p.words[k - w] == word_of(p, w, j - 1, w - 1 - i));
        assert(p.average <= above <= 128);
    }
    let threshold = if j > 0 {
        (average + above) / 60
    } else {
        average / 30
    };
    let white = threshold <= 0;
    assert(p.ring.centre_back(white, f.max_unit).is_none());
    let word = class_word(white, average);
    lemma_class_word(white, average);
    assert(q.words == p.words.update(k, word));
    assert(q.average == average);
    assert(q.ring == p.ring.step(white));
    assert(q.candidates == 0);
    assert forall|r: int, m: int| 0 <= r < f.height && 0 <= m < w implies #[trigger] word_of(
        q,
        w,
        r,
        m,
    ) == (if r == j && m == i {
        word
    } else {
        word_of(p, w, r, m)
    }) by {
        lemma_cell(w, f.height, r, m);
        if !(r == j && m == i) {
            if cell(w, r, m) == k {
                lemma_cell_apart(w, r, m, j, i);
            }
        }
    }
    assert forall|r: int, m: int|
        0 <= r < f.height && 0 <= m < w && read(j, i + 1, r, m) implies {
        &&& !word_flagged(#[trigger] word_of(q, w, r, m))
        &&& q.average <= stored(q, w, r, m) <= 128
    } by {
        if !(r == j && m == i) {
            assert(read(j, i, r, m));
            assert(word_of(q, w, r, m) == word_of(p, w, r, m));
        }
    }
    assert forall|r: int, m: int|
        0 <= r < f.height && 0 <= m < w && !read(j, i + 1, r, m) implies #[trigger] word_of(
        q,
        w,
        r,
        m,
    ) == f.words[cell(w, r, m)] by {
        assert(!read(j, i, r, m));
        assert(word_of(q, w, r, m) == word_of(p, w, r, m));
    }
    assert forall|r: int, m: int|
        0 <= r < f.height && 1 <= m < w && read(j, i + 1, r, m) implies #[trigger] stored(
        q,
        w,
        r,
        m,
    ) == decay(stored(q, w, r, m - 1)) by {
        assert(word_of(q, w, r, m - 1) == word_of(p, w, r, m - 1));
        if r == j && m == i {
            assert(stored(q, w, r, m) == average);
            assert(p.average == stored(p, w, j, i - 1));
        } else {
            assert(read(j, i, r, m));
            assert(word_of(q, w, r, m) == word_of(p, w, r, m));
            assert(stored(p, w, r, m) == decay(stored(p, w, r, m - 1)));
        }
    }
    assert(stored(q, w, j, i) == average);
    if j > 0 {
        assert(word_of(q, w, j - 1, w - 1 - i) == word_of(p, w, j - 1, w - 1 - i));
        assert(stored(q, w, j - 1, w - (i + 1)) == above);
        if p.ring is FirstBlack {
            // The pixel before was black: the average stored above it was
            // one decay on from the one above this pixel.
            assert(read(j, i, j - 1, w - i));
            assert(stored(p, w, j - 1, w - i) == decay(stored(p, w, j - 1, w - i - 1)));
            assert(p.average + decay(above) >= 60);
            assert(average + above >= 60);
            assert(!white);
        }
    }
    assert(black_ring(f, q, j, i + 1));
}

/// The pass over a black image is as it was described, at every pixel.
proof fn lemma_black_pass(f: Field, j: int, i: int)
    requires
        f.width > 0,
        f.words.len() == f.width * f.height,
        is_black(f),
        0 <= j <= f.height,
        0 <= i <= f.width,
        j == f.height ==> i == 0,
    ensures
        black_pass(f, f.pass_before(j, i), j, i),
    decreases j, i,
{
    let w = f.width;
    if i > 0 {
        lemma_black_pass(f, j, i - 1);
        lemma_black_step(f, f.pass_before(j, i - 1), j, i - 1);
    } else if j > 0 {
        lemma_black_pass(f, j - 1, w);
        let p = f.pass_before(j - 1, w);
        let q = f.pass_before(j, 0);
        assert(q == Pass { ring: Ring::Seek, ..p });
        assert forall|r: int, m: int| 0 <= r < f.height && 0 <= m < w implies (read(j, 0, r, m)
            == read(j - 1, w, r, m)) && #[trigger] word_of(q, w, r, m) == word_of(p, w, r, m) by {}
        assert forall|r: int, m: int|
            0 <= r < f.height && 1 <= m < w && read(j, 0, r, m) implies #[trigger] stored(
            q,
            w,
            r,
            m,
        ) == decay(stored(q, w, r, m - 1)) by {
            assert(read(j - 1, w, r, m));
            assert(stored(p, w, r, m) == decay(stored(p, w, r, m - 1)));
            assert(word_of(q, w, r, m - 1) == word_of(p, w, r, m - 1));
        }
        assert(stored(q, w, j - 1, w - 1) == stored(p, w, j - 1, w - 1));
    } else {
        let q = f.pass_before(0, 0);
        assert(q.average == INITIAL_AVERAGE);
        assert forall|r: int, m: int|
            0 <= r < f.height && 0 <= m < w && !read(0, 0, r, m) implies #[trigger] word_of(
            q,
            w,
            r,
            m,
        ) == f.words[cell(w, r, m)] by {}
    }
}

/// Thresholding a black field flags no pixel.
pub proof fn lemma_black_field_has_no_flags(f: Field)
    requires
        f.width > 0,
        f.height > 0,
        f.words.len() == f.width * f.height,
        is_black(f),
    ensures
        no_flags(f.thresholded()),
        f.thresholded().candidates == 0,
        f.thresholded().words.len() == f.words.len(),
{
    let w = f.width;
    let p = f.pass_before(f.height, 0);
    lemma_black_pass(f, f.height, 0);
    assert forall|k: int| 0 <= k < p.words.len() implies !word_flagged(#[trigger] p.words[k]) by {
        let r = k / w;
        let c = k % w;
        vstd::arithmetic::div_mod::lemma_fundamental_div_mod(k, w);
        assert(w * r == r * w) by (nonlinear_arith);
        assert(0 <= r < f.height) by (nonlinear_arith)
            requires
                0 <= k < w * f.height,
                k == r * w + c,
                0 <= c < w,
        ;
        let m = if r % 2 == 0 {
            c
        } else {
            w - 1 - c
        };
        assert(cell(w, r, m) == k);
        assert(read(f.height, 0, r, m));
        assert(!word_flagged(word_of(p, w, r, m)));
    }
}

/// No symbol is found in a field without flags.
proof fn lemma_nothing_found(f: Field, j: int, i: int)
    requires
        f.width > 0,
        f.words.len() == f.width * f.height,
        no_flags(f),
        j <= f.height - MARGIN,
        0 <= i <= f.width,
        i > 0 ==> MARGIN <= j < f.height - MARGIN,
    ensures
        found_before(f, j, i) == Seq::<TopCode>::empty(),
    decreases j, i,
{
    if i > 0 {
        lemma_nothing_found(f, j, i - 1);
        let k = j * f.width + (i - 1);
        assert(0 <= k < f.width * f.height) by (nonlinear_arith)
            requires
                0 <= j < f.height,
                0 <= i - 1 < f.width,
                k == j * f.width + (i - 1),
        ;
        assert(!word_flagged(f.words[k]));
        assert(!flagged_at(f, i - 1, j));
        assert(!qualifies(f, i - 1, j));
    } else if j > MARGIN {
        lemma_nothing_found(f, j - 1, f.width);
    }
}

/// A field in which no pixel is flagged has no symbols.
pub proof fn lemma_no_flags_no_symbols(f: Field)
    requires
        f.width > 0,
        f.words.len() == f.width * f.height,
        no_flags(f),
    ensures
        symbols(f) == Seq::<TopCode>::empty(),
{
    lemma_nothing_found(f, f.height - MARGIN, 0);
}

/// A uniformly black image of any size yields no symbols.
pub proof fn lemma_black_image_yields_no_symbols(bytes: Seq<u8>, width: int, height: int)
    requires
        width > 0,
        height > 0,
        bytes.len() == 3 * (width * height),
        forall|i: int| 0 <= i < bytes.len() ==> bytes[i] == 0,
    ensures
        symbols_of(bytes, width, height) == Seq::<TopCode>::empty(),
{
    let f = Field::from_rgb(bytes, width, height);
    assert(width * height >= 0) by (nonlinear_arith)
        requires
            width > 0,
            height > 0,
    ;
    assert(is_black(f)) by {
        assert forall|k: int| 0 <= k < f.words.len() implies word_intensity(
            #[trigger] f.words[k],
        ) == 0 by {
            assert(f.words[k] == 0xff00_0000u32);
        }
    }
    lemma_black_field_has_no_flags(f);
    lemma_no_flags_no_symbols(f.thresholded());
}

} // verus!
