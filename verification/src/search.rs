//! The second pass over a thresholded field, as a mathematical function:
//! which pixels are tried as the centre of a symbol, and which symbols are
//! kept.

use vstd::prelude::*;
use crate::candidate::Candidate;
use crate::field::{lemma_sides_small, Field};
use crate::pixel::word_flagged;
use crate::bits::CODE_MASK;
use crate::reading::{decoded, lemma_decoded_code};
use crate::topcode::{checksum_ok, TopCode};

verus! {

/// First row of the second pass. The last is as far from the bottom.
pub const MARGIN: usize = 2;

/// Whether the ring scan has flagged the pixel.
pub open spec fn flagged_at(f: Field, x: int, y: int) -> bool {
    word_flagged(f.word_at(x, y))
}

/// Whether the pixel is a candidate: the ring scan has flagged it and the
/// four pixels next to it, to the left and right in its row and above and
/// below in its column. A pixel in the first or last column has no pixel on
/// one side and is none.
pub open spec fn qualifies(f: Field, x: int, y: int) -> bool {
    &&& 1 <= x < f.width - 1
    &&& flagged_at(f, x, y)
    &&& flagged_at(f, x - 1, y)
    &&& flagged_at(f, x + 1, y)
    &&& flagged_at(f, x, y - 1)
    &&& flagged_at(f, x, y + 1)
}

/// Whether the pixel lies in the bullseye of one of the symbols.
pub open spec fn overlaps(found: Seq<TopCode>, x: int, y: int) -> bool {
    exists|n: int| 0 <= n < found.len() && #[trigger] found[n].contains_point(480 * x, 480 * y)
}

/// The symbols after the candidate was tried: it is decoded unless it lies
/// in the bullseye of a symbol found before, and what it decodes to is added
/// at the end if it has a code.
pub open spec fn try_candidate(f: Field, found: Seq<TopCode>, c: Candidate) -> Seq<TopCode> {
    if overlaps(found, c.x as int, c.y as int) {
        found
    } else {
        let symbol = decoded(TopCode::initial(), f, c.x as int, c.y as int);
        if symbol.code.is_some() {
            found.push(symbol)
        } else {
            found
        }
    }
}

/// The symbols after the pixel (`x`, `y`) was passed.
pub open spec fn find_step(f: Field, found: Seq<TopCode>, x: int, y: int) -> Seq<TopCode> {
    if qualifies(f, x, y) {
        try_candidate(f, found, Candidate { x: x as usize, y: y as usize })
    } else {
        found
    }
}

/// The symbols found before the pass comes to pixel `i` of row `j`. The pass
/// goes through the rows from [`MARGIN`] on, each from left to right.
pub open spec fn found_before(f: Field, j: int, i: int) -> Seq<TopCode>
    decreases j, i,
{
    if i > 0 {
        find_step(f, found_before(f, j, i - 1), i - 1, j)
    } else if j > MARGIN {
        found_before(f, j - 1, f.width)
    } else {
        Seq::empty()
    }
}

/// The symbols of a thresholded field, in the order in which the pass finds
/// them: it ends [`MARGIN`] rows above the bottom.
pub open spec fn symbols(f: Field) -> Seq<TopCode> {
    found_before(f, f.height - MARGIN, 0)
}

/// The symbols of an image given as interleaved RGB bytes.
pub open spec fn symbols_of(bytes: Seq<u8>, width: int, height: int) -> Seq<TopCode> {
    symbols(Field::from_rgb(bytes, width, height).thresholded())
}

/// Whether `symbol` was decoded from a candidate of the field that lies in
/// the bullseye of none of the symbols `before`.
pub open spec fn found_apart(f: Field, before: Seq<TopCode>, symbol: TopCode) -> bool {
    exists|x: int, y: int|
        {
            &&& 0 <= x < f.width
            &&& MARGIN <= y < f.height - MARGIN
            &&& qualifies(f, x, y)
            &&& !overlaps(before, x, y)
            &&& symbol == #[trigger] decoded(TopCode::initial(), f, x, y)
        }
}

/// What holds of the symbols that a pass has found: each has a valid code,
/// and each was decoded from a candidate outside the bullseyes of all the
/// symbols found before it.
pub open spec fn well_found(f: Field, found: Seq<TopCode>) -> bool {
    forall|n: int|
        0 <= n < found.len() ==> {
            &&& (#[trigger] found[n]).code matches Some(c) && c <= CODE_MASK && checksum_ok(c)
            &&& found_apart(f, found.subrange(0, n), found[n])
        }
}

/// The first symbol found wins: a candidate that lies in the bullseye of a
/// symbol found before it is not decoded, and the symbols stay as they are.
pub proof fn lemma_first_found_wins(f: Field, found: Seq<TopCode>, c: Candidate, n: int)
    requires
        0 <= n < found.len(),
        found[n].contains_point(480 * c.x, 480 * c.y),
    ensures
        try_candidate(f, found, c) == found,
{
}

/// Trying a candidate keeps the symbols found before it, in their order, and
/// adds at most one after them.
pub proof fn lemma_try_candidate_extends(f: Field, found: Seq<TopCode>, c: Candidate)
    ensures
        found.len() <= try_candidate(f, found, c).len() <= found.len() + 1,
        try_candidate(f, found, c).subrange(0, found.len() as int) == found,
{
    let next = try_candidate(f, found, c);
    assert(next.subrange(0, found.len() as int) =~= found);
}

/// One more pixel keeps the symbols well found.
proof fn lemma_find_step_well_found(f: Field, found: Seq<TopCode>, x: int, y: int)
    requires
        f.wf(),
        well_found(f, found),
        0 <= x < f.width,
        MARGIN <= y < f.height - MARGIN,
    ensures
        well_found(f, find_step(f, found, x, y)),
{
    lemma_sides_small(f);
    let next = find_step(f, found, x, y);
    if next != found {
        let symbol = decoded(TopCode::initial(), f, x, y);
        assert(next == found.push(symbol));
        assert(qualifies(f, x, y) && !overlaps(found, x, y));
        assert(found_apart(f, found, symbol));
        lemma_decoded_code(TopCode::initial(), f, x, y);
        assert forall|n: int| 0 <= n < next.len() implies {
            &&& (#[trigger] next[n]).code matches Some(c) && c <= CODE_MASK && checksum_ok(c)
            &&& found_apart(f, next.subrange(0, n), next[n])
        } by {
            if n < found.len() {
                assert(next[n] == found[n]);
                assert(next.subrange(0, n) =~= found.subrange(0, n));
            } else {
                assert(next.subrange(0, n) =~= found);
            }
        }
    }
}

/// The symbols found up to any pixel of the pass are well found.
pub proof fn lemma_found_before_well_found(f: Field, j: int, i: int)
    requires
        f.wf(),
        j <= f.height - MARGIN,
        0 <= i <= f.width,
        i > 0 ==> MARGIN <= j < f.height - MARGIN,
    ensures
        well_found(f, found_before(f, j, i)),
    decreases j, i,
{
    if i > 0 {
        lemma_found_before_well_found(f, j, i - 1);
        lemma_find_step_well_found(f, found_before(f, j, i - 1), i - 1, j);
    } else if j > MARGIN {
        lemma_found_before_well_found(f, j - 1, f.width);
    }
}

/// Every symbol of a field has a valid code. No two of them come from
/// candidates in one bullseye: each was decoded from a candidate that lies
/// outside the bullseye of every symbol found before it, so that of the
/// candidates in one bullseye only the first in the order of the pass gives
/// a symbol.
pub proof fn lemma_symbols_well_found(f: Field)
    requires
        f.wf(),
    ensures
        well_found(f, symbols(f)),
{
    lemma_found_before_well_found(f, f.height - MARGIN, 0);
}

/// Scanning is a function of the image: the same bytes with the same
/// dimensions give the same symbols.
pub proof fn lemma_scan_deterministic(a: Seq<u8>, b: Seq<u8>, width: int, height: int)
    requires
        a.len() == b.len(),
        forall|i: int| 0 <= i < a.len() ==> a[i] == b[i],
    ensures
        symbols_of(a, width, height) == symbols_of(b, width, height),
{
    assert(a =~= b);
}

} // verus!
