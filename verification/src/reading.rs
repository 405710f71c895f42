//! What decoding reads from a thresholded field, as mathematical functions:
//! the ring width around a centre, the code along the rays of a trial, and
//! the trial that fits best.

use vstd::prelude::*;
use crate::bits::{
    lemma_lowest_rotation_stable, lemma_places, lowest_rotation, lowest_rotation_index, CODE_MASK,
    PLACES,
};
use crate::field::{lemma_sides_small, Field};
use crate::scanner::Scanner;
use crate::ring::spec_abs;
use crate::topcode::{checksum_ok, TopCode, ARC_OFFSET, INVALID_UNIT};
use crate::trig::{cos_steps, sin_steps, ARC};

verus! {

/// Furthest that the rings are searched from the centre, in pixels.
pub const MAX_PIXELS: usize = 100;

/// Number of trials of the search: five scales times ten rotations.
pub const TRIALS: usize = 50;

/// Scale of a position along a ray: that of the fixed-point direction times
/// two, as the samples lie at odd halves of the ring width.
pub const RAY_SCALE: i128 = 0x8000_0000;

/// The pixel nearest to a coordinate in sub-pixels, halves upward. A negative
/// coordinate gives pixel 0.
pub open spec fn nearest_pixel(v: int) -> int {
    if v < 0 {
        0
    } else {
        (v + 240) / 480
    }
}

/// How far a walk outward from the centre of a bullseye has come.
#[derive(Clone, Copy, Debug)]
pub enum Edge {
    /// Still in the white centre.
    InCentre,
    /// In the black ring.
    InRing,
    /// The black ring ended `dist` pixels from the centre.
    Found { dist: usize },
}

impl Edge {
    /// The walk after the majority class `sample` was read `i` pixels out.
    pub open spec fn advance(self, sample: int, i: int) -> Edge {
        match self {
            Edge::InCentre => if sample == 0 {
                Edge::InRing
            } else {
                Edge::InCentre
            },
            Edge::InRing => if sample == 1 {
                Edge::Found { dist: i as usize }
            } else {
                Edge::InRing
            },
            Edge::Found { dist } => self,
        }
    }

    /// Reads the majority class `sample` of the pixel `i` out.
    pub fn step(self, sample: u32, i: usize) -> (r: Edge)
        ensures
            r == self.advance(sample as int, i as int),
    {
        match self {
            Edge::InCentre => if sample == 0 {
                Edge::InRing
            } else {
                Edge::InCentre
            },
            Edge::InRing => if sample == 1 {
                Edge::Found { dist: i }
            } else {
                Edge::InRing
            },
            Edge::Found { dist } => self,
        }
    }
}

/// The ring width, in sub-pixels, of a bullseye whose black ring ends at the
/// given distances, in pixels, to the left, right, top and bottom: an eighth
/// of their sum, since each spans two rings. `None` where breadth and height
/// differ by more than that width.
pub open spec fn unit_of(left: int, right: int, up: int, down: int) -> Option<int> {
    let total = left + right + up + down;
    if 8 * spec_abs(right + left - up - down) > total {
        None
    } else {
        Some(60 * total)
    }
}

/// Four walks outward from one pixel: to the left, to the right, up and
/// down.
#[derive(Clone, Copy, Debug)]
pub struct Walk {
    pub left: Edge,
    pub right: Edge,
    pub up: Edge,
    pub down: Edge,
}

impl Walk {
    /// The four walks at their start.
    pub open spec fn start() -> Walk {
        Walk {
            left: Edge::InCentre,
            right: Edge::InCentre,
            up: Edge::InCentre,
            down: Edge::InCentre,
        }
    }

    /// The walks after each has read the pixel `i` out from (`sx`, `sy`).
    pub open spec fn advance(self, f: Field, sx: int, sy: int, i: int) -> Walk {
        Walk {
            left: self.left.advance(f.bw_3x3(sx - i, sy), i),
            right: self.right.advance(f.bw_3x3(sx + i, sy), i),
            up: self.up.advance(f.bw_3x3(sx, sy - i), i),
            down: self.down.advance(f.bw_3x3(sx, sy + i), i),
        }
    }

    /// Whether all four walks have found the end of the black ring.
    pub open spec fn complete(self) -> bool {
        self.left is Found && self.right is Found && self.up is Found && self.down is Found
    }

    /// The ring width that the four distances give.
    pub open spec fn unit(self) -> Option<int> {
        unit_of(
            self.left->dist as int,
            self.right->dist as int,
            self.up->dist as int,
            self.down->dist as int,
        )
    }

    /// Every distance found lies between 1 and `limit`.
    pub open spec fn within(self, limit: int) -> bool {
        &&& self.left is Found ==> 1 <= self.left->dist <= limit
        &&& self.right is Found ==> 1 <= self.right->dist <= limit
        &&& self.up is Found ==> 1 <= self.up->dist <= limit
        &&& self.down is Found ==> 1 <= self.down->dist <= limit
    }
}

impl Walk {
    /// Reads the pixel `i` out from (`sx`, `sy`) in each direction.
    pub fn step(self, scanner: &Scanner, sx: usize, sy: usize, i: usize) -> (r: Walk)
        requires
            scanner@.wf(),
            1 <= i,
            window_fits(scanner@, sx as int, sy as int, i as int),
            self.within(i as int),
        ensures
            r == self.advance(scanner@, sx as int, sy as int, i as int),
            r.within(i as int),
    {
        proof {
            lemma_sides_small(scanner@);
        }
        Walk {
            left: self.left.step(scanner.get_bw_3x3(sx - i, sy), i),
            right: self.right.step(scanner.get_bw_3x3(sx + i, sy), i),
            up: self.up.step(scanner.get_bw_3x3(sx, sy - i), i),
            down: self.down.step(scanner.get_bw_3x3(sx, sy + i), i),
        }
    }

    /// Whether all four walks have found the end of the black ring.
    pub fn is_complete(&self) -> (r: bool)
        ensures
            r == self.complete(),
    {
        match (self.left, self.right, self.up, self.down) {
            (Edge::Found { .. }, Edge::Found { .. }, Edge::Found { .. }, Edge::Found { .. }) => true,
            _ => false,
        }
    }

    /// The ring width, in sub-pixels, that the four distances give.
    pub fn measure(&self) -> (r: Option<i64>)
        requires
            self.complete(),
            self.within(MAX_PIXELS as int),
        ensures
            match r {
                Some(u) => self.unit() == Some(u as int) && 0 < u <= 24000 && u % 60 == 0,
                None => self.unit().is_none(),
            },
    {
        match (self.left, self.right, self.up, self.down) {
            (
                Edge::Found { dist: dl },
                Edge::Found { dist: dr },
                Edge::Found { dist: du },
                Edge::Found { dist: dd },
            ) => {
                let across: usize = dr + dl;
                let along: usize = du + dd;
                let total: usize = across + along;
                let skew: usize = if across >= along {
                    across - along
                } else {
                    along - across
                };
                if 8 * skew > total {
                    None
                } else {
                    Some((60 * total) as i64)
                }
            },
            _ => None,
        }
    }
}

/// Whether the pixels `i` out from (`sx`, `sy`) in the four directions are
/// interior pixels of the field.
pub open spec fn window_fits(f: Field, sx: int, sy: int, i: int) -> bool {
    !(sx < 1 + i || sx + i >= f.width - 1 || sy < 1 + i || sy + i >= f.height - 1)
}

/// The ring width found by walks in the four directions from pixel
/// (`sx`, `sy`) that have come `i` - 1 pixels out. `None` where a walk would
/// leave the interior of the image, or go beyond [`MAX_PIXELS`], before all
/// four have found the end of the black ring.
pub open spec fn unit_from(f: Field, sx: int, sy: int, i: int, walk: Walk) -> Option<int>
    decreases 101 - i,
{
    if i > MAX_PIXELS || !window_fits(f, sx, sy, i) {
        None
    } else {
        let next = walk.advance(f, sx, sy, i);
        if next.complete() {
            next.unit()
        } else {
            unit_from(f, sx, sy, i + 1, next)
        }
    }
}

/// The ring width, in sub-pixels, of the bullseye around the centre
/// (`x`, `y`), itself in sub-pixels.
pub open spec fn measured_unit(f: Field, x: int, y: int) -> Option<int> {
    unit_from(f, nearest_pixel(x), nearest_pixel(y), 1, Walk::start())
}

/// The pixel of sample `i` along a ray, in one coordinate. The ray starts at
/// `origin` (sub-pixels) and has `direction` (cosine or sine of its angle in
/// fixed point); the eight samples lie one ring width apart, at
/// (`i` - 3.5) ring widths from the origin, so that the middle of the ray is
/// the centre of the symbol and each sample falls in the middle of a ring.
/// The position is rounded to the nearest pixel, halves upward; a negative
/// one gives pixel 0.
#[verifier::opaque]
pub open spec fn ray_pixel(origin: int, direction: int, i: int, unit: int) -> int {
    let position = origin * RAY_SCALE + direction * (2 * i - 7) * unit;
    if position < 0 {
        0
    } else {
        (position + 240 * RAY_SCALE) / (480 * RAY_SCALE)
    }
}

/// The eight samples along the ray at `angle` steps from the centre
/// (`x`, `y`), for ring width `unit`.
pub open spec fn sector_core(f: Field, x: int, y: int, unit: int, angle: int) -> Seq<usize> {
    Seq::new(
        8,
        |i: int|
            f.sample_3x3(
                ray_pixel(x, cos_steps(angle), i, unit),
                ray_pixel(y, sin_steps(angle), i, unit),
            ) as usize,
    )
}

/// Whether the samples show the rings of a symbol: white, black, white,
/// white, black, white between the two ends.
pub open spec fn core_passes(core: Seq<usize>) -> bool {
    &&& core[1] > 128
    &&& core[3] > 128
    &&& core[4] > 128
    &&& core[6] > 128
    &&& core[2] <= 128
    &&& core[5] <= 128
}

/// How well the samples of one ray fit a symbol: the whiteness of the white
/// rings, the blackness of the black rings, the contrast of the data sector
/// at the far end, and the darkness of the near end.
pub open spec fn core_confidence(core: Seq<usize>) -> int {
    core[1] + core[3] + core[4] + core[6] + (255 - core[2]) + (255 - core[5]) + spec_abs(
        core[7] * 2 - 255,
    ) + (255 - (core[0] * 2 - 255))
}

/// The bit that the data sector at the far end of the ray holds.
pub open spec fn core_bit(core: Seq<usize>) -> int {
    if core[7] > 128 {
        1
    } else {
        0
    }
}

/// What one trial reads.
pub struct Reading {
    /// Sum of the confidence of the sectors; 0 where the trial failed.
    pub confidence: int,
    /// The bits of the sectors, `None` where the trial failed.
    pub code: Option<u32>,
    /// The samples of the last ray that was read.
    pub core: Seq<usize>,
}

/// Reads the sectors from `sector` down to 0, after the sectors above it
/// gave `confidence` and `bits`. A sector that does not show the rings ends
/// the trial as a failure. After sector 0 the bits are a code if their
/// checksum holds.
pub open spec fn read_sectors(
    f: Field,
    x: int,
    y: int,
    unit: int,
    arc: int,
    sector: int,
    confidence: int,
    bits: int,
) -> Reading
    decreases sector + 1,
{
    if sector < 0 {
        let core = sector_core(f, x, y, unit, arc);
        if checksum_ok(bits as u32) {
            Reading { confidence, code: Some(bits as u32), core }
        } else {
            Reading { confidence: 0, code: None, core }
        }
    } else {
        let core = sector_core(f, x, y, unit, ARC * sector + arc);
        if core_passes(core) {
            read_sectors(
                f,
                x,
                y,
                unit,
                arc,
                sector - 1,
                confidence + core_confidence(core),
                2 * bits + core_bit(core),
            )
        } else {
            Reading { confidence: 0, code: None, core }
        }
    }
}

/// What the trial with ring width `unit` and rotation `arc` reads around the
/// centre (`x`, `y`): the 13 sectors from the last to the first, the bit of
/// the last sector highest.
pub open spec fn reading(f: Field, x: int, y: int, unit: int, arc: int) -> Reading {
    read_sectors(f, x, y, unit, arc, 12, 0, 0)
}

/// Ring width of trial `t`: the measured width scaled by 90%, 95%, 100%,
/// 105% or 110%, ten trials each.
pub open spec fn trial_unit(base: int, t: int) -> int {
    base + (base / 20) * (t / 10 - 2)
}

/// Rotation of trial `t`, in steps: tenths of a sector, from 0 to 9.
pub open spec fn trial_arc(t: int) -> int {
    2 * (t % 10)
}

/// The best of some trials.
pub struct Best {
    pub confidence: int,
    pub unit: int,
    pub arc: int,
}

/// The first of the trials before `t` with the highest confidence; with
/// confidence 0 where they all failed.
pub open spec fn best_trial(f: Field, x: int, y: int, base: int, t: int) -> Best
    decreases t,
{
    if t <= 0 {
        Best { confidence: 0, unit: 0, arc: 0 }
    } else {
        let before = best_trial(f, x, y, base, t - 1);
        let unit = trial_unit(base, t - 1);
        let arc = trial_arc(t - 1);
        let confidence = reading(f, x, y, unit, arc).confidence;
        if confidence > before.confidence {
            Best { confidence, unit, arc }
        } else {
            before
        }
    }
}

/// A sample lies between 0 and 255.
pub proof fn lemma_sample_range(f: Field, x: int, y: int)
    ensures
        0 <= f.sample_3x3(x, y) <= 255,
{
    reveal(Field::sample_3x3);
}

/// A successful reading has positive confidence; a failed one has none.
pub proof fn lemma_read_sectors_confidence(
    f: Field,
    x: int,
    y: int,
    unit: int,
    arc: int,
    sector: int,
    confidence: int,
    bits: int,
)
    requires
        -1 <= sector <= 12,
        confidence >= 0,
        sector < 12 ==> confidence > 0,
    ensures
        ({
            let r = read_sectors(f, x, y, unit, arc, sector, confidence, bits);
            if r.code.is_some() {
                r.confidence > 0
            } else {
                r.confidence == 0
            }
        }),
    decreases sector + 1,
{
    if sector >= 0 {
        let core = sector_core(f, x, y, unit, ARC * sector + arc);
        if core_passes(core) {
            lemma_sample_range(
                f,
                ray_pixel(x, cos_steps(ARC * sector + arc), 0, unit),
                ray_pixel(y, sin_steps(ARC * sector + arc), 0, unit),
            );
            assert(core[0] <= 255);
            lemma_read_sectors_confidence(
                f,
                x,
                y,
                unit,
                arc,
                sector - 1,
                confidence + core_confidence(core),
                2 * bits + core_bit(core),
            );
        }
    }
}

/// Where reading from `sector` down gives a code, every sector from there
/// down shows the rings.
pub proof fn lemma_read_sectors_pass(
    f: Field,
    x: int,
    y: int,
    unit: int,
    arc: int,
    sector: int,
    confidence: int,
    bits: int,
)
    requires
        -1 <= sector,
    ensures
        read_sectors(f, x, y, unit, arc, sector, confidence, bits).code.is_some() ==> forall|
            s: int,
        |
            0 <= s <= sector ==> core_passes(#[trigger] sector_core(f, x, y, unit, ARC * s + arc)),
    decreases sector + 1,
{
    if sector >= 0 {
        let core = sector_core(f, x, y, unit, ARC * sector + arc);
        if core_passes(core) {
            lemma_read_sectors_pass(
                f,
                x,
                y,
                unit,
                arc,
                sector - 1,
                confidence + core_confidence(core),
                2 * bits + core_bit(core),
            );
        }
    }
}

/// A reading gives a code only where each of the 13 sectors shows the rings
/// of a symbol.
pub proof fn lemma_reading_passes(f: Field, x: int, y: int, unit: int, arc: int)
    ensures
        reading(f, x, y, unit, arc).code.is_some() ==> forall|s: int|
            0 <= s < 13 ==> core_passes(#[trigger] sector_core(f, x, y, unit, ARC * s + arc)),
{
    lemma_read_sectors_pass(f, x, y, unit, arc, 12, 0, 0);
}

/// A reading has a code exactly where its confidence is positive.
pub proof fn lemma_reading_confidence(f: Field, x: int, y: int, unit: int, arc: int)
    ensures
        reading(f, x, y, unit, arc).code.is_some() <==> reading(f, x, y, unit, arc).confidence > 0,
        reading(f, x, y, unit, arc).confidence >= 0,
{
    lemma_read_sectors_confidence(f, x, y, unit, arc, 12, 0, 0);
}

/// The centre, in sub-pixels, that a seed pixel is moved to: by a sixth of
/// the difference between the distances to the next change of colour on
/// either side, in each axis.
pub open spec fn refined_x(f: Field, cx: int, cy: int) -> int {
    480 * cx + 80 * (f.x_dist(cx, cy, 1) - f.x_dist(cx, cy, -1))
}

/// See [`refined_x`].
pub open spec fn refined_y(f: Field, cx: int, cy: int) -> int {
    480 * cy + 80 * (f.y_dist(cx, cy, 1) - f.y_dist(cx, cy, -1))
}

/// The best trial is the first with the highest confidence: none of the
/// trials has a higher one, and where any succeeded, the best is one of
/// them and none before it did as well.
pub proof fn lemma_best_trial(f: Field, x: int, y: int, base: int, t: int)
    requires
        0 <= t,
    ensures
        ({
            let best = best_trial(f, x, y, base, t);
            &&& best.confidence >= 0
            &&& forall|n: int|
                0 <= n < t ==> best.confidence >= (#[trigger] reading(
                    f,
                    x,
                    y,
                    trial_unit(base, n),
                    trial_arc(n),
                )).confidence
            &&& best.confidence > 0 ==> exists|n: int|
                {
                    &&& 0 <= n < t
                    &&& best.unit == trial_unit(base, n)
                    &&& best.arc == trial_arc(n)
                    &&& best.confidence == (#[trigger] reading(
                        f,
                        x,
                        y,
                        trial_unit(base, n),
                        trial_arc(n),
                    )).confidence
                    &&& forall|m: int|
                        0 <= m < n ==> best.confidence > (#[trigger] reading(
                            f,
                            x,
                            y,
                            trial_unit(base, m),
                            trial_arc(m),
                        )).confidence
                }
        }),
    decreases t,
{
    if t > 0 {
        lemma_best_trial(f, x, y, base, t - 1);
        let before = best_trial(f, x, y, base, t - 1);
        let best = best_trial(f, x, y, base, t);
        let here = reading(f, x, y, trial_unit(base, t - 1), trial_arc(t - 1));
        if here.confidence > before.confidence {
            assert(best.confidence == here.confidence);
        } else if best.confidence > 0 {
            let n = choose|n: int|
                {
                    &&& 0 <= n < t - 1
                    &&& before.unit == trial_unit(base, n)
                    &&& before.arc == trial_arc(n)
                    &&& before.confidence == (#[trigger] reading(
                        f,
                        x,
                        y,
                        trial_unit(base, n),
                        trial_arc(n),
                    )).confidence
                    &&& forall|m: int|
                        0 <= m < n ==> before.confidence > (#[trigger] reading(
                            f,
                            x,
                            y,
                            trial_unit(base, m),
                            trial_arc(m),
                        )).confidence
                };
            assert(0 <= n < t);
        }
    }
}

/// The array of eight samples.
pub open spec fn core_array(core: Seq<usize>) -> [usize; 8] {
    [core[0], core[1], core[2], core[3], core[4], core[5], core[6], core[7]]
}

/// The symbol that decoding makes of `start` from the seed pixel
/// (`cx`, `cy`).
///
/// The centre is the seed moved by a sixth of the difference between the
/// distances to the next change of colour on either side. Where the rings
/// cannot be measured there, the unit is [`INVALID_UNIT`] and there is no
/// code. Else the best of the trials is read once more: its code is turned
/// to its lowest rotation, and the orientation is its rotation turned back
/// by as many sectors. Where every trial failed there is no code.
#[verifier::opaque]
pub open spec fn decoded(start: TopCode, f: Field, cx: int, cy: int) -> TopCode {
    let x = refined_x(f, cx, cy);
    let y = refined_y(f, cx, cy);
    match measured_unit(f, x, y) {
        None => TopCode { code: None, unit: INVALID_UNIT, x: x as i128, y: y as i128, ..start },
        Some(base) => {
            let best = best_trial(f, x, y, base, TRIALS as int);
            if best.confidence > 0 {
                let r = reading(f, x, y, best.unit, best.arc);
                match r.code {
                    Some(c) => TopCode {
                        code: Some(lowest_rotation(c)),
                        unit: best.unit as i64,
                        orientation: (best.arc - ARC_OFFSET - ARC * lowest_rotation_index(
                            c,
                        )) as i64,
                        x: x as i128,
                        y: y as i128,
                        core: core_array(r.core),
                    },
                    None => TopCode {
                        code: None,
                        unit: best.unit as i64,
                        x: x as i128,
                        y: y as i128,
                        core: core_array(r.core),
                        ..start
                    },
                }
            } else {
                let last = reading(
                    f,
                    x,
                    y,
                    trial_unit(base, TRIALS - 1),
                    trial_arc(TRIALS - 1),
                );
                TopCode {
                    code: None,
                    unit: base as i64,
                    x: x as i128,
                    y: y as i128,
                    core: core_array(last.core),
                    ..start
                }
            }
        },
    }
}

/// The code of a reading has 13 bits, and its checksum holds.
pub proof fn lemma_read_sectors_code(
    f: Field,
    x: int,
    y: int,
    unit: int,
    arc: int,
    sector: int,
    confidence: int,
    bits: int,
)
    requires
        -1 <= sector <= 12,
        0 <= bits < PLACES[12 - sector],
    ensures
        read_sectors(f, x, y, unit, arc, sector, confidence, bits).code matches Some(c) ==> c
            <= CODE_MASK && checksum_ok(c),
    decreases sector + 1,
{
    if sector >= 0 {
        let core = sector_core(f, x, y, unit, ARC * sector + arc);
        if core_passes(core) {
            lemma_places(12 - sector);
            lemma_read_sectors_code(
                f,
                x,
                y,
                unit,
                arc,
                sector - 1,
                confidence + core_confidence(core),
                2 * bits + core_bit(core),
            );
        }
    }
}

/// A symbol is decoded with a code only where the code is valid: it has 13
/// bits, and exactly five of them are set.
pub proof fn lemma_decoded_code(start: TopCode, f: Field, cx: int, cy: int)
    ensures
        decoded(start, f, cx, cy).code matches Some(c) ==> c <= CODE_MASK && checksum_ok(c),
{
    reveal(decoded);
    let x = refined_x(f, cx, cy);
    let y = refined_y(f, cx, cy);
    if let Some(base) = measured_unit(f, x, y) {
        let best = best_trial(f, x, y, base, TRIALS as int);
        if best.confidence > 0 {
            lemma_read_sectors_code(f, x, y, best.unit, best.arc, 12, 0, 0);
            if let Some(c) = reading(f, x, y, best.unit, best.arc).code {
                lemma_lowest_rotation_stable(c);
            }
        }
    }
}

} // verus!
