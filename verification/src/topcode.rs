//! A decoded symbol, and the decoding of one candidate.
//!
//! Lengths and coordinates are whole numbers of sub-pixels, 480 to the pixel:
//! the coarsest grid that holds the sixths of centre refinement, the eighths
//! of the unit estimate and the twentieths of the scale search. Angles are
//! whole numbers of steps, 260 to the turn (see [`crate::trig`]).

use vstd::prelude::*;
use crate::bits::{
    bits_set, lemma_places, lowest_rotation, lowest_rotation_index, lowest_upto, rotated,
    CODE_MASK, PLACES,
};
use crate::field::{lemma_sides_small, Field};
use crate::reading::{
    best_trial, core_array, core_bit, core_confidence, core_passes, decoded, lemma_decoded_code,
    lemma_reading_confidence, measured_unit, nearest_pixel, ray_pixel, read_sectors, reading,
    refined_x, refined_y, sector_core, trial_arc, trial_unit, unit_from, Best, Edge, Walk,
    MAX_PIXELS, RAY_SCALE, TRIALS,
};
use crate::scanner::Scanner;
use crate::trig::{cos_steps, cosine, sin_steps, sine, ARC, TRIG_ONE};

verus! {

/// Number of sectors in the data ring
pub const SECTORS: usize = 13;

/// Width of the code in units (ring widths)
pub const WIDTH: usize = 8;

/// Sub-pixels in one pixel.
pub const SUBPIXELS: i64 = 480;

/// Ring width of a symbol that was not measured: that of a symbol 72 pixels
/// across, in sub-pixels.
pub const DEFAULT_UNIT: i64 = 4320;

/// Ring width of a symbol whose rings could not be measured: minus one pixel.
pub const INVALID_UNIT: i64 = -480;

/// Steps by which a reading is turned back to point at the start of the
/// first sector: 0.65 of a sector.
pub const ARC_OFFSET: i64 = 13;

/// The code of a symbol. A valid code has 13 bits; a reading that is not
/// valid may have more.
pub type Code = u32;

/// A TopCode: a circular black and white symbol that low-resolution cameras
/// can find quickly. It carries a 13-bit number in the data ring on its outer
/// edge, a black sector for zero and a white sector for one.
#[derive(Clone, Copy, Debug, PartialEq)]
pub struct TopCode {
    /// The symbol's code, if valid
    pub code: Option<Code>,
    /// Width of a single ring, in sub-pixels
    pub unit: i64,
    /// Angular orientation of the symbol, in steps
    pub orientation: i64,
    /// Horizontal center of a symbol, in sub-pixels
    pub x: i128,
    /// Vertical center of a symbol, in sub-pixels
    pub y: i128,
    /// Samples along the last ray that was read
    pub core: [usize; WIDTH],
}

/// Whether exactly five of the low 13 bits are set.
pub open spec fn checksum_ok(bits: Code) -> bool {
    bits_set(bits, 13) == 5
}

impl TopCode {
    /// The symbol before any decoding.
    pub open spec fn initial() -> TopCode {
        TopCode {
            code: None,
            unit: DEFAULT_UNIT,
            orientation: 0,
            x: 0,
            y: 0,
            core: [0, 0, 0, 0, 0, 0, 0, 0],
        }
    }

    /// Whether the point lies inside the bullseye or on its edge: no further
    /// from the centre than one ring width.
    pub open spec fn contains_point(self, px: int, py: int) -> bool {
        (self.x - px) * (self.x - px) + (self.y - py) * (self.y - py) <= self.unit * self.unit
    }

    /// A symbol with the given code and no measurements.
    pub fn new(code: Code) -> (t: Self)
        ensures
            t == (TopCode { code: Some(code), ..TopCode::initial() }),
    {
        let mut topcode = Self::default();
        topcode.code = Some(code);
        topcode
    }

    /// Radius of the whole symbol, four ring widths, in sub-pixels.
    pub fn radius(&self) -> (r: i128)
        ensures
            r == 4 * self.unit,
    {
        self.unit as i128 * 4
    }

    /// Sets the x- and y- coordinates for the center point of the symbol.
    pub fn set_location(&mut self, x: i128, y: i128)
        ensures
            *final(self) == (TopCode { x, y, ..*old(self) }),
    {
        self.x = x;
        self.y = y;
    }

    /// Returns true if the code was successfully decoded.
    pub fn is_valid(&self) -> (v: bool)
        ensures
            v == self.code.is_some(),
    {
        self.code.is_some()
    }

    /// Only codes with exactly five of the low 13 bits set are valid.
    pub fn checksum(bits: Code) -> (ok: bool)
        ensures
            ok == checksum_ok(bits),
    {
        let mut rest: Code = bits;
        let mut sum: u32 = 0;
        let mut i: u32 = 0;
        assert(bits >> 0 == bits) by (bit_vector);
        while i < 13
            invariant
                i <= 13,
                sum <= i,
                rest == bits >> i,
                sum == bits_set(bits, i as nat),
            decreases 13 - i,
        {
            assert((bits >> i) & 0x01 <= 1 && (bits >> i) >> 1 == bits >> ((i + 1) as u32))
                by (bit_vector)
                requires
                    i < 13,
            ;
            sum += rest & 0x01;
            rest = rest >> 1;
            i += 1;
        }
        sum == 5
    }

    /// Tries each of the 13 rotations of the code and returns the lowest.
    /// Sets the orientation to the angle of the reading, `arc_adjustment`,
    /// turned back by one sector for each rotation that it took to get there.
    pub fn rotate_lowest(&mut self, bits: Code, arc_adjustment: i32) -> (min: Code)
        ensures
            min == lowest_rotation(bits),
            *final(self) == (TopCode {
                orientation: (arc_adjustment - ARC_OFFSET - ARC * lowest_rotation_index(bits)) as i64,
                ..*old(self)
            }),
            lowest_rotation_index(bits) <= 13,
    {
        let mut min: Code = bits;
        let mut turns: i64 = 0;
        let mut current: Code = bits;
        let mut i: i64 = 1;
        while i <= 13
            invariant
                1 <= i <= 14,
                0 <= turns < i,
                current == rotated(bits, (i - 1) as nat),
                (min, turns as nat) == lowest_upto(bits, (i - 1) as nat),
            decreases 14 - i,
        {
            current = ((current << 1) & 0x1fff) | (current >> 12);
            if current < min {
                min = current;
                turns = i;
            }
            i += 1;
        }
        self.orientation = arc_adjustment as i64 - ARC_OFFSET - ARC * turns;
        min
    }

    /// Returns true if the given point, in sub-pixels, is inside the bullseye.
    pub fn in_bullseye(&self, px: i128, py: i128) -> (r: bool)
        ensures
            r == self.contains_point(px as int, py as int),
    {
        let unit: u128 = if self.unit < 0 {
            (-(self.unit as i128)) as u128
        } else {
            self.unit as u128
        };
        let ghost ax = self.x - px;
        let ghost ay = self.y - py;
        proof {
            let u = self.unit as int;
            assert(unit * unit == u * u && unit * unit <= 0x8000_0000_0000_0000
                * 0x8000_0000_0000_0000) by (nonlinear_arith)
                requires
                    unit == u || unit == -u,
                    0 <= unit <= 0x8000_0000_0000_0000,
            ;
            assert(ax * ax >= 0 && ay * ay >= 0) by (nonlinear_arith);
        }
        let dx: u128 = match Self::distance(self.x, px, unit) {
            Some(d) => d,
            None => {
                return false;
            },
        };
        let dy: u128 = match Self::distance(self.y, py, unit) {
            Some(d) => d,
            None => {
                return false;
            },
        };
        proof {
            assert(dx * dx == ax * ax && dx * dx <= unit * unit) by (nonlinear_arith)
                requires
                    dx == ax || dx == -ax,
                    0 <= dx <= unit,
            ;
            assert(dy * dy == ay * ay && dy * dy <= unit * unit) by (nonlinear_arith)
                requires
                    dy == ay || dy == -ay,
                    0 <= dy <= unit,
            ;
        }
        dx * dx + dy * dy <= unit * unit
    }

    /// The distance between two coordinates where it is at most `limit`.
    fn distance(a: i128, b: i128, limit: u128) -> (r: Option<u128>)
        requires
            limit <= 0x8000_0000_0000_0000,
        ensures
            match r {
                Some(d) => d <= limit && (d == a - b || d == b - a),
                None => (a - b) * (a - b) > limit * limit,
            },
    {
        let d: u128 = match a.checked_sub(b) {
            Some(v) => {
                if v == i128::MIN {
                    u128::MAX
                } else if v < 0 {
                    (-v) as u128
                } else {
                    v as u128
                }
            },
            None => u128::MAX,
        };
        if d <= limit {
            Some(d)
        } else {
            proof {
                let ghost diff = a - b;
                assert(diff * diff > limit * limit) by (nonlinear_arith)
                    requires
                        diff > limit || -diff > limit,
                        limit >= 0,
                ;
            }
            None
        }
    }
}

/// The product of two bounded numbers is bounded by the product of the bounds.
proof fn lemma_product_bound(a: int, b: int, bound_a: int, bound_b: int)
    requires
        -bound_a <= a <= bound_a,
        -bound_b <= b <= bound_b,
    ensures
        -(bound_a * bound_b) <= a * b <= bound_a * bound_b,
{
    assert(-(bound_a * bound_b) <= a * b <= bound_a * bound_b) by (nonlinear_arith)
        requires
            -bound_a <= a <= bound_a,
            -bound_b <= b <= bound_b,
    ;
}

/// The pixel nearest to a coordinate in sub-pixels, or `limit` where that
/// pixel lies beyond it.
fn pixel_of(v: i128, limit: usize) -> (p: usize)
    ensures
        p == (if nearest_pixel(v as int) <= limit {
            nearest_pixel(v as int)
        } else {
            limit as int
        }),
{
    if v < 0 {
        0
    } else if v >= (limit as i128) * 480 {
        limit
    } else {
        ((v + 240) / 480) as usize
    }
}

/// The pixel of sample `i` along a ray, in one coordinate; `None` where it
/// lies beyond every image.
fn sample_pixel(origin: i128, direction: i64, i: usize, unit: i64) -> (r: Option<usize>)
    requires
        i < 8,
        -TRIG_ONE <= direction <= TRIG_ONE,
    ensures
        match r {
            Some(p) => p == ray_pixel(origin as int, direction as int, i as int, unit as int),
            None => ray_pixel(origin as int, direction as int, i as int, unit as int)
                > usize::MAX,
        },
{
    let place: i128 = 2 * (i as i128) - 7;
    proof {
        reveal(ray_pixel);
        lemma_product_bound(direction as int, place as int, TRIG_ONE as int, 7);
        lemma_product_bound(
            direction * place,
            unit as int,
            TRIG_ONE * 7,
            0x8000_0000_0000_0000,
        );
    }
    let offset: i128 = (direction as i128) * place * (unit as i128);
    if origin < -0x4_0000_0000_0000_0000 {
        // Too far to the left or above for any offset to bring it back.
        Some(0)
    } else if origin >= 0x400_0000_0000_0000_0000 {
        // Beyond the last pixel that can be counted, whatever the offset.
        None
    } else {
        let position: i128 = origin * RAY_SCALE + offset;
        if position < 0 {
            Some(0)
        } else {
            let pixel: i128 = (position + 240 * RAY_SCALE) / (480 * RAY_SCALE);
            if pixel > usize::MAX as i128 {
                None
            } else {
                Some(pixel as usize)
            }
        }
    }
}

impl TopCode {
    /// Whether two symbols have the same centre, ring width and orientation.
    pub open spec fn same_measures(self, other: TopCode) -> bool {
        &&& self.x == other.x
        &&& self.y == other.y
        &&& self.unit == other.unit
        &&& self.orientation == other.orientation
    }

    /// Determines the symbol's unit length by counting the number of pixels
    /// between the outer edges of the first black ring. North, south, east,
    /// and west readings are taken and the average is returned, in
    /// sub-pixels. `None` where the ring is not found within
    /// [`MAX_PIXELS`] and the interior of the image on every side, or where
    /// it is too far from round.
    pub fn read_unit(&self, scanner: &Scanner) -> (r: Option<i64>)
        requires
            scanner@.wf(),
        ensures
            match r {
                Some(u) => {
                    &&& measured_unit(scanner@, self.x as int, self.y as int) == Some(u as int)
                    &&& 0 < u <= 24000
                    &&& u % 60 == 0
                },
                None => measured_unit(scanner@, self.x as int, self.y as int).is_none(),
            },
    {
        let image_width: usize = scanner.image_width();
        let image_height: usize = scanner.image_height();
        proof {
            lemma_sides_small(scanner@);
        }
        let sx: usize = pixel_of(self.x, image_width);
        let sy: usize = pixel_of(self.y, image_height);
        if sx >= image_width || sy >= image_height {
            return None;
        }
        let mut walk: Walk = Walk {
            left: Edge::InCentre,
            right: Edge::InCentre,
            up: Edge::InCentre,
            down: Edge::InCentre,
        };
        let mut i: usize = 1;
        while i <= MAX_PIXELS
            invariant
                scanner@.wf(),
                1 <= i <= 101,
                image_width == scanner@.width,
                image_height == scanner@.height,
                3 * image_width <= usize::MAX,
                3 * image_height <= usize::MAX,
                sx < image_width,
                sy < image_height,
                walk.within(i - 1),
                measured_unit(scanner@, self.x as int, self.y as int) == unit_from(
                    scanner@,
                    sx as int,
                    sy as int,
                    i as int,
                    walk,
                ),
            decreases 101 - i,
        {
            if sx < 1 + i || sx + i >= image_width - 1 || sy < 1 + i || sy + i >= image_height
                - 1 {
                return None;
            }
            walk = walk.step(scanner, sx, sy, i);
            if walk.is_complete() {
                return walk.measure();
            }
            i += 1;
        }
        None
    }

    /// One sample along a ray with direction (`dx`, `dy`) in fixed point.
    fn ray_sample(&self, scanner: &Scanner, dx: i64, dy: i64, i: usize, unit: i64) -> (s: usize)
        requires
            scanner@.wf(),
            i < 8,
            -TRIG_ONE <= dx <= TRIG_ONE,
            -TRIG_ONE <= dy <= TRIG_ONE,
        ensures
            s == scanner@.sample_3x3(
                ray_pixel(self.x as int, dx as int, i as int, unit as int),
                ray_pixel(self.y as int, dy as int, i as int, unit as int),
            ),
            s <= 255,
    {
        proof {
            lemma_sides_small(scanner@);
            reveal(Field::sample_3x3);
        }
        let px: usize = match sample_pixel(self.x, dx, i, unit) {
            Some(p) => p,
            None => {
                return 0;
            },
        };
        let py: usize = match sample_pixel(self.y, dy, i, unit) {
            Some(p) => p,
            None => {
                return 0;
            },
        };
        scanner.get_sample_3x3(px, py)
    }

    /// The eight samples along the ray at `angle` steps.
    fn read_core(&self, scanner: &Scanner, unit: i64, angle: i64) -> (core: [usize; WIDTH])
        requires
            scanner@.wf(),
        ensures
            core@ == sector_core(
                scanner@,
                self.x as int,
                self.y as int,
                unit as int,
                angle as int,
            ),
            forall|i: int| 0 <= i < 8 ==> core[i] <= 255,
    {
        let dx: i64 = cosine(angle);
        let dy: i64 = sine(angle);
        let mut core: [usize; WIDTH] = [0;WIDTH];
        let mut i: usize = 0;
        while i < WIDTH
            invariant
                scanner@.wf(),
                i <= 8,
                dx == cos_steps(angle as int),
                dy == sin_steps(angle as int),
                -TRIG_ONE <= dx <= TRIG_ONE,
                -TRIG_ONE <= dy <= TRIG_ONE,
                forall|j: int|
                    0 <= j < i ==> core[j] <= 255 && core[j] == sector_core(
                        scanner@,
                        self.x as int,
                        self.y as int,
                        unit as int,
                        angle as int,
                    )[j],
            decreases 8 - i,
        {
            core[i] = self.ray_sample(scanner, dx, dy, i, unit);
            i += 1;
        }
        assert(core@ =~= sector_core(
            scanner@,
            self.x as int,
            self.y as int,
            unit as int,
            angle as int,
        ));
        core
    }

    /// Reads the sector at `angle` steps into the sample buffer. Returns its
    /// confidence and its bit, or `None` where the samples do not show the
    /// rings of a symbol.
    fn read_sector(&mut self, scanner: &Scanner, unit: i64, angle: i64) -> (r: Option<
        (usize, Code),
    >)
        requires
            scanner@.wf(),
        ensures
            ({
                let core = sector_core(
                    scanner@,
                    old(self).x as int,
                    old(self).y as int,
                    unit as int,
                    angle as int,
                );
                &&& final(self).core@ == core
                &&& match r {
                    Some((c, bit)) => {
                        &&& core_passes(core)
                        &&& c == core_confidence(core)
                        &&& bit == core_bit(core)
                        &&& c <= 2295
                        &&& bit <= 1
                    },
                    None => !core_passes(core),
                }
            }),
            final(self).code == old(self).code,
            final(self).same_measures(*old(self)),
    {
        let core: [usize; WIDTH] = self.read_core(scanner, unit, angle);
        self.core = core;
        // White rings
        if core[1] <= 128 || core[3] <= 128 || core[4] <= 128 || core[6] <= 128 {
            return None;
        }
        // Black ring
        if core[2] > 128 || core[5] > 128 {
            return None;
        }
        // Compute confidence interval in core sample
        let mut c: usize = core[1] + core[3] + core[4] + core[6] + (0xff - core[2]) + (0xff
            - core[5]);
        // Data ring
        c += if core[7] * 2 >= 0xff {
            core[7] * 2 - 0xff
        } else {
            0xff - core[7] * 2
        };
        // Opposite data ring
        c += 0xff + 0xff - core[0] * 2;
        let bit: Code = if core[7] > 128 {
            1
        } else {
            0
        };
        Some((c, bit))
    }

    /// Attempts to decode the binary pixels of an image into a code value.
    ///
    /// `unit` is the width of a single ring in sub-pixels and
    /// `arc_adjustment` the rotation of the first sector in steps. Returns
    /// the confidence of the reading, 0 where it failed, and leaves the code
    /// that was read, if any, and the samples of the last ray.
    pub fn read_code(&mut self, scanner: &Scanner, unit: i64, arc_adjustment: i32) -> (confidence:
        usize)
        requires
            scanner@.wf(),
        ensures
            ({
                let r = reading(
                    scanner@,
                    old(self).x as int,
                    old(self).y as int,
                    unit as int,
                    arc_adjustment as int,
                );
                &&& confidence == r.confidence
                &&& final(self).code == r.code
                &&& final(self).core@ == r.core
            }),
            final(self).same_measures(*old(self)),
            confidence <= 29835,
    {
        let ghost start: TopCode = *self;
        let mut c: usize = 0;
        let mut bits: Code = 0;
        let mut sector: i64 = 12;
        while sector >= 0
            invariant
                scanner@.wf(),
                -1 <= sector <= 12,
                c <= (12 - sector) * 2295,
                bits < PLACES[12 - sector],
                start == *old(self),
                self.same_measures(start),
                sector < 12 ==> self.core@ == sector_core(
                    scanner@,
                    start.x as int,
                    start.y as int,
                    unit as int,
                    ARC * (sector + 1) + arc_adjustment,
                ),
                reading(
                    scanner@,
                    start.x as int,
                    start.y as int,
                    unit as int,
                    arc_adjustment as int,
                ) == read_sectors(
                    scanner@,
                    start.x as int,
                    start.y as int,
                    unit as int,
                    arc_adjustment as int,
                    sector as int,
                    c as int,
                    bits as int,
                ),
            decreases sector + 1,
        {
            let (sector_c, bit) = match self.read_sector(
                scanner,
                unit,
                ARC * sector + arc_adjustment as i64,
            ) {
                Some(found) => found,
                None => {
                    self.code = None;
                    return 0;
                },
            };
            proof {
                lemma_places(12 - sector);
            }
            c += sector_c;
            bits = bits * 2 + bit;
            sector -= 1;
        }
        if Self::checksum(bits) {
            self.code = Some(bits);
            c
        } else {
            self.code = None;
            0
        }
    }

    /// A symbol's samples are the array of their sequence.
    proof fn lemma_core_array(core: [usize; WIDTH])
        ensures
            core == core_array(core@),
    {
        assert(core@ =~= core_array(core@)@);
    }

    /// Moves the centre from the seed pixel (`cx`, `cy`) by a sixth of the
    /// difference between the distances to the next change of colour on
    /// either side.
    fn refine_centre(&mut self, scanner: &Scanner, cx: usize, cy: usize)
        requires
            scanner@.wf(),
        ensures
            final(self).x == refined_x(scanner@, cx as int, cy as int),
            final(self).y == refined_y(scanner@, cx as int, cy as int),
            final(self).code == old(self).code,
            final(self).unit == old(self).unit,
            final(self).orientation == old(self).orientation,
            final(self).core == old(self).core,
    {
        proof {
            lemma_sides_small(scanner@);
        }
        let up: isize = scanner.y_dist(cx, cy, -1);
        let down: isize = scanner.y_dist(cx, cy, 1);
        let left: isize = scanner.x_dist(cx, cy, -1);
        let right: isize = scanner.x_dist(cx, cy, 1);
        self.x = 480 * (cx as i128) + 80 * (right as i128 - left as i128);
        self.y = 480 * (cy as i128) + 80 * (down as i128 - up as i128);
    }

    /// Tries the five scales and ten rotations around the measured ring
    /// width `base` and returns the confidence, ring width and rotation of
    /// the first trial with the highest confidence.
    fn best_adjustment(&mut self, scanner: &Scanner, base: i64) -> (r: (usize, i64, i32))
        requires
            scanner@.wf(),
            0 < base <= 24000,
        ensures
            best_trial(
                scanner@,
                old(self).x as int,
                old(self).y as int,
                base as int,
                TRIALS as int,
            ) == (Best { confidence: r.0 as int, unit: r.1 as int, arc: r.2 as int }),
            final(self).same_measures(*old(self)),
            ({
                let last = reading(
                    scanner@,
                    old(self).x as int,
                    old(self).y as int,
                    trial_unit(base as int, TRIALS - 1),
                    trial_arc(TRIALS - 1),
                );
                final(self).code == last.code && final(self).core@ == last.core
            }),
    {
        let ghost start: TopCode = *self;
        let mut max_c: usize = 0;
        let mut max_a: i32 = 0;
        let mut max_u: i64 = 0;
        let mut t: usize = 0;
        while t < TRIALS
            invariant
                scanner@.wf(),
                t <= 50,
                0 < base <= 24000,
                best_trial(scanner@, start.x as int, start.y as int, base as int, t as int) == (Best {
                    confidence: max_c as int,
                    unit: max_u as int,
                    arc: max_a as int,
                }),
                self.same_measures(start),
                t > 0 ==> ({
                    let last = reading(
                        scanner@,
                        start.x as int,
                        start.y as int,
                        trial_unit(base as int, t - 1),
                        trial_arc(t - 1),
                    );
                    self.code == last.code && self.core@ == last.core
                }),
            decreases 50 - t,
        {
            let scale: i64 = (t / 10) as i64 - 2;
            let arc_adjustment: i32 = 2 * ((t % 10) as i32);
            let twentieth: i64 = base / 20;
            assert(-2400 <= twentieth * scale <= 2400) by (nonlinear_arith)
                requires
                    0 <= twentieth <= 1200,
                    -2 <= scale <= 2,
            ;
            let unit: i64 = base + twentieth * scale;
            let c: usize = self.read_code(scanner, unit, arc_adjustment);
            if c > max_c {
                max_c = c;
                max_a = arc_adjustment;
                max_u = unit;
            }
            t += 1;
        }
        (max_c, max_u, max_a)
    }

    /// Decodes a symbol given any point (`cx`, `cy`) inside the center
    /// circle (bullseye) of the code.
    pub fn decode(&mut self, scanner: &Scanner, cx: usize, cy: usize) -> (code: Option<Code>)
        requires
            scanner@.wf(),
        ensures
            *final(self) == decoded(*old(self), scanner@, cx as int, cy as int),
            code == final(self).code,
            code matches Some(c) ==> c <= CODE_MASK && checksum_ok(c),
    {
        proof {
            reveal(decoded);
            lemma_decoded_code(*self, scanner@, cx as int, cy as int);
        }
        self.refine_centre(scanner, cx, cy);
        self.code = None;
        let base: i64 = match self.read_unit(scanner) {
            Some(u) => u,
            None => {
                self.unit = INVALID_UNIT;
                return None;
            },
        };
        self.unit = base;
        // Try different unit and arc adjustments, and keep the one that
        // produces a maximum confidence reading.
        let (max_c, max_u, max_a) = self.best_adjustment(scanner, base);
        // One last reading with it, for the code and the orientation.
        if max_c > 0 {
            self.unit = max_u;
            self.read_code(scanner, max_u, max_a);
            proof {
                Self::lemma_core_array(self.core);
            }
            match self.code {
                Some(c) => {
                    let lowest: Code = self.rotate_lowest(c, max_a);
                    self.code = Some(lowest);
                },
                None => {},
            }
        } else {
            proof {
                lemma_reading_confidence(
                    scanner@,
                    self.x as int,
                    self.y as int,
                    trial_unit(base as int, TRIALS - 1),
                    trial_arc(TRIALS - 1),
                );
                Self::lemma_core_array(self.core);
            }
        }
        self.code
    }
}

/// The bullseye reaches one ring width from the centre: the centre and the
/// points one ring width from it along either axis are inside, and the
/// points one ring width from it along both axes, further by the square root
/// of two, are outside unless the ring width is zero.
pub proof fn lemma_bullseye_reach(t: TopCode)
    ensures
        t.contains_point(t.x as int, t.y as int),
        t.contains_point(t.x + t.unit, t.y as int),
        t.contains_point(t.x - t.unit, t.y as int),
        t.contains_point(t.x as int, t.y + t.unit),
        t.contains_point(t.x as int, t.y - t.unit),
        t.unit != 0 ==> !t.contains_point(t.x + t.unit, t.y + t.unit),
        t.unit != 0 ==> !t.contains_point(t.x - t.unit, t.y - t.unit),
        t.unit != 0 ==> !t.contains_point(t.x + t.unit, t.y - t.unit),
        t.unit != 0 ==> !t.contains_point(t.x - t.unit, t.y + t.unit),
{
    let u = t.unit as int;
    assert(u * u >= 0 && (-u) * (-u) == u * u && (u != 0 ==> u * u > 0)) by (nonlinear_arith);
    assert(0 * 0 == 0) by (nonlinear_arith);
}

impl Default for TopCode {
    fn default() -> (t: Self)
        ensures
            t == TopCode::initial(),
    {
        let t = Self {
            code: None,
            unit: DEFAULT_UNIT,
            orientation: 0,
            x: 0,
            y: 0,
            core: [0; WIDTH],
        };
        assert(t.core@ =~= TopCode::initial().core@);
        assert(t.core == TopCode::initial().core);
        t
    }
}

} // verus!
