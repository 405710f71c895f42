//! The scanner: a pixel field and the passes over it.

use vstd::prelude::*;
use crate::field::{
    is_white, lemma_index_in_bounds, lemma_sides_small, Field, Pass, AVERAGE_MAX, AVERAGE_SPAN,
    DEFAULT_MAX_UNIT, INITIAL_AVERAGE,
};
use crate::candidate::Candidate;
use crate::dump::{
    lemma_rgba_len, ppm_lines, ppm_text, push_ppm_head, push_ppm_line, push_rgba, rgba_bytes,
};
use crate::picture::{picture_bytes, picture_from_raw, picture_size};
use crate::pixel::{
    average, class, flagged, intensity, pack_class, pack_rgb, rgb_word, with_flag,
};
use crate::ring::{lemma_centre_within_span, lemma_step_span, RingState};
use crate::search::{
    flagged_at, found_before, lemma_symbols_well_found, overlaps, qualifies, symbols,
    try_candidate, well_found, MARGIN,
};
use crate::topcode::TopCode;

verus! {

/// Why a scanner could not be made from a buffer.
#[derive(Clone, Copy, Debug, PartialEq, Eq)]
pub enum InvalidInput {
    /// The width or the height is zero.
    EmptyImage,
    /// The buffer does not hold three bytes for each pixel.
    BufferLength,
}

/// Holds the pixels of one image and finds the symbols in it.
pub struct Scanner {
    /// Image width
    width: usize,
    /// Image height
    height: usize,
    /// One word per pixel, row by row.
    data: Vec<u32>,
    /// Number of candidate flags set by the last thresholding pass.
    candidate_count: usize,
    /// Maximum width of a ring in pixels
    max_unit: usize,
}

impl View for Scanner {
    type V = Field;

    closed spec fn view(&self) -> Field {
        Field {
            width: self.width as int,
            height: self.height as int,
            words: self.data@,
            max_unit: self.max_unit as int,
            candidates: self.candidate_count as int,
        }
    }
}

/// The field of a new scanner, or why there is none: an image with no
/// pixels is refused, and one whose buffer does not hold three bytes for each
/// pixel.
pub open spec fn new_field(bytes: Seq<u8>, width: int, height: int) -> Result<Field, InvalidInput> {
    if width == 0 || height == 0 {
        Err(InvalidInput::EmptyImage)
    } else if bytes.len() != 3 * (width * height) {
        Err(InvalidInput::BufferLength)
    } else {
        Ok(Field::from_rgb(bytes, width, height))
    }
}

impl Scanner {
    /// Packs an interleaved RGB buffer of `width` × `height` pixels.
    pub fn new(image_buffer: &[u8], width: usize, height: usize) -> (r: Result<Self, InvalidInput>)
        ensures
            match r {
                Ok(s) => {
                    &&& new_field(image_buffer@, width as int, height as int) matches Ok(f)
                    &&& s@ == f
                    &&& s@.wf()
                },
                Err(e) => {
                    &&& new_field(image_buffer@, width as int, height as int) matches Err(why)
                    &&& e == why
                },
            },
    {
        if width == 0 || height == 0 {
            return Err(InvalidInput::EmptyImage);
        }
        let len: usize = image_buffer.len();
        let pixels: usize = match width.checked_mul(height) {
            Some(n) => n,
            None => {
                return Err(InvalidInput::BufferLength);
            },
        };
        match pixels.checked_mul(3) {
            Some(n) => {
                if len != n {
                    return Err(InvalidInput::BufferLength);
                }
            },
            None => {
                return Err(InvalidInput::BufferLength);
            },
        }
        let mut data: Vec<u32> = Vec::with_capacity(pixels);
        let mut i: usize = 0;
        while i < pixels
            invariant
                i <= pixels,
                image_buffer@.len() == 3 * pixels,
                3 * pixels <= usize::MAX,
                data@.len() == i,
                forall|k: int|
                    0 <= k < i ==> data@[k] == rgb_word(
                        image_buffer@[3 * k],
                        image_buffer@[3 * k + 1],
                        image_buffer@[3 * k + 2],
                    ),
            decreases pixels - i,
        {
            let word: u32 = pack_rgb(
                image_buffer[i * 3],
                image_buffer[i * 3 + 1],
                image_buffer[i * 3 + 2],
            );
            data.push(word);
            i += 1;
        }
        let s = Self { width, height, data, candidate_count: 0, max_unit: DEFAULT_MAX_UNIT };
        assert(s@.words =~= Field::from_rgb(image_buffer@, width as int, height as int).words);
        Ok(s)
    }

    /// The field as a plain-text PPM, for inspection: the head, then a line
    /// for each pixel with the low three bytes of its word.
    pub fn thresholding_ppm(&self) -> (text: String)
        requires
            self@.wf(),
        ensures
            text@ == ppm_text(self@),
    {
        let mut text = String::new();
        push_ppm_head(&mut text, self.width, self.height);
        let ghost head = text@;
        let mut i: usize = 0;
        while i < self.data.len()
            invariant
                i <= self.data.len(),
                text@ == head + ppm_lines(self.data@, i as int),
            decreases self.data.len() - i,
        {
            push_ppm_line(&mut text, self.data[i]);
            i += 1;
            assert(text@ =~= head + ppm_lines(self.data@, i as int));
        }
        text
    }

    /// The field as bytes, four for each pixel: the low three bytes of its
    /// word as red, green and blue and the top byte as alpha. `None` where
    /// the bytes would be more than can be counted.
    pub fn thresholding_rgba(&self) -> (r: Option<Vec<u8>>)
        requires
            self@.wf(),
        ensures
            r.is_some() == (4 * (self@.width * self@.height) <= usize::MAX),
            r matches Some(bytes) ==> bytes@ == rgba_bytes(self@.words, self@.words.len() as int),
    {
        let n: usize = self.data.len();
        if n > usize::MAX / 4 {
            return None;
        }
        let mut bytes: Vec<u8> = Vec::with_capacity(4 * n);
        let mut i: usize = 0;
        while i < n
            invariant
                n == self.data.len(),
                i <= n,
                bytes@ == rgba_bytes(self.data@, i as int),
            decreases n - i,
        {
            push_rgba(&mut bytes, self.data[i]);
            i += 1;
        }
        Some(bytes)
    }

    /// The field as a picture, for inspection: see
    /// [`Scanner::thresholding_rgba`] for its bytes. `None` where the picture
    /// would be wider or higher than a picture can be, or its bytes more than
    /// can be counted.
    pub fn thresholding_image(&self) -> (r: Option<image::DynamicImage>)
        requires
            self@.wf(),
        ensures
            r.is_some() == (self@.width <= u32::MAX && self@.height <= u32::MAX && 4 * (self@.width
                * self@.height) <= usize::MAX),
            r matches Some(picture) ==> {
                &&& picture_bytes(picture) == rgba_bytes(self@.words, self@.words.len() as int)
                &&& picture_size(picture) == (self@.width as u32, self@.height as u32)
            },
    {
        if self.width > u32::MAX as usize || self.height > u32::MAX as usize {
            return None;
        }
        let bytes: Vec<u8> = match self.thresholding_rgba() {
            Some(bytes) => bytes,
            None => {
                return None;
            },
        };
        proof {
            lemma_rgba_len(self.data@, self.data@.len() as int);
            assert(4 * self.width * self.height == 4 * (self.width * self.height))
                by (nonlinear_arith);
        }
        picture_from_raw(self.width as u32, self.height as u32, bytes)
    }

    /// Width of the image in pixels.
    pub fn image_width(&self) -> (w: usize)
        ensures
            w == self@.width,
    {
        self.width
    }

    /// Height of the image in pixels.
    pub fn image_height(&self) -> (h: usize)
        ensures
            h == self@.height,
    {
        self.height
    }

    /// Number of candidate flags that the last thresholding pass set.
    pub fn candidate_count(&self) -> (n: usize)
        ensures
            n == self@.candidates,
    {
        self.candidate_count
    }

    /// Largest ring width, in pixels, that the ring scan accepts.
    pub fn max_unit(&self) -> (n: usize)
        ensures
            n == self@.max_unit,
    {
        self.max_unit
    }

    /// Sets the largest diameter, in pixels, of a symbol that the scan looks
    /// for. A symbol is eight rings wide, so the largest ring width becomes
    /// the diameter divided by eight, rounded up. A lower limit means fewer
    /// false candidates and less work; one that is too low hides real symbols.
    pub fn set_max_code_diameter(&mut self, diameter: usize)
        ensures
            final(self)@ == (Field { max_unit: (diameter + 7) / 8, ..old(self)@ }),
            old(self)@.wf() ==> final(self)@.wf(),
    {
        self.max_unit = if diameter % 8 == 0 {
            diameter / 8
        } else {
            diameter / 8 + 1
        };
    }

    /// The word of pixel (`x`, `y`).
    fn word(&self, x: usize, y: usize) -> (w: u32)
        requires
            self@.wf(),
            self@.contains(x as int, y as int),
        ensures
            w == self@.word_at(x as int, y as int),
    {
        proof {
            lemma_index_in_bounds(x as int, y as int, self.width as int, self.height as int);
        }
        self.data[y * self.width + x]
    }

    /// Class of pixel (`x`, `y`) after thresholding: 1 (white) or 0 (black).
    pub fn get_bw(&self, x: usize, y: usize) -> (c: u32)
        requires
            self@.wf(),
            self@.contains(x as int, y as int),
        ensures
            c == self@.class_at(x as int, y as int),
            c <= 1,
    {
        class(self.word(x, y))
    }

    /// Number of white pixels among the nine around an interior pixel.
    fn white_around(&self, x: usize, y: usize) -> (n: u32)
        requires
            self@.wf(),
            self@.interior(x as int, y as int),
        ensures
            n == self@.white_around(x as int, y as int),
            n <= 9,
    {
        let mut sum: u32 = 0;
        let mut j: usize = y - 1;
        while j <= y + 1
            invariant
                self@.wf(),
                self@.interior(x as int, y as int),
                y - 1 <= j <= y + 2,
                sum <= 3 * (j - (y - 1)),
                sum == (if j > y - 1 {
                    self@.white_in_row(x as int, y - 1)
                } else {
                    0
                }) + (if j > y {
                    self@.white_in_row(x as int, y as int)
                } else {
                    0
                }) + (if j > y + 1 {
                    self@.white_in_row(x as int, y + 1)
                } else {
                    0
                }),
            decreases y + 2 - j,
        {
            sum += self.get_bw(x - 1, j) + self.get_bw(x, j) + self.get_bw(x + 1, j);
            j += 1;
        }
        sum
    }

    /// Share of white pixels in the 3×3 region around (`x`, `y`), between 0
    /// (black) and 255 (white). A pixel on the border or outside the image
    /// reads as 0.
    pub fn get_sample_3x3(&self, x: usize, y: usize) -> (s: usize)
        requires
            self@.wf(),
        ensures
            s == self@.sample_3x3(x as int, y as int),
            s <= 255,
    {
        proof {
            reveal(Field::sample_3x3);
        }
        if x < 1 || x >= self.width - 1 || y < 1 || y >= self.height - 1 {
            return 0;
        }
        let sum: u32 = 0xff * self.white_around(x, y);
        (sum / 9) as usize
    }

    /// Majority class of the 3×3 region around (`x`, `y`): 1 (white) or 0
    /// (black). A pixel on the border or outside the image reads as 0.
    pub fn get_bw_3x3(&self, x: usize, y: usize) -> (c: u32)
        requires
            self@.wf(),
        ensures
            c == self@.bw_3x3(x as int, y as int),
            c <= 1,
    {
        proof {
            reveal(Field::bw_3x3);
        }
        if x < 1 || x >= self.width - 1 || y < 1 || y >= self.height - 1 {
            return 0;
        }
        if self.white_around(x, y) >= 5 {
            1
        } else {
            0
        }
    }

    /// Sets the candidate flag on the pixel at index `centre` and on its two
    /// neighbours.
    fn flag_three(&mut self, centre: usize)
        requires
            1 <= centre,
            centre + 1 < old(self).data@.len(),
        ensures
            final(self).data@ == crate::field::flag_three(old(self).data@, centre as int),
            final(self).width == old(self).width,
            final(self).height == old(self).height,
            final(self).max_unit == old(self).max_unit,
            final(self).candidate_count == old(self).candidate_count,
    {
        let len: usize = self.data.len();
        assert(centre + 1 < len);
        let before: u32 = self.data[centre - 1];
        self.data.set(centre - 1, with_flag(before));
        let at: u32 = self.data[centre];
        self.data.set(centre, with_flag(at));
        let after: u32 = self.data[centre + 1];
        self.data.set(centre + 1, with_flag(after));
    }

    /// Reads the `i`-th pixel of row `j` for the thresholding pass: one step
    /// of the pass, from the running average `sum` and the automaton `ring`
    /// to their next values.
    fn threshold_pixel(&mut self, j: usize, i: usize, sum: u32, ring: RingState) -> (r: (
        u32,
        RingState,
    ))
        requires
            old(self)@.wf(),
            j < old(self).height,
            i < old(self).width,
            sum <= AVERAGE_MAX,
            ring@.wf(),
            ring@.span() <= i,
            old(self).candidate_count <= 3 * (j * old(self).width + i),
        ensures
            ({
                let q = old(self)@.pass_step(
                    Pass {
                        words: old(self).data@,
                        average: sum as int,
                        ring: ring@,
                        candidates: old(self).candidate_count as int,
                    },
                    j as int,
                    i as int,
                );
                &&& final(self).data@ == q.words
                &&& r.0 == q.average
                &&& r.1@ == q.ring
                &&& final(self).candidate_count == q.candidates
            }),
            final(self).width == old(self).width,
            final(self).height == old(self).height,
            final(self).max_unit == old(self).max_unit,
            final(self).data@.len() == old(self).data@.len(),
            r.0 <= AVERAGE_MAX,
            r.1@.wf(),
            r.1@.span() <= i + 1,
            final(self).candidate_count <= 3 * (j * old(self).width + i + 1),
    {
        proof {
            lemma_index_in_bounds(i as int, j as int, self.width as int, self.height as int);
            lemma_index_in_bounds(
                self.width - 1 - i,
                j as int,
                self.width as int,
                self.height as int,
            );
            if j > 0 {
                lemma_index_in_bounds(0, j - 1, self.width as int, self.height as int);
            }
        }
        let even: bool = j % 2 == 0;
        let row: usize = j * self.width;
        let k: usize = if even {
            row + i
        } else {
            row + (self.width - 1 - i)
        };
        assert(k == j * self@.width + self@.pass_column(j as int, i as int));
        let a: u32 = intensity(self.data[k]);
        let sum: u32 = sum + a - sum / AVERAGE_SPAN;
        let threshold: u32 = if j > 0 {
            (sum + average(self.data[k - self.width])) / (2 * AVERAGE_SPAN)
        } else {
            sum / AVERAGE_SPAN
        };
        let white: bool = !(40 * a < 39 * threshold);
        assert(white == is_white(a as int, threshold as int));
        self.data.set(k, pack_class(white, sum));
        proof {
            lemma_step_span(ring@, white);
            if ring@.centre_back(white, self.max_unit as int).is_some() {
                lemma_centre_within_span(ring@, white, self.max_unit as int);
            }
        }
        let (next, hit) = ring.step(white, self.max_unit);
        match hit {
            Some(d) => {
                let centre: usize = if even {
                    k - d
                } else {
                    k + d
                };
                self.flag_three(centre);
                self.candidate_count += 3;
            },
            None => {},
        }
        (sum, next)
    }

    /// Turns the colours into black and white by adaptive thresholding and
    /// flags the pixels that may be the centre of a symbol.
    ///
    /// Each pixel is compared with a decayed average of the pixels read
    /// before it and of the pixel above it, so that the threshold follows the
    /// lighting. The rows are read in serpentine order, which lets the average
    /// run on from the end of one row into the start of the next.
    pub fn threshold(&mut self)
        requires
            old(self)@.wf(),
        ensures
            final(self)@ == old(self)@.thresholded(),
            final(self)@.wf(),
    {
        let ghost f0: Field = self@;
        let mut sum: u32 = INITIAL_AVERAGE;
        self.candidate_count = 0;
        let mut j: usize = 0;
        while j < self.height
            invariant
                f0.wf(),
                j <= self.height,
                self.width == f0.width,
                self.height == f0.height,
                self.max_unit == f0.max_unit,
                self.data@.len() == f0.width * f0.height,
                sum <= AVERAGE_MAX,
                self.candidate_count <= 3 * (j * self.width),
                self.data@ == f0.pass_before(j as int, 0).words,
                sum == f0.pass_before(j as int, 0).average,
                self.candidate_count == f0.pass_before(j as int, 0).candidates,
            decreases self.height - j,
        {
            proof {
                lemma_index_in_bounds(0, j as int, self.width as int, self.height as int);
            }
            let mut ring: RingState = RingState::SeekFirstBlack;
            let mut i: usize = 0;
            while i < self.width
                invariant
                    f0.wf(),
                    j < self.height,
                    i <= self.width,
                    self.width == f0.width,
                    self.height == f0.height,
                    self.max_unit == f0.max_unit,
                    self.data@.len() == f0.width * f0.height,
                    (j + 1) * self.width == j * self.width + self.width,
                    (j + 1) * self.width <= f0.width * f0.height,
                    sum <= AVERAGE_MAX,
                    self.candidate_count <= 3 * (j * self.width + i),
                    ring@.wf(),
                    ring@.span() <= i,
                    self.data@ == f0.pass_before(j as int, i as int).words,
                    sum == f0.pass_before(j as int, i as int).average,
                    ring@ == f0.pass_before(j as int, i as int).ring,
                    self.candidate_count == f0.pass_before(j as int, i as int).candidates,
                decreases self.width - i,
            {
                let ghost before: Pass = f0.pass_before(j as int, i as int);
                assert(self@.pass_step(before, j as int, i as int) == f0.pass_step(
                    before,
                    j as int,
                    i as int,
                ));
                let (next_sum, next_ring) = self.threshold_pixel(j, i, sum, ring);
                sum = next_sum;
                ring = next_ring;
                i += 1;
            }
            j += 1;
        }
        assert(self@.words == f0.thresholded().words);
    }

    /// Scans the image and returns all the symbols found in it, in the order
    /// in which they are found: from the top row down, each row from the
    /// left.
    pub fn scan(&mut self) -> (found: Vec<TopCode>)
        requires
            old(self)@.wf(),
        ensures
            final(self)@ == old(self)@.thresholded(),
            final(self)@.wf(),
            found@ == symbols(final(self)@),
            well_found(final(self)@, found@),
    {
        self.threshold();
        self.find_codes()
    }

    /// Whether the ring scan has flagged pixel (`x`, `y`).
    fn flagged_at(&self, x: usize, y: usize) -> (r: bool)
        requires
            self@.wf(),
            self@.contains(x as int, y as int),
        ensures
            r == flagged_at(self@, x as int, y as int),
    {
        flagged(self.word(x, y))
    }

    /// The candidate at pixel (`x`, `y`), if the pixel is one.
    fn candidate_at(&self, x: usize, y: usize) -> (c: Option<Candidate>)
        requires
            self@.wf(),
            x < self.width,
            MARGIN <= y,
            y + MARGIN < self.height,
        ensures
            c.is_some() == qualifies(self@, x as int, y as int),
            c matches Some(at) ==> at.x == x && at.y == y,
    {
        if x < 1 || x >= self.width - 1 {
            return None;
        }
        if self.flagged_at(x, y) && self.flagged_at(x - 1, y) && self.flagged_at(x + 1, y)
            && self.flagged_at(x, y - 1) && self.flagged_at(x, y + 1) {
            Some(Candidate::new(x, y))
        } else {
            None
        }
    }

    /// Decodes the candidate unless a symbol found before covers it, and
    /// keeps what it decodes to if that has a code.
    fn try_candidate(&self, spots: &mut Vec<TopCode>, c: Candidate)
        requires
            self@.wf(),
        ensures
            final(spots)@ == try_candidate(self@, old(spots)@, c),
    {
        if !Self::overlaps(spots, c.x, c.y) {
            let mut spot = TopCode::default();
            spot.decode(self, c.x, c.y);
            if spot.is_valid() {
                spots.push(spot);
            }
        }
    }

    /// Scan the image line by line looking for TopCodes.
    pub fn find_codes(&self) -> (spots: Vec<TopCode>)
        requires
            self@.wf(),
        ensures
            spots@ == symbols(self@),
            well_found(self@, spots@),
    {
        proof {
            lemma_symbols_well_found(self@);
        }
        let mut spots: Vec<TopCode> = Vec::new();
        if self.height <= 2 * MARGIN {
            return spots;
        }
        let mut j: usize = MARGIN;
        while j + MARGIN < self.height
            invariant
                self@.wf(),
                MARGIN <= j,
                j + MARGIN <= self.height,
                spots@ == found_before(self@, j as int, 0),
            decreases self.height - j,
        {
            let mut i: usize = 0;
            while i < self.width
                invariant
                    self@.wf(),
                    MARGIN <= j,
                    j + MARGIN < self.height,
                    i <= self.width,
                    spots@ == found_before(self@, j as int, i as int),
                decreases self.width - i,
            {
                match self.candidate_at(i, j) {
                    Some(c) => {
                        self.try_candidate(&mut spots, c);
                    },
                    None => {},
                }
                i += 1;
            }
            j += 1;
        }
        spots
    }

    /// Whether the pixel lies in the bullseye of one of the symbols.
    pub fn overlaps(spots: &Vec<TopCode>, x: usize, y: usize) -> (r: bool)
        ensures
            r == overlaps(spots@, x as int, y as int),
    {
        let px: i128 = 480 * (x as i128);
        let py: i128 = 480 * (y as i128);
        let mut n: usize = 0;
        while n < spots.len()
            invariant
                n <= spots.len(),
                px == 480 * x,
                py == 480 * y,
                forall|m: int| 0 <= m < n ==> !(#[trigger] spots@[m]).contains_point(480 * x, 480 * y),
            decreases spots.len() - n,
        {
            if spots[n].in_bullseye(px, py) {
                return true;
            }
            n += 1;
        }
        false
    }

    /// Counts the pixels from (`x`, `y`) to the next change of colour along
    /// the column, downwards for `d` = 1 and upwards for `d` = -1. Returns -1
    /// where the colour does not change before the border.
    pub fn y_dist(&self, x: usize, y: usize, d: isize) -> (r: isize)
        requires
            self@.wf(),
            d == 1 || d == -1,
        ensures
            r == self@.y_dist(x as int, y as int, d as int),
            r == -1 || 1 <= r < self@.height,
    {
        if y >= self.height {
            // One step from here is still on the border or outside.
            return -1;
        }
        proof {
            lemma_sides_small(self@);
        }
        let start: u32 = self.get_bw_3x3(x, y);
        let mut j: usize = if d > 0 {
            y + 1
        } else if y == 0 {
            return -1;
        } else {
            y - 1
        };
        loop
            invariant
                self@.wf(),
                d == 1 || d == -1,
                y < self.height,
                self.height <= isize::MAX,
                start == self@.bw_3x3(x as int, y as int),
                start <= 1,
                d > 0 ==> y < j <= self.height,
                d < 0 ==> j < y,
                self@.y_dist(x as int, y as int, d as int) == self@.run_y(
                    start as int,
                    x as int,
                    y as int,
                    d as int,
                    j as int,
                ),
            decreases
                (if d > 0 {
                    self.height - j
                } else {
                    j as int
                }),
        {
            if j <= 1 || j >= self.height - 1 {
                return -1;
            }
            let sample: u32 = self.get_bw_3x3(x, j);
            if start + sample == 1 {
                return if d > 0 {
                    (j - y) as isize
                } else {
                    (y - j) as isize
                };
            }
            if d > 0 {
                j += 1;
            } else {
                j -= 1;
            }
        }
    }

    /// Counts the pixels from (`x`, `y`) to the next change of colour along
    /// the row, to the right for `d` = 1 and to the left for `d` = -1.
    /// Returns -1 where the colour does not change before the border.
    pub fn x_dist(&self, x: usize, y: usize, d: isize) -> (r: isize)
        requires
            self@.wf(),
            d == 1 || d == -1,
        ensures
            r == self@.x_dist(x as int, y as int, d as int),
            r == -1 || 1 <= r < self@.width,
    {
        if x >= self.width {
            // One step from here is still on the border or outside.
            return -1;
        }
        proof {
            lemma_sides_small(self@);
        }
        let start: u32 = self.get_bw_3x3(x, y);
        let mut i: usize = if d > 0 {
            x + 1
        } else if x == 0 {
            return -1;
        } else {
            x - 1
        };
        loop
            invariant
                self@.wf(),
                d == 1 || d == -1,
                x < self.width,
                self.width <= isize::MAX,
                start == self@.bw_3x3(x as int, y as int),
                start <= 1,
                d > 0 ==> x < i <= self.width,
                d < 0 ==> i < x,
                self@.x_dist(x as int, y as int, d as int) == self@.run_x(
                    start as int,
                    x as int,
                    y as int,
                    d as int,
                    i as int,
                ),
            decreases
                (if d > 0 {
                    self.width - i
                } else {
                    i as int
                }),
        {
            if i <= 1 || i >= self.width - 1 {
                return -1;
            }
            let sample: u32 = self.get_bw_3x3(i, y);
            if start + sample == 1 {
                return if d > 0 {
                    (i - x) as isize
                } else {
                    (x - i) as isize
                };
            }
            if d > 0 {
                i += 1;
            } else {
                i -= 1;
            }
        }
    }
}

} // verus!
