use topcodes::scanner::Scanner;
use topcodes::topcode::TopCode;
use topcodes::trig::{cosine, sine};

/// A symbol to draw: centre and ring width in pixels, the bits of its
/// sectors, and the angle at which sector 0 starts, in steps.
struct Marker {
    cx: i64,
    cy: i64,
    unit: i64,
    bits: u32,
    turn: i64,
}

/// The sector of the data ring in which the direction (`dx`, `dy`) lies.
fn sector_of(dx: i64, dy: i64, turn: i64) -> u32 {
    let (dx, dy) = (dx as i128, dy as i128);
    for s in 0..13 {
        let (ax, ay) = (cosine(20 * s + turn) as i128, sine(20 * s + turn) as i128);
        let (bx, by) = (cosine(20 * (s + 1) + turn) as i128, sine(20 * (s + 1) + turn) as i128);
        if ax * dy - ay * dx >= 0 && bx * dy - by * dx < 0 {
            return s as u32;
        }
    }
    0
}

/// A white image with the markers drawn in black and white.
fn draw(width: usize, height: usize, markers: &[Marker]) -> Vec<u8> {
    let mut buffer = Vec::with_capacity(width * height * 3);
    for y in 0..height as i64 {
        for x in 0..width as i64 {
            let mut v = 255u8;
            for m in markers {
                let (dx, dy) = (x - m.cx, y - m.cy);
                let d2 = dx * dx + dy * dy;
                let u2 = m.unit * m.unit;
                if d2 < 16 * u2 {
                    v = if d2 < u2 {
                        255
                    } else if d2 < 4 * u2 {
                        0
                    } else if d2 < 9 * u2 {
                        255
                    } else if (m.bits >> sector_of(dx, dy, m.turn)) & 1 == 1 {
                        255
                    } else {
                        0
                    };
                }
            }
            buffer.push(v);
            buffer.push(v);
            buffer.push(v);
        }
    }
    buffer
}

fn one() -> Scanner {
    let buffer = draw(120, 120, &[Marker { cx: 60, cy: 60, unit: 8, bits: 31, turn: 0 }]);
    Scanner::new(&buffer, 120, 120).unwrap()
}

fn thresholded_one() -> Scanner {
    let mut scanner = one();
    scanner.threshold();
    scanner
}

/// The pixels that the second pass tries, read off the candidate flags.
fn candidates(scanner: &Scanner) -> Vec<(usize, usize)> {
    let bytes = scanner.thresholding_rgba().unwrap();
    let (w, h) = (scanner.image_width(), scanner.image_height());
    let flagged = |k: usize| bytes[4 * k + 3] & 2 != 0;
    let mut out = Vec::new();
    for y in 2..h - 2 {
        for x in 1..w - 1 {
            let k = y * w + x;
            if flagged(k) && flagged(k - 1) && flagged(k + 1) && flagged(k - w) && flagged(k + w) {
                out.push((x, y));
            }
        }
    }
    out
}

const CORE: [usize; 8] = [0, 255, 0, 255, 255, 0, 255, 255];

#[test]
fn threshold_of_a_marker() {
    let scanner = thresholded_one();
    assert_eq!(scanner.candidate_count(), 117);
    let bytes = scanner.thresholding_rgba().unwrap();
    assert_eq!(bytes.chunks(4).filter(|px| px[3] & 1 == 1).count(), 12934);
    assert_eq!(bytes.chunks(4).filter(|px| px[3] & 2 == 2).count(), 117);
    let found = candidates(&scanner);
    assert_eq!(found.len(), 22);
    assert_eq!(found[..6], [(60, 39), (60, 40), (60, 41), (60, 42), (60, 43), (60, 55)]);
    assert_eq!(found[21], (60, 65));
}

#[test]
fn samples_of_a_marker() {
    let scanner = thresholded_one();
    assert_eq!(scanner.get_bw_3x3(60, 60), 1);
    assert_eq!(scanner.get_bw_3x3(60, 50), 0);
    assert_eq!(scanner.get_sample_3x3(60, 60), 255);
    assert_eq!(scanner.get_sample_3x3(52, 60), 85);
    for (value, x, y) in [
        (0usize, 54usize, 30usize),
        (28, 53, 30),
        (56, 52, 30),
        (85, 54, 29),
        (113, 53, 29),
        (141, 52, 29),
        (170, 54, 28),
        (198, 53, 28),
        (226, 52, 28),
        (255, 1, 1),
    ] {
        assert_eq!(scanner.get_sample_3x3(x, y), value);
        assert_eq!(scanner.get_bw_3x3(x, y), if value > 128 { 1 } else { 0 });
    }
}

#[test]
fn distances_in_a_marker() {
    let scanner = thresholded_one();
    let all = |x: usize, y: usize| {
        (scanner.x_dist(x, y, 1), scanner.x_dist(x, y, -1), scanner.y_dist(x, y, 1), scanner.y_dist(x, y, -1))
    };
    assert_eq!(all(60, 60), (8, 8, 8, 8));
    assert_eq!(all(60, 50), (13, 13, 3, 6));
    assert_eq!(all(0, 0), (-1, -1, -1, -1));
    assert_eq!(all(119, 60), (-1, 1, -1, -1));
    assert_eq!(all(60, 119), (-1, -1, -1, 1));
    assert_eq!(all(60, 2), (-1, -1, 27, -1));
    assert_eq!(all(2, 60), (27, -1, -1, -1));
}

#[test]
fn unit_of_a_marker() {
    let scanner = thresholded_one();
    let mut topcode = TopCode::default();
    topcode.set_location(60 * 480, 60 * 480);
    assert_eq!(topcode.read_unit(&scanner), Some(3840));
    // The centre is rounded to the nearest pixel.
    topcode.set_location(60 * 480 + 100, 60 * 480 - 240);
    assert_eq!(topcode.read_unit(&scanner), Some(3840));
    assert_eq!(topcode, TopCode { x: 28900, y: 28560, ..TopCode::default() });
}

#[test]
fn unit_is_not_found_off_the_bullseye() {
    let scanner = thresholded_one();
    let mut topcode = TopCode::default();
    // Nothing but white around.
    topcode.set_location(10 * 480, 10 * 480);
    assert_eq!(topcode.read_unit(&scanner), None);
    // In the black ring: breadth and height differ too much.
    topcode.set_location(60 * 480, 48 * 480);
    assert_eq!(topcode.read_unit(&scanner), None);
    // Outside the image, and too near its border.
    for (x, y) in [
        (-1i128, 60 * 480i128),
        (60 * 480, -1),
        (120 * 480, 60 * 480),
        (60 * 480, 120 * 480),
        (i128::MAX, i128::MAX),
        (i128::MIN, i128::MIN),
        (0, 0),
        (480, 480),
        (118 * 480, 118 * 480),
    ] {
        topcode.set_location(x, y);
        assert_eq!(topcode.read_unit(&scanner), None, "({}, {})", x, y);
    }
}

#[test]
fn code_of_a_marker() {
    let scanner = thresholded_one();
    let read = |unit: i64, arc: i32| {
        let mut topcode = TopCode::default();
        topcode.set_location(60 * 480, 60 * 480);
        let confidence = topcode.read_code(&scanner, unit, arc);
        assert_eq!((topcode.x, topcode.y, topcode.unit, topcode.orientation), (28800, 28800, 4320, 0));
        (confidence, topcode.code, topcode.core)
    };
    // On the border between two sectors the last ray reads neither black
    // nor white, and the checksum fails.
    assert_eq!(read(3840, 0), (0, None, [0, 255, 0, 255, 255, 0, 255, 170]));
    assert_eq!(read(3840, 10), (27115, Some(31), CORE));
    assert_eq!(read(3840, 18), (27115, Some(31), CORE));
    assert_eq!(read(3456, 4), (26781, Some(31), CORE));
    assert_eq!(read(4224, 4), (26049, Some(31), [85, 255, 0, 255, 255, 0, 255, 255]));
    // With rings of the wrong width the first ray fails.
    assert_eq!(read(2000, 0), (0, None, [28, 0, 226, 255, 255, 226, 0, 28]));
    // Half a sector back the code is read from the sector before.
    assert_eq!(read(3840, -10), (27115, Some(62), [0, 255, 0, 255, 255, 0, 255, 0]));
    // A full turn on it is read as it is.
    assert_eq!(read(3840, 270), (27115, Some(31), CORE));
}

#[test]
fn code_is_not_read_off_the_image() {
    let scanner = thresholded_one();
    for (x, y) in [(i128::MAX, i128::MAX), (i128::MIN, 0), (0, i128::MIN), (1 << 80, 1 << 80), (-(1 << 70), 28800)] {
        for unit in [3840, i64::MAX, i64::MIN, 0] {
            let mut topcode = TopCode::new(5);
            topcode.set_location(x, y);
            assert_eq!(topcode.read_code(&scanner, unit, 0), 0);
            assert_eq!(topcode, TopCode { code: None, x, y, ..TopCode::default() });
        }
    }
    let mut topcode = TopCode::new(5);
    topcode.set_location(28800, 28800);
    assert_eq!(topcode.read_code(&scanner, i64::MAX, i32::MAX), 0);
    assert_eq!(topcode.read_code(&scanner, i64::MIN, i32::MIN), 0);
    assert_eq!(topcode.code, None);
}

#[test]
fn decode_finds_the_code_from_a_seed_in_the_bullseye() {
    let scanner = thresholded_one();
    let mut topcode = TopCode::default();
    assert_eq!(topcode.decode(&scanner, 60, 60), Some(31));
    assert_eq!(
        topcode,
        TopCode { code: Some(31), unit: 3648, orientation: -9, x: 28800, y: 28800, core: CORE }
    );
    let mut topcode = TopCode::default();
    assert_eq!(topcode.decode(&scanner, 60, 55), Some(31));
    // The change of colour is 13 pixels below the seed and 3 above it:
    // the centre moves down by 10 / 6 pixels. The best fit is the measured
    // unit at 100%, three tenths of a sector on.
    assert_eq!(
        topcode,
        TopCode { code: Some(31), unit: 3840, orientation: -3, x: 28800, y: 27200, core: CORE }
    );
}

#[test]
fn decode_fails_off_the_bullseye() {
    let scanner = thresholded_one();
    for (cx, cy, x, y) in [
        (60usize, 39usize, 28800i128, 18960i128),
        (10, 10, 4800, 4800),
        (60, 48, 28800, 23120),
        (200, 200, 96000, 96000),
    ] {
        let mut topcode = TopCode::new(77);
        topcode.orientation = 5;
        assert_eq!(topcode.decode(&scanner, cx, cy), None);
        assert_eq!(
            topcode,
            TopCode { code: None, unit: -480, orientation: 5, x, y, core: [0; 8] }
        );
        assert!(!topcode.is_valid());
    }
    let mut topcode = TopCode::default();
    assert_eq!(topcode.decode(&scanner, usize::MAX, usize::MAX), None);
    assert_eq!(topcode.x, 480 * (usize::MAX as i128));
    assert_eq!(topcode.y, 480 * (usize::MAX as i128));
}

#[test]
fn scan_finds_a_marker() {
    let mut scanner = one();
    let found = scanner.scan();
    assert_eq!(
        found,
        vec![
            TopCode { code: Some(31), unit: 3840, orientation: -3, x: 28800, y: 27200, core: CORE },
            TopCode { code: Some(31), unit: 3840, orientation: -9, x: 28800, y: 30400, core: CORE },
        ]
    );
    assert_eq!(scanner.candidate_count(), 117);
    assert_eq!(found[0].radius(), 4 * 3840);
}

#[test]
fn scan_finds_two_markers_in_the_order_of_their_rows() {
    let buffer = draw(
        200,
        120,
        &[
            Marker { cx: 50, cy: 60, unit: 6, bits: 55, turn: 3 },
            Marker { cx: 140, cy: 56, unit: 7, bits: 93, turn: 11 },
        ],
    );
    let mut scanner = Scanner::new(&buffer, 200, 120).unwrap();
    assert_eq!(
        scanner.scan(),
        vec![
            TopCode {
                code: Some(93),
                unit: 3360,
                orientation: -253,
                x: 67200,
                y: 25600,
                core: [255, 255, 0, 255, 255, 0, 255, 0]
            },
            TopCode { code: Some(55), unit: 2736, orientation: -1, x: 24000, y: 27840, core: CORE },
        ]
    );
    assert_eq!(scanner.candidate_count(), 204);
}

fn three() -> Vec<u8> {
    draw(
        300,
        200,
        &[
            Marker { cx: 75, cy: 55, unit: 6, bits: 55, turn: 2 },
            Marker { cx: 203, cy: 96, unit: 5, bits: 31, turn: 11 },
            Marker { cx: 144, cy: 145, unit: 6, bits: 93, turn: 16 },
        ],
    )
}

#[test]
fn scan_finds_three_markers() {
    let mut scanner = Scanner::new(&three(), 300, 200).unwrap();
    let found = scanner.scan();
    assert_eq!(
        found,
        vec![
            TopCode { code: Some(55), unit: 2736, orientation: -1, x: 36000, y: 25440, core: CORE },
            TopCode {
                code: Some(31),
                unit: 2280,
                orientation: -253,
                x: 97440,
                y: 45440,
                core: [0, 255, 0, 255, 255, 0, 255, 0]
            },
            TopCode {
                code: Some(93),
                unit: 2736,
                orientation: -247,
                x: 69120,
                y: 68640,
                core: [255, 255, 0, 255, 255, 0, 255, 0]
            },
        ]
    );
    assert_eq!(scanner.candidate_count(), 267);
    // Each is found within a pixel of where it was drawn across, and its
    // ring width within a pixel of the one drawn.
    for (symbol, (cx, unit)) in found.iter().zip([(75i128, 6i64), (203, 5), (144, 6)]) {
        assert!(TopCode::checksum(symbol.code.unwrap()));
        assert!((symbol.x - 480 * cx).abs() <= 480);
        assert!((symbol.unit - 480 * unit).abs() <= 480);
    }
}

#[test]
fn scan_leaves_out_markers_above_the_largest_diameter() {
    let codes = |diameter: usize| {
        let mut scanner = Scanner::new(&three(), 300, 200).unwrap();
        scanner.set_max_code_diameter(diameter);
        let codes: Vec<Option<u32>> = scanner.scan().iter().map(|t| t.code).collect();
        (codes, scanner.candidate_count())
    };
    assert_eq!(codes(32), (vec![], 0));
    assert_eq!(codes(40), (vec![Some(31)], 45));
    assert_eq!(codes(48), (vec![Some(55), Some(31), Some(93)], 171));
    assert_eq!(codes(640), (vec![Some(55), Some(31), Some(93)], 267));
}

#[test]
fn scanning_the_same_buffer_twice_gives_the_same_symbols() {
    let buffer = three();
    let first = Scanner::new(&buffer, 300, 200).unwrap().scan();
    let second = Scanner::new(&buffer, 300, 200).unwrap().scan();
    assert_eq!(first, second);
    assert_eq!(first.len(), 3);
    let mut scanner = Scanner::new(&buffer, 300, 200).unwrap();
    scanner.threshold();
    assert_eq!(scanner.find_codes(), first);
    assert_eq!(scanner.find_codes(), first);
}

#[test]
fn of_the_candidates_in_one_bullseye_the_first_wins() {
    let scanner = thresholded_one();
    // Two candidates next to each other decode to two symbols whose
    // bullseyes overlap.
    let mut first = TopCode::default();
    assert_eq!(first.decode(&scanner, 60, 55), Some(31));
    let mut second = TopCode::default();
    assert_eq!(second.decode(&scanner, 60, 56), Some(31));
    assert_eq!((second.x, second.y, second.unit), (28800, 27520, 3840));
    assert!(first.in_bullseye(second.x, second.y));
    assert!(second.in_bullseye(first.x, first.y));
    // The second lies in the bullseye of the first, and is not taken.
    assert!(first.in_bullseye(60 * 480, 56 * 480));
    let found = scanner.find_codes();
    assert_eq!(found.iter().filter(|t| **t == first).count(), 1);
    assert_eq!(found.iter().filter(|t| **t == second).count(), 0);
    assert_eq!(found[0], first);
    // Every symbol found comes from a candidate outside the bullseyes of
    // those before it, and every candidate that gives none is either in the
    // bullseye of a symbol found before or does not decode.
    let mut expected: Vec<TopCode> = Vec::new();
    for (x, y) in candidates(&scanner) {
        let covered = Scanner::overlaps(&expected, x, y);
        assert_eq!(covered, expected.iter().any(|t| t.in_bullseye(480 * x as i128, 480 * y as i128)));
        let mut symbol = TopCode::default();
        symbol.decode(&scanner, x, y);
        if !covered && symbol.is_valid() {
            expected.push(symbol);
        }
    }
    assert_eq!(found, expected);
    assert_eq!(found.len(), 2);
}

#[test]
fn overlaps_tests_the_bullseyes_of_the_symbols() {
    let mut a = TopCode::new(31);
    a.set_location(10 * 480, 10 * 480);
    a.unit = 2 * 480;
    let mut b = TopCode::new(55);
    b.set_location(30 * 480, 10 * 480);
    b.unit = 480;
    let symbols = vec![a, b];
    assert!(Scanner::overlaps(&symbols, 10, 10));
    assert!(Scanner::overlaps(&symbols, 12, 10));
    assert!(Scanner::overlaps(&symbols, 10, 8));
    assert!(!Scanner::overlaps(&symbols, 13, 10));
    assert!(!Scanner::overlaps(&symbols, 12, 11));
    assert!(Scanner::overlaps(&symbols, 30, 10));
    assert!(Scanner::overlaps(&symbols, 31, 10));
    assert!(!Scanner::overlaps(&symbols, 32, 10));
    assert!(!Scanner::overlaps(&symbols, usize::MAX, usize::MAX));
    assert!(!Scanner::overlaps(&vec![], 10, 10));
}
