use topcodes::scanner::{InvalidInput, Scanner};

/// A buffer in which every pixel has its three channels at one value.
fn grey(values: &[u8]) -> Vec<u8> {
    let mut buffer = Vec::new();
    for v in values {
        buffer.push(*v);
        buffer.push(*v);
        buffer.push(*v);
    }
    buffer
}

/// Class, candidate flag and stored average of each pixel.
fn words(scanner: &Scanner) -> Vec<(u8, u8, u32)> {
    let bytes = scanner.thresholding_rgba().unwrap();
    let mut out = Vec::new();
    for px in bytes.chunks(4) {
        let average = ((px[0] as u32) << 16) | ((px[1] as u32) << 8) | (px[2] as u32);
        out.push((px[3] & 1, (px[3] >> 1) & 1, average));
    }
    out
}

const TINY: [u8; 36] = [
    10, 20, 30, 200, 210, 220, 0, 0, 0, 255, 255, 255, 90, 90, 90, 5, 6, 7, 250, 240, 230, 128, 128,
    128, 1, 2, 3, 77, 88, 99, 255, 0, 0, 0, 255, 0,
];

const ROW: [u8; 24] = [
    255, 255, 255, 255, 255, 255, 0, 0, 0, 255, 255, 255, 255, 255, 255, 0, 0, 0, 255, 255, 255, 255,
    255, 255,
];

#[test]
fn new_takes_a_buffer_of_three_bytes_per_pixel() {
    let scanner = Scanner::new(&TINY, 4, 3).unwrap();
    assert_eq!(scanner.image_width(), 4);
    assert_eq!(scanner.image_height(), 3);
    assert_eq!(scanner.max_unit(), 80);
    assert_eq!(scanner.candidate_count(), 0);
    let scanner = Scanner::new(&TINY, 3, 4).unwrap();
    assert_eq!((scanner.image_width(), scanner.image_height()), (3, 4));
    let scanner = Scanner::new(&TINY, 12, 1).unwrap();
    assert_eq!((scanner.image_width(), scanner.image_height()), (12, 1));
}

#[test]
fn new_packs_the_channels() {
    let scanner = Scanner::new(&TINY, 4, 3).unwrap();
    let bytes = scanner.thresholding_rgba().unwrap();
    assert_eq!(bytes.len(), 48);
    for (i, px) in bytes.chunks(4).enumerate() {
        assert_eq!(px, [TINY[3 * i], TINY[3 * i + 1], TINY[3 * i + 2], 255]);
    }
}

#[test]
fn new_refuses_a_buffer_of_the_wrong_length() {
    assert!(matches!(Scanner::new(&TINY, 4, 4), Err(InvalidInput::BufferLength)));
    assert!(matches!(Scanner::new(&TINY, 4, 2), Err(InvalidInput::BufferLength)));
    assert!(matches!(Scanner::new(&TINY[..35], 4, 3), Err(InvalidInput::BufferLength)));
    assert!(matches!(Scanner::new(&[], 1, 1), Err(InvalidInput::BufferLength)));
    assert!(matches!(Scanner::new(&TINY, 36, 1), Err(InvalidInput::BufferLength)));
}

#[test]
fn new_refuses_dimensions_whose_product_cannot_be_counted() {
    assert!(matches!(Scanner::new(&TINY, usize::MAX, 2), Err(InvalidInput::BufferLength)));
    assert!(matches!(Scanner::new(&TINY, usize::MAX, usize::MAX), Err(InvalidInput::BufferLength)));
    assert!(matches!(Scanner::new(&TINY, usize::MAX / 2, 1), Err(InvalidInput::BufferLength)));
    assert!(matches!(Scanner::new(&TINY, 1, usize::MAX / 3 + 1), Err(InvalidInput::BufferLength)));
}

#[test]
fn new_refuses_an_image_without_pixels() {
    assert!(matches!(Scanner::new(&[], 0, 0), Err(InvalidInput::EmptyImage)));
    assert!(matches!(Scanner::new(&[], 0, 5), Err(InvalidInput::EmptyImage)));
    assert!(matches!(Scanner::new(&[], 5, 0), Err(InvalidInput::EmptyImage)));
    assert!(matches!(Scanner::new(&TINY, 0, 3), Err(InvalidInput::EmptyImage)));
    assert_eq!(InvalidInput::EmptyImage, InvalidInput::EmptyImage);
    assert_ne!(InvalidInput::EmptyImage, InvalidInput::BufferLength);
}

#[test]
fn max_code_diameter_is_eight_units() {
    let mut scanner = Scanner::new(&TINY, 4, 3).unwrap();
    for (diameter, unit) in [
        (0usize, 0usize),
        (1, 1),
        (7, 1),
        (8, 1),
        (9, 2),
        (50, 7),
        (60, 8),
        (640, 80),
        (641, 81),
        (usize::MAX, usize::MAX / 8 + 1),
        (usize::MAX - 7, usize::MAX / 8),
    ] {
        scanner.set_max_code_diameter(diameter);
        assert_eq!(scanner.max_unit(), unit, "diameter {}", diameter);
    }
    assert_eq!((scanner.image_width(), scanner.image_height()), (4, 3));
}

#[test]
fn threshold_stores_class_and_running_average() {
    let mut scanner = Scanner::new(&TINY, 4, 3).unwrap();
    scanner.threshold();
    assert_eq!(
        scanner.thresholding_rgba().unwrap(),
        vec![
            0, 0, 144, 1, 0, 1, 94, 1, 0, 1, 83, 0, 0, 2, 71, 1, 0, 3, 178, 1, 0, 3, 117, 0, 0, 3,
            141, 1, 0, 2, 180, 1, 0, 3, 149, 0, 0, 3, 207, 1, 0, 4, 4, 1, 0, 4, 55, 1
        ]
    );
    assert_eq!(scanner.candidate_count(), 0);
}

#[test]
fn threshold_follows_its_formulas_on_the_first_pixels() {
    let mut scanner = Scanner::new(&TINY, 4, 3).unwrap();
    scanner.threshold();
    let w = words(&scanner);
    // First pixel: intensity 20, average 128 + 20 - 128 / 30 = 144,
    // threshold 144 / 30 = 4, and 20 >= 0.975 * 4.
    assert_eq!(w[0], (1, 0, 144));
    // Second: intensity 210, average 144 + 210 - 4 = 350, threshold 11.
    assert_eq!(w[1], (1, 0, 350));
    // Third: intensity 0, average 350 - 11 = 339, threshold 11: black.
    assert_eq!(w[2], (0, 0, 339));
    // Fourth: intensity 255, average 339 + 255 - 11 = 583.
    assert_eq!(w[3], (1, 0, 583));
    // The second row runs from the right: intensity 128, average
    // 583 + 128 - 19 = 692, threshold (692 + 583) / 60 = 21.
    assert_eq!(w[7], (1, 0, 692));
    // Then intensity 240, average 692 + 240 - 23 = 909.
    assert_eq!(w[6], (1, 0, 909));
    // Then intensity 6, average 909 + 6 - 30 = 885, threshold
    // (885 + 350) / 60 = 20: black.
    assert_eq!(w[5], (0, 0, 885));
}

#[test]
fn threshold_is_white_from_975_thousandths_of_the_threshold() {
    // After one pixel of intensity a the average is 124 + a and the
    // threshold (124 + a) / 30: 4 up to a = 25, 5 from a = 26 on. A pixel is
    // white from 39/40 of the threshold on.
    let expect = |a: u8, class: u8| {
        let mut scanner = Scanner::new(&[a, a, a], 1, 1).unwrap();
        scanner.threshold();
        assert_eq!(words(&scanner), vec![(class, 0, 124 + a as u32)], "intensity {}", a);
    };
    expect(0, 0);
    expect(3, 0);
    expect(4, 1);
    expect(5, 1);
    expect(255, 1);
    // Under a stored average of 7679 + 29 the threshold of the second row
    // is higher.
    let mut scanner = Scanner::new(&grey(&[40, 38]), 1, 2).unwrap();
    scanner.threshold();
    // 128 + 40 - 4 = 164; 164 + 38 - 5 = 197; (197 + 164) / 60 = 6.
    assert_eq!(words(&scanner), vec![(1, 0, 164), (1, 0, 197)]);
    let mut scanner = Scanner::new(&grey(&[200, 6]), 1, 2).unwrap();
    scanner.threshold();
    // 128 + 200 - 4 = 324; 324 + 6 - 10 = 320; (320 + 324) / 60 = 10:
    // 6 is less than 9.75.
    assert_eq!(words(&scanner), vec![(1, 0, 324), (0, 0, 320)]);
    let mut scanner = Scanner::new(&grey(&[200, 10]), 1, 2).unwrap();
    scanner.threshold();
    // 324 + 10 - 10 = 324; (324 + 324) / 60 = 10: 10 is more than 9.75.
    assert_eq!(words(&scanner), vec![(1, 0, 324), (1, 0, 324)]);
    let mut scanner = Scanner::new(&grey(&[200, 9]), 1, 2).unwrap();
    scanner.threshold();
    assert_eq!(words(&scanner), vec![(1, 0, 324), (0, 0, 323)]);
}

#[test]
fn threshold_flags_three_pixels_at_the_centre_of_a_bullseye() {
    let mut scanner = Scanner::new(&grey(&ROW), 24, 1).unwrap();
    scanner.threshold();
    let w = words(&scanner);
    let classes: Vec<u8> = w.iter().map(|p| p.0).collect();
    let flags: Vec<u8> = w.iter().map(|p| p.1).collect();
    let averages: Vec<u32> = w.iter().map(|p| p.2).collect();
    assert_eq!(
        classes,
        vec![1, 1, 1, 1, 1, 1, 0, 0, 0, 1, 1, 1, 1, 1, 1, 0, 0, 0, 1, 1, 1, 1, 1, 1]
    );
    // The second black run ends at pixel 18: the centre lies 1 + 3 + 6 / 2
    // pixels back.
    assert_eq!(
        flags,
        vec![0, 0, 0, 0, 0, 0, 0, 0, 0, 0, 1, 1, 1, 0, 0, 0, 0, 0, 0, 0, 0, 0, 0, 0]
    );
    assert_eq!(
        averages,
        vec![
            379, 622, 857, 1084, 1303, 1515, 1465, 1417, 1370, 1580, 1783, 1979, 2169, 2352, 2529,
            2445, 2364, 2286, 2465, 2638, 2806, 2968, 3125, 3276
        ]
    );
    assert_eq!(scanner.candidate_count(), 3);
}

#[test]
fn threshold_reads_odd_rows_from_the_right() {
    let mut two_rows = ROW.to_vec();
    two_rows.extend_from_slice(&ROW);
    let mut scanner = Scanner::new(&grey(&two_rows), 24, 2).unwrap();
    scanner.threshold();
    let w = words(&scanner);
    let flags: Vec<u8> = w[24..].iter().map(|p| p.1).collect();
    let averages: Vec<u32> = w[24..].iter().map(|p| p.2).collect();
    // Read from the right the second black run ends at pixel 5: the centre
    // lies 7 pixels to the right of it.
    assert_eq!(
        flags,
        vec![0, 0, 0, 0, 0, 0, 0, 0, 0, 0, 0, 1, 1, 1, 0, 0, 0, 0, 0, 0, 0, 0, 0, 0]
    );
    assert_eq!(
        averages,
        vec![
            4670, 4567, 4460, 4350, 4236, 4118, 3996, 4133, 4275, 4422, 4310, 4194, 4074, 3950,
            3822, 3689, 3816, 3947, 4083, 3960, 3832, 3700, 3563, 3422
        ]
    );
    assert_eq!(scanner.candidate_count(), 6);
}

#[test]
fn threshold_heeds_the_largest_code_diameter() {
    let mut scanner = Scanner::new(&grey(&ROW), 24, 1).unwrap();
    scanner.set_max_code_diameter(16);
    scanner.threshold();
    assert_eq!(scanner.candidate_count(), 0);
    assert!(words(&scanner).iter().all(|p| p.1 == 0));
    let mut scanner = Scanner::new(&grey(&ROW), 24, 1).unwrap();
    scanner.set_max_code_diameter(17);
    scanner.threshold();
    assert_eq!(scanner.candidate_count(), 3);
}

#[test]
fn threshold_of_a_black_image_decays_to_white() {
    let mut scanner = Scanner::new(&[0; 30], 5, 2).unwrap();
    scanner.threshold();
    assert_eq!(
        words(&scanner),
        vec![
            (0, 0, 0x7c),
            (0, 0, 0x78),
            (0, 0, 0x74),
            (0, 0, 0x71),
            (0, 0, 0x6e),
            (0, 0, 0x5f),
            (0, 0, 0x62),
            (0, 0, 0x65),
            (0, 0, 0x68),
            (0, 0, 0x6b)
        ]
    );
    let mut scanner = Scanner::new(&vec![0; 100 * 100 * 3], 100, 100).unwrap();
    scanner.threshold();
    let w = words(&scanner);
    assert_eq!(w.iter().filter(|p| p.0 == 1).count(), 9889);
    assert!(w.iter().all(|p| p.1 == 0));
    assert_eq!(w[9999].2, 29);
}

#[test]
fn threshold_of_a_white_image() {
    let mut scanner = Scanner::new(&[255; 30], 5, 2).unwrap();
    scanner.threshold();
    assert_eq!(
        words(&scanner),
        vec![
            (1, 0, 0x17b),
            (1, 0, 0x26e),
            (1, 0, 0x359),
            (1, 0, 0x43c),
            (1, 0, 0x517),
            (1, 0, 0x8f7),
            (1, 0, 0x83e),
            (1, 0, 0x77e),
            (1, 0, 0x6b8),
            (1, 0, 0x5eb)
        ]
    );
}

#[test]
fn running_average_stays_below_its_limit() {
    let mut scanner = Scanner::new(&vec![255; 64 * 64 * 3], 64, 64).unwrap();
    scanner.threshold();
    let w = words(&scanner);
    // 7650 - 7650 / 30 + 255 = 7650
    assert_eq!(w.iter().map(|p| p.2).max(), Some(7650));
    assert_eq!(w[64 * 64 - 1].2, 7650);
    assert!(w.iter().all(|p| p.0 == 1 && p.1 == 0));
}

#[test]
fn a_uniformly_black_image_yields_no_symbols() {
    for (width, height) in [(100usize, 100usize), (1, 1), (5, 5), (7, 300), (300, 7), (64, 3), (33, 33)] {
        let mut scanner = Scanner::new(&vec![0; width * height * 3], width, height).unwrap();
        assert_eq!(scanner.scan(), vec![]);
        assert_eq!(scanner.candidate_count(), 0);
    }
}

#[test]
fn a_uniformly_white_image_yields_no_symbols() {
    let mut scanner = Scanner::new(&vec![255; 100 * 100 * 3], 100, 100).unwrap();
    assert_eq!(scanner.scan(), vec![]);
}

#[test]
fn find_codes_passes_over_an_image_of_few_rows() {
    // Every pixel of an image that was not thresholded reads as flagged, but
    // there is no row between the margins.
    for height in 1usize..=4 {
        let scanner = Scanner::new(&vec![0; 6 * height * 3], 6, height).unwrap();
        assert_eq!(scanner.find_codes(), vec![]);
    }
}

#[test]
fn samples_of_a_small_field() {
    // 5 x 4, white but for a black column at x = 3.
    let mut values = Vec::new();
    for _y in 0..4 {
        values.extend_from_slice(&[255, 255, 255, 0, 255]);
    }
    let mut scanner = Scanner::new(&grey(&values), 5, 4).unwrap();
    scanner.threshold();
    for y in 0..4 {
        for x in 0..5 {
            assert_eq!(scanner.get_bw(x, y), if x == 3 { 0 } else { 1 }, "({}, {})", x, y);
        }
    }
    // Nine white of nine, six of nine, and the border.
    assert_eq!(scanner.get_sample_3x3(1, 1), 255);
    assert_eq!(scanner.get_sample_3x3(2, 1), 170);
    assert_eq!(scanner.get_sample_3x3(3, 2), 170);
    assert_eq!(scanner.get_bw_3x3(1, 1), 1);
    assert_eq!(scanner.get_bw_3x3(2, 2), 1);
    for (x, y) in [(0usize, 1usize), (4, 1), (1, 0), (1, 3), (5, 1), (1, 4), (usize::MAX, 1), (1, usize::MAX)] {
        assert_eq!(scanner.get_sample_3x3(x, y), 0, "({}, {})", x, y);
        assert_eq!(scanner.get_bw_3x3(x, y), 0, "({}, {})", x, y);
    }
}

#[test]
fn majority_needs_five_white_pixels() {
    // Rows of a 5 x 3 field: the region around (1, 1) holds 4, 5 and 6
    // white pixels in turn.
    let field = |middle: [u8; 5]| {
        let mut values = vec![255, 0, 0, 255, 255];
        values.extend_from_slice(&middle);
        values.extend_from_slice(&[255, 255, 0, 255, 255]);
        let mut scanner = Scanner::new(&grey(&values), 5, 3).unwrap();
        scanner.threshold();
        scanner
    };
    let scanner = field([255, 0, 0, 255, 255]);
    assert_eq!((scanner.get_sample_3x3(1, 1), scanner.get_bw_3x3(1, 1)), (113, 0));
    let scanner = field([255, 255, 0, 255, 255]);
    assert_eq!((scanner.get_sample_3x3(1, 1), scanner.get_bw_3x3(1, 1)), (141, 1));
    let scanner = field([255, 255, 255, 255, 255]);
    assert_eq!((scanner.get_sample_3x3(1, 1), scanner.get_bw_3x3(1, 1)), (170, 1));
}

#[test]
fn distances_without_a_change_of_colour() {
    let mut scanner = Scanner::new(&vec![255; 20 * 20 * 3], 20, 20).unwrap();
    scanner.threshold();
    for (x, y) in [(10usize, 10usize), (0, 0), (20, 20), (usize::MAX, usize::MAX), (1, 1), (18, 18)] {
        assert_eq!(scanner.x_dist(x, y, 1), -1);
        assert_eq!(scanner.x_dist(x, y, -1), -1);
        assert_eq!(scanner.y_dist(x, y, 1), -1);
        assert_eq!(scanner.y_dist(x, y, -1), -1);
    }
    // A pixel on the right or bottom border reads as black, and the pixel
    // next to it inwards is looked at: there the colour changes. On the left
    // and at the top the walk ends a pixel earlier.
    assert_eq!(scanner.x_dist(19, 10, -1), 1);
    assert_eq!(scanner.y_dist(10, 19, -1), 1);
    assert_eq!(scanner.x_dist(0, 10, 1), -1);
    assert_eq!(scanner.y_dist(10, 0, 1), -1);
    assert_eq!(scanner.x_dist(19, 10, 1), -1);
    assert_eq!(scanner.y_dist(10, 19, 1), -1);
}
