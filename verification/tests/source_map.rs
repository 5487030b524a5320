use heatsim::SCALE;
use heatsim::source::SourceMap;
use heatsim::source::SourceMapError;

#[test]
fn white_image_is_centered() {
    // A 4x4 all-white image on a 10x10 grid at full intensity: a 4x4 block of
    // 1.0 at offset (3, 3) through (6, 6), every other cell zero.
    let pixels: Vec<u16> = vec![u16::MAX; 16];
    let sm = SourceMap::from_image(10, 10, SCALE, 4, 4, &pixels).unwrap();
    assert_eq!(sm.width(), 10);
    assert_eq!(sm.height(), 10);
    for x in 0..10 {
        for y in 0..10 {
            let expected = if (3..=6).contains(&x) && (3..=6).contains(&y) { SCALE } else { 0 };
            assert_eq!(sm.get(x, y), expected);
        }
    }
}

#[test]
fn oversized_images_are_rejected() {
    let too_wide: Vec<u16> = vec![0; 11 * 4];
    assert!(matches!(
        SourceMap::from_image(10, 10, SCALE, 11, 4, &too_wide),
        Err(SourceMapError::ImageTooLarge)
    ));
    let too_tall: Vec<u16> = vec![0; 4 * 11];
    assert!(matches!(
        SourceMap::from_image(10, 10, SCALE, 4, 11, &too_tall),
        Err(SourceMapError::ImageTooLarge)
    ));
}

#[test]
fn grid_sized_image_is_accepted() {
    let pixels: Vec<u16> = vec![u16::MAX; 9];
    let sm = SourceMap::from_image(3, 3, 700000, 3, 3, &pixels).unwrap();
    for x in 0..3 {
        for y in 0..3 {
            assert_eq!(sm.get(x, y), 700000);
        }
    }
}

#[test]
fn rows_are_flipped_bottom_up() {
    // A 1x2 image, top sample white and bottom sample black, on a 3x4 grid:
    // offsets are (1, 1), and the image's top row must land on the higher of
    // the two covered grid rows.
    let pixels: Vec<u16> = vec![u16::MAX, 0];
    let sm = SourceMap::from_image(3, 4, 500000, 1, 2, &pixels).unwrap();
    assert_eq!(sm.get(1, 2), 500000);
    assert_eq!(sm.get(1, 1), 0);
    for x in 0..3 {
        for y in 0..4 {
            if (x, y) != (1, 2) {
                assert_eq!(sm.get(x, y), 0);
            }
        }
    }
}

#[test]
fn luminance_is_normalized() {
    // One mid-gray sample: k * 32768 / 65535, rounded down.
    let pixels: Vec<u16> = vec![32768];
    let sm = SourceMap::from_image(5, 5, SCALE, 1, 1, &pixels).unwrap();
    assert_eq!(sm.get(2, 2), 500007);
}

#[test]
fn empty_image_gives_all_zero_source() {
    let pixels: Vec<u16> = Vec::new();
    let sm = SourceMap::from_image(5, 5, SCALE, 0, 0, &pixels).unwrap();
    for x in 0..5 {
        for y in 0..5 {
            assert_eq!(sm.get(x, y), 0);
        }
    }
}
