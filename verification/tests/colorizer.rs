use heatsim::SCALE;
use heatsim::color::Rgb;
use heatsim::color::anchor_color;
use heatsim::color::channel_to_byte;
use heatsim::color::colorize;

#[test]
fn endpoint_zero_is_first_anchor() {
    assert_eq!(colorize(0), Rgb { r: 20000, g: 0, b: 60000 });
    assert_eq!(colorize(0), anchor_color(0));
}

#[test]
fn endpoint_one_is_last_anchor() {
    assert_eq!(colorize(SCALE), Rgb { r: 1000000, g: 1000000, b: 650000 });
    assert_eq!(colorize(SCALE), anchor_color(4));
}

#[test]
fn inputs_above_one_clamp_to_the_top() {
    assert_eq!(colorize(SCALE + 1), colorize(SCALE));
    assert_eq!(colorize(2 * SCALE), colorize(SCALE));
    assert_eq!(colorize(u64::MAX), colorize(SCALE));
}

#[test]
fn anchors_are_hit_exactly() {
    // Temperature 1/2 lands exactly on the middle anchor.
    assert_eq!(colorize(500000), Rgb { r: 480000, g: 60000, b: 330000 });
    // Temperatures 1/4 and 3/4 land exactly on the second and fourth anchors.
    assert_eq!(colorize(250000), Rgb { r: 130000, g: 50000, b: 400000 });
    assert_eq!(colorize(750000), Rgb { r: 900000, g: 350000, b: 10000 });
}

#[test]
fn interpolation_is_exact_between_anchors() {
    // Halfway between the first two anchors: the componentwise average.
    assert_eq!(colorize(125000), Rgb { r: 75000, g: 25000, b: 230000 });
}

#[test]
fn channel_narrows_to_bytes() {
    assert_eq!(channel_to_byte(0), 0);
    assert_eq!(channel_to_byte(SCALE), 255);
    // 0.5 * 255 = 127.5 rounds down.
    assert_eq!(channel_to_byte(500000), 127);
}
