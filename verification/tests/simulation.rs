use heatsim::SCALE;
use heatsim::diffusion::DiffusionGrid;
use heatsim::source::SourceMap;

/// A 5x5 source that is zero everywhere except 0.8 at the center, built from
/// a single-sample white image scaled by 0.8.
fn center_source() -> SourceMap {
    let pixels: Vec<u16> = vec![u16::MAX];
    SourceMap::from_image(5, 5, 800000, 1, 1, &pixels).unwrap()
}

fn zero_source(w: usize, h: usize) -> SourceMap {
    let pixels: Vec<u16> = Vec::new();
    SourceMap::from_image(w, h, SCALE, 0, 0, &pixels).unwrap()
}

#[test]
fn end_to_end_two_steps() {
    // 5x5 grid, alpha = 0.2, source 0.8 at the center, temperatures all zero.
    let src = center_source();
    let mut grid = DiffusionGrid::new(5, 5, 200000);
    assert_eq!(grid.alpha(), 200000);
    assert_eq!(grid.width(), 5);
    assert_eq!(grid.height(), 5);

    // After one step the center is clamped to the source; nothing else moves.
    grid.step(&src);
    for x in 0..5 {
        for y in 0..5 {
            let expected = if (x, y) == (2, 2) { 800000 } else { 0 };
            assert_eq!(grid.read(x, y), expected);
        }
    }

    // After a second step the four neighbors pick up 0.2 * 0.8 = 0.16 and the
    // center stays clamped.
    grid.step(&src);
    for x in 0..5 {
        for y in 0..5 {
            let expected = match (x, y) {
                (2, 2) => 800000,
                (1, 2) | (3, 2) | (2, 1) | (2, 3) => 160000,
                _ => 0,
            };
            assert_eq!(grid.read(x, y), expected);
        }
    }
}

#[test]
fn source_cells_are_clamped_not_diffused() {
    // Whatever the prior temperature at a positive-source cell, one step
    // rewrites it to exactly the source value.
    let src = center_source();
    let mut grid = DiffusionGrid::new(5, 5, 200000);
    grid.write(2, 2, 123456);
    grid.step(&src);
    assert_eq!(grid.read(2, 2), 800000);
    grid.write(2, 2, SCALE);
    grid.step(&src);
    assert_eq!(grid.read(2, 2), 800000);
}

#[test]
fn border_cells_never_change() {
    let src = center_source();
    let mut grid = DiffusionGrid::new(5, 5, 250000);
    grid.write(0, 0, 999999);
    grid.write(4, 2, 424242);
    grid.write(2, 0, 111111);
    grid.write(3, 4, 777777);
    for _ in 0..25 {
        grid.step(&src);
    }
    assert_eq!(grid.read(0, 0), 999999);
    assert_eq!(grid.read(4, 2), 424242);
    assert_eq!(grid.read(2, 0), 111111);
    assert_eq!(grid.read(3, 4), 777777);
}

#[test]
fn all_zero_field_stays_all_zero() {
    let src = zero_source(6, 4);
    let mut grid = DiffusionGrid::new(6, 4, 250000);
    for _ in 0..50 {
        grid.step(&src);
    }
    for x in 0..6 {
        for y in 0..4 {
            assert_eq!(grid.read(x, y), 0);
        }
    }
}

#[test]
fn stepping_stays_bounded() {
    // Stability at the critical coefficient 0.25: an arbitrary initial field
    // of values in [0, 1] with a zero source never leaves [0, 1].
    let src = zero_source(8, 8);
    let mut grid = DiffusionGrid::new(8, 8, 250000);
    for x in 0..8u64 {
        for y in 0..8u64 {
            grid.write(x as usize, y as usize, (x * 131071 + y * 37) * 1723 % (SCALE + 1));
        }
    }
    for _ in 0..10000 {
        grid.step(&src);
        for x in 0..8 {
            for y in 0..8 {
                assert!(grid.read(x, y) <= SCALE);
            }
        }
    }
}

#[test]
fn diffusion_update_is_exact() {
    // One interior update with distinct neighbor values:
    // T' = (1 - 4a)T + a(left + right + down + up), computed in fixed point.
    let src = zero_source(3, 3);
    let mut grid = DiffusionGrid::new(3, 3, 100000);
    grid.write(1, 1, 400000);
    grid.write(0, 1, 100000);
    grid.write(2, 1, 200000);
    grid.write(1, 0, 300000);
    grid.write(1, 2, 500000);
    grid.step(&src);
    // (1 - 0.4) * 0.4 + 0.1 * (0.1 + 0.2 + 0.3 + 0.5) = 0.24 + 0.11 = 0.35
    assert_eq!(grid.read(1, 1), 350000);
    // The neighbors sit on the border of the 3x3 grid and must not move.
    assert_eq!(grid.read(0, 1), 100000);
    assert_eq!(grid.read(2, 1), 200000);
    assert_eq!(grid.read(1, 0), 300000);
    assert_eq!(grid.read(1, 2), 500000);
}
