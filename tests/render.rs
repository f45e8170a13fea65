use mandelbrot::bands::{band_pixel, plan_bands, rows_per_band, Band};
use mandelbrot::escape::{classify, IterationResult, LaneState};
use mandelbrot::framebuffer::Framebuffer;
use mandelbrot::palette::{pack_rgb, Palette, Rgb};

fn standard_color(i: u32) -> u32 {
    Palette::standard().color(i)
}

// Renders a pass of `workers` bands whose pixels are shaded from their
// global position only, as the fractal is.
fn render_with(width: usize, height: usize, workers: usize, start: Vec<u32>) -> Vec<u32> {
    let palette = Palette::standard();
    let mut fb = Framebuffer::from_pixels(width, height, start).unwrap();
    let plan = plan_bands(height, workers);
    let mut colors: Vec<Vec<u32>> = Vec::new();
    for band in plan.iter() {
        let mut results: Vec<IterationResult> = Vec::new();
        for j in 0..band.height * width {
            let (col, row) = band_pixel(width, *band, j);
            let count = ((col * 7 + row * 3) % 120) as u32;
            results.push(classify(count, 100));
        }
        colors.push(palette.shade(&results));
    }
    fb.paint_bands(&plan, &colors);
    fb.into_pixels()
}

#[test]
fn pack_puts_channels_in_place() {
    assert_eq!(pack_rgb(0x12, 0x34, 0x56), 0x123456);
    assert_eq!(pack_rgb(255, 255, 255), 0xFFFFFF);
    assert_eq!(pack_rgb(0, 0, 0), 0);
}

#[test]
fn color_of_count_zero_is_first_control_point() {
    assert_eq!(standard_color(0), (7 << 8) + 100);
}

#[test]
fn color_interpolates_and_truncates() {
    // five twelfths of the way from (0, 7, 100) to (32, 107, 203)
    assert_eq!(standard_color(1), (13 << 16) + (48 << 8) + 142);
    // four twelfths from (255, 170, 0) to (0, 2, 0)
    assert_eq!(standard_color(8), (170 << 16) + (114 << 8));
    // seven twelfths from the last point (0, 2, 0) back to the first
    assert_eq!(standard_color(11), (4 << 8) + 58);
}

#[test]
fn color_repeats_every_twelve_counts() {
    for i in 0..12u32 {
        for n in 0..20u32 {
            assert_eq!(standard_color(i), standard_color(i + 12 * n));
        }
    }
    assert_eq!(standard_color(13), standard_color(1));
}

#[test]
fn bounded_points_are_black() {
    let p = Palette::standard();
    assert_eq!(p.result_color(IterationResult::Bounded), 0);
    assert_eq!(p.result_color(IterationResult::Escaped(1)), standard_color(1));
}

#[test]
fn palette_needs_control_points() {
    assert!(Palette::from_colors(Vec::new()).is_none());
    let p = Palette::from_colors(vec![Rgb { r: 10, g: 20, b: 30 }, Rgb { r: 250, g: 20, b: 6 }]).unwrap();
    assert_eq!(p.len(), 2);
    // position 6/12 of the way from the first to the second point
    assert_eq!(p.color(3), (130 << 16) + (20 << 8) + 18);
    assert_eq!(p.get(1), Rgb { r: 250, g: 20, b: 6 });
}

#[test]
fn shade_maps_each_result() {
    let p = Palette::standard();
    let results = vec![IterationResult::Escaped(0), IterationResult::Bounded, IterationResult::Escaped(8)];
    assert_eq!(p.shade(&results), vec![standard_color(0), 0, standard_color(8)]);
}

#[test]
fn all_colors_are_packed_rgb() {
    let p = Palette::standard();
    let mut seen: Vec<u32> = Vec::new();
    for i in 0..1000u32 {
        let c = p.color(i);
        assert!(c < 0x1000000);
        if !seen.contains(&c) {
            seen.push(c);
        }
    }
    assert!(seen.len() <= 12);
}

#[test]
fn classify_below_and_at_limit() {
    assert_eq!(classify(0, 255), IterationResult::Escaped(0));
    assert_eq!(classify(254, 255), IterationResult::Escaped(254));
    assert_eq!(classify(255, 255), IterationResult::Bounded);
    assert_eq!(classify(0, 0), IterationResult::Bounded);
}

#[test]
fn lanes_freeze_after_escape() {
    let mut s = LaneState::new();
    s.step([true, false, true, true]);
    s.step([true, true, false, true]);
    s.step([true, true, true, false]);
    assert_eq!(s.count(0), 3);
    assert_eq!(s.count(1), 0);
    assert_eq!(s.count(2), 1);
    assert_eq!(s.count(3), 2);
    assert!(s.any_active());
    s.step([false, true, true, true]);
    assert!(!s.any_active());
    assert_eq!(s.count(0), 3);
    assert_eq!(s.result(0, 10), IterationResult::Escaped(3));
    assert_eq!(s.result(1, 10), IterationResult::Escaped(0));
}

#[test]
fn lanes_count_to_limit_when_bounded() {
    let mut s = LaneState::new();
    for _ in 0..5 {
        s.step([true, true, true, false]);
    }
    assert_eq!(s.result(0, 5), IterationResult::Bounded);
    assert_eq!(s.result(3, 5), IterationResult::Escaped(0));
}

#[test]
fn bands_for_four_workers() {
    assert_eq!(rows_per_band(768, 4), 193);
    let plan = plan_bands(768, 4);
    assert_eq!(
        plan,
        vec![
            Band { top: 0, height: 193 },
            Band { top: 193, height: 193 },
            Band { top: 386, height: 193 },
            Band { top: 579, height: 189 },
        ]
    );
}

#[test]
fn bands_for_eight_workers() {
    assert_eq!(rows_per_band(768, 8), 97);
    let plan = plan_bands(768, 8);
    assert_eq!(plan.len(), 8);
    assert_eq!(plan[7], Band { top: 679, height: 89 });
}

#[test]
fn bands_cover_rows_for_every_worker_count() {
    for workers in 1..=16usize {
        for height in 0..60usize {
            let plan = plan_bands(height, workers);
            assert!(plan.len() <= workers);
            let mut next = 0;
            for band in plan.iter() {
                assert_eq!(band.top, next);
                assert!(band.height >= 1);
                next = band.top + band.height;
            }
            assert_eq!(next, height);
        }
    }
}

#[test]
fn no_bands_for_an_empty_image() {
    assert!(plan_bands(0, 4).is_empty());
}

#[test]
fn more_workers_than_rows() {
    let plan = plan_bands(3, 8);
    assert_eq!(plan.len(), 3);
    assert!(plan.iter().all(|b| b.height == 1));
}

#[test]
fn band_pixel_is_global_position() {
    let band = Band { top: 193, height: 193 };
    assert_eq!(band_pixel(1024, band, 0), (0, 193));
    assert_eq!(band_pixel(1024, band, 1025), (1, 194));
}

#[test]
fn framebuffer_checks_its_size() {
    assert!(Framebuffer::from_pixels(4, 3, vec![0; 11]).is_none());
    assert!(Framebuffer::from_pixels(4, 3, vec![0; 13]).is_none());
    let fb = Framebuffer::from_pixels(4, 3, vec![0; 12]).unwrap();
    assert_eq!((fb.width(), fb.height()), (4, 3));
    let fresh = Framebuffer::new(4, 3);
    assert_eq!(fresh.pixels(), &vec![0; 12]);
}

#[test]
fn write_band_touches_only_its_rows() {
    let mut fb = Framebuffer::new(3, 4);
    fb.write_band(Band { top: 1, height: 2 }, &vec![1, 2, 3, 4, 5, 6]);
    assert_eq!(fb.pixels(), &vec![0, 0, 0, 1, 2, 3, 4, 5, 6, 0, 0, 0]);
}

#[test]
fn rendering_twice_is_identical() {
    let first = render_with(64, 48, 4, vec![0; 64 * 48]);
    let second = render_with(64, 48, 4, first.clone());
    let other_start = render_with(64, 48, 4, vec![0xABCDEF; 64 * 48]);
    assert_eq!(first, second);
    assert_eq!(first, other_start);
}

#[test]
fn worker_count_does_not_change_pixels() {
    let one = render_with(64, 50, 1, vec![0; 64 * 50]);
    let eight = render_with(64, 50, 8, vec![0; 64 * 50]);
    assert_eq!(one, eight);
}

#[test]
fn full_size_pass_gives_valid_colors() {
    let pixels = render_with(1024, 768, 4, vec![0; 1024 * 768]);
    assert_eq!(pixels.len(), 1024 * 768);
    let mut seen: Vec<u32> = Vec::new();
    for &c in pixels.iter() {
        assert!(c < 0x1000000);
        if !seen.contains(&c) {
            seen.push(c);
        }
    }
    assert!(seen.len() <= 13);
    assert!(seen.contains(&0));
}
