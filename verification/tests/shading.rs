//! The renderer with double-precision stages, as a host wires it up: the
//! quadratic map on the complex plane, the bulb test and the arctangent
//! colour ramp over hue and lightness.

use std::cell::RefCell;

use mandelbrot::color::sector_channels;
use mandelbrot::escape::escape_time;
use mandelbrot::Mandelbrot;
use mandelbrot::Pipeline;

type Point = (f64, f64);

fn ratio(escape: u32) -> f64 {
    (escape as f64 / 512.0).atan() / std::f64::consts::FRAC_PI_2
}

fn hsl_to_rgb(h: f64, s: f64, l: f64) -> (f64, f64, f64) {
    let c = (1. - (l + l - 1.).abs()) * s;
    let hp = h / 60.;
    let x = c * (1. - (hp % 2. - 1.).abs());
    let (r, g, b) = sector_channels(hp as u8, c, x, 0.);
    let m = l - c / 2.;
    (r + m, g + m, b + m)
}

fn colorize(escape: u32) -> (u8, u8, u8) {
    let ratio = ratio(escape);
    let (r, g, b) = hsl_to_rgb(ratio * 120.0, 1.0, ratio * 0.9);
    ((r * 255.) as u8, (g * 255.) as u8, (b * 255.) as u8)
}

fn in_mandelbulb(cr: f64, ci: f64) -> bool {
    let ci_sqr = ci * ci;
    if cr < -1.25 || cr > 0.375 || ci_sqr > 0.421875 {
        return false;
    }
    let cr_minus_fourth = cr - 0.25;
    let q = cr_minus_fourth * cr_minus_fourth + ci_sqr;
    if q * (q + cr_minus_fourth) < 0.25 * ci_sqr {
        return true;
    }
    let cr_plus_one = cr + 1.;
    cr_plus_one * cr_plus_one + ci_sqr < 0.0625
}

fn mandelbrot_escape(cr: f64, ci: f64, iterations: u32) -> u32 {
    let escaped = |(zr, zi): Point| zr.powi(2) + zi.powi(2) > 4.;
    let advance = |(zr, zi): Point| {
        let mut next_zi = zr * zi;
        next_zi += next_zi;
        next_zi += ci;
        (zr.powi(2) - zi.powi(2) + cr, next_zi)
    };
    escape_time((cr, ci), iterations, &escaped, &advance)
}

/// One pass over the viewport whose top-left corner is at `left + top i` and
/// which is `width` wide and `height` high.
fn draw_viewport(
    m: &mut Mandelbrot,
    top: f64,
    left: f64,
    width: f64,
    height: f64,
    iterations: u32,
    interlace_count: usize,
    interlace_step: usize,
) {
    let delta_x = width / m.render_width() as f64;
    let delta_y = height / m.render_height() as f64;
    let pipeline = Pipeline {
        locate: |row: usize, col: usize| -> Point {
            (left + col as f64 * delta_x, top - row as f64 * delta_y)
        },
        transform: |point: Point| point,
        interior: |(cr, ci): Point| in_mandelbulb(cr, ci),
        escape: |(cr, ci): Point, cap: u32| mandelbrot_escape(cr, ci, cap),
        colorize,
    };
    m.draw(iterations, interlace_count, interlace_step, &pipeline);
}

#[test]
fn ratio_of_zero_is_zero() {
    assert_eq!(ratio(0), 0.0);
}

#[test]
fn ratio_stays_between_zero_and_one() {
    for escape in [1u32, 2, 512, 100_000, u32::MAX] {
        assert!(0.0 < ratio(escape));
        assert!(ratio(escape) < 1.0);
    }
}

#[test]
fn ratio_of_the_slow_constant_is_one_half() {
    assert_eq!(ratio(512), 0.5);
}

#[test]
fn ratio_does_not_decrease_with_the_escape_count() {
    let mut last = ratio(0);
    for escape in 1..=20_000u32 {
        let next = ratio(escape);
        assert!(last <= next);
        last = next;
    }
    let mut escape = 20_000u32;
    while escape < u32::MAX / 2 {
        assert!(ratio(escape) <= ratio(2 * escape));
        assert!(ratio(escape) <= ratio(escape + 1));
        escape *= 2;
    }
    assert!(ratio(u32::MAX - 1) <= ratio(u32::MAX));
}

#[test]
fn colorize_of_zero_is_black() {
    assert_eq!(colorize(0), (0, 0, 0));
}

#[test]
fn colorize_truncates_each_channel() {
    // Red is 0.57, 2.28 and 9.13 of 255 for these counts.
    assert_eq!(colorize(1), (0, 0, 0));
    assert_eq!(colorize(4), (2, 0, 0));
    assert_eq!(colorize(16), (9, 0, 0));
    assert_eq!(colorize(100), (56, 13, 0));
}

#[test]
fn colorize_at_the_slow_constant_is_yellow() {
    // Hue 60 and lightness 0.45: red and green at 0.9, which is 229.5 of 255.
    assert_eq!(colorize(512), (229, 229, 0));
}

#[test]
fn colorize_of_slow_escapes_goes_towards_light_green() {
    let (r, g, b) = colorize(5000);
    assert_eq!((r, b), (184, 174));
    assert!(g >= 254);
    let (r, g, b) = colorize(u32::MAX);
    assert_eq!((r, b), (203, 203));
    assert!(g >= 254);
}

#[test]
fn hsl_to_rgb_of_the_primary_hues() {
    assert_eq!(hsl_to_rgb(0., 1., 0.5), (1., 0., 0.));
    assert_eq!(hsl_to_rgb(60., 1., 0.5), (1., 1., 0.));
    assert_eq!(hsl_to_rgb(120., 1., 0.5), (0., 1., 0.));
    assert_eq!(hsl_to_rgb(180., 1., 0.5), (0., 1., 1.));
    assert_eq!(hsl_to_rgb(240., 1., 0.5), (0., 0., 1.));
    assert_eq!(hsl_to_rgb(300., 1., 0.5), (1., 0., 1.));
}

#[test]
fn hsl_to_rgb_without_saturation_is_grey() {
    assert_eq!(hsl_to_rgb(0., 0., 0.25), (0.25, 0.25, 0.25));
    assert_eq!(hsl_to_rgb(200., 0., 0.75), (0.75, 0.75, 0.75));
}

#[test]
fn hsl_to_rgb_past_the_circle_keeps_the_lightness_offset_only() {
    // Hue 360 is sector 6, which has no colour: what is left is l - c / 2.
    assert_eq!(hsl_to_rgb(360., 1., 0.5), (0., 0., 0.));
    assert_eq!(hsl_to_rgb(420., 1., 0.75), (0.5, 0.5, 0.5));
}

#[test]
fn in_mandelbulb_accepts_the_centre_of_the_cardioid() {
    assert!(in_mandelbulb(0., 0.));
}

#[test]
fn in_mandelbulb_rejects_a_point_far_outside() {
    assert!(!in_mandelbulb(1., 1.));
}

#[test]
fn in_mandelbulb_accepts_the_period_two_bulb() {
    assert!(in_mandelbulb(-1., 0.));
    assert!(in_mandelbulb(-1.2, 0.1));
}

#[test]
fn in_mandelbulb_rejects_outside_the_bounding_box() {
    assert!(!in_mandelbulb(-1.26, 0.));
    assert!(!in_mandelbulb(0.376, 0.));
    assert!(!in_mandelbulb(0., 0.65));
    assert!(!in_mandelbulb(-2., 1.));
}

#[test]
fn in_mandelbulb_leaves_the_boundaries_to_the_evaluator() {
    // The cusp of the cardioid and the point where it touches the bulb.
    assert!(!in_mandelbulb(0.25, 0.));
    assert!(!in_mandelbulb(-0.75, 0.));
}

#[test]
fn mandelbrot_escape_of_a_point_outside_the_radius_is_one() {
    assert_eq!(mandelbrot_escape(2., 2., 50), 1);
    assert_eq!(mandelbrot_escape(-2., 1., 10), 1);
}

#[test]
fn mandelbrot_escape_of_the_origin_is_zero() {
    for iterations in [0u32, 1, 2, 50, 10_000] {
        assert_eq!(mandelbrot_escape(0., 0., iterations), 0);
    }
}

#[test]
fn mandelbrot_escape_counts_the_tests_until_the_escape() {
    // The orbit of 1 + i is 1 + i, 1 + 3i: the second point is outside.
    assert_eq!(mandelbrot_escape(1., 1., 50), 2);
    // The orbit of -0.5 + i is -0.5 + i, -1.25, 1.0625 + i, -0.37109375 + 3.125i.
    assert_eq!(mandelbrot_escape(-0.5, 1., 10), 4);
    assert_eq!(mandelbrot_escape(-0.5, 1., 4), 4);
    assert_eq!(mandelbrot_escape(-0.5, 1., 3), 0);
}

#[test]
fn mandelbrot_escape_tests_for_more_than_the_radius() {
    // The orbit of -2 is -2, 2, 2, ..: on the circle of radius 2, never outside.
    assert_eq!(mandelbrot_escape(-2., 0., 100), 0);
    assert_eq!(mandelbrot_escape(0., 2., 100), 2);
}

#[test]
fn mandelbrot_escape_agrees_with_the_bulb_test_on_interior_points() {
    for (cr, ci) in [(0., 0.), (-1., 0.), (-0.5, 0.5), (-1.2, 0.1), (0.2, 0.3)] {
        assert!(in_mandelbulb(cr, ci));
        assert_eq!(mandelbrot_escape(cr, ci, 2000), 0);
    }
}

#[test]
fn draw_classifies_the_point_of_each_pixel_in_the_viewport() {
    let mut m = Mandelbrot::new(2, 2);
    let (top, left, width, height) = (1., -2., 3., 2.);
    let delta_x = width / m.render_width() as f64;
    let delta_y = height / m.render_height() as f64;
    let classified = RefCell::new(Vec::new());
    let pipeline = Pipeline {
        locate: |row: usize, col: usize| -> Point {
            (left + col as f64 * delta_x, top - row as f64 * delta_y)
        },
        transform: |point: Point| point,
        interior: |point: Point| {
            classified.borrow_mut().push(point);
            in_mandelbulb(point.0, point.1)
        },
        escape: |(cr, ci): Point, cap: u32| mandelbrot_escape(cr, ci, cap),
        colorize,
    };
    m.draw(10, 1, 0, &pipeline);
    // The real part grows with the column, the imaginary part falls with the row.
    assert_eq!(
        *classified.borrow(),
        vec![(-2., 1.), (-0.5, 1.), (-2., 0.), (-0.5, 0.)]
    );
    // -2 stays on the circle of radius 2; -0.5 is in the main cardioid.
    assert_eq!(
        m.colors(),
        [0, 0, 0, 255, 2, 0, 0, 255, 0, 0, 0, 255, 0, 0, 0, 255]
    );
}

#[test]
fn draw_two_pixels_of_a_viewport() {
    let mut m = Mandelbrot::new(2, 1);
    draw_viewport(&mut m, 1., -2., 3., 2., 10, 1, 0);
    assert_eq!(m.colors().len(), 8);
    assert_eq!(m.colors()[3], 255);
    assert_eq!(m.colors()[7], 255);
    // Pixel 0 is at -2 + i, outside the radius at once: count 1, red 0.57.
    // Pixel 1 is at -0.5 + i, outside at the fourth test: count 4, red 2.28.
    assert_eq!(m.colors(), [0, 0, 0, 255, 2, 0, 0, 255]);
}

#[test]
fn draw_a_small_frame_of_the_whole_set() {
    let mut m = Mandelbrot::new(4, 3);
    draw_viewport(&mut m, 1.5, -2.5, 4., 3., 100, 1, 0);
    let red: Vec<u8> = m.colors().chunks(4).map(|pixel| pixel[0]).collect();
    assert_eq!(red, vec![0, 0, 1, 1, 0, 1, 0, 2, 0, 1, 0, 2]);
    for pixel in m.colors().chunks(4) {
        assert_eq!(pixel[1..], [0, 0, 255]);
    }
}

#[test]
fn draw_interlaced_builds_the_frame_of_a_single_pass() {
    let mut whole = Mandelbrot::new(16, 12);
    draw_viewport(&mut whole, 1.5, -2.5, 4., 3., 200, 1, 0);
    for count in [2usize, 3, 5, 7, 16, 192, 500] {
        let mut parts = Mandelbrot::new(16, 12);
        for step in 0..count {
            draw_viewport(&mut parts, 1.5, -2.5, 4., 3., 200, count, step);
        }
        assert_eq!(parts.colors(), whole.colors());
    }
}

#[test]
fn draw_the_same_pass_twice_changes_nothing() {
    let mut m = Mandelbrot::new(16, 12);
    for step in 0..4 {
        draw_viewport(&mut m, 1.5, -2.5, 4., 3., 200, 4, step);
        let once = m.colors().to_vec();
        draw_viewport(&mut m, 1.5, -2.5, 4., 3., 200, 4, step);
        assert_eq!(m.colors(), once.as_slice());
    }
}

#[test]
fn draw_after_a_resize_and_back_renders_the_same_frame() {
    let mut m = Mandelbrot::new(8, 6);
    draw_viewport(&mut m, 1.5, -2.5, 4., 3., 100, 1, 0);
    let first = m.colors().to_vec();
    m.set_render_size(20, 20);
    draw_viewport(&mut m, 1.5, -2.5, 4., 3., 100, 1, 0);
    m.set_render_size(8, 6);
    m.clear();
    draw_viewport(&mut m, 1.5, -2.5, 4., 3., 100, 1, 0);
    assert_eq!(m.colors(), first.as_slice());
}

#[test]
fn draw_over_a_viewport_without_extent_does_not_fail() {
    let mut m = Mandelbrot::new(3, 2);
    draw_viewport(&mut m, 0., 0., 0., 0., 20, 1, 0);
    // Every pixel is the origin, which the bulb test accepts.
    for pixel in m.colors().chunks(4) {
        assert_eq!(pixel, [0, 0, 0, 255]);
    }
    draw_viewport(&mut m, f64::NAN, f64::INFINITY, -1., 0., 20, 1, 0);
    for pixel in m.colors().chunks(4) {
        assert_eq!(pixel[3], 255);
    }
}
