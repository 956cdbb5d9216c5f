use fractal::complex::ComplexNumber;
use fractal::fixed::{fp_div_trunc, fp_mul, SCALE};
use fractal::utils::screen_coords_to_zero_centered_cartesian_coords;
use fractal::{
    generate_julia_image, generate_mandelbrot_image, get_mandelbrot_stability,
    get_point_stability, ESCAPE_NORM, HALF_UNIT, QUARTER_UNIT,
};

#[test]
fn buffer_length_is_width_height_four() {
    assert_eq!(generate_mandelbrot_image(2, 2, 3, 0, 0, 0).len(), 16);
    assert_eq!(generate_mandelbrot_image(8, 5, 3, 0, 0, 0).len(), 160);
    assert_eq!(generate_mandelbrot_image(0, 5, 3, 0, 0, 0).len(), 0);
    assert_eq!(generate_mandelbrot_image(7, 0, 3, 0, 0, 0).len(), 0);
    assert_eq!(generate_julia_image(3, 4, 0, 0, 3, 0, 0, 0).len(), 48);
}

#[test]
fn zero_iteration_cap_gives_black_pixels() {
    let data = generate_mandelbrot_image(4, 3, 0, 0, 0, 0);
    assert_eq!(data.len(), 48);
    for chunk in data.chunks(4) {
        assert_eq!(chunk, &[0, 0, 0, 255]);
    }
}

#[test]
fn evaluator_is_deterministic() {
    let start = ComplexNumber::new(0, 0);
    let constant = ComplexNumber::new(25 * SCALE / 100, -3 * SCALE / 4);
    let first = get_point_stability(50, start, constant);
    let second = get_point_stability(50, start, constant);
    assert_eq!(first, second);
}

#[test]
fn stability_is_bounded_by_cap() {
    for cap in [0u32, 1, 7, 64] {
        for re in [-2 * SCALE, -SCALE / 2, 0, SCALE / 3, 3 * SCALE] {
            for im in [-SCALE, 0, SCALE / 5] {
                let s = get_point_stability(cap, ComplexNumber::new(0, 0), ComplexNumber::new(re, im));
                assert!(s <= cap);
            }
        }
    }
}

#[test]
fn origin_never_escapes() {
    let zero = ComplexNumber::new(0, 0);
    assert_eq!(get_point_stability(1, zero, zero), 1);
    assert_eq!(get_point_stability(10, zero, zero), 10);
    assert_eq!(get_point_stability(300, zero, zero), 300);
}

#[test]
fn known_escape_counts() {
    let zero = ComplexNumber::new(0, 0);
    // c = 3.0: the first update already escapes, nothing is counted
    assert_eq!(get_point_stability(10, zero, ComplexNumber::new(3 * SCALE, 0)), 0);
    // c = 1.0: z runs 1, 2, 5; the norm of 2 sits exactly on the bound
    assert_eq!(get_point_stability(10, zero, ComplexNumber::new(SCALE, 0)), 2);
    // the escape bound itself is four whole units of squared norm
    assert_eq!(ESCAPE_NORM, 4 * SCALE);
}

#[test]
fn mapper_exact_values() {
    // canvas of 512 pixels: scale is 4/512, so one pixel is 512 fixed units
    let r = screen_coords_to_zero_centered_cartesian_coords(0, 0, 4 * SCALE, 3 * SCALE, 512 * SCALE);
    assert_eq!(r, (-2 * SCALE, 3 * SCALE / 2));
    // screen (256, 192) lands exactly on the origin
    let o = screen_coords_to_zero_centered_cartesian_coords(
        256 * SCALE,
        192 * SCALE,
        4 * SCALE,
        3 * SCALE,
        512 * SCALE,
    );
    assert_eq!(o, (0, 0));
    // canvas of 2 pixels: scale is 2.0
    let t = screen_coords_to_zero_centered_cartesian_coords(
        SCALE,
        SCALE,
        4 * SCALE,
        3 * SCALE,
        2 * SCALE,
    );
    assert_eq!(t, (0, 3 * SCALE / 2 - 2 * SCALE));
}

#[test]
fn mapper_monotonic_in_screen_position() {
    let mut last_x: i64 = i64::MIN;
    let mut last_y: i64 = i64::MAX;
    for step in 0..50i64 {
        let sx: i64 = -400 * SCALE + step * 16 * SCALE;
        let r = screen_coords_to_zero_centered_cartesian_coords(
            sx,
            sx,
            4 * SCALE,
            3 * SCALE,
            512 * SCALE,
        );
        // x grows with the screen column, y falls with the screen row
        assert!(r.0 >= last_x);
        assert!(r.1 <= last_y);
        last_x = r.0;
        last_y = r.1;
    }
}

#[test]
fn color_wrap_at_stability_300() {
    // pixel (56, 292) of a 512 x 293 canvas maps exactly to the origin, so
    // its stability is the full cap of 300; the bytes wrap modulo 256:
    // R = floor(300/4) = 75, G = floor(300/2) mod 256 = 150, B = 300 mod 256 = 44
    let data = generate_mandelbrot_image(512, 293, 300, 0, 0, 0);
    assert_eq!(data.len(), 512 * 293 * 4);
    let base: usize = 4 * (56 * 293 + 292);
    assert_eq!(&data[base..base + 4], &[75, 150, 44, 255]);
}

#[test]
fn julia_constant_zero_at_origin_pixel() {
    // same origin pixel, Julia mode with constant zero: the start point is the
    // origin and never escapes, so stability is the cap of 7
    let data = generate_julia_image(512, 293, 0, 0, 7, 0, 0, 0);
    let base: usize = 4 * (56 * 293 + 292);
    assert_eq!(&data[base..base + 4], &[1, 3, 7, 255]);
}

#[test]
fn mandelbrot_two_by_two_reference() {
    // with zoom and offsets zero every pixel of a 2 x 2 canvas maps far off
    // the plane and escapes immediately: 16 bytes of opaque black
    let expected: Vec<u8> = vec![
        0, 0, 0, 255, 0, 0, 0, 255, 0, 0, 0, 255, 0, 0, 0, 255,
    ];
    let first = generate_mandelbrot_image(2, 2, 10, 0, 0, 0);
    assert_eq!(first, expected);
    // deterministic across runs
    let second = generate_mandelbrot_image(2, 2, 10, 0, 0, 0);
    assert_eq!(first, second);
}

#[test]
fn julia_far_start_escapes_immediately() {
    let data = generate_julia_image(2, 2, 0, 0, 5, 0, 0, 0);
    assert_eq!(data, vec![0, 0, 0, 255, 0, 0, 0, 255, 0, 0, 0, 255, 0, 0, 0, 255]);
}

#[test]
fn generator_matches_per_pixel_evaluator() {
    let width: u32 = 3;
    let height: u32 = 4;
    let cap: u32 = 20;
    let zoom: i64 = 3 * SCALE;
    let ox: i64 = SCALE / 2;
    let oy: i64 = -SCALE;
    let data = generate_mandelbrot_image(width, height, cap, zoom, ox, oy);
    let param_r: i64 = 100 * SCALE + ox + fp_mul(zoom, HALF_UNIT);
    let param_i: i64 = -200 * SCALE + oy + fp_mul(zoom, QUARTER_UNIT);
    let pscale: i64 = SCALE + fp_div_trunc(zoom, 1000);
    for x in 0..width {
        for y in 0..height {
            let sx: i64 = fp_mul((x as i64) * SCALE, pscale) - param_i;
            let sy: i64 = fp_mul((y as i64) * SCALE, pscale) - param_r;
            let s: u32 = get_mandelbrot_stability(width, cap, sx, sy);
            let base: usize = (4 * (x * height + y)) as usize;
            assert_eq!(data[base], (s / 4) as u8);
            assert_eq!(data[base + 1], (s / 2) as u8);
            assert_eq!(data[base + 2], s as u8);
            assert_eq!(data[base + 3], 255);
        }
    }
}

#[test]
fn negative_zoom_and_offsets_are_valid() {
    let data = generate_mandelbrot_image(3, 3, 4, -2 * SCALE, -SCALE, SCALE);
    assert_eq!(data.len(), 36);
    for chunk in data.chunks(4) {
        assert_eq!(chunk[3], 255);
    }
}
