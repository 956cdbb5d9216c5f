//! Escape-time fractal images (Mandelbrot and Julia sets), rasterized into a
//! tightly packed RGBA byte buffer.
//!
//! All arithmetic is fixed point: a scalar is an `i64` count of 1/65536ths of
//! a unit (see [`fixed::SCALE`]), and every operation rounds toward zero.

pub mod complex;
pub mod fixed;
pub mod utils;

use vstd::prelude::*;

verus! {

use crate::complex::{add_spec, cval, in_range, norm_spec, sq_spec, ComplexNumber};
use crate::fixed::{
    fmul, fp_div_trunc, fp_mul, lemma_fmul_bound, lemma_fmul_double_bound, lemma_tdiv_bound, tdiv,
    SCALE,
};

/// Width of the logical graph plane: four whole units.
pub const GRAPH_WIDTH: i64 = 4 * SCALE;

/// Height of the logical graph plane: three whole units.
pub const GRAPH_HEIGHT: i64 = 3 * SCALE;

/// A point escapes once its squared norm exceeds four whole units.
pub const ESCAPE_NORM: i64 = 4 * SCALE;

/// One half, in fixed point.
pub const HALF_UNIT: i64 = 32768;

/// One quarter, in fixed point.
pub const QUARTER_UNIT: i64 = 16384;

/// Largest accepted canvas width or height, in pixels.
pub const MAX_DIMENSION: u32 = 4096;

/// Largest accepted zoom magnitude: 400 whole units.
pub const ZOOM_LIMIT: i64 = 26_214_400;

/// Largest accepted pan offset magnitude: 50 whole units.
pub const OFFSET_LIMIT: i64 = 3_276_800;

/// One step of the quadratic recurrence: `z * z + c`.
pub open spec fn step_spec(z: (int, int), c: (int, int)) -> (int, int) {
    add_spec(sq_spec(z), c)
}

/// The stability count of a start point under constant `c`: the number of
/// recurrence steps, capped at `cap`, whose result stays within the escape
/// bound.  The escaping step itself is not counted.
pub open spec fn stability_spec(cap: nat, z: (int, int), c: (int, int)) -> nat
    decreases cap,
{
    if cap == 0 {
        0
    } else {
        let z1 = step_spec(z, c);
        if norm_spec(z1) > 4 * 65536 {
            0
        } else {
            (1 + stability_spec((cap - 1) as nat, z1, c)) as nat
        }
    }
}

/// The stability count never exceeds the iteration cap.
pub proof fn lemma_stability_bounded(cap: nat, z: (int, int), c: (int, int))
    ensures
        stability_spec(cap, z, c) <= cap,
    decreases cap,
{
    if cap > 0 {
        let z1 = step_spec(z, c);
        if !(norm_spec(z1) > 4 * 65536) {
            lemma_stability_bounded((cap - 1) as nat, z1, c);
        }
    }
}

/// The evaluator is a pure function: two evaluations of the same cap, start
/// point and constant always return the same stability count.
pub proof fn lemma_evaluator_deterministic(
    cap: nat,
    z: (int, int),
    c: (int, int),
    s1: nat,
    s2: nat,
)
    requires
        s1 == stability_spec(cap, z, c),
        s2 == stability_spec(cap, z, c),
    ensures
        s1 == s2,
{
}

/// The origin is a fixed point of the Mandelbrot recurrence: with start and
/// constant both zero the point never escapes, so the stability count equals
/// the iteration cap.
pub proof fn lemma_origin_stability(cap: nat)
    ensures
        stability_spec(cap, (0int, 0int), (0int, 0int)) == cap,
    decreases cap,
{
    if cap > 0 {
        assert(step_spec((0int, 0int), (0int, 0int)) == (0int, 0int));
        lemma_origin_stability((cap - 1) as nat);
    }
}

/// With an iteration cap of zero every stability count is zero, and the color
/// derived from stability zero is the opaque black pixel (0, 0, 0, 255).
pub proof fn lemma_zero_cap_black(z: (int, int), c: (int, int))
    ensures
        stability_spec(0, z, c) == 0,
        red_of(0) == 0,
        green_of(0) == 0,
        blue_of(0) == 0,
{
}

/// Iterates `z * z + constant` from `a` until the squared norm leaves the
/// escape bound or the cap is reached, and returns the stability count.
pub fn get_point_stability(
    iterations: u32,
    a: ComplexNumber,
    constant: ComplexNumber,
) -> (stability: u32)
    requires
        in_range(cval(a)),
        in_range(cval(constant)),
    ensures
        stability == stability_spec(iterations as nat, cval(a), cval(constant)),
        stability <= iterations,
{
    let mut complex_number: ComplexNumber = a;
    let mut iteration_count: u32 = 0;
    while iteration_count < iterations
        invariant_except_break
            iteration_count <= iterations,
            in_range(cval(complex_number)),
            in_range(cval(constant)),
            stability_spec(iterations as nat, cval(a), cval(constant)) == iteration_count
                + stability_spec(
                (iterations - iteration_count) as nat,
                cval(complex_number),
                cval(constant),
            ),
        ensures
            iteration_count <= iterations,
            iteration_count == stability_spec(iterations as nat, cval(a), cval(constant)),
        decreases iterations - iteration_count,
    {
        let next: ComplexNumber = complex_number.square().add(constant);
        proof {
            assert(cval(next) == step_spec(cval(complex_number), cval(constant)));
        }
        if next.norm() > ESCAPE_NORM {
            proof {
                assert(stability_spec(
                    (iterations - iteration_count) as nat,
                    cval(complex_number),
                    cval(constant),
                ) == 0);
            }
            break ;
        }
        proof {
            crate::complex::lemma_bounded_norm_bounds_parts(cval(next));
        }
        complex_number = next;
        iteration_count = iteration_count + 1;
    }
    iteration_count
}

/// The mapped graph-plane point of a scaled screen position, for a canvas of
/// `cw` pixels: the logical plane is four units wide and three units tall.
pub open spec fn mapped_point(cw: int, sx: int, sy: int) -> (int, int) {
    (
        utils::mapped_x(sx, 4int * 65536, cw * 65536),
        utils::mapped_y(sy, 4int * 65536, 3int * 65536, cw * 65536),
    )
}

/// Turns a scaled screen position into a complex number on the graph plane.
pub fn coord_to_complex(x: i64, y: i64, canvas_width: u32) -> (z: ComplexNumber)
    requires
        1 <= canvas_width <= 4096,
        -(33 * (canvas_width as int) * 65536 + 360 * 65536) <= x as int <= 33 * (
        canvas_width as int) * 65536 + 360 * 65536,
        -(33 * (canvas_width as int) * 65536 + 360 * 65536) <= y as int <= 33 * (
        canvas_width as int) * 65536 + 360 * 65536,
    ensures
        cval(z) == mapped_point(canvas_width as int, x as int, y as int),
        in_range(cval(z)),
{
    let coords: (i64, i64) = utils::screen_coords_to_zero_centered_cartesian_coords(
        x,
        y,
        GRAPH_WIDTH,
        GRAPH_HEIGHT,
        (canvas_width as i64) * SCALE,
    );
    ComplexNumber::new(0, coords.1).add_real(coords.0)
}

/// Mandelbrot stability of a scaled screen position: the recurrence starts at
/// the origin and the mapped point is the constant.
pub fn get_mandelbrot_stability(
    canvas_width: u32,
    iterations: u32,
    x: i64,
    y: i64,
) -> (stability: u32)
    requires
        1 <= canvas_width <= 4096,
        -(33 * (canvas_width as int) * 65536 + 360 * 65536) <= x as int <= 33 * (
        canvas_width as int) * 65536 + 360 * 65536,
        -(33 * (canvas_width as int) * 65536 + 360 * 65536) <= y as int <= 33 * (
        canvas_width as int) * 65536 + 360 * 65536,
    ensures
        stability == stability_spec(
            iterations as nat,
            (0int, 0int),
            mapped_point(canvas_width as int, x as int, y as int),
        ),
        stability <= iterations,
{
    get_point_stability(iterations, ComplexNumber::new(0, 0), coord_to_complex(x, y, canvas_width))
}

/// Julia stability of a scaled screen position: the recurrence starts at the
/// mapped point and the caller-supplied constant stays fixed.
pub fn get_julia_stability(
    canvas_width: u32,
    iterations: u32,
    julia_constant: ComplexNumber,
    x: i64,
    y: i64,
) -> (stability: u32)
    requires
        1 <= canvas_width <= 4096,
        in_range(cval(julia_constant)),
        -(33 * (canvas_width as int) * 65536 + 360 * 65536) <= x as int <= 33 * (
        canvas_width as int) * 65536 + 360 * 65536,
        -(33 * (canvas_width as int) * 65536 + 360 * 65536) <= y as int <= 33 * (
        canvas_width as int) * 65536 + 360 * 65536,
    ensures
        stability == stability_spec(
            iterations as nat,
            mapped_point(canvas_width as int, x as int, y as int),
            cval(julia_constant),
        ),
        stability <= iterations,
{
    get_point_stability(iterations, coord_to_complex(x, y, canvas_width), julia_constant)
}

/// Which recurrence operand the mapped pixel point becomes: in Mandelbrot
/// mode it is the constant, in Julia mode the start point.
#[derive(Clone, Copy, Debug)]
pub enum Mode {
    Mandelbrot,
    Julia(ComplexNumber),
}

/// A Julia constant must be in range for the escape-time arithmetic.
pub open spec fn mode_ok(mode: Mode) -> bool {
    match mode {
        Mode::Mandelbrot => true,
        Mode::Julia(c) => in_range(cval(c)),
    }
}

/// The pan parameter applied to screen rows (built from `offset_x`).
pub open spec fn param_r_spec(zoom: int, offset_x: int) -> int {
    100 * 65536 + offset_x + fmul(zoom, 32768)
}

/// The pan parameter applied to screen columns (built from `offset_y`).
pub open spec fn param_i_spec(zoom: int, offset_y: int) -> int {
    -200 * 65536 + offset_y + fmul(zoom, 16384)
}

/// The per-pixel scale factor `1 + zoom / 1000`.
pub open spec fn pixel_scale_spec(zoom: int) -> int {
    65536 + tdiv(zoom, 1000)
}

/// The scaled screen x position handed to the stability function.  The column
/// offset subtracts the parameter built from `offset_y`: the crossed use of
/// the two offsets is deliberate, long-standing behavior.
pub open spec fn scaled_x_spec(zoom: int, offset_y: int, x: int) -> int {
    fmul(x * 65536, pixel_scale_spec(zoom)) - param_i_spec(zoom, offset_y)
}

/// The scaled screen y position handed to the stability function; it
/// subtracts the parameter built from `offset_x` (see [`scaled_x_spec`]).
pub open spec fn scaled_y_spec(zoom: int, offset_x: int, y: int) -> int {
    fmul(y * 65536, pixel_scale_spec(zoom)) - param_r_spec(zoom, offset_x)
}

/// The graph-plane point that pixel `(x, y)` maps to.
pub open spec fn point_at(width: int, zoom: int, ox: int, oy: int, x: int, y: int) -> (int, int) {
    mapped_point(width, scaled_x_spec(zoom, oy, x), scaled_y_spec(zoom, ox, y))
}

/// The stability count of pixel `(x, y)` under the given mode.
pub open spec fn mode_stability_at(
    mode: Mode,
    width: int,
    iterations: nat,
    zoom: int,
    ox: int,
    oy: int,
    x: int,
    y: int,
) -> nat {
    match mode {
        Mode::Mandelbrot => stability_spec(
            iterations,
            (0int, 0int),
            point_at(width, zoom, ox, oy, x, y),
        ),
        Mode::Julia(c) => stability_spec(iterations, point_at(width, zoom, ox, oy, x, y), cval(c)),
    }
}

/// Red channel of a stability count: `floor(s / 4)`, wrapped to a byte.
pub open spec fn red_of(s: nat) -> nat {
    (s / 4) % 256
}

/// Green channel of a stability count: `floor(s / 2)`, wrapped to a byte.
pub open spec fn green_of(s: nat) -> nat {
    (s / 2) % 256
}

/// Blue channel of a stability count: the count itself, wrapped to a byte.
pub open spec fn blue_of(s: nat) -> nat {
    s % 256
}

/// The four bytes of pixel `(x, y)` hold the color of stability `s` with full
/// alpha, at the offset fixed by the column-major pixel order.
pub open spec fn pixel_ok(data: Seq<u8>, height: int, x: int, y: int, s: nat) -> bool {
    let base = 4 * (x * height + y);
    &&& data[base] == red_of(s)
    &&& data[base + 1] == green_of(s)
    &&& data[base + 2] == blue_of(s)
    &&& data[base + 3] == 255
}

/// The domain of render parameters: canvas dimensions up to 4096 pixels with
/// an aspect ratio no taller than 16:1, and bounded zoom and pan offsets.
pub open spec fn params_ok(width: int, height: int, zoom: int, ox: int, oy: int) -> bool {
    &&& 0 <= width <= 4096
    &&& 0 <= height <= 4096
    &&& (width == 0 || height <= 16 * width)
    &&& -26_214_400 <= zoom <= 26_214_400
    &&& -3_276_800 <= ox <= 3_276_800
    &&& -3_276_800 <= oy <= 3_276_800
}

/// Indices of earlier pixels lie strictly below the buffer position of the
/// pixel currently being appended.
proof fn lemma_pixel_index(xi: int, yi: int, x: int, y: int, height: int)
    requires
        0 <= yi < height,
        0 <= xi,
        0 <= y,
        xi < x || (xi == x && yi < y),
    ensures
        4 * (xi * height + yi) + 3 < 4 * (x * height + y),
{
    if xi < x {
        assert(xi * height + height <= x * height) by (nonlinear_arith)
            requires
                xi < x,
                0 <= height,
        ;
    }
}

/// Walks the pixel grid column by column (outer loop over x, inner loop over
/// y), appending the RGBA bytes of each pixel's stability color in order.
pub fn generate_image(
    width: u32,
    height: u32,
    zoom: i64,
    offset_x: i64,
    offset_y: i64,
    iterations: u32,
    mode: Mode,
) -> (data: Vec<u8>)
    requires
        params_ok(width as int, height as int, zoom as int, offset_x as int, offset_y as int),
        mode_ok(mode),
    ensures
        data@.len() == 4 * ((width as int) * (height as int)),
        forall|x: int, y: int|
            0 <= x < width && 0 <= y < height ==> #[trigger] pixel_ok(
                data@,
                height as int,
                x,
                y,
                mode_stability_at(
                    mode,
                    width as int,
                    iterations as nat,
                    zoom as int,
                    offset_x as int,
                    offset_y as int,
                    x,
                    y,
                ),
            ),
{
    let mut data: Vec<u8> = Vec::new();

    let mut x: u32 = 0;
    while x < width
        invariant
            x <= width,
            params_ok(width as int, height as int, zoom as int, offset_x as int, offset_y as int),
            mode_ok(mode),
            data@.len() == 4 * ((x as int) * (height as int)),
            forall|xi: int, yi: int|
                0 <= xi < x && 0 <= yi < height ==> #[trigger] pixel_ok(
                    data@,
                    height as int,
                    xi,
                    yi,
                    mode_stability_at(
                        mode,
                        width as int,
                        iterations as nat,
                        zoom as int,
                        offset_x as int,
                        offset_y as int,
                        xi,
                        yi,
                    ),
                ),
        decreases width - x,
    {
        let mut y: u32 = 0;
        while y < height
            invariant
                x < width,
                y <= height,
                params_ok(
                    width as int,
                    height as int,
                    zoom as int,
                    offset_x as int,
                    offset_y as int,
                ),
                mode_ok(mode),
                data@.len() == 4 * ((x as int) * (height as int) + y as int),
                forall|xi: int, yi: int|
                    0 <= xi < x && 0 <= yi < height ==> #[trigger] pixel_ok(
                        data@,
                        height as int,
                        xi,
                        yi,
                        mode_stability_at(
                            mode,
                            width as int,
                            iterations as nat,
                            zoom as int,
                            offset_x as int,
                            offset_y as int,
                            xi,
                            yi,
                        ),
                    ),
                forall|yi: int|
                    0 <= yi < y ==> #[trigger] pixel_ok(
                        data@,
                        height as int,
                        x as int,
                        yi,
                        mode_stability_at(
                            mode,
                            width as int,
                            iterations as nat,
                            zoom as int,
                            offset_x as int,
                            offset_y as int,
                            x as int,
                            yi,
                        ),
                    ),
            decreases height - y,
        {
            proof {
                lemma_fmul_bound(zoom as int, 32768, 26_214_400, 32768);
                lemma_fmul_bound(zoom as int, 16384, 26_214_400, 16384);
                lemma_tdiv_bound(zoom as int, 26_214_400, 1000);
            }
            let param_r: i64 = 100 * SCALE + offset_x + fp_mul(zoom, HALF_UNIT);
            let param_i: i64 = -200 * SCALE + offset_y + fp_mul(zoom, QUARTER_UNIT);
            let pscale: i64 = SCALE + fp_div_trunc(zoom, 1000);
            let x_fp: i64 = (x as i64) * SCALE;
            let y_fp: i64 = (y as i64) * SCALE;
            proof {
                lemma_fmul_double_bound(x_fp as int, pscale as int, (width as int) * 65536);
                lemma_fmul_double_bound(y_fp as int, pscale as int, 16 * (width as int) * 65536);
            }
            let scaled_x: i64 = fp_mul(x_fp, pscale) - param_i;
            let scaled_y: i64 = fp_mul(y_fp, pscale) - param_r;

            let stability: u32 = match mode {
                Mode::Mandelbrot => get_mandelbrot_stability(width, iterations, scaled_x, scaled_y),
                Mode::Julia(julia_constant) => get_julia_stability(
                    width,
                    iterations,
                    julia_constant,
                    scaled_x,
                    scaled_y,
                ),
            };

            let ghost pixel_stability: nat = mode_stability_at(
                mode,
                width as int,
                iterations as nat,
                zoom as int,
                offset_x as int,
                offset_y as int,
                x as int,
                y as int,
            );
            proof {
                assert(stability == pixel_stability);
            }
            let ghost before: Seq<u8> = data@;

            data.push(((stability / 4) % 256) as u8);
            data.push(((stability / 2) % 256) as u8);
            data.push((stability % 256) as u8);
            data.push(255);

            proof {
                let hi: int = height as int;
                let base: int = 4 * ((x as int) * hi + y as int);
                assert(data@.len() == base + 4);
                assert(data@[base] == ((stability / 4) % 256) as u8);
                assert(pixel_ok(data@, hi, x as int, y as int, pixel_stability));
                assert forall|xi: int, yi: int|
                    (0 <= xi < x && 0 <= yi < height) || (xi == x && 0 <= yi < y) implies pixel_ok(
                    data@,
                    hi,
                    xi,
                    yi,
                    mode_stability_at(
                        mode,
                        width as int,
                        iterations as nat,
                        zoom as int,
                        offset_x as int,
                        offset_y as int,
                        xi,
                        yi,
                    ),
                ) by {
                    lemma_pixel_index(xi, yi, x as int, y as int, hi);
                    assert(pixel_ok(
                        before,
                        hi,
                        xi,
                        yi,
                        mode_stability_at(
                            mode,
                            width as int,
                            iterations as nat,
                            zoom as int,
                            offset_x as int,
                            offset_y as int,
                            xi,
                            yi,
                        ),
                    ));
                }
            }
            y = y + 1;
        }
        proof {
            assert((x as int + 1) * (height as int) == (x as int) * (height as int)
                + height as int) by (nonlinear_arith);
        }
        x = x + 1;
    }
    data
}

/// Renders the Mandelbrot set: the buffer holds `width * height` RGBA pixels
/// in column-major order, each colored by its escape-time stability.
pub fn generate_mandelbrot_image(
    width: u32,
    height: u32,
    iterations: u32,
    zoom: i64,
    offset_x: i64,
    offset_y: i64,
) -> (data: Vec<u8>)
    requires
        params_ok(width as int, height as int, zoom as int, offset_x as int, offset_y as int),
    ensures
        data@.len() == 4 * ((width as int) * (height as int)),
        forall|x: int, y: int|
            0 <= x < width && 0 <= y < height ==> #[trigger] pixel_ok(
                data@,
                height as int,
                x,
                y,
                stability_spec(
                    iterations as nat,
                    (0int, 0int),
                    point_at(width as int, zoom as int, offset_x as int, offset_y as int, x, y),
                ),
            ),
{
    let data: Vec<u8> = generate_image(
        width,
        height,
        zoom,
        offset_x,
        offset_y,
        iterations,
        Mode::Mandelbrot,
    );
    proof {
        assert forall|x: int, y: int| 0 <= x < width && 0 <= y < height implies #[trigger] pixel_ok(
            data@,
            height as int,
            x,
            y,
            stability_spec(
                iterations as nat,
                (0int, 0int),
                point_at(width as int, zoom as int, offset_x as int, offset_y as int, x, y),
            ),
        ) by {
            assert(pixel_ok(
                data@,
                height as int,
                x,
                y,
                mode_stability_at(
                    Mode::Mandelbrot,
                    width as int,
                    iterations as nat,
                    zoom as int,
                    offset_x as int,
                    offset_y as int,
                    x,
                    y,
                ),
            ));
        }
    }
    data
}

/// Renders a Julia set for the fixed constant `re + im * i`; the buffer holds
/// `width * height` RGBA pixels in column-major order.
pub fn generate_julia_image(
    width: u32,
    height: u32,
    re: i64,
    im: i64,
    iterations: u32,
    zoom: i64,
    offset_x: i64,
    offset_y: i64,
) -> (data: Vec<u8>)
    requires
        params_ok(width as int, height as int, zoom as int, offset_x as int, offset_y as int),
        -130_000_000 <= re <= 130_000_000,
        -130_000_000 <= im <= 130_000_000,
    ensures
        data@.len() == 4 * ((width as int) * (height as int)),
        forall|x: int, y: int|
            0 <= x < width && 0 <= y < height ==> #[trigger] pixel_ok(
                data@,
                height as int,
                x,
                y,
                stability_spec(
                    iterations as nat,
                    point_at(width as int, zoom as int, offset_x as int, offset_y as int, x, y),
                    (re as int, im as int),
                ),
            ),
{
    let julia_constant: ComplexNumber = ComplexNumber::new(re, im);
    let data: Vec<u8> = generate_image(
        width,
        height,
        zoom,
        offset_x,
        offset_y,
        iterations,
        Mode::Julia(julia_constant),
    );
    proof {
        assert forall|x: int, y: int| 0 <= x < width && 0 <= y < height implies #[trigger] pixel_ok(
            data@,
            height as int,
            x,
            y,
            stability_spec(
                iterations as nat,
                point_at(width as int, zoom as int, offset_x as int, offset_y as int, x, y),
                (re as int, im as int),
            ),
        ) by {
            assert(pixel_ok(
                data@,
                height as int,
                x,
                y,
                mode_stability_at(
                    Mode::Julia(julia_constant),
                    width as int,
                    iterations as nat,
                    zoom as int,
                    offset_x as int,
                    offset_y as int,
                    x,
                    y,
                ),
            ));
        }
    }
    data
}

} // verus!
