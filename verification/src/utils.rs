use vstd::prelude::*;

verus! {

use crate::fixed::{
    fdiv, fmul, fp_div, fp_div_trunc, fp_mul, lemma_fmul_mono, lemma_tdiv_bound, tdiv,
};
use vstd::arithmetic::div_mod::{lemma_div_pos_is_pos, lemma_fundamental_div_mod, lemma_mod_bound};

/// The scale from screen units to graph units: graph width over canvas width.
pub open spec fn map_scale(gw: int, cw: int) -> int {
    fdiv(gw, cw)
}

/// The zero-centered x coordinate of a screen x position.
pub open spec fn mapped_x(sx: int, gw: int, cw: int) -> int {
    fmul(sx, map_scale(gw, cw)) - tdiv(gw, 2)
}

/// The zero-centered y coordinate of a screen y position; the y axis is
/// inverted, so growing screen rows map to falling graph coordinates.
pub open spec fn mapped_y(sy: int, gw: int, gh: int, cw: int) -> int {
    tdiv(gh, 2) - fmul(sy, map_scale(gw, cw))
}

/// Converts a screen position to a zero-centered Cartesian coordinate on the
/// logical graph plane.  Only the canvas width drives the scale; the canvas
/// height never enters, which fixes the visual framing of the plane.
pub fn screen_coords_to_zero_centered_cartesian_coords(
    screen_x: i64,
    screen_y: i64,
    translated_graph_width: i64,
    translated_graph_height: i64,
    canvas_width: i64,
) -> (r: (i64, i64))
    requires
        0 <= translated_graph_width <= 4 * 65536,
        0 <= translated_graph_height <= 4 * 65536,
        65536 <= canvas_width <= 4096 * 65536,
        -(33 * canvas_width + 360 * 65536) <= screen_x <= 33 * canvas_width + 360 * 65536,
        -(33 * canvas_width + 360 * 65536) <= screen_y <= 33 * canvas_width + 360 * 65536,
    ensures
        r.0 as int == mapped_x(screen_x as int, translated_graph_width as int, canvas_width as int),
        r.1 as int == mapped_y(
            screen_y as int,
            translated_graph_width as int,
            translated_graph_height as int,
            canvas_width as int,
        ),
        -(1575 * 65536) <= r.0 <= 1575 * 65536,
        -(1575 * 65536) <= r.1 <= 1575 * 65536,
{
    proof {
        let gwi: int = translated_graph_width as int;
        let cwi: int = canvas_width as int;
        let q: int = map_scale(gwi, cwi);
        lemma_div_pos_is_pos(gwi * 65536, cwi);
        lemma_fundamental_div_mod(gwi * 65536, cwi);
        lemma_mod_bound(gwi * 65536, cwi);
        assert(cwi * q <= gwi * 65536);
        assert(65536 * q <= cwi * q) by (nonlinear_arith)
            requires
                0 <= q,
                65536 <= cwi,
        ;
        assert(0 <= q <= 262144);
        assert(-(1572 * 65536 * 65536) <= (screen_x as int) * q <= 1572 * 65536 * 65536)
            by (nonlinear_arith)
            requires
                -(33 * cwi + 360 * 65536) <= screen_x as int <= 33 * cwi + 360 * 65536,
                0 <= q,
                q <= 262144,
                cwi * q <= 4 * 65536 * 65536,
                0 <= cwi,
        ;
        assert(-(1572 * 65536 * 65536) <= (screen_y as int) * q <= 1572 * 65536 * 65536)
            by (nonlinear_arith)
            requires
                -(33 * cwi + 360 * 65536) <= screen_y as int <= 33 * cwi + 360 * 65536,
                0 <= q,
                q <= 262144,
                cwi * q <= 4 * 65536 * 65536,
                0 <= cwi,
        ;
        lemma_tdiv_bound((screen_x as int) * q, 1572int * 65536 * 65536, 65536);
        lemma_tdiv_bound((screen_y as int) * q, 1572int * 65536 * 65536, 65536);
        lemma_tdiv_bound(gwi, 262144, 2);
        lemma_tdiv_bound(translated_graph_height as int, 262144, 2);
    }
    let scale: i64 = fp_div(translated_graph_width, canvas_width);
    let scaled_x: i64 = fp_mul(screen_x, scale);
    let scaled_y: i64 = fp_mul(screen_y, scale);

    let shifted_x: i64 = scaled_x - fp_div_trunc(translated_graph_width, 2);
    let shifted_y: i64 = fp_div_trunc(translated_graph_height, 2) - scaled_y;

    (shifted_x, shifted_y)
}

/// The mapped x coordinate is monotone nondecreasing in the screen x
/// position, for any nonnegative graph width and positive canvas width.
pub proof fn lemma_mapped_x_monotonic(sx1: int, sx2: int, gw: int, cw: int)
    requires
        sx1 <= sx2,
        0 <= gw,
        1 <= cw,
    ensures
        mapped_x(sx1, gw, cw) <= mapped_x(sx2, gw, cw),
{
    lemma_div_pos_is_pos(gw * 65536, cw);
    lemma_fmul_mono(sx1, sx2, map_scale(gw, cw));
}

/// Up to the one-unit rounding of fixed-point multiplication, the mapped x
/// coordinate is the affine function `sx * scale - gw / 2` of the screen x
/// position: scaled by 65536 it stays strictly within one whole unit of that
/// line, witnessing the mapping's linearity in `sx`.
pub proof fn lemma_mapped_x_affine(sx: int, gw: int, cw: int)
    requires
        1 <= cw,
    ensures
        sx * map_scale(gw, cw) - 65536 * tdiv(gw, 2) - 65536 < 65536 * mapped_x(sx, gw, cw),
        65536 * mapped_x(sx, gw, cw) < sx * map_scale(gw, cw) - 65536 * tdiv(gw, 2) + 65536,
{
    crate::fixed::lemma_tdiv_estimate(sx * map_scale(gw, cw), 65536);
}

/// The mapped y coordinate is monotone nonincreasing in the screen y
/// position: moving down the screen moves down the graph plane.
pub proof fn lemma_mapped_y_antitone(sy1: int, sy2: int, gw: int, gh: int, cw: int)
    requires
        sy1 <= sy2,
        0 <= gw,
        1 <= cw,
    ensures
        mapped_y(sy2, gw, gh, cw) <= mapped_y(sy1, gw, gh, cw),
{
    lemma_div_pos_is_pos(gw * 65536, cw);
    lemma_fmul_mono(sy1, sy2, map_scale(gw, cw));
}

} // verus!
