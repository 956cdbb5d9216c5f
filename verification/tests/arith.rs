use fractal::complex::ComplexNumber;
use fractal::fixed::{fp_div, fp_div_trunc, fp_mul, SCALE};

#[test]
fn fp_mul_whole_units() {
    // 1.0 * 1.0 == 1.0 and 99.0 * 1.0 == 99.0
    assert_eq!(fp_mul(SCALE, SCALE), SCALE);
    assert_eq!(fp_mul(99 * SCALE, SCALE), 99 * SCALE);
    // -1.5 * 2.0 == -3.0
    assert_eq!(fp_mul(-98304, 2 * SCALE), -3 * SCALE);
}

#[test]
fn fp_mul_truncates_toward_zero() {
    // -1/65536 * 1/65536 rounds to zero, not toward negative infinity
    assert_eq!(fp_mul(-1, 1), 0);
    assert_eq!(fp_mul(1, -1), 0);
    // 1.5 * 0.50001... keeps only whole 1/65536ths
    assert_eq!(fp_mul(3, 32769), 1);
    assert_eq!(fp_mul(-3, 32769), -1);
}

#[test]
fn fp_div_whole_units() {
    // 2.0 / 1.0 == 2.0 and -3.0 / 2.0 == -1.5
    assert_eq!(fp_div(2 * SCALE, SCALE), 2 * SCALE);
    assert_eq!(fp_div(-3 * SCALE, 2 * SCALE), -98304);
    // 1/3 in fixed point truncates
    assert_eq!(fp_div(SCALE, 3 * SCALE), 21845);
}

#[test]
fn fp_div_trunc_rounds_toward_zero() {
    assert_eq!(fp_div_trunc(-7, 2), -3);
    assert_eq!(fp_div_trunc(7, 2), 3);
    assert_eq!(fp_div_trunc(26_214_400, 1000), 26214);
}

#[test]
fn complex_square_unit_diagonal() {
    // (1 + i)^2 == 2i
    let z = ComplexNumber::new(SCALE, SCALE);
    let sq = z.square();
    assert_eq!(sq, ComplexNumber { real: 0, imaginary: 2 * SCALE });
}

#[test]
fn complex_norm_and_add() {
    let z = ComplexNumber::new(SCALE, SCALE);
    assert_eq!(z.norm(), 2 * SCALE);
    let w = z.add(ComplexNumber::new(-SCALE, 3 * SCALE));
    assert_eq!(w, ComplexNumber { real: 0, imaginary: 4 * SCALE });
    let v = z.add_real(5 * SCALE);
    assert_eq!(v, ComplexNumber { real: 6 * SCALE, imaginary: SCALE });
}
