use escapetime::scalar::Scalar;
use escapetime::complex::Complex;
use escapetime::cpolynomial::CPolynomial;
use escapetime::complex_iterator::generate_val_arr;
use escapetime::complex_iterator::generate_end_arr;
use escapetime::complex_iterator::make_bmp;
use escapetime::complex_iterator::channel_fits;

/// A floating-point scalar: the plain IEEE double operations, unverified.
#[derive(Clone, Copy, Debug, PartialEq)]
struct F(f64);

impl Scalar for F {
    fn of_int(n: i64) -> F {
        F(n as f64)
    }

    fn add(self, other: F) -> F {
        F(self.0 + other.0)
    }

    fn sub(self, other: F) -> F {
        F(self.0 - other.0)
    }

    fn mul(self, other: F) -> F {
        F(self.0 * other.0)
    }

    fn div(self, other: F) -> F {
        F(self.0 / other.0)
    }

    fn neg(self) -> F {
        F(-self.0)
    }

    fn sqrt(self) -> F {
        F(self.0.sqrt())
    }

    fn lt(self, other: F) -> bool {
        self.0 < other.0
    }

    fn is_zero(self) -> bool {
        self.0 == 0.0
    }
}

fn fpoly(coeffs: &[f64]) -> CPolynomial<F> {
    CPolynomial::new(coeffs.iter().map(|&c| F(c)).collect())
}

fn ipoly(coeffs: &[i64]) -> CPolynomial<i64> {
    CPolynomial::new(coeffs.to_vec())
}

fn close(a: f64, b: f64) -> bool {
    (a - b).abs() < 1e-9
}

#[test]
fn eval_test() {
    let p1 = fpoly(&[0.0, 1.0, 2.0, 7.0]);
    let p2 = fpoly(&[4.0, 4.0, 4.0, 3.0]);
    assert_eq!(p1.eval(Complex::new(F(2.5), F(0.0))).re, F(124.375));
    assert_eq!(p1.eval(Complex::new(F(2.5), F(0.0))).im, F(0.0));
    assert_eq!(p2.eval(Complex::new(F(1.0), F(-2.0))).re, F(-37.0));
    assert_eq!(p2.eval(Complex::new(F(1.0), F(-2.0))).im, F(-18.0));
}

#[test]
fn op_test() {
    let p1 = fpoly(&[0.0, 1.0, 2.0, 7.0]);
    let p2 = fpoly(&[4.0, 4.0, 4.0, 3.0]);
    assert_eq!(p1.add(&p2).coeffs(), &vec![F(4.0), F(5.0), F(6.0), F(10.0)]);
    assert_eq!(p1.sub(&p2).coeffs(), &vec![F(-4.0), F(-3.0), F(-2.0), F(4.0)]);
}

#[test]
fn array_gen() {
    let vec = vec![0f64, 0f64, 2f64];
    let poly = fpoly(&vec);
    let arr = match generate_val_arr(F(-5.0), F(5.0), F(-5.0), F(5.0), &poly, 20u64, 20u64, 255u64)
    {
        Ok(v) => v,
        Err(e) => panic!("{}", e),
    };
    assert_eq!(arr[0][0], 0);
}

#[test]
fn mandelbrot() {
    let vec = vec![0f64, 0f64, 1f64];
    let poly = fpoly(&vec);
    let arr = match generate_val_arr(
        F(-2.5),
        F(0.5),
        F(-1.5),
        F(1.5),
        &poly,
        600u64,
        600u64,
        25u64,
    ) {
        Ok(v) => v,
        Err(e) => panic!("{}", e),
    };

    let img = make_bmp(arr, 150isize, 50isize, 255isize, 1isize, 7isize, 4isize, false);
    let _ = img.save("/home/andrew/Downloads/mandelbrot.bmp");
}

#[test]
fn tribrot() {
    let vec = vec![0f64, 0f64, 0f64, 1f64];
    let poly = fpoly(&vec);
    let arr = match generate_val_arr(
        F(-1.5),
        F(1.5),
        F(-1.5),
        F(1.5),
        &poly,
        600u64,
        600u64,
        25u64,
    ) {
        Ok(v) => v,
        Err(e) => panic!("{}", e),
    };
    let img = make_bmp(arr, 150isize, 200isize, 100isize, 10isize, 2isize, 4isize, false);
    let _ = img.save("/home/andrew/Downloads/tribrot.bmp");
}

#[test]
fn something() {
    let vec = vec![2f64, -1f64, 0f64, 1f64];
    let poly = fpoly(&vec);
    let arr = match generate_val_arr(
        F(-1.5),
        F(1.5),
        F(-1.5),
        F(1.5),
        &poly,
        600u64,
        600u64,
        50u64,
    ) {
        Ok(v) => v,
        Err(e) => panic!("{}", e),
    };
    let img = make_bmp(arr, 0isize, 0isize, 0isize, -10isize, -2isize, -4isize, true);
    let _ = img.save("/home/andrew/Downloads/something.bmp");
}

#[test]
fn mul_div_cancel_within_tolerance() {
    let a = Complex::new(F(3.5), F(-2.0));
    let b = Complex::new(F(1.25), F(0.5));
    let r = a.mul(&b).div(&b);
    assert!(close(r.re.0, 3.5));
    assert!(close(r.im.0, -2.0));
}

#[test]
fn mul_div_cancel_exact_integers() {
    let a = Complex::new(3i64, -2i64);
    let b = Complex::new(1i64, 2i64);
    let p = a.mul(&b);
    assert_eq!((p.re, p.im), (7, 4));
    let r = p.div(&b);
    assert_eq!((r.re, r.im), (3, -2));
}

#[test]
fn mul_inv_within_tolerance() {
    let a = Complex::new(F(2.0), F(1.0));
    let r = a.mul(&a.inv());
    assert!(close(r.re.0, 1.0));
    assert!(close(r.im.0, 0.0));
}

#[test]
fn mul_inv_unit_exact_integers() {
    let a = Complex::new(0i64, 1i64);
    let r = a.mul(&a.inv());
    assert_eq!((r.re, r.im), (1, 0));
}

#[test]
fn pow_zero_is_identity() {
    let origin = Complex::new(F(0.0), F(0.0));
    let r = origin.pow(0);
    assert_eq!((r.re, r.im), (F(1.0), F(0.0)));
    let a = Complex::new(F(-3.25), F(17.0));
    let r = a.pow(0);
    assert_eq!((r.re, r.im), (F(1.0), F(0.0)));
    let b = Complex::new(2i64, 1i64);
    let r = b.pow(0);
    assert_eq!((r.re, r.im), (1, 0));
    let cube = b.pow(3);
    assert_eq!((cube.re, cube.im), (2, 11));
}

#[test]
fn eval_at_origin_constant_term() {
    let p = fpoly(&[7.5, 1.0, 2.0]);
    let r = p.eval(Complex::new(F(0.0), F(0.0)));
    assert_eq!((r.re, r.im), (F(7.5), F(0.0)));
    let q = ipoly(&[-9, 4]);
    let r = q.eval(Complex::new(0i64, 0i64));
    assert_eq!((r.re, r.im), (-9, 0));
}

#[test]
fn add_sub_length_is_max() {
    let p = ipoly(&[1, 2]);
    let q = ipoly(&[10, 20, 30, 40]);
    assert_eq!(p.add(&q).coeffs(), &vec![11, 22, 30, 40]);
    assert_eq!(q.add(&p).coeffs(), &vec![11, 22, 30, 40]);
    assert_eq!(p.sub(&q).coeffs(), &vec![-9, -18, -30, -40]);
    assert_eq!(q.sub(&p).coeffs(), &vec![9, 18, 30, 40]);
}

#[test]
fn sub_self_is_zero() {
    let p = ipoly(&[3, -7, 11, 0, 5]);
    assert_eq!(p.sub(&p).coeffs(), &vec![0, 0, 0, 0, 0]);
}

#[test]
fn mul_convolves() {
    let p = ipoly(&[1, 2, 3]);
    let q = ipoly(&[1, 1, 1, 1, 1]);
    assert_eq!(p.mul(&q).coeffs(), &vec![1, 3, 6, 6, 6, 5, 3]);
    let c = ipoly(&[4]);
    assert_eq!(c.mul(&p).coeffs(), &vec![4, 8, 12]);
}

#[test]
fn generate_rejects_bad_inputs() {
    let poly = fpoly(&[0.0, 0.0, 1.0]);
    assert!(generate_val_arr(F(1.0), F(1.0), F(-1.0), F(1.0), &poly, 10, 10, 5).is_err());
    assert!(generate_val_arr(F(2.0), F(1.0), F(-1.0), F(1.0), &poly, 10, 10, 5).is_err());
    assert!(generate_val_arr(F(-1.0), F(1.0), F(1.0), F(1.0), &poly, 10, 10, 5).is_err());
    assert!(generate_val_arr(F(-1.0), F(1.0), F(2.0), F(1.0), &poly, 10, 10, 5).is_err());
    assert!(generate_val_arr(F(-1.0), F(1.0), F(-1.0), F(1.0), &poly, 0, 10, 5).is_err());
    assert!(generate_val_arr(F(-1.0), F(1.0), F(-1.0), F(1.0), &poly, 10, 0, 5).is_err());
    assert!(generate_val_arr(F(-1.0), F(1.0), F(-1.0), F(1.0), &poly, 10, 10, 5).is_ok());
    assert!(generate_end_arr(F(-1.0), F(1.0), F(-1.0), F(1.0), &poly, 0, 10, 5).is_err());
    assert!(generate_end_arr(F(-1.0), F(1.0), F(-1.0), F(1.0), &poly, 10, 10, 5).is_ok());
}

#[test]
fn grid_has_requested_dimensions() {
    let poly = fpoly(&[0.0, 0.0, 1.0]);
    let arr = generate_val_arr(F(-2.0), F(1.0), F(-1.0), F(1.0), &poly, 7, 3, 4).unwrap();
    assert_eq!(arr.len(), 3);
    for row in &arr {
        assert_eq!(row.len(), 7);
    }
}

#[test]
fn mandelbrot_cells_scenario() {
    let poly = fpoly(&[0.0, 0.0, 1.0]);
    let arr = generate_val_arr(F(-2.5), F(0.5), F(-1.5), F(1.5), &poly, 60, 60, 25).unwrap();
    // row 30 samples y == 0, column 50 samples x == 0: the origin never escapes
    assert_eq!(arr[30][50], 25);
    // column 59 samples x == 0.45, the grid point nearest 2 + 0i: divergent
    assert!(arr[30][59] < 25);
}

#[test]
fn horner_scenario() {
    // 2 * 2.5 * 2.5 == 12.5, exactly representable
    let poly = fpoly(&[0.0, 0.0, 2.0]);
    let r = poly.eval(Complex::new(F(2.5), F(0.0)));
    assert_eq!((r.re, r.im), (F(12.5), F(0.0)));
}

#[test]
fn end_vals_exact() {
    let poly = ipoly(&[0, 0, 1]);
    let arr = generate_end_arr(-4i64, 4i64, -4i64, 4i64, &poly, 4, 4, 2).unwrap();
    assert_eq!(arr.len(), 4);
    assert_eq!(arr[0].len(), 4);
    // cell (1, 1) samples c = (-2, 2); c squared is (0, -8); squared again is (-64, 0)
    assert_eq!((arr[1][1].re, arr[1][1].im), (-64, 0));
    // cell (2, 2) samples c = (0, 0), which stays at the origin
    assert_eq!((arr[2][2].re, arr[2][2].im), (0, 0));
}

#[test]
fn pixel_formula_truncates() {
    let v = vec![vec![0isize]];
    let img = make_bmp(v, 255, 255, 255, 10, 10, 10, false);
    assert_eq!(img.get_width(), 1);
    assert_eq!(img.get_height(), 1);
    // |0 - (255 - 0) * 10| == 2550, truncated to eight bits: 246
    assert_eq!(img.get_pixel(0, 0), bmp::Pixel { r: 246, g: 246, b: 246 });
}

#[test]
fn pixel_formula_inverted() {
    let v = vec![vec![0isize, 3isize], vec![25isize, 1isize]];
    let img = make_bmp(v, 255, 100, 0, 10, 2, 1, true);
    assert_eq!(img.get_width(), 2);
    assert_eq!(img.get_height(), 2);
    // red at (0, 0): |255 - (255 - 0) * 10| == 2295, low byte 247
    // green at (0, 0): |255 - (100 - 0) * 2| == 55
    // blue at (0, 0): |255 - (0 - 0) * 1| == 255
    assert_eq!(img.get_pixel(0, 0), bmp::Pixel { r: 247, g: 55, b: 255 });
    // cell (1, 0) holds 25: red |255 - 230 * 10| == 2045, low byte 253
    assert_eq!(img.get_pixel(1, 0).r, 253);
}

#[test]
fn pixel_channels_use_their_own_base_and_modifier() {
    let v = vec![vec![5isize]];
    let img = make_bmp(v, 6, 7, 8, 1, 2, 3, false);
    // channels: |0 - (base - 5) * modifier| per channel
    assert_eq!(img.get_pixel(0, 0), bmp::Pixel { r: 1, g: 4, b: 9 });
}

#[test]
fn saturating_scalar_ops() {
    assert_eq!(<i64 as Scalar>::add(i64::MAX, 1), i64::MAX);
    assert_eq!(<i64 as Scalar>::add(i64::MIN, -1), i64::MIN);
    assert_eq!(<i64 as Scalar>::sub(i64::MIN, 1), i64::MIN);
    assert_eq!(<i64 as Scalar>::mul(i64::MAX, 2), i64::MAX);
    assert_eq!(<i64 as Scalar>::mul(i64::MAX, -2), i64::MIN);
    assert_eq!(<i64 as Scalar>::div(17, 5), 3);
    assert_eq!(<i64 as Scalar>::div(-17, 5), -3);
    assert_eq!(<i64 as Scalar>::div(17, -5), -3);
    assert_eq!(<i64 as Scalar>::div(-17, -5), 3);
    assert_eq!(<i64 as Scalar>::div(17, 0), 0);
    assert_eq!(<i64 as Scalar>::div(i64::MIN, -1), i64::MAX);
    assert_eq!(<i64 as Scalar>::neg(i64::MIN), i64::MAX);
    assert_eq!(<i64 as Scalar>::of_int(-42), -42);
    assert!(<i64 as Scalar>::lt(-1, 0));
    assert!(!<i64 as Scalar>::lt(0, 0));
    assert!(<i64 as Scalar>::is_zero(0));
    assert!(!<i64 as Scalar>::is_zero(3));
}

#[test]
fn complex_ops_exact() {
    let a = Complex::new(3i64, -2i64);
    let b = Complex::new(1i64, 2i64);
    let s = a.add(&b);
    assert_eq!((s.re, s.im), (4, 0));
    let d = a.sub(&b);
    assert_eq!((d.re, d.im), (2, -4));
    let n = a.neg();
    assert_eq!((n.re, n.im), (-3, 2));
    let c = a.conj();
    assert_eq!((c.re, c.im), (3, 2));
    assert_eq!(a.norm_sqr(), 13);
    let sc = a.scale(3);
    assert_eq!((sc.re, sc.im), (9, -6));
    let un = sc.unscale(3);
    assert_eq!((un.re, un.im), (3, -2));
}

#[test]
fn norm_exact() {
    let a = Complex::new(3i64, 4i64);
    assert_eq!(a.norm_sqr(), 25);
    assert_eq!(a.norm(), 5);
    // the integer square root rounds down
    let b = Complex::new(1i64, 1i64);
    assert_eq!(b.norm(), 1);
    let f = Complex::new(F(3.0), F(4.0));
    assert_eq!(f.norm(), F(5.0));
}

#[test]
fn scalar_sqrt_rounds_down() {
    assert_eq!(<i64 as Scalar>::sqrt(0), 0);
    assert_eq!(<i64 as Scalar>::sqrt(-9), 0);
    assert_eq!(<i64 as Scalar>::sqrt(1), 1);
    assert_eq!(<i64 as Scalar>::sqrt(8), 2);
    assert_eq!(<i64 as Scalar>::sqrt(9), 3);
    assert_eq!(<i64 as Scalar>::sqrt(i64::MAX), 3037000499);
}

#[test]
fn channel_fits_guards_the_formula() {
    assert!(channel_fits(0, 255, 10, false));
    assert!(channel_fits(0, 255, 10, true));
    assert!(channel_fits(25, -100, -4, true));
    // base - v overflows
    assert!(!channel_fits(isize::MIN, 1, 1, false));
    // (base - v) * md overflows
    assert!(!channel_fits(0, isize::MAX, 2, false));
    // 255*bit - (base - v)*md overflows
    assert!(!channel_fits(0, isize::MIN, 1, false));
}
