//! The escape-time grid generator and the pixel mapping stage.
//!
//! For a rectangular region of the complex plane, a polynomial `P`, a sample
//! grid and an iteration bound, the generator walks the grid row by row from
//! the top bound down, and within each row from the left bound to the right,
//! computing each sample coordinate directly from its index — never by
//! accumulating a step, so the grid always has exactly the requested number
//! of rows and columns. At each sample point `c` it iterates `z := P(z) + c`
//! from `z = 0` and records how many iterations ran before the squared norm
//! first exceeded four, or the bound if it never did. A second entry point
//! records the raw complex value after exactly the bound's worth of
//! iterations of `z := P(z)` from the sample point, with no escape test.
//!
//! The pixel mapping turns such a grid of counts into a bitmap image through
//! a linear base/modifier palette formula per channel.

use vstd::prelude::*;
use crate::scalar::Scalar;
use crate::complex::Complex;
use crate::complex::cadd_m;
use crate::complex::cnorm_sqr_m;
use crate::cpolynomial::CPolynomial;
use crate::cpolynomial::eval_m;

verus! {

/// One iteration of the escape map: `P(z) + c` over the scalar's semantics.
pub open spec fn step_m<T: Scalar>(p: Seq<int>, c: (int, int), z: (int, int)) -> (int, int) {
    cadd_m::<T>(eval_m::<T>(p, z), c)
}

/// How many further iterations run from `z` before the squared norm first
/// exceeds four, stopping at `fuel`: each step maps `z` through `P(z) + c`;
/// a step whose result escapes is not counted.
pub open spec fn escape_from_m<T: Scalar>(p: Seq<int>, c: (int, int), z: (int, int), fuel: nat) -> nat
    decreases fuel,
{
    if fuel == 0 {
        0
    } else {
        let z1 = step_m::<T>(p, c, z);
        if cnorm_sqr_m::<T>(z1) > 4 {
            0
        } else {
            1 + escape_from_m::<T>(p, c, z1, (fuel - 1) as nat)
        }
    }
}

/// The escape count of the sample point `c`: iterations from `z = 0` before
/// divergence, or `bound` when the point never escapes within the bound.
pub open spec fn escape_count_m<T: Scalar>(p: Seq<int>, c: (int, int), bound: nat) -> nat {
    escape_from_m::<T>(p, c, (0int, 0int), bound)
}

/// The raw value after exactly `n` iterations of `z := P(z)` from `z`.
pub open spec fn iterate_m<T: Scalar>(p: Seq<int>, z: (int, int), n: nat) -> (int, int)
    decreases n,
{
    if n == 0 {
        z
    } else {
        eval_m::<T>(p, iterate_m::<T>(p, z, (n - 1) as nat))
    }
}

/// The horizontal step between neighbouring sample columns.
pub open spec fn hstep_m<T: Scalar>(l: int, r: int, cols: int) -> int {
    T::div_m(T::sub_m(r, l), cols)
}

/// The vertical step between neighbouring sample rows.
pub open spec fn vstep_m<T: Scalar>(d: int, u: int, rows: int) -> int {
    T::div_m(T::sub_m(u, d), rows)
}

/// The sample point of the cell at (`row`, `col`): the left bound plus `col`
/// horizontal steps, and the top bound minus `row` vertical steps — row zero
/// lies at the top bound, column zero at the left bound.
pub open spec fn sample_m<T: Scalar>(
    l: int,
    r: int,
    d: int,
    u: int,
    cols: int,
    rows: int,
    row: int,
    col: int,
) -> (int, int) {
    (
        T::add_m(l, T::mul_m(hstep_m::<T>(l, r, cols), col)),
        T::sub_m(u, T::mul_m(vstep_m::<T>(d, u, rows), row)),
    )
}

/// The bounds of the plane region to sample are `lbound`, `rbound`, `dbound`
/// and `ubound` (left, right, bottom, top); `cpoly` is the polynomial to be
/// iterated on; `img_l` and `img_w` are the number of sample columns and rows;
/// `iter_count` is the iteration bound per sample point.
///
/// Rejects — before any work — exactly when the region is empty (the right
/// bound does not exceed the left, or the top does not exceed the bottom) or
/// the grid is empty (no columns or no rows). Otherwise the result holds
/// `img_w` rows of `img_l` escape counts each, row zero sampling the top
/// bound, and every cell carrying the escape count of its own sample point.
pub fn generate_val_arr<T: Scalar>(
    lbound: T,
    rbound: T,
    dbound: T,
    ubound: T,
    cpoly: &CPolynomial<T>,
    img_l: u64,
    img_w: u64,
    iter_count: u64,
) -> (out: Result<Vec<Vec<isize>>, &'static str>)
    requires
        cpoly.wf(),
        img_l <= i64::MAX as u64,
        img_w <= i64::MAX as u64,
        iter_count <= isize::MAX as u64,
    ensures
        out is Err <==> (!(lbound.m() < rbound.m()) || !(dbound.m() < ubound.m()) || img_l == 0
            || img_w == 0),
        out is Ok ==> out->Ok_0@.len() == img_w as int,
        out is Ok ==> (forall|r: int|
            0 <= r < img_w as int ==> (#[trigger] out->Ok_0@[r])@.len() == img_l as int),
        out is Ok ==> (forall|r: int, c: int|
            0 <= r < img_w as int && 0 <= c < img_l as int ==> (#[trigger] out->Ok_0@[r]@[c])
                as int == escape_count_m::<T>(
                cpoly.m(),
                sample_m::<T>(
                    lbound.m(),
                    rbound.m(),
                    dbound.m(),
                    ubound.m(),
                    img_l as int,
                    img_w as int,
                    r,
                    c,
                ),
                iter_count as nat,
            )),
{
    if !lbound.lt(rbound) || !dbound.lt(ubound) {
        return Err("the plane region is empty: the right bound must exceed the left and the top bound must exceed the bottom");
    }
    if img_l == 0 || img_w == 0 {
        return Err("the sample grid is empty: both dimensions must be positive");
    }
    let ghost l = lbound.m();
    let ghost r = rbound.m();
    let ghost d = dbound.m();
    let ghost u = ubound.m();
    let ghost pm = cpoly.m();
    let horizontal_increment = rbound.sub(lbound).div(T::of_int(img_l as i64));
    let vertical_increment = ubound.sub(dbound).div(T::of_int(img_w as i64));
    let four = T::of_int(4);

    let mut out: Vec<Vec<isize>> = Vec::new();
    let mut row: u64 = 0;
    while row < img_w
        invariant
            row <= img_w,
            img_l >= 1,
            img_l <= i64::MAX as u64,
            img_w <= i64::MAX as u64,
            iter_count <= isize::MAX as u64,
            cpoly.wf(),
            pm == cpoly.m(),
            l == lbound.m() && r == rbound.m() && d == dbound.m() && u == ubound.m(),
            horizontal_increment.m() == hstep_m::<T>(l, r, img_l as int),
            vertical_increment.m() == vstep_m::<T>(d, u, img_w as int),
            four.m() == 4,
            out@.len() == row as int,
            forall|rr: int|
                0 <= rr < row as int ==> (#[trigger] out@[rr])@.len() == img_l as int,
            forall|rr: int, cc: int|
                0 <= rr < row as int && 0 <= cc < img_l as int ==> (#[trigger] out@[rr]@[cc])
                    as int == escape_count_m::<T>(
                    pm,
                    sample_m::<T>(l, r, d, u, img_l as int, img_w as int, rr, cc),
                    iter_count as nat,
                ),
        decreases img_w - row,
    {
        let it_v = ubound.sub(vertical_increment.mul(T::of_int(row as i64)));
        let mut part: Vec<isize> = Vec::new();
        let mut col: u64 = 0;
        while col < img_l
            invariant
                col <= img_l,
                img_l <= i64::MAX as u64,
                iter_count <= isize::MAX as u64,
                cpoly.wf(),
                pm == cpoly.m(),
                l == lbound.m() && r == rbound.m() && d == dbound.m() && u == ubound.m(),
                horizontal_increment.m() == hstep_m::<T>(l, r, img_l as int),
                four.m() == 4,
                it_v.m() == sample_m::<T>(
                    l,
                    r,
                    d,
                    u,
                    img_l as int,
                    img_w as int,
                    row as int,
                    0,
                ).1,
                part@.len() == col as int,
                forall|cc: int|
                    0 <= cc < col as int ==> (#[trigger] part@[cc]) as int == escape_count_m::<T>(
                        pm,
                        sample_m::<T>(l, r, d, u, img_l as int, img_w as int, row as int, cc),
                        iter_count as nat,
                    ),
            decreases img_l - col,
        {
            let it_h = lbound.add(horizontal_increment.mul(T::of_int(col as i64)));
            let constant = Complex::new(it_h, it_v);
            let ghost cm = sample_m::<T>(l, r, d, u, img_l as int, img_w as int, row as int, col as int);
            let mut seed = Complex::new(T::of_int(0), T::of_int(0));
            let mut count: u64 = 0;
            while count < iter_count
                invariant_except_break
                    count <= iter_count,
                    cpoly.wf(),
                    pm == cpoly.m(),
                    four.m() == 4,
                    constant.m() == cm,
                    escape_count_m::<T>(pm, cm, iter_count as nat) == count as nat
                        + escape_from_m::<T>(pm, cm, seed.m(), (iter_count - count) as nat),
                ensures
                    count <= iter_count,
                    escape_count_m::<T>(pm, cm, iter_count as nat) == count as nat,
                decreases iter_count - count,
            {
                let ghost zprev = seed.m();
                seed = cpoly.eval(seed).add(&constant);
                assert(seed.m() == step_m::<T>(pm, cm, zprev));
                if four.lt(seed.norm_sqr()) {
                    assert(escape_from_m::<T>(pm, cm, zprev, (iter_count - count) as nat) == 0);
                    break;
                }
                assert(escape_from_m::<T>(pm, cm, zprev, (iter_count - count) as nat) == 1
                    + escape_from_m::<T>(pm, cm, seed.m(), (iter_count - count - 1) as nat));
                count = count + 1;
            }
            part.push(count as isize);
            col = col + 1;
        }
        out.push(part);
        row = row + 1;
    }
    Ok(out)
}

/// The raw-value counterpart of [`generate_val_arr`]: the same region,
/// polynomial and grid, but each cell records the complex value after exactly
/// `iter_count` iterations of `z := P(z)` started from the cell's own sample
/// point, with no escape test and no additive constant. Rejects exactly as
/// [`generate_val_arr`] does. Non-finite or saturated values are a legitimate
/// outcome here and are preserved as the scalar produced them.
pub fn generate_end_arr<T: Scalar>(
    lbound: T,
    rbound: T,
    dbound: T,
    ubound: T,
    cpoly: &CPolynomial<T>,
    img_l: u64,
    img_w: u64,
    iter_count: u64,
) -> (out: Result<Vec<Vec<Complex<T>>>, &'static str>)
    requires
        cpoly.wf(),
        img_l <= i64::MAX as u64,
        img_w <= i64::MAX as u64,
    ensures
        out is Err <==> (!(lbound.m() < rbound.m()) || !(dbound.m() < ubound.m()) || img_l == 0
            || img_w == 0),
        out is Ok ==> out->Ok_0@.len() == img_w as int,
        out is Ok ==> (forall|r: int|
            0 <= r < img_w as int ==> (#[trigger] out->Ok_0@[r])@.len() == img_l as int),
        out is Ok ==> (forall|r: int, c: int|
            0 <= r < img_w as int && 0 <= c < img_l as int ==> (#[trigger] out->Ok_0@[r]@[c]).m()
                == iterate_m::<T>(
                cpoly.m(),
                sample_m::<T>(
                    lbound.m(),
                    rbound.m(),
                    dbound.m(),
                    ubound.m(),
                    img_l as int,
                    img_w as int,
                    r,
                    c,
                ),
                iter_count as nat,
            )),
{
    if !lbound.lt(rbound) || !dbound.lt(ubound) {
        return Err("the plane region is empty: the right bound must exceed the left and the top bound must exceed the bottom");
    }
    if img_l == 0 || img_w == 0 {
        return Err("the sample grid is empty: both dimensions must be positive");
    }
    let ghost l = lbound.m();
    let ghost r = rbound.m();
    let ghost d = dbound.m();
    let ghost u = ubound.m();
    let ghost pm = cpoly.m();
    let horizontal_increment = rbound.sub(lbound).div(T::of_int(img_l as i64));
    let vertical_increment = ubound.sub(dbound).div(T::of_int(img_w as i64));

    let mut out: Vec<Vec<Complex<T>>> = Vec::new();
    let mut row: u64 = 0;
    while row < img_w
        invariant
            row <= img_w,
            img_l >= 1,
            img_l <= i64::MAX as u64,
            img_w <= i64::MAX as u64,
            cpoly.wf(),
            pm == cpoly.m(),
            l == lbound.m() && r == rbound.m() && d == dbound.m() && u == ubound.m(),
            horizontal_increment.m() == hstep_m::<T>(l, r, img_l as int),
            vertical_increment.m() == vstep_m::<T>(d, u, img_w as int),
            out@.len() == row as int,
            forall|rr: int|
                0 <= rr < row as int ==> (#[trigger] out@[rr])@.len() == img_l as int,
            forall|rr: int, cc: int|
                0 <= rr < row as int && 0 <= cc < img_l as int ==> (#[trigger] out@[rr]@[cc]).m()
                    == iterate_m::<T>(
                    pm,
                    sample_m::<T>(l, r, d, u, img_l as int, img_w as int, rr, cc),
                    iter_count as nat,
                ),
        decreases img_w - row,
    {
        let it_v = ubound.sub(vertical_increment.mul(T::of_int(row as i64)));
        let mut part: Vec<Complex<T>> = Vec::new();
        let mut col: u64 = 0;
        while col < img_l
            invariant
                col <= img_l,
                img_l <= i64::MAX as u64,
                cpoly.wf(),
                pm == cpoly.m(),
                l == lbound.m() && r == rbound.m() && d == dbound.m() && u == ubound.m(),
                horizontal_increment.m() == hstep_m::<T>(l, r, img_l as int),
                it_v.m() == sample_m::<T>(
                    l,
                    r,
                    d,
                    u,
                    img_l as int,
                    img_w as int,
                    row as int,
                    0,
                ).1,
                part@.len() == col as int,
                forall|cc: int|
                    0 <= cc < col as int ==> (#[trigger] part@[cc]).m() == iterate_m::<T>(
                        pm,
                        sample_m::<T>(l, r, d, u, img_l as int, img_w as int, row as int, cc),
                        iter_count as nat,
                    ),
            decreases img_l - col,
        {
            let it_h = lbound.add(horizontal_increment.mul(T::of_int(col as i64)));
            let ghost cm = sample_m::<T>(l, r, d, u, img_l as int, img_w as int, row as int, col as int);
            let mut seed = Complex::new(it_h, it_v);
            let mut k: u64 = 0;
            while k < iter_count
                invariant
                    k <= iter_count,
                    cpoly.wf(),
                    pm == cpoly.m(),
                    seed.m() == iterate_m::<T>(pm, cm, k as nat),
                decreases iter_count - k,
            {
                seed = cpoly.eval(seed);
                k = k + 1;
            }
            part.push(seed);
            col = col + 1;
        }
        out.push(part);
        row = row + 1;
    }
    Ok(out)
}

/// The bitmap image container of the bmp crate, declared opaquely; the two
/// names below say what an image holds.
#[verifier::external_type_specification]
#[verifier::external_body]
pub struct ExImage(bmp::Image);

/// The width and height an image was made with.
pub uninterp spec fn image_dims(img: bmp::Image) -> (u32, u32);

/// The pixels an image holds, as red, green and blue channel values by
/// (x, y) coordinate.
pub uninterp spec fn image_pixels(img: bmp::Image) -> Map<(u32, u32), (u8, u8, u8)>;

/// Relies on bmp::Image::new: a width-by-height image with every pixel
/// black. The call counts in u32 both the pixel buffer (width*height
/// entries) and the file-header arithmetic, which pads each row to a
/// multiple of four bytes near three bytes per pixel and multiplies by the
/// height; eight bytes per pixel, and eight bytes per row unit of width,
/// cover that padded row arithmetic with room for its single-precision
/// rounding, so neither count can overflow.
#[verifier::external_body]
fn image_new(width: u32, height: u32) -> (img: bmp::Image)
    requires
        8 * width as int <= u32::MAX as int,
        8 * width as int * height as int <= u32::MAX as int,
    ensures
        image_dims(img) == (width, height),
        forall|x: u32, y: u32|
            x < width && y < height ==> #[trigger] image_pixels(img).contains_key((x, y)),
        forall|x: u32, y: u32|
            x < width && y < height ==> #[trigger] image_pixels(img)[(x, y)] == (0u8, 0u8, 0u8),
{
    bmp::Image::new(width, height)
}

/// Relies on bmp::Image::set_pixel: writes the one pixel at (x, y) in place
/// and touches nothing else. The call indexes the pixel buffer without a
/// check, so the coordinates must lie inside the dimensions.
#[verifier::external_body]
fn image_set_pixel(img: &mut bmp::Image, x: u32, y: u32, r: u8, g: u8, b: u8)
    requires
        x < image_dims(*old(img)).0,
        y < image_dims(*old(img)).1,
    ensures
        image_dims(*final(img)) == image_dims(*old(img)),
        image_pixels(*final(img)) == image_pixels(*old(img)).insert((x, y), (r, g, b)),
{
    img.set_pixel(x, y, bmp::Pixel { r, g, b });
}

/// The absolute value.
pub open spec fn abs_m(v: int) -> int {
    if v < 0 {
        -v
    } else {
        v
    }
}

/// Whether the palette formula's intermediate values all fit in `isize` for
/// the count `v`, the channel base `base` and the channel modifier `md`;
/// `bit` is one on an inverted palette and zero otherwise. (The absolute
/// value is taken of a value strictly above `isize::MIN`, so it fits too.)
pub open spec fn channel_ok(v: int, base: int, md: int, bit: int) -> bool {
    &&& isize::MIN as int <= base - v <= isize::MAX as int
    &&& isize::MIN as int <= (base - v) * md <= isize::MAX as int
    &&& (isize::MIN as int) < 255 * bit - (base - v) * md
    &&& 255 * bit - (base - v) * md <= isize::MAX as int
}

/// The palette formula: `|255*bit - (base - v)*md|`, truncated to the low
/// eight bits.
pub open spec fn channel_m(v: int, base: int, md: int, bit: int) -> int {
    abs_m(255 * bit - (base - v) * md) % 256
}

/// Decide [`channel_ok`] at run time: whether the palette formula's
/// intermediates fit in `isize` for one cell. A caller can test every cell
/// with this before handing a grid to [`make_bmp`].
pub fn channel_fits(v: isize, base: isize, md: isize, inverted: bool) -> (r: bool)
    ensures
        r == channel_ok(v as int, base as int, md as int, if inverted { 1int } else { 0int }),
{
    let bit: isize = if inverted { 1 } else { 0 };
    let diff = match base.checked_sub(v) {
        Some(d) => d,
        None => {
            return false;
        },
    };
    let scaled = match diff.checked_mul(md) {
        Some(p) => p,
        None => {
            return false;
        },
    };
    let shifted = match (255 * bit).checked_sub(scaled) {
        Some(t) => t,
        None => {
            return false;
        },
    };
    shifted > isize::MIN
}

/// One channel of the palette: `bit` is one when the palette is inverted.
fn channel(v: isize, base: isize, md: isize, inverted: bool) -> (r: u8)
    requires
        channel_ok(v as int, base as int, md as int, if inverted { 1int } else { 0int }),
    ensures
        r as int == channel_m(v as int, base as int, md as int, if inverted { 1int } else { 0int }),
{
    let bit: isize = if inverted { 1 } else { 0 };
    let diff = base - v;
    let scaled = diff * md;
    let signed_value = 255 * bit - scaled;
    let magnitude = if signed_value < 0 { -signed_value } else { signed_value };
    let wide: u64 = magnitude as u64;
    (wide % 256) as u8
}

/// Turn a grid of escape counts into a bitmap image, one pixel per cell:
/// pixel (x, y) takes cell `v[x][y]`, and each channel is
/// `|255*bit - (base - v)*mod|` truncated to eight bits, where `bit` is one
/// when `inverted` and zero otherwise — red from `rbase`/`rmod`, green from
/// `gbase`/`gmod`, blue from `bbase`/`bmod`. The grid must be non-empty and
/// rectangular, its dimensions must fit the image's u32 sizes with an
/// eight-fold margin for the bitmap's padded-row arithmetic, and the
/// formula's intermediates must fit in `isize` for every cell (see
/// [`channel_fits`]).
pub fn make_bmp(
    v: Vec<Vec<isize>>,
    rbase: isize,
    gbase: isize,
    bbase: isize,
    rmod: isize,
    gmod: isize,
    bmod: isize,
    inverted: bool,
) -> (img: bmp::Image)
    requires
        v@.len() > 0,
        8 * v@.len() <= u32::MAX as int,
        8 * v@.len() * v@[0]@.len() <= u32::MAX as int,
        v@[0]@.len() <= u32::MAX as int,
        forall|x: int| 0 <= x < v@.len() ==> (#[trigger] v@[x])@.len() == v@[0]@.len(),
        forall|x: int, y: int|
            0 <= x < v@.len() && 0 <= y < v@[0]@.len() ==> {
                let bit = if inverted { 1int } else { 0int };
                &&& channel_ok((#[trigger] v@[x]@[y]) as int, rbase as int, rmod as int, bit)
                &&& channel_ok(v@[x]@[y] as int, gbase as int, gmod as int, bit)
                &&& channel_ok(v@[x]@[y] as int, bbase as int, bmod as int, bit)
            },
    ensures
        image_dims(img) == (v@.len() as u32, v@[0]@.len() as u32),
        forall|x: u32, y: u32|
            x < v@.len() && y < v@[0]@.len() ==> #[trigger] image_pixels(img).contains_key((x, y)),
        forall|x: u32, y: u32|
            x < v@.len() && y < v@[0]@.len() ==> #[trigger] image_pixels(img)[(x, y)] == {
                let bit = if inverted { 1int } else { 0int };
                let cell = v@[x as int]@[y as int] as int;
                (
                    channel_m(cell, rbase as int, rmod as int, bit) as u8,
                    channel_m(cell, gbase as int, gmod as int, bit) as u8,
                    channel_m(cell, bbase as int, bmod as int, bit) as u8,
                )
            },
{
    let width = v.len() as u32;
    let height = v[0].len() as u32;
    let ghost bit = if inverted { 1int } else { 0int };
    let mut img = image_new(width, height);
    let mut x: u32 = 0;
    while x < width
        invariant
            x <= width,
            width as int == v@.len(),
            height as int == v@[0]@.len(),
            forall|xx: int| 0 <= xx < v@.len() ==> (#[trigger] v@[xx])@.len() == v@[0]@.len(),
            forall|xx: int, yy: int|
                0 <= xx < v@.len() && 0 <= yy < v@[0]@.len() ==> {
                    &&& channel_ok((#[trigger] v@[xx]@[yy]) as int, rbase as int, rmod as int, bit)
                    &&& channel_ok(v@[xx]@[yy] as int, gbase as int, gmod as int, bit)
                    &&& channel_ok(v@[xx]@[yy] as int, bbase as int, bmod as int, bit)
                },
            bit == if inverted { 1int } else { 0int },
            image_dims(img) == (width, height),
            forall|xx: u32, yy: u32|
                xx < width && yy < height ==> #[trigger] image_pixels(img).contains_key((xx, yy)),
            forall|xx: u32, yy: u32|
                xx < x && yy < height ==> #[trigger] image_pixels(img)[(xx, yy)] == (
                    channel_m(v@[xx as int]@[yy as int] as int, rbase as int, rmod as int, bit) as u8,
                    channel_m(v@[xx as int]@[yy as int] as int, gbase as int, gmod as int, bit) as u8,
                    channel_m(v@[xx as int]@[yy as int] as int, bbase as int, bmod as int, bit) as u8,
                ),
        decreases width - x,
    {
        let mut y: u32 = 0;
        while y < height
            invariant
                x < width,
                y <= height,
                width as int == v@.len(),
                height as int == v@[0]@.len(),
                forall|xx: int| 0 <= xx < v@.len() ==> (#[trigger] v@[xx])@.len() == v@[0]@.len(),
                forall|xx: int, yy: int|
                    0 <= xx < v@.len() && 0 <= yy < v@[0]@.len() ==> {
                        &&& channel_ok(
                            (#[trigger] v@[xx]@[yy]) as int,
                            rbase as int,
                            rmod as int,
                            bit,
                        )
                        &&& channel_ok(v@[xx]@[yy] as int, gbase as int, gmod as int, bit)
                        &&& channel_ok(v@[xx]@[yy] as int, bbase as int, bmod as int, bit)
                    },
                bit == if inverted { 1int } else { 0int },
                image_dims(img) == (width, height),
                forall|xx: u32, yy: u32|
                    xx < width && yy < height ==> image_pixels(img).contains_key((xx, yy)),
                forall|xx: u32, yy: u32|
                    xx < x && yy < height ==> #[trigger] image_pixels(img)[(xx, yy)] == (
                        channel_m(v@[xx as int]@[yy as int] as int, rbase as int, rmod as int, bit) as u8,
                        channel_m(v@[xx as int]@[yy as int] as int, gbase as int, gmod as int, bit) as u8,
                        channel_m(v@[xx as int]@[yy as int] as int, bbase as int, bmod as int, bit) as u8,
                    ),
                forall|yy: u32|
                    yy < y ==> #[trigger] image_pixels(img)[(x, yy)] == (
                        channel_m(v@[x as int]@[yy as int] as int, rbase as int, rmod as int, bit) as u8,
                        channel_m(v@[x as int]@[yy as int] as int, gbase as int, gmod as int, bit) as u8,
                        channel_m(v@[x as int]@[yy as int] as int, bbase as int, bmod as int, bit) as u8,
                    ),
            decreases height - y,
        {
            let cell = v[x as usize][y as usize];
            let red = channel(cell, rbase, rmod, inverted);
            let green = channel(cell, gbase, gmod, inverted);
            let blue = channel(cell, bbase, bmod, inverted);
            image_set_pixel(&mut img, x, y, red, green, blue);
            y = y + 1;
        }
        x = x + 1;
    }
    img
}

} // verus!
