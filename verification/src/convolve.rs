use vstd::prelude::*;

verus! {

use vstd::arithmetic::div_mod::{lemma_div_is_ordered, lemma_div_multiples_vanish};
use vstd::arithmetic::mul::{lemma_mul_is_associative, lemma_mul_is_commutative};
use crate::arith::{
    div_euclid_i64,
    lemma_sum_abs_bound,
    lemma_sum_congruence,
    lemma_sum_le,
    lemma_sum_scale,
    sum_of,
};
use crate::extended_index::{mirror, mirror_index, reflectable};
use crate::kernels::{
    kernel_denom,
    kernel_half,
    kernel_row_total,
    kernel_sep_total,
    kernel_sep_weight,
    kernel_separable,
    kernel_size,
    kernel_total,
    kernel_weight,
    lemma_weight_bounds,
    Kernel,
};
use crate::raster::{lemma_index_in_bounds, lemma_index_lex, GridView, Raster, INPUT_BOUND};

/// Magnitude bound for one weighted tap: the largest table numerator times
/// the largest admitted input sample.
pub const TAP_BOUND: i64 = 160 * INPUT_BOUND;

/// Whether taps dilated by `stride` stay within one mirror reflection of
/// every pixel of the raster.
pub open spec fn stride_fits(g: GridView, k: Kernel, stride: int) -> bool {
    &&& 1 <= stride
    &&& kernel_half(k) * stride <= g.width - 1
    &&& kernel_half(k) * stride <= g.height - 1
}

/// The series of row `i`'s weighted taps at output pixel `(y, x)`,
/// indexed by the kernel column `j`.
pub open spec fn conv_row_term(
    g: GridView,
    k: Kernel,
    stride: int,
    y: int,
    x: int,
    ch: int,
    i: int,
) -> spec_fn(int) -> int {
    |j: int|
        kernel_weight(k, i, j) * g.at(
            mirror(y + (i - kernel_half(k)) * stride, g.height),
            mirror(x + (j - kernel_half(k)) * stride, g.width),
            ch,
        )
}

/// Contribution of kernel row `i` to the convolution numerator.
pub open spec fn conv_row_sum(
    g: GridView,
    k: Kernel,
    stride: int,
    y: int,
    x: int,
    ch: int,
    i: int,
) -> int {
    sum_of(conv_row_term(g, k, stride, y, x, ch, i), kernel_size(k) as nat)
}

/// The series of the kernel rows' contributions, indexed by the row `i`.
pub open spec fn conv_rows_series(
    g: GridView,
    k: Kernel,
    stride: int,
    y: int,
    x: int,
    ch: int,
) -> spec_fn(int) -> int {
    |i: int| conv_row_sum(g, k, stride, y, x, ch, i)
}

/// The full convolution numerator: every table entry times the sample it
/// reaches through the dilated, mirror-extended lookup.
pub open spec fn conv_total(g: GridView, k: Kernel, stride: int, y: int, x: int, ch: int) -> int {
    sum_of(conv_rows_series(g, k, stride, y, x, ch), kernel_size(k) as nat)
}

/// The smoothed sample at `(y, x)`: the convolution numerator divided by
/// the kernel denominator, rounding toward minus infinity.
pub open spec fn smoothed_at(g: GridView, k: Kernel, stride: int, y: int, x: int, ch: int) -> int {
    conv_total(g, k, stride, y, x, ch) / kernel_denom(k)
}

/// The series of the 1D row pass at `(y, x)`: the row is read at its true
/// `y`; only the column is offset and mirrored.
pub open spec fn row_conv_term(
    g: GridView,
    k: Kernel,
    stride: int,
    y: int,
    x: int,
    ch: int,
) -> spec_fn(int) -> int {
    |j: int|
        kernel_sep_weight(k, j) * g.at(y, mirror(x + (j - kernel_half(k)) * stride, g.width), ch)
}

/// Output of the 1D row pass: a weighted column sum with no division, so
/// the column pass can divide once and lose nothing.
pub open spec fn row_conv_at(g: GridView, k: Kernel, stride: int, y: int, x: int, ch: int) -> int {
    sum_of(row_conv_term(g, k, stride, y, x, ch), kernel_size(k) as nat)
}

/// The series of the 1D column pass at `(y, x)` over a row-pass result:
/// each term weights the row-pass value of the mirrored source row.
pub open spec fn sep_col_term(
    g: GridView,
    k: Kernel,
    stride: int,
    y: int,
    x: int,
    ch: int,
) -> spec_fn(int) -> int {
    |i: int|
        kernel_sep_weight(k, i) * row_conv_at(
            g,
            k,
            stride,
            mirror(y + (i - kernel_half(k)) * stride, g.height),
            x,
            ch,
        )
}

/// Every dilated tap offset from an in-range coordinate is reflectable,
/// and the dilated offsets themselves stay within the dimension.
pub proof fn lemma_tap_reflectable(k: Kernel, stride: int, pos: int, len: int, t: int)
    requires
        1 <= stride,
        kernel_half(k) * stride <= len - 1,
        0 <= pos < len,
        0 <= t < kernel_size(k),
    ensures
        reflectable(pos + (t - kernel_half(k)) * stride, len),
        -(kernel_half(k) * stride) <= (t - kernel_half(k)) * stride <= kernel_half(k) * stride,
        -(len - 1) <= (t - kernel_half(k)) * stride <= len - 1,
        stride <= len - 1,
{
    let half = kernel_half(k);
    assert(-(half * stride) <= (t - half) * stride <= half * stride && stride <= half * stride)
        by (nonlinear_arith)
        requires
            1 <= stride,
            1 <= half,
            -half <= t - half <= half,
    ;
}

/// The weighted tap series of any kernel row is term-wise within
/// `TAP_BOUND` when the raster is within `INPUT_BOUND`.
proof fn lemma_row_terms_bounded(
    g: GridView,
    k: Kernel,
    stride: int,
    y: int,
    x: int,
    ch: int,
    i: int,
)
    requires
        g.wf(),
        g.bounded(INPUT_BOUND as int),
        stride_fits(g, k, stride),
        g.in_range(y, x, ch),
        0 <= i < kernel_size(k),
    ensures
        forall|j: int|
            0 <= j < kernel_size(k) ==> -(TAP_BOUND as int) <= #[trigger] conv_row_term(
                g,
                k,
                stride,
                y,
                x,
                ch,
                i,
            )(j) <= TAP_BOUND as int,
{
    let half = kernel_half(k);
    let f = conv_row_term(g, k, stride, y, x, ch, i);
    assert forall|j: int| 0 <= j < kernel_size(k) implies -(TAP_BOUND as int) <= #[trigger] f(j)
        <= TAP_BOUND as int by {
        lemma_tap_reflectable(k, stride, y, g.height, i);
        lemma_tap_reflectable(k, stride, x, g.width, j);
        let my = mirror(y + (i - half) * stride, g.height);
        let mx = mirror(x + (j - half) * stride, g.width);
        lemma_index_in_bounds(g, my, mx, ch);
        let w = kernel_weight(k, i, j);
        let v = g.at(my, mx, ch);
        lemma_weight_bounds(k, i, j);
        assert(-(TAP_BOUND as int) <= w * v <= TAP_BOUND as int) by (nonlinear_arith)
            requires
                0 <= w <= 160,
                -(INPUT_BOUND as int) <= v <= INPUT_BOUND as int,
                TAP_BOUND == 160 * INPUT_BOUND,
        ;
    }
}

/// One weighted tap lies between its weight times the raster's lower and
/// upper sample bounds.
proof fn lemma_conv_row_term_within(
    g: GridView,
    k: Kernel,
    stride: int,
    y: int,
    x: int,
    ch: int,
    i: int,
    lo: int,
    hi: int,
    j: int,
)
    requires
        g.wf(),
        g.within(lo, hi),
        stride_fits(g, k, stride),
        g.in_range(y, x, ch),
        0 <= i < kernel_size(k),
        0 <= j < kernel_size(k),
    ensures
        lo * kernel_weight(k, i, j) <= conv_row_term(g, k, stride, y, x, ch, i)(j) <= hi
            * kernel_weight(k, i, j),
{
    let half = kernel_half(k);
    lemma_tap_reflectable(k, stride, y, g.height, i);
    lemma_tap_reflectable(k, stride, x, g.width, j);
    let my = mirror(y + (i - half) * stride, g.height);
    let mx = mirror(x + (j - half) * stride, g.width);
    lemma_index_in_bounds(g, my, mx, ch);
    let v = g.at(my, mx, ch);
    let w = kernel_weight(k, i, j);
    lemma_weight_bounds(k, i, j);
    assert(lo * w <= w * v <= hi * w) by (nonlinear_arith)
        requires
            0 <= w,
            lo <= v <= hi,
    ;
}

/// One kernel row's contribution lies between the row's weight sum times
/// the raster's lower and upper sample bounds.
proof fn lemma_conv_row_within(
    g: GridView,
    k: Kernel,
    stride: int,
    y: int,
    x: int,
    ch: int,
    i: int,
    lo: int,
    hi: int,
)
    requires
        g.wf(),
        g.within(lo, hi),
        stride_fits(g, k, stride),
        g.in_range(y, x, ch),
        0 <= i < kernel_size(k),
    ensures
        kernel_row_total(k, i) * lo <= conv_row_sum(g, k, stride, y, x, ch, i)
            <= kernel_row_total(k, i) * hi,
{
    let n = kernel_size(k) as nat;
    let half = kernel_half(k);
    let f = conv_row_term(g, k, stride, y, x, ch, i);
    let w = |j: int| kernel_weight(k, i, j);
    let flo = |j: int| lo * w(j);
    let fhi = |j: int| hi * w(j);
    assert forall|j: int| 0 <= j < n implies #[trigger] flo(j) <= #[trigger] f(j) by {
        lemma_conv_row_term_within(g, k, stride, y, x, ch, i, lo, hi, j);
    }
    assert forall|j: int| 0 <= j < n implies #[trigger] f(j) <= #[trigger] fhi(j) by {
        lemma_conv_row_term_within(g, k, stride, y, x, ch, i, lo, hi, j);
    }
    lemma_sum_le(flo, f, n);
    lemma_sum_le(f, fhi, n);
    lemma_sum_scale(w, lo, n);
    lemma_sum_scale(w, hi, n);
    lemma_sum_congruence(|j: int| lo * w(j), flo, n);
    lemma_sum_congruence(|j: int| hi * w(j), fhi, n);
    lemma_sum_congruence(w, |j: int| kernel_weight(k, i, j), n);
    lemma_mul_is_commutative(lo, sum_of(w, n));
    lemma_mul_is_commutative(hi, sum_of(w, n));
    lemma_mul_is_commutative(kernel_row_total(k, i), lo);
    lemma_mul_is_commutative(kernel_row_total(k, i), hi);
}

/// The whole convolution numerator lies between the kernel's weight sum
/// times the raster's lower and upper sample bounds.
pub proof fn lemma_conv_total_within(
    g: GridView,
    k: Kernel,
    stride: int,
    y: int,
    x: int,
    ch: int,
    lo: int,
    hi: int,
)
    requires
        g.wf(),
        g.within(lo, hi),
        stride_fits(g, k, stride),
        g.in_range(y, x, ch),
    ensures
        kernel_total(k) * lo <= conv_total(g, k, stride, y, x, ch) <= kernel_total(k) * hi,
{
    let n = kernel_size(k) as nat;
    let rows = conv_rows_series(g, k, stride, y, x, ch);
    let rt = |i: int| kernel_row_total(k, i);
    let rlo = |i: int| lo * rt(i);
    let rhi = |i: int| hi * rt(i);
    assert forall|i: int| 0 <= i < n implies #[trigger] rlo(i) <= #[trigger] rows(i) by {
        lemma_conv_row_within(g, k, stride, y, x, ch, i, lo, hi);
        lemma_mul_is_commutative(rt(i), lo);
    }
    assert forall|i: int| 0 <= i < n implies #[trigger] rows(i) <= #[trigger] rhi(i) by {
        lemma_conv_row_within(g, k, stride, y, x, ch, i, lo, hi);
        lemma_mul_is_commutative(rt(i), hi);
    }
    lemma_sum_le(rlo, rows, n);
    lemma_sum_le(rows, rhi, n);
    lemma_sum_scale(rt, lo, n);
    lemma_sum_scale(rt, hi, n);
    lemma_sum_congruence(|i: int| lo * rt(i), rlo, n);
    lemma_sum_congruence(|i: int| hi * rt(i), rhi, n);
    lemma_sum_congruence(rt, |i: int| kernel_row_total(k, i), n);
    lemma_mul_is_commutative(lo, sum_of(rt, n));
    lemma_mul_is_commutative(hi, sum_of(rt, n));
    lemma_mul_is_commutative(kernel_total(k), lo);
    lemma_mul_is_commutative(kernel_total(k), hi);
}

/// A kernel whose weights sum to one keeps every smoothed sample between
/// the raster's lower and upper sample bounds: smoothing preserves the
/// sample range, and in particular overall brightness cannot escape it.
pub proof fn lemma_smoothed_within_normalized(
    g: GridView,
    k: Kernel,
    stride: int,
    y: int,
    x: int,
    ch: int,
    lo: int,
    hi: int,
)
    requires
        g.wf(),
        g.within(lo, hi),
        stride_fits(g, k, stride),
        g.in_range(y, x, ch),
        kernel_total(k) == kernel_denom(k),
    ensures
        lo <= smoothed_at(g, k, stride, y, x, ch) <= hi,
{
    let d = kernel_denom(k);
    let t = conv_total(g, k, stride, y, x, ch);
    lemma_conv_total_within(g, k, stride, y, x, ch, lo, hi);
    lemma_div_is_ordered(d * lo, t, d);
    lemma_div_is_ordered(t, d * hi, d);
    lemma_div_multiples_vanish(lo, d);
    lemma_div_multiples_vanish(hi, d);
}

/// A constant field is a fixed point of normalized smoothing: every
/// smoothed sample equals the constant.
pub proof fn lemma_constant_field(
    g: GridView,
    k: Kernel,
    stride: int,
    y: int,
    x: int,
    ch: int,
    v0: int,
)
    requires
        g.wf(),
        g.within(v0, v0),
        stride_fits(g, k, stride),
        g.in_range(y, x, ch),
        kernel_total(k) == kernel_denom(k),
    ensures
        smoothed_at(g, k, stride, y, x, ch) == v0,
{
    lemma_smoothed_within_normalized(g, k, stride, y, x, ch, v0, v0);
}

/// Any smoothed sample of a raster within `INPUT_BOUND` stays within
/// sixteen times `INPUT_BOUND`, whatever the kernel.
pub proof fn lemma_smoothed_bounded(
    g: GridView,
    k: Kernel,
    stride: int,
    y: int,
    x: int,
    ch: int,
)
    requires
        g.wf(),
        g.bounded(INPUT_BOUND as int),
        stride_fits(g, k, stride),
        g.in_range(y, x, ch),
    ensures
        -(16 * INPUT_BOUND as int) <= smoothed_at(g, k, stride, y, x, ch) <= 16 * INPUT_BOUND
            as int,
{
    let b = INPUT_BOUND as int;
    let d = kernel_denom(k);
    let t = conv_total(g, k, stride, y, x, ch);
    lemma_conv_total_within(g, k, stride, y, x, ch, -b, b);
    crate::kernels::lemma_kernel_total_bounds(k);
    assert(kernel_total(k) * b <= d * (16 * b) && d * (-(16 * b)) <= kernel_total(k) * (-b))
        by (nonlinear_arith)
        requires
            0 <= kernel_total(k) <= 16 * d,
            0 <= b,
            1 <= d,
    ;
    lemma_div_is_ordered(d * (-(16 * b)), t, d);
    lemma_div_is_ordered(t, d * (16 * b), d);
    lemma_div_multiples_vanish(-(16 * b), d);
    lemma_div_multiples_vanish(16 * b, d);
}

/// One weighted term of the 1D row pass lies between its weight times the
/// raster's lower and upper sample bounds.
proof fn lemma_row_conv_term_within(
    g: GridView,
    k: Kernel,
    stride: int,
    y: int,
    x: int,
    ch: int,
    lo: int,
    hi: int,
    j: int,
)
    requires
        g.wf(),
        g.within(lo, hi),
        1 <= stride,
        kernel_half(k) * stride <= g.width - 1,
        g.in_range(y, x, ch),
        0 <= j < kernel_size(k),
    ensures
        lo * kernel_sep_weight(k, j) <= row_conv_term(g, k, stride, y, x, ch)(j) <= hi
            * kernel_sep_weight(k, j),
{
    let half = kernel_half(k);
    lemma_tap_reflectable(k, stride, x, g.width, j);
    let mx = mirror(x + (j - half) * stride, g.width);
    lemma_index_in_bounds(g, y, mx, ch);
    let v = g.at(y, mx, ch);
    let w = kernel_sep_weight(k, j);
    lemma_weight_bounds(k, j, j);
    assert(lo * w <= w * v <= hi * w) by (nonlinear_arith)
        requires
            0 <= w,
            lo <= v <= hi,
    ;
}

/// The 1D row pass lies between the 1D weight sum times the raster's lower
/// and upper sample bounds.
pub proof fn lemma_row_conv_within(
    g: GridView,
    k: Kernel,
    stride: int,
    y: int,
    x: int,
    ch: int,
    lo: int,
    hi: int,
)
    requires
        g.wf(),
        g.within(lo, hi),
        1 <= stride,
        kernel_half(k) * stride <= g.width - 1,
        g.in_range(y, x, ch),
    ensures
        kernel_sep_total(k) * lo <= row_conv_at(g, k, stride, y, x, ch) <= kernel_sep_total(k)
            * hi,
{
    let n = kernel_size(k) as nat;
    let f = row_conv_term(g, k, stride, y, x, ch);
    let w = |j: int| kernel_sep_weight(k, j);
    let flo = |j: int| lo * w(j);
    let fhi = |j: int| hi * w(j);
    assert forall|j: int| 0 <= j < n implies #[trigger] flo(j) <= #[trigger] f(j) by {
        lemma_row_conv_term_within(g, k, stride, y, x, ch, lo, hi, j);
    }
    assert forall|j: int| 0 <= j < n implies #[trigger] f(j) <= #[trigger] fhi(j) by {
        lemma_row_conv_term_within(g, k, stride, y, x, ch, lo, hi, j);
    }
    lemma_sum_le(flo, f, n);
    lemma_sum_le(f, fhi, n);
    lemma_sum_scale(w, lo, n);
    lemma_sum_scale(w, hi, n);
    lemma_sum_congruence(|j: int| lo * w(j), flo, n);
    lemma_sum_congruence(|j: int| hi * w(j), fhi, n);
    lemma_sum_congruence(w, |j: int| kernel_sep_weight(k, j), n);
    lemma_mul_is_commutative(lo, sum_of(w, n));
    lemma_mul_is_commutative(hi, sum_of(w, n));
    lemma_mul_is_commutative(kernel_sep_total(k), lo);
    lemma_mul_is_commutative(kernel_sep_total(k), hi);
}

/// Two 1D passes with a single final division compute exactly the 2D
/// convolution numerator: the separable path is an optimization, not a
/// change of meaning.
pub proof fn lemma_sep_matches_2d(g: GridView, k: Kernel, stride: int, y: int, x: int, ch: int)
    requires
        g.wf(),
        kernel_separable(k),
        stride_fits(g, k, stride),
        g.in_range(y, x, ch),
    ensures
        sum_of(sep_col_term(g, k, stride, y, x, ch), kernel_size(k) as nat) == conv_total(
            g,
            k,
            stride,
            y,
            x,
            ch,
        ),
{
    let n = kernel_size(k) as nat;
    let half = kernel_half(k);
    let col = sep_col_term(g, k, stride, y, x, ch);
    let rows = conv_rows_series(g, k, stride, y, x, ch);
    assert forall|i: int| 0 <= i < n implies #[trigger] col(i) == #[trigger] rows(i) by {
        lemma_tap_reflectable(k, stride, y, g.height, i);
        let my = mirror(y + (i - half) * stride, g.height);
        let c = kernel_sep_weight(k, i);
        let rf = row_conv_term(g, k, stride, my, x, ch);
        let cf = conv_row_term(g, k, stride, y, x, ch, i);
        lemma_sum_scale(rf, c, n);
        assert forall|j: int| 0 <= j < n implies (|j0: int| c * rf(j0))(j) == #[trigger] cf(
            j,
        ) by {
            lemma_mul_is_associative(c, kernel_sep_weight(k, j), g.at(
                my,
                mirror(x + (j - half) * stride, g.width),
                ch,
            ));
        }
        lemma_sum_congruence(|j0: int| c * rf(j0), cf, n);
    }
    lemma_sum_congruence(col, rows, n);
}

/// One smoothed sample by the direct 2D pass.
fn conv_pixel_2d(g: &Raster, k: Kernel, stride: usize, y: usize, x: usize, ch: usize) -> (v: i64)
    requires
        g@.wf(),
        g@.bounded(INPUT_BOUND as int),
        stride_fits(g@, k, stride as int),
        g@.in_range(y as int, x as int, ch as int),
    ensures
        v == smoothed_at(g@, k, stride as int, y as int, x as int, ch as int),
{
    let size = k.size();
    let half = k.half();
    let ghost gv = g@;
    let ghost st = stride as int;
    let ghost rows = conv_rows_series(gv, k, st, y as int, x as int, ch as int);
    let mut acc: i64 = 0;
    let mut i: usize = 0;
    while i < size
        invariant
            g@ == gv,
            gv.wf(),
            gv.bounded(INPUT_BOUND as int),
            stride_fits(gv, k, st),
            gv.in_range(y as int, x as int, ch as int),
            st == stride,
            size == kernel_size(k),
            half == kernel_half(k),
            i <= size,
            rows == conv_rows_series(gv, k, st, y as int, x as int, ch as int),
            acc == sum_of(rows, i as nat),
            -(i as i64) * 0x3_2000_0000_0000 <= acc <= (i as i64) * 0x3_2000_0000_0000,
        decreases size - i,
    {
        let ghost f = conv_row_term(gv, k, st, y as int, x as int, ch as int, i as int);
        proof {
            lemma_tap_reflectable(k, st, y as int, gv.height, i as int);
        }
        let yy = mirror_index(y as i64 + (i as i64 - half as i64) * (stride as i64), g.height());
        let mut row_acc: i64 = 0;
        let mut j: usize = 0;
        while j < size
            invariant
                g@ == gv,
                gv.wf(),
                gv.bounded(INPUT_BOUND as int),
                stride_fits(gv, k, st),
                gv.in_range(y as int, x as int, ch as int),
                st == stride,
                size == kernel_size(k),
                half == kernel_half(k),
                i < size,
                j <= size,
                f == conv_row_term(gv, k, st, y as int, x as int, ch as int, i as int),
                yy == mirror(y + (i - half) * st, gv.height),
                yy < gv.height,
                row_acc == sum_of(f, j as nat),
                -(j as i64) * 0xa000_0000_0000 <= row_acc <= (j as i64) * 0xa000_0000_0000,
            decreases size - j,
        {
            proof {
                lemma_tap_reflectable(k, st, x as int, gv.width, j as int);
                lemma_row_terms_bounded(gv, k, st, y as int, x as int, ch as int, i as int);
            }
            let xx = mirror_index(x as i64 + (j as i64 - half as i64) * (stride as i64), g.width());
            let wt = k.weight(i, j);
            let sample = g.get(yy, xx, ch);
            proof {
                lemma_weight_bounds(k, i as int, j as int);
                assert(wt * sample == f(j as int));
                assert(-(TAP_BOUND as int) <= f(j as int) <= TAP_BOUND as int);
                assert(-0xa000_0000_0000 <= wt * sample <= 0xa000_0000_0000);
            }
            row_acc = row_acc + wt * sample;
            j = j + 1;
        }
        proof {
            assert(row_acc == conv_row_sum(gv, k, st, y as int, x as int, ch as int, i as int));
            lemma_row_terms_bounded(gv, k, st, y as int, x as int, ch as int, i as int);
            lemma_sum_abs_bound(f, 0xa000_0000_0000, kernel_size(k) as nat);
            assert(-0x3_2000_0000_0000 <= row_acc <= 0x3_2000_0000_0000);
            assert(rows(i as int) == row_acc);
        }
        acc = acc + row_acc;
        i = i + 1;
    }
    proof {
        assert(acc == conv_total(gv, k, st, y as int, x as int, ch as int));
    }
    div_euclid_i64(acc, k.denom())
}

/// One sample of the 1D row pass: a weighted sum along the row with no
/// division, so the column pass loses nothing to rounding.
fn conv_pixel_row(g: &Raster, k: Kernel, stride: usize, y: usize, x: usize, ch: usize) -> (v: i64)
    requires
        g@.wf(),
        g@.bounded(INPUT_BOUND as int),
        kernel_separable(k),
        1 <= stride,
        kernel_half(k) * (stride as int) <= g@.width - 1,
        g@.in_range(y as int, x as int, ch as int),
    ensures
        v == row_conv_at(g@, k, stride as int, y as int, x as int, ch as int),
        -0x1000_0000_0000 <= v <= 0x1000_0000_0000,
{
    let size = k.size();
    let half = k.half();
    let ghost gv = g@;
    let ghost st = stride as int;
    let ghost f = row_conv_term(gv, k, st, y as int, x as int, ch as int);
    let mut acc: i64 = 0;
    let mut j: usize = 0;
    while j < size
        invariant
            g@ == gv,
            gv.wf(),
            gv.bounded(INPUT_BOUND as int),
            kernel_separable(k),
            1 <= st,
            kernel_half(k) * st <= gv.width - 1,
            gv.in_range(y as int, x as int, ch as int),
            st == stride,
            size == kernel_size(k),
            half == kernel_half(k),
            j <= size,
            f == row_conv_term(gv, k, st, y as int, x as int, ch as int),
            acc == sum_of(f, j as nat),
            -(j as i64) * 0x600_0000_0000 <= acc <= (j as i64) * 0x600_0000_0000,
        decreases size - j,
    {
        proof {
            lemma_tap_reflectable(k, st, x as int, gv.width, j as int);
        }
        let xx = mirror_index(x as i64 + (j as i64 - half as i64) * (stride as i64), g.width());
        let wt = k.sep_weight(j);
        let sample = g.get(y, xx, ch);
        proof {
            lemma_weight_bounds(k, j as int, j as int);
            lemma_index_in_bounds(gv, y as int, xx as int, ch as int);
            assert(wt * sample == f(j as int));
            assert(-0x600_0000_0000 <= wt * sample <= 0x600_0000_0000) by (nonlinear_arith)
                requires
                    0 <= wt <= 6,
                    -0x100_0000_0000 <= sample <= 0x100_0000_0000,
            ;
        }
        acc = acc + wt * sample;
        j = j + 1;
    }
    proof {
        lemma_row_conv_within(
            gv,
            k,
            st,
            y as int,
            x as int,
            ch as int,
            -(INPUT_BOUND as int),
            INPUT_BOUND as int,
        );
        crate::kernels::lemma_sep_row_normalized(k);
        vstd::arithmetic::mul::lemma_mul_inequality(
            kernel_sep_total(k),
            16,
            INPUT_BOUND as int,
        );
        lemma_mul_is_commutative(kernel_sep_total(k), -(INPUT_BOUND as int));
        lemma_mul_is_commutative(kernel_sep_total(k), INPUT_BOUND as int);
        assert(-(16 * INPUT_BOUND as int) <= acc <= 16 * INPUT_BOUND as int) by {
            assert(kernel_sep_total(k) * (INPUT_BOUND as int) <= 16 * INPUT_BOUND as int);
            assert(-(kernel_sep_total(k) * (INPUT_BOUND as int)) >= -(16 * INPUT_BOUND as int));
            assert(kernel_sep_total(k) * (-(INPUT_BOUND as int)) == -(kernel_sep_total(k) * (
            INPUT_BOUND as int))) by (nonlinear_arith);
        }
    }
    acc
}

/// The 1D row pass over the whole raster.
fn convolve_rows(g: &Raster, k: Kernel, stride: usize) -> (r: Raster)
    requires
        g@.wf(),
        g@.bounded(INPUT_BOUND as int),
        kernel_separable(k),
        1 <= stride,
        kernel_half(k) * (stride as int) <= g@.width - 1,
    ensures
        r@.wf(),
        r@.same_dims(g@),
        forall|y: int, x: int, ch: int|
            g@.in_range(y, x, ch) ==> #[trigger] r@.at(y, x, ch) == row_conv_at(
                g@,
                k,
                stride as int,
                y,
                x,
                ch,
            ),
        r@.bounded(0x1000_0000_0000),
{
    let ghost gv = g@;
    let ghost st = stride as int;
    let height = g.height();
    let width = g.width();
    let channels = g.channels();
    let mut out: Vec<i64> = Vec::new();
    let mut y: usize = 0;
    proof {
        assert((y as int) * (width as int) * (channels as int) == 0) by (nonlinear_arith)
            requires
                y == 0,
        ;
    }
    while y < height
        invariant
            g@ == gv,
            gv.wf(),
            gv.bounded(INPUT_BOUND as int),
            kernel_separable(k),
            1 <= st,
            kernel_half(k) * st <= gv.width - 1,
            st == stride,
            height == gv.height,
            width == gv.width,
            channels == gv.channels,
            y <= height,
            out@.len() == y * width * channels,
            forall|a: int, b: int, e: int|
                gv.in_range(a, b, e) && a < y ==> #[trigger] out@[gv.index_of(a, b, e)]
                    == row_conv_at(gv, k, st, a, b, e),
            forall|i: int|
                0 <= i < out@.len() ==> -0x1000_0000_0000 <= #[trigger] out@[i]
                    <= 0x1000_0000_0000,
        decreases height - y,
    {
        let mut x: usize = 0;
        proof {
            assert(((y as int) * (width as int) + (x as int)) * (channels as int) == (y as int)
                * (width as int) * (channels as int)) by (nonlinear_arith)
                requires
                    x == 0,
            ;
        }
        while x < width
            invariant
                g@ == gv,
                gv.wf(),
                gv.bounded(INPUT_BOUND as int),
                kernel_separable(k),
                1 <= st,
                kernel_half(k) * st <= gv.width - 1,
                st == stride,
                height == gv.height,
                width == gv.width,
                channels == gv.channels,
                y < height,
                x <= width,
                out@.len() == (y * width + x) * channels,
                forall|a: int, b: int, e: int|
                    gv.in_range(a, b, e) && (a < y || (a == y && b < x)) ==> #[trigger] out@[gv.index_of(
                        a,
                        b,
                        e,
                    )] == row_conv_at(gv, k, st, a, b, e),
                forall|i: int|
                    0 <= i < out@.len() ==> -0x1000_0000_0000 <= #[trigger] out@[i]
                        <= 0x1000_0000_0000,
            decreases width - x,
        {
            let mut ch: usize = 0;
            while ch < channels
                invariant
                    g@ == gv,
                    gv.wf(),
                    gv.bounded(INPUT_BOUND as int),
                    kernel_separable(k),
                    1 <= st,
                    kernel_half(k) * st <= gv.width - 1,
                    st == stride,
                    height == gv.height,
                    width == gv.width,
                    channels == gv.channels,
                    y < height,
                    x < width,
                    ch <= channels,
                    out@.len() == (y * width + x) * channels + ch,
                    forall|a: int, b: int, e: int|
                        gv.in_range(a, b, e) && (a < y || (a == y && b < x) || (a == y && b == x
                            && e < ch)) ==> #[trigger] out@[gv.index_of(a, b, e)] == row_conv_at(
                            gv,
                            k,
                            st,
                            a,
                            b,
                            e,
                        ),
                    forall|i: int|
                        0 <= i < out@.len() ==> -0x1000_0000_0000 <= #[trigger] out@[i]
                            <= 0x1000_0000_0000,
                decreases channels - ch,
            {
                let v = conv_pixel_row(g, k, stride, y, x, ch);
                proof {
                    lemma_index_in_bounds(gv, y as int, x as int, ch as int);
                }
                out.push(v);
                proof {
                    assert forall|a: int, b: int, e: int|
                        gv.in_range(a, b, e) && (a < y || (a == y && b < x) || (a == y && b == x
                            && e < ch + 1)) implies #[trigger] out@[gv.index_of(a, b, e)]
                        == row_conv_at(gv, k, st, a, b, e) by {
                        if a == y && b == x && e == ch {
                            assert(gv.index_of(a, b, e) == out@.len() - 1);
                        } else {
                            lemma_index_lex(gv, a, b, e, y as int, x as int, ch as int);
                        }
                    }
                }
                ch = ch + 1;
            }
            x = x + 1;
            proof {
                assert((y * width + (x - 1)) * channels + channels == (y * width + x) * channels)
                    by (nonlinear_arith)
                ;
            }
        }
        y = y + 1;
        proof {
            assert(((y - 1) * width + width) * channels == y * width * channels)
                by (nonlinear_arith)
            ;
        }
    }
    proof {
        assert(height * width * channels == width * height * channels) by (nonlinear_arith);
    }
    let r = Raster::from_vec(width, height, channels, out);
    proof {
        assert forall|yy: int, xx: int, cc: int| gv.in_range(yy, xx, cc) implies #[trigger] r@.at(
            yy,
            xx,
            cc,
        ) == row_conv_at(gv, k, st, yy, xx, cc) by {
            assert(r@.index_of(yy, xx, cc) == gv.index_of(yy, xx, cc));
        }
    }
    r
}

/// One smoothed sample of the column pass over a finished row pass.
fn conv_pixel_col(
    tmp: &Raster,
    Ghost(gv): Ghost<GridView>,
    k: Kernel,
    stride: usize,
    y: usize,
    x: usize,
    ch: usize,
) -> (v: i64)
    requires
        tmp@.wf(),
        gv.wf(),
        tmp@.same_dims(gv),
        kernel_separable(k),
        stride_fits(gv, k, stride as int),
        gv.in_range(y as int, x as int, ch as int),
        forall|a: int, b: int, e: int|
            gv.in_range(a, b, e) ==> #[trigger] tmp@.at(a, b, e) == row_conv_at(
                gv,
                k,
                stride as int,
                a,
                b,
                e,
            ),
        tmp@.bounded(0x1000_0000_0000),
    ensures
        v == smoothed_at(gv, k, stride as int, y as int, x as int, ch as int),
{
    let size = k.size();
    let half = k.half();
    let ghost st = stride as int;
    let ghost f = sep_col_term(gv, k, st, y as int, x as int, ch as int);
    let mut acc: i64 = 0;
    let mut i: usize = 0;
    while i < size
        invariant
            tmp@.wf(),
            gv.wf(),
            tmp@.same_dims(gv),
            kernel_separable(k),
            stride_fits(gv, k, st),
            gv.in_range(y as int, x as int, ch as int),
            forall|a: int, b: int, e: int|
                gv.in_range(a, b, e) ==> #[trigger] tmp@.at(a, b, e) == row_conv_at(
                    gv,
                    k,
                    st,
                    a,
                    b,
                    e,
                ),
            tmp@.bounded(0x1000_0000_0000),
            st == stride,
            size == kernel_size(k),
            half == kernel_half(k),
            i <= size,
            f == sep_col_term(gv, k, st, y as int, x as int, ch as int),
            acc == sum_of(f, i as nat),
            -(i as i64) * 0x6000_0000_0000 <= acc <= (i as i64) * 0x6000_0000_0000,
        decreases size - i,
    {
        proof {
            lemma_tap_reflectable(k, st, y as int, gv.height, i as int);
        }
        let yy = mirror_index(y as i64 + (i as i64 - half as i64) * (stride as i64), tmp.height());
        let wt = k.sep_weight(i);
        let sample = tmp.get(yy, x, ch);
        proof {
            lemma_weight_bounds(k, i as int, i as int);
            lemma_index_in_bounds(tmp@, yy as int, x as int, ch as int);
            assert(wt * sample == f(i as int));
            assert(-0x6000_0000_0000 <= wt * sample <= 0x6000_0000_0000) by (nonlinear_arith)
                requires
                    0 <= wt <= 6,
                    -0x1000_0000_0000 <= sample <= 0x1000_0000_0000,
            ;
        }
        acc = acc + wt * sample;
        i = i + 1;
    }
    proof {
        lemma_sep_matches_2d(gv, k, st, y as int, x as int, ch as int);
        assert(acc == conv_total(gv, k, st, y as int, x as int, ch as int));
    }
    div_euclid_i64(acc, k.denom())
}

/// The dilated convolution as one direct 2D pass: works for every kernel,
/// separable or not.
pub fn convolve_2d(g: &Raster, k: Kernel, stride: usize) -> (r: Raster)
    requires
        g@.wf(),
        g@.bounded(INPUT_BOUND as int),
        stride_fits(g@, k, stride as int),
    ensures
        r@.wf(),
        r@.same_dims(g@),
        forall|y: int, x: int, ch: int|
            g@.in_range(y, x, ch) ==> #[trigger] r@.at(y, x, ch) == smoothed_at(
                g@,
                k,
                stride as int,
                y,
                x,
                ch,
            ),
        r@.bounded(16 * INPUT_BOUND as int),
{
    let ghost gv = g@;
    let ghost st = stride as int;
    let height = g.height();
    let width = g.width();
    let channels = g.channels();
    let mut out: Vec<i64> = Vec::new();
    let mut y: usize = 0;
    proof {
        assert((y as int) * (width as int) * (channels as int) == 0) by (nonlinear_arith)
            requires
                y == 0,
        ;
    }
    while y < height
        invariant
            g@ == gv,
            gv.wf(),
            gv.bounded(INPUT_BOUND as int),
            stride_fits(gv, k, st),
            st == stride,
            height == gv.height,
            width == gv.width,
            channels == gv.channels,
            y <= height,
            out@.len() == y * width * channels,
            forall|a: int, b: int, e: int|
                gv.in_range(a, b, e) && a < y ==> #[trigger] out@[gv.index_of(a, b, e)]
                    == smoothed_at(gv, k, st, a, b, e),
            forall|i: int|
                0 <= i < out@.len() ==> -(16 * INPUT_BOUND as int) <= #[trigger] out@[i] <= 16
                    * INPUT_BOUND as int,
        decreases height - y,
    {
        let mut x: usize = 0;
        proof {
            assert(((y as int) * (width as int) + (x as int)) * (channels as int) == (y as int)
                * (width as int) * (channels as int)) by (nonlinear_arith)
                requires
                    x == 0,
            ;
        }
        while x < width
            invariant
                g@ == gv,
                gv.wf(),
                gv.bounded(INPUT_BOUND as int),
                stride_fits(gv, k, st),
                st == stride,
                height == gv.height,
                width == gv.width,
                channels == gv.channels,
                y < height,
                x <= width,
                out@.len() == (y * width + x) * channels,
                forall|a: int, b: int, e: int|
                    gv.in_range(a, b, e) && (a < y || (a == y && b < x)) ==> #[trigger] out@[gv.index_of(
                        a,
                        b,
                        e,
                    )] == smoothed_at(gv, k, st, a, b, e),
                forall|i: int|
                    0 <= i < out@.len() ==> -(16 * INPUT_BOUND as int) <= #[trigger] out@[i] <= 16
                        * INPUT_BOUND as int,
            decreases width - x,
        {
            let mut ch: usize = 0;
            while ch < channels
                invariant
                    g@ == gv,
                    gv.wf(),
                    gv.bounded(INPUT_BOUND as int),
                    stride_fits(gv, k, st),
                    st == stride,
                    height == gv.height,
                    width == gv.width,
                    channels == gv.channels,
                    y < height,
                    x < width,
                    ch <= channels,
                    out@.len() == (y * width + x) * channels + ch,
                    forall|a: int, b: int, e: int|
                        gv.in_range(a, b, e) && (a < y || (a == y && b < x) || (a == y && b == x
                            && e < ch)) ==> #[trigger] out@[gv.index_of(a, b, e)] == smoothed_at(
                            gv,
                            k,
                            st,
                            a,
                            b,
                            e,
                        ),
                    forall|i: int|
                        0 <= i < out@.len() ==> -(16 * INPUT_BOUND as int) <= #[trigger] out@[i]
                            <= 16 * INPUT_BOUND as int,
                decreases channels - ch,
            {
                let v = conv_pixel_2d(g, k, stride, y, x, ch);
                proof {
                    lemma_smoothed_bounded(gv, k, st, y as int, x as int, ch as int);
                    lemma_index_in_bounds(gv, y as int, x as int, ch as int);
                }
                out.push(v);
                proof {
                    assert forall|a: int, b: int, e: int|
                        gv.in_range(a, b, e) && (a < y || (a == y && b < x) || (a == y && b == x
                            && e < ch + 1)) implies #[trigger] out@[gv.index_of(a, b, e)]
                        == smoothed_at(gv, k, st, a, b, e) by {
                        if a == y && b == x && e == ch {
                            assert(gv.index_of(a, b, e) == out@.len() - 1);
                        } else {
                            lemma_index_lex(gv, a, b, e, y as int, x as int, ch as int);
                        }
                    }
                }
                ch = ch + 1;
            }
            x = x + 1;
            proof {
                assert((y * width + (x - 1)) * channels + channels == (y * width + x) * channels)
                    by (nonlinear_arith)
                ;
            }
        }
        y = y + 1;
        proof {
            assert(((y - 1) * width + width) * channels == y * width * channels)
                by (nonlinear_arith)
            ;
        }
    }
    proof {
        assert(height * width * channels == width * height * channels) by (nonlinear_arith);
    }
    let r = Raster::from_vec(width, height, channels, out);
    proof {
        assert forall|yy: int, xx: int, cc: int| gv.in_range(yy, xx, cc) implies #[trigger] r@.at(
            yy,
            xx,
            cc,
        ) == smoothed_at(gv, k, st, yy, xx, cc) by {
            assert(r@.index_of(yy, xx, cc) == gv.index_of(yy, xx, cc));
        }
    }
    r
}

/// The dilated convolution as two 1D passes, for a separable kernel.  The
/// result per pixel equals the direct 2D pass exactly, and stays within
/// the sample range the input obeyed.
pub fn convolve_separable(g: &Raster, k: Kernel, stride: usize) -> (r: Raster)
    requires
        g@.wf(),
        g@.bounded(INPUT_BOUND as int),
        kernel_separable(k),
        stride_fits(g@, k, stride as int),
    ensures
        r@.wf(),
        r@.same_dims(g@),
        forall|y: int, x: int, ch: int|
            g@.in_range(y, x, ch) ==> #[trigger] r@.at(y, x, ch) == smoothed_at(
                g@,
                k,
                stride as int,
                y,
                x,
                ch,
            ),
        r@.bounded(INPUT_BOUND as int),
{
    let ghost gv = g@;
    let ghost st = stride as int;
    let tmp = convolve_rows(g, k, stride);
    let height = g.height();
    let width = g.width();
    let channels = g.channels();
    let mut out: Vec<i64> = Vec::new();
    let mut y: usize = 0;
    proof {
        assert((y as int) * (width as int) * (channels as int) == 0) by (nonlinear_arith)
            requires
                y == 0,
        ;
    }
    while y < height
        invariant
            g@ == gv,
            gv.wf(),
            gv.bounded(INPUT_BOUND as int),
            kernel_separable(k),
            stride_fits(gv, k, st),
            st == stride,
            tmp@.wf(),
            tmp@.same_dims(gv),
            forall|a: int, b: int, e: int|
                gv.in_range(a, b, e) ==> #[trigger] tmp@.at(a, b, e) == row_conv_at(
                    gv,
                    k,
                    st,
                    a,
                    b,
                    e,
                ),
            tmp@.bounded(0x1000_0000_0000),
            height == gv.height,
            width == gv.width,
            channels == gv.channels,
            y <= height,
            out@.len() == y * width * channels,
            forall|a: int, b: int, e: int|
                gv.in_range(a, b, e) && a < y ==> #[trigger] out@[gv.index_of(a, b, e)]
                    == smoothed_at(gv, k, st, a, b, e),
            forall|i: int|
                0 <= i < out@.len() ==> -(INPUT_BOUND as int) <= #[trigger] out@[i] <= INPUT_BOUND
                    as int,
        decreases height - y,
    {
        let mut x: usize = 0;
        proof {
            assert(((y as int) * (width as int) + (x as int)) * (channels as int) == (y as int)
                * (width as int) * (channels as int)) by (nonlinear_arith)
                requires
                    x == 0,
            ;
        }
        while x < width
            invariant
                g@ == gv,
                gv.wf(),
                gv.bounded(INPUT_BOUND as int),
                kernel_separable(k),
                stride_fits(gv, k, st),
                st == stride,
                tmp@.wf(),
                tmp@.same_dims(gv),
                forall|a: int, b: int, e: int|
                    gv.in_range(a, b, e) ==> #[trigger] tmp@.at(a, b, e) == row_conv_at(
                        gv,
                        k,
                        st,
                        a,
                        b,
                        e,
                    ),
                tmp@.bounded(0x1000_0000_0000),
                height == gv.height,
                width == gv.width,
                channels == gv.channels,
                y < height,
                x <= width,
                out@.len() == (y * width + x) * channels,
                forall|a: int, b: int, e: int|
                    gv.in_range(a, b, e) && (a < y || (a == y && b < x)) ==> #[trigger] out@[gv.index_of(
                        a,
                        b,
                        e,
                    )] == smoothed_at(gv, k, st, a, b, e),
                forall|i: int|
                    0 <= i < out@.len() ==> -(INPUT_BOUND as int) <= #[trigger] out@[i]
                        <= INPUT_BOUND as int,
            decreases width - x,
        {
            let mut ch: usize = 0;
            while ch < channels
                invariant
                    g@ == gv,
                    gv.wf(),
                    gv.bounded(INPUT_BOUND as int),
                    kernel_separable(k),
                    stride_fits(gv, k, st),
                    st == stride,
                    tmp@.wf(),
                    tmp@.same_dims(gv),
                    forall|a: int, b: int, e: int|
                        gv.in_range(a, b, e) ==> #[trigger] tmp@.at(a, b, e) == row_conv_at(
                            gv,
                            k,
                            st,
                            a,
                            b,
                            e,
                        ),
                    tmp@.bounded(0x1000_0000_0000),
                    height == gv.height,
                    width == gv.width,
                    channels == gv.channels,
                    y < height,
                    x < width,
                    ch <= channels,
                    out@.len() == (y * width + x) * channels + ch,
                    forall|a: int, b: int, e: int|
                        gv.in_range(a, b, e) && (a < y || (a == y && b < x) || (a == y && b == x
                            && e < ch)) ==> #[trigger] out@[gv.index_of(a, b, e)] == smoothed_at(
                            gv,
                            k,
                            st,
                            a,
                            b,
                            e,
                        ),
                    forall|i: int|
                        0 <= i < out@.len() ==> -(INPUT_BOUND as int) <= #[trigger] out@[i]
                            <= INPUT_BOUND as int,
                decreases channels - ch,
            {
                let v = conv_pixel_col(&tmp, Ghost(gv), k, stride, y, x, ch);
                proof {
                    crate::kernels::lemma_separable_total(k);
                    lemma_smoothed_within_normalized(
                        gv,
                        k,
                        st,
                        y as int,
                        x as int,
                        ch as int,
                        -(INPUT_BOUND as int),
                        INPUT_BOUND as int,
                    );
                    lemma_index_in_bounds(gv, y as int, x as int, ch as int);
                }
                out.push(v);
                proof {
                    assert forall|a: int, b: int, e: int|
                        gv.in_range(a, b, e) && (a < y || (a == y && b < x) || (a == y && b == x
                            && e < ch + 1)) implies #[trigger] out@[gv.index_of(a, b, e)]
                        == smoothed_at(gv, k, st, a, b, e) by {
                        if a == y && b == x && e == ch {
                            assert(gv.index_of(a, b, e) == out@.len() - 1);
                        } else {
                            lemma_index_lex(gv, a, b, e, y as int, x as int, ch as int);
                        }
                    }
                }
                ch = ch + 1;
            }
            x = x + 1;
            proof {
                assert((y * width + (x - 1)) * channels + channels == (y * width + x) * channels)
                    by (nonlinear_arith)
                ;
            }
        }
        y = y + 1;
        proof {
            assert(((y - 1) * width + width) * channels == y * width * channels)
                by (nonlinear_arith)
            ;
        }
    }
    proof {
        assert(height * width * channels == width * height * channels) by (nonlinear_arith);
    }
    let r = Raster::from_vec(width, height, channels, out);
    proof {
        assert forall|yy: int, xx: int, cc: int| gv.in_range(yy, xx, cc) implies #[trigger] r@.at(
            yy,
            xx,
            cc,
        ) == smoothed_at(gv, k, st, yy, xx, cc) by {
            assert(r@.index_of(yy, xx, cc) == gv.index_of(yy, xx, cc));
        }
    }
    r
}

/// Whether the grid equals its own left-right mirror image.
pub open spec fn h_symmetric(g: GridView) -> bool {
    forall|y: int, x: int, ch: int|
        g.in_range(y, x, ch) ==> #[trigger] g.at(y, x, ch) == g.at(y, g.width - 1 - x, ch)
}

/// Whether the grid equals its own top-bottom mirror image.
pub open spec fn v_symmetric(g: GridView) -> bool {
    forall|y: int, x: int, ch: int|
        g.in_range(y, x, ch) ==> #[trigger] g.at(y, x, ch) == g.at(g.height - 1 - y, x, ch)
}

/// Mirror boundary symmetry, horizontal: on a left-right symmetric raster,
/// any pixel whose column taps all stay inside the raster smooths to the
/// same value as its horizontal mirror pixel.
pub proof fn lemma_smoothed_h_symmetric(
    g: GridView,
    k: Kernel,
    stride: int,
    y: int,
    x: int,
    ch: int,
)
    requires
        g.wf(),
        h_symmetric(g),
        stride_fits(g, k, stride),
        g.in_range(y, x, ch),
        kernel_half(k) * stride <= x,
        x + kernel_half(k) * stride <= g.width - 1,
    ensures
        smoothed_at(g, k, stride, y, x, ch) == smoothed_at(g, k, stride, y, g.width - 1 - x, ch),
{
    let n = kernel_size(k) as nat;
    let half = kernel_half(k);
    let w = g.width;
    let x2 = w - 1 - x;
    let rows1 = conv_rows_series(g, k, stride, y, x, ch);
    let rows2 = conv_rows_series(g, k, stride, y, x2, ch);
    assert forall|i: int| 0 <= i < n implies #[trigger] rows2(i) == #[trigger] rows1(i) by {
        let f1 = conv_row_term(g, k, stride, y, x, ch, i);
        let f2 = conv_row_term(g, k, stride, y, x2, ch, i);
        lemma_tap_reflectable(k, stride, y, g.height, i);
        let my = mirror(y + (i - half) * stride, g.height);
        assert forall|j: int| 0 <= j < n implies #[trigger] f2(j) == f1(n - 1 - j) by {
            let jr = n - 1 - j;
            lemma_tap_reflectable(k, stride, x, w, j);
            lemma_tap_reflectable(k, stride, x, w, jr);
            let c1 = x + (jr - half) * stride;
            assert((j - half) * stride == -((jr - half) * stride)) by (nonlinear_arith)
                requires
                    j - half == -(jr - half),
            ;
            assert(0 <= c1 < w);
            assert(x2 + (j - half) * stride == w - 1 - c1);
            assert(mirror(c1, w) == c1);
            assert(mirror(w - 1 - c1, w) == w - 1 - c1);
            assert(g.at(my, c1, ch) == g.at(my, w - 1 - c1, ch));
            crate::kernels::lemma_kernel_symmetric(k, i, j);
        }
        crate::arith::lemma_sum_reverse(f1, f2, n);
    }
    lemma_sum_congruence(rows2, rows1, n);
}

/// Mirror boundary symmetry, vertical: on a top-bottom symmetric raster,
/// any pixel whose row taps all stay inside the raster smooths to the same
/// value as its vertical mirror pixel.
pub proof fn lemma_smoothed_v_symmetric(
    g: GridView,
    k: Kernel,
    stride: int,
    y: int,
    x: int,
    ch: int,
)
    requires
        g.wf(),
        v_symmetric(g),
        stride_fits(g, k, stride),
        g.in_range(y, x, ch),
        kernel_half(k) * stride <= y,
        y + kernel_half(k) * stride <= g.height - 1,
    ensures
        smoothed_at(g, k, stride, y, x, ch) == smoothed_at(g, k, stride, g.height - 1 - y, x, ch),
{
    let n = kernel_size(k) as nat;
    let half = kernel_half(k);
    let h = g.height;
    let y2 = h - 1 - y;
    let rows1 = conv_rows_series(g, k, stride, y, x, ch);
    let rows2 = conv_rows_series(g, k, stride, y2, x, ch);
    assert forall|i: int| 0 <= i < n implies #[trigger] rows2(i) == rows1(n - 1 - i) by {
        let ir = n - 1 - i;
        let f1 = conv_row_term(g, k, stride, y, x, ch, ir);
        let f2 = conv_row_term(g, k, stride, y2, x, ch, i);
        lemma_tap_reflectable(k, stride, y, h, i);
        lemma_tap_reflectable(k, stride, y, h, ir);
        let cy = y + (ir - half) * stride;
        assert((i - half) * stride == -((ir - half) * stride)) by (nonlinear_arith)
            requires
                i - half == -(ir - half),
        ;
        assert(0 <= cy < h);
        assert(y2 + (i - half) * stride == h - 1 - cy);
        assert(mirror(cy, h) == cy);
        assert(mirror(h - 1 - cy, h) == h - 1 - cy);
        assert forall|j: int| 0 <= j < n implies #[trigger] f2(j) == f1(j) by {
            lemma_tap_reflectable(k, stride, x, g.width, j);
            let mx = mirror(x + (j - half) * stride, g.width);
            assert(g.at(cy, mx, ch) == g.at(h - 1 - cy, mx, ch));
            crate::kernels::lemma_kernel_symmetric(k, i, j);
        }
        lemma_sum_congruence(f2, f1, n);
    }
    crate::arith::lemma_sum_reverse(rows1, rows2, n);
}

/// Multi-channel independence: smoothing reads only the channel it writes,
/// so two rasters that agree on one channel smooth to the same values on
/// that channel.
pub proof fn lemma_channel_independence(
    g1: GridView,
    g2: GridView,
    k: Kernel,
    stride: int,
    y: int,
    x: int,
    ch: int,
)
    requires
        g1.wf(),
        g2.wf(),
        g1.same_dims(g2),
        stride_fits(g1, k, stride),
        g1.in_range(y, x, ch),
        forall|a: int, b: int|
            0 <= a < g1.height && 0 <= b < g1.width ==> #[trigger] g1.at(a, b, ch) == g2.at(
                a,
                b,
                ch,
            ),
    ensures
        smoothed_at(g1, k, stride, y, x, ch) == smoothed_at(g2, k, stride, y, x, ch),
{
    let n = kernel_size(k) as nat;
    let half = kernel_half(k);
    let rows1 = conv_rows_series(g1, k, stride, y, x, ch);
    let rows2 = conv_rows_series(g2, k, stride, y, x, ch);
    assert forall|i: int| 0 <= i < n implies #[trigger] rows1(i) == #[trigger] rows2(i) by {
        let f1 = conv_row_term(g1, k, stride, y, x, ch, i);
        let f2 = conv_row_term(g2, k, stride, y, x, ch, i);
        lemma_tap_reflectable(k, stride, y, g1.height, i);
        assert forall|j: int| 0 <= j < n implies #[trigger] f1(j) == f2(j) by {
            lemma_tap_reflectable(k, stride, x, g1.width, j);
            let my = mirror(y + (i - half) * stride, g1.height);
            let mx = mirror(x + (j - half) * stride, g1.width);
            assert(g1.at(my, mx, ch) == g2.at(my, mx, ch));
        }
        lemma_sum_congruence(f1, f2, n);
    }
    lemma_sum_congruence(rows1, rows2, n);
}

/// Separable and non-separable passes agree: two rasters that each hold
/// the smoothed samples of the same input, one from the two-pass path and
/// one from the direct 2D path, are sample-for-sample identical.
pub proof fn lemma_separable_equivalence(
    g: GridView,
    k: Kernel,
    stride: int,
    a: GridView,
    b: GridView,
)
    requires
        g.wf(),
        a.wf(),
        b.wf(),
        a.same_dims(g),
        b.same_dims(g),
        forall|y: int, x: int, ch: int|
            g.in_range(y, x, ch) ==> #[trigger] a.at(y, x, ch) == smoothed_at(g, k, stride, y, x, ch),
        forall|y: int, x: int, ch: int|
            g.in_range(y, x, ch) ==> #[trigger] b.at(y, x, ch) == smoothed_at(g, k, stride, y, x, ch),
    ensures
        a.data =~= b.data,
{
    crate::raster::lemma_grid_ext(a, b);
}

} // verus!
