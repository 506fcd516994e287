use vstd::prelude::*;

verus! {

use crate::arith::{sum_of, lemma_sum_congruence, lemma_sum_scale};
use crate::error::Error;

/// The built-in smoothing stencils.  `LinearInterpolationKernel` and
/// `B3SplineKernel` are separable and normalized; `LowScaleKernel` is a
/// non-separable special case whose central weight deliberately exceeds
/// the rest of the table, so its weights do not sum to one.
#[derive(Clone, Copy, Debug, PartialEq, Eq, Structural)]
pub enum Kernel {
    LinearInterpolationKernel,
    LowScaleKernel,
    B3SplineKernel,
}

/// Odd side length of the kernel table.
pub open spec fn kernel_size(k: Kernel) -> int {
    match k {
        Kernel::LinearInterpolationKernel => 3,
        Kernel::LowScaleKernel => 3,
        Kernel::B3SplineKernel => 5,
    }
}

/// Half-width: taps run from `-half` to `half` around the centre.
pub open spec fn kernel_half(k: Kernel) -> int {
    kernel_size(k) / 2
}

/// Whether the 2D table is the outer product of a 1D row.
pub open spec fn kernel_separable(k: Kernel) -> bool {
    !(k is LowScaleKernel)
}

/// Numerator of the 1D row entry `i`, over `kernel_sep_denom`.
/// Linear interpolation is `[1, 2, 1] / 4`; the B3 spline is
/// `[1, 4, 6, 4, 1] / 16`.
pub open spec fn kernel_sep_weight(k: Kernel, i: int) -> int {
    match k {
        Kernel::LinearInterpolationKernel => if i == 1 {
            2
        } else {
            1
        },
        Kernel::LowScaleKernel => 0,
        Kernel::B3SplineKernel => if i == 0 || i == 4 {
            1
        } else if i == 1 || i == 3 {
            4
        } else {
            6
        },
    }
}

/// Common denominator of the 1D row.
pub open spec fn kernel_sep_denom(k: Kernel) -> int {
    match k {
        Kernel::LinearInterpolationKernel => 4,
        Kernel::LowScaleKernel => 1,
        Kernel::B3SplineKernel => 16,
    }
}

/// Common denominator of the 2D table.
pub open spec fn kernel_denom(k: Kernel) -> int {
    match k {
        Kernel::LinearInterpolationKernel => 16,
        Kernel::LowScaleKernel => 16,
        Kernel::B3SplineKernel => 256,
    }
}

/// Numerator of the 2D table entry at row `i`, column `j`, over
/// `kernel_denom`.  The low-scale table is `[[1, 2, 1], [2, 160, 2],
/// [1, 2, 1]] / 16`: linear interpolation's off-diagonal pattern with a
/// central weight of ten.
pub open spec fn kernel_weight(k: Kernel, i: int, j: int) -> int {
    match k {
        Kernel::LowScaleKernel => if i == 1 && j == 1 {
            160
        } else if i == 1 || j == 1 {
            2
        } else {
            1
        },
        _ => kernel_sep_weight(k, i) * kernel_sep_weight(k, j),
    }
}

/// Sum of the numerators in row `i` of the 2D table.
pub open spec fn kernel_row_total(k: Kernel, i: int) -> int {
    sum_of(|j: int| kernel_weight(k, i, j), kernel_size(k) as nat)
}

/// Sum of all numerators of the 2D table.
pub open spec fn kernel_total(k: Kernel) -> int {
    sum_of(|i: int| kernel_row_total(k, i), kernel_size(k) as nat)
}

/// Sum of the numerators of the 1D row.
pub open spec fn kernel_sep_total(k: Kernel) -> int {
    sum_of(|i: int| kernel_sep_weight(k, i), kernel_size(k) as nat)
}

/// Every in-range table numerator is non-negative and at most 160.
pub proof fn lemma_weight_bounds(k: Kernel, i: int, j: int)
    requires
        0 <= i < kernel_size(k),
        0 <= j < kernel_size(k),
    ensures
        0 <= kernel_weight(k, i, j) <= 160,
        0 <= kernel_sep_weight(k, i) <= 6,
{
}

/// The 1D rows sum to their denominators: `[1, 2, 1]` to 4 and
/// `[1, 4, 6, 4, 1]` to 16, so each row stands for weights summing to one.
pub proof fn lemma_sep_row_normalized(k: Kernel)
    requires
        kernel_separable(k),
    ensures
        kernel_sep_total(k) == kernel_sep_denom(k),
{
    reveal_with_fuel(sum_of, 6);
}

/// Each 2D row of a separable kernel sums to its 1D entry times the 1D
/// denominator.
pub proof fn lemma_row_total(k: Kernel, i: int)
    requires
        kernel_separable(k),
    ensures
        kernel_row_total(k, i) == kernel_sep_weight(k, i) * kernel_sep_denom(k),
{
    let f = |j: int| kernel_sep_weight(k, j);
    let c = kernel_sep_weight(k, i);
    lemma_sum_congruence(
        |j: int| kernel_weight(k, i, j),
        |j: int| c * f(j),
        kernel_size(k) as nat,
    );
    lemma_sum_scale(f, c, kernel_size(k) as nat);
    lemma_sep_row_normalized(k);
}

/// Kernel weight normalization: the full linear-interpolation and B3-spline
/// tables each sum to exactly their denominator, i.e. their weights sum to
/// one; the low-scale table does not.
pub proof fn lemma_kernel_normalization()
    ensures
        kernel_total(Kernel::LinearInterpolationKernel) == kernel_denom(
            Kernel::LinearInterpolationKernel,
        ),
        kernel_total(Kernel::B3SplineKernel) == kernel_denom(Kernel::B3SplineKernel),
        kernel_total(Kernel::LowScaleKernel) != kernel_denom(Kernel::LowScaleKernel),
{
    lemma_separable_total(Kernel::LinearInterpolationKernel);
    lemma_separable_total(Kernel::B3SplineKernel);
    assert(kernel_total(Kernel::LowScaleKernel) == 172) by {
        reveal_with_fuel(sum_of, 6);
    }
}

/// A separable kernel's full table sums to the square of its 1D denominator.
pub proof fn lemma_separable_total(k: Kernel)
    requires
        kernel_separable(k),
    ensures
        kernel_total(k) == kernel_denom(k),
        kernel_total(k) == kernel_sep_denom(k) * kernel_sep_denom(k),
{
    let n = kernel_size(k) as nat;
    let d = kernel_sep_denom(k);
    let f = |i: int| kernel_sep_weight(k, i);
    assert forall|i: int| 0 <= i < n implies #[trigger] kernel_row_total(k, i) == d * f(i) by {
        lemma_row_total(k, i);
    }
    lemma_sum_congruence(|i: int| kernel_row_total(k, i), |i: int| d * f(i), n);
    lemma_sum_scale(f, d, n);
    lemma_sep_row_normalized(k);
}

/// Every built-in table is symmetric under reversing its rows or its
/// columns: the stencils are centred.
pub proof fn lemma_kernel_symmetric(k: Kernel, i: int, j: int)
    requires
        0 <= i < kernel_size(k),
        0 <= j < kernel_size(k),
    ensures
        kernel_weight(k, i, j) == kernel_weight(k, i, kernel_size(k) - 1 - j),
        kernel_weight(k, i, j) == kernel_weight(k, kernel_size(k) - 1 - i, j),
{
}

/// Every table's weight sum is non-negative and at most sixteen times its
/// denominator, i.e. every built-in kernel amplifies by less than sixteen.
pub proof fn lemma_kernel_total_bounds(k: Kernel)
    ensures
        0 <= kernel_total(k) <= 16 * kernel_denom(k),
{
    match k {
        Kernel::LowScaleKernel => {
            assert(kernel_total(k) == 172) by {
                reveal_with_fuel(sum_of, 6);
            }
        },
        _ => {
            lemma_separable_total(k);
        },
    }
}

impl Kernel {
    /// Side length of the kernel table.
    pub fn size(&self) -> (r: usize)
        ensures
            r == kernel_size(*self),
    {
        match self {
            Kernel::LinearInterpolationKernel => 3,
            Kernel::LowScaleKernel => 3,
            Kernel::B3SplineKernel => 5,
        }
    }

    /// Half-width of the kernel table.
    pub fn half(&self) -> (r: usize)
        ensures
            r == kernel_half(*self),
    {
        match self {
            Kernel::LinearInterpolationKernel => 1,
            Kernel::LowScaleKernel => 1,
            Kernel::B3SplineKernel => 2,
        }
    }

    /// Whether the kernel can run as two 1D passes.
    pub fn is_separable(&self) -> (r: bool)
        ensures
            r == kernel_separable(*self),
    {
        match self {
            Kernel::LowScaleKernel => false,
            _ => true,
        }
    }

    /// Denominator of the 2D table.
    pub fn denom(&self) -> (r: i64)
        ensures
            r == kernel_denom(*self),
    {
        match self {
            Kernel::LinearInterpolationKernel => 16,
            Kernel::LowScaleKernel => 16,
            Kernel::B3SplineKernel => 256,
        }
    }

    /// Denominator of the 1D row.
    pub fn sep_denom(&self) -> (r: i64)
        ensures
            r == kernel_sep_denom(*self),
    {
        match self {
            Kernel::LinearInterpolationKernel => 4,
            Kernel::LowScaleKernel => 1,
            Kernel::B3SplineKernel => 16,
        }
    }

    /// Numerator of the 1D row entry `i`.
    pub fn sep_weight(&self, i: usize) -> (r: i64)
        requires
            0 <= i < kernel_size(*self),
        ensures
            r == kernel_sep_weight(*self, i as int),
    {
        match self {
            Kernel::LinearInterpolationKernel => if i == 1 {
                2
            } else {
                1
            },
            Kernel::LowScaleKernel => 0,
            Kernel::B3SplineKernel => if i == 0 || i == 4 {
                1
            } else if i == 1 || i == 3 {
                4
            } else {
                6
            },
        }
    }

    /// Numerator of the 2D table entry at row `i`, column `j`.
    pub fn weight(&self, i: usize, j: usize) -> (r: i64)
        requires
            0 <= i < kernel_size(*self),
            0 <= j < kernel_size(*self),
        ensures
            r == kernel_weight(*self, i as int, j as int),
    {
        match self {
            Kernel::LowScaleKernel => if i == 1 && j == 1 {
                160
            } else if i == 1 || j == 1 {
                2
            } else {
                1
            },
            _ => self.sep_weight(i) * self.sep_weight(j),
        }
    }

    /// Checked table lookup: the numerator at `[row, column]`, or an
    /// invalid-argument error when either index is at or past the side
    /// length.
    pub fn index(&self, coords: [usize; 2]) -> (r: Result<i64, Error>)
        ensures
            coords[0] < kernel_size(*self) && coords[1] < kernel_size(*self) ==> (r matches Ok(v)
                && v == kernel_weight(*self, coords[0] as int, coords[1] as int)),
            !(coords[0] < kernel_size(*self) && coords[1] < kernel_size(*self)) ==> r == Err::<
                i64,
                Error,
            >(Error::KernelIndexOutOfBounds),
    {
        let i = coords[0];
        let j = coords[1];
        if i < self.size() && j < self.size() {
            Ok(self.weight(i, j))
        } else {
            Err(Error::KernelIndexOutOfBounds)
        }
    }

    /// The full table of numerators, row-major, over `denom`.
    pub fn values(&self) -> (r: Vec<i64>)
        ensures
            r@.len() == kernel_size(*self) * kernel_size(*self),
            forall|i: int, j: int|
                0 <= i < kernel_size(*self) && 0 <= j < kernel_size(*self) ==> r@[i * kernel_size(
                    *self,
                ) + j] == kernel_weight(*self, i, j),
    {
        let n = self.size();
        let mut out: Vec<i64> = Vec::new();
        let mut i: usize = 0;
        while i < n
            invariant
                i <= n,
                n == kernel_size(*self),
                out@.len() == i * n,
                forall|a: int, b: int|
                    0 <= a < i && 0 <= b < n ==> out@[a * n + b] == kernel_weight(*self, a, b),
            decreases n - i,
        {
            let mut j: usize = 0;
            while j < n
                invariant
                    i < n,
                    j <= n,
                    n == kernel_size(*self),
                    out@.len() == i * n + j,
                    forall|a: int, b: int|
                        0 <= a < i && 0 <= b < n ==> out@[a * n + b] == kernel_weight(*self, a, b),
                    forall|b: int| 0 <= b < j ==> out@[i * n + b] == kernel_weight(*self, i as int, b),
                decreases n - j,
            {
                out.push(self.weight(i, j));
                j = j + 1;
            }
            i = i + 1;
        }
        out
    }
}

} // verus!
