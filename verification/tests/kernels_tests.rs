use image_dwt::kernels::Kernel;
use image_dwt::Error;

fn table_sum(k: Kernel) -> i64 {
    k.values().iter().sum()
}

#[test]
fn linear_kernel_shape() {
    let k = Kernel::LinearInterpolationKernel;
    assert_eq!(k.size(), 3);
    assert_eq!(k.half(), 1);
    assert!(k.is_separable());
    assert_eq!(k.denom(), 16);
    assert_eq!(k.sep_denom(), 4);
}

#[test]
fn b3_kernel_shape() {
    let k = Kernel::B3SplineKernel;
    assert_eq!(k.size(), 5);
    assert_eq!(k.half(), 2);
    assert!(k.is_separable());
    assert_eq!(k.denom(), 256);
    assert_eq!(k.sep_denom(), 16);
}

#[test]
fn low_scale_kernel_shape() {
    let k = Kernel::LowScaleKernel;
    assert_eq!(k.size(), 3);
    assert_eq!(k.half(), 1);
    assert!(!k.is_separable());
    assert_eq!(k.denom(), 16);
}

#[test]
fn linear_weights_normalized() {
    // The 2D table sums to its denominator: the weights sum to one.
    assert_eq!(table_sum(Kernel::LinearInterpolationKernel), 16);
    // The 1D row [1, 2, 1] sums to its denominator 4.
    let k = Kernel::LinearInterpolationKernel;
    let row: i64 = (0..3).map(|i| k.sep_weight(i)).sum();
    assert_eq!(row, 4);
}

#[test]
fn b3_weights_normalized() {
    assert_eq!(table_sum(Kernel::B3SplineKernel), 256);
    let k = Kernel::B3SplineKernel;
    let row: i64 = (0..5).map(|i| k.sep_weight(i)).sum();
    assert_eq!(row, 16);
}

#[test]
fn low_scale_weights_not_normalized() {
    // Central weight 10 over denominator 16: the table sums to 172, not 16.
    assert_eq!(table_sum(Kernel::LowScaleKernel), 172);
    assert_ne!(table_sum(Kernel::LowScaleKernel), Kernel::LowScaleKernel.denom());
}

#[test]
fn linear_table_values() {
    let k = Kernel::LinearInterpolationKernel;
    let v = k.values();
    // Outer product of [1, 2, 1] with itself, over 16.
    assert_eq!(v, vec![1, 2, 1, 2, 4, 2, 1, 2, 1]);
}

#[test]
fn low_scale_table_values() {
    let k = Kernel::LowScaleKernel;
    let v = k.values();
    // Linear interpolation's off-diagonal pattern with a central 160/16 = 10.
    assert_eq!(v, vec![1, 2, 1, 2, 160, 2, 1, 2, 1]);
}

#[test]
fn kernel_index_in_bounds() {
    let k = Kernel::B3SplineKernel;
    assert_eq!(k.index([2, 2]), Ok(6 * 6));
    assert_eq!(k.index([0, 2]), Ok(6));
}

#[test]
fn kernel_index_out_of_bounds() {
    let k = Kernel::LinearInterpolationKernel;
    assert_eq!(k.index([3, 0]), Err(Error::KernelIndexOutOfBounds));
    assert_eq!(k.index([0, 3]), Err(Error::KernelIndexOutOfBounds));
    assert_eq!(k.index([7, 7]), Err(Error::KernelIndexOutOfBounds));
}

#[test]
fn kernel_tables_symmetric() {
    for k in [Kernel::LinearInterpolationKernel, Kernel::LowScaleKernel, Kernel::B3SplineKernel] {
        let n = k.size();
        for i in 0..n {
            for j in 0..n {
                assert_eq!(k.weight(i, j), k.weight(i, n - 1 - j));
                assert_eq!(k.weight(i, j), k.weight(n - 1 - i, j));
            }
        }
    }
}
