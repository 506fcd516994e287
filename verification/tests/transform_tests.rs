use image_dwt::convolve::{convolve_2d, convolve_separable};
use image_dwt::decompose::WaveletDecompose;
use image_dwt::kernels::Kernel;
use image_dwt::layer::WaveletLayerBuffer;
use image_dwt::raster::Raster;
use image_dwt::transform::{ATrousTransform, ATrousTransformInput, Scale, SCALE_ONE};
use image_dwt::Error;

fn gray(width: usize, height: usize, values: Vec<i64>) -> Raster {
    assert_eq!(values.len(), width * height);
    Raster::from_vec(width, height, 1, values)
}

#[test]
fn layer_count_and_residue_placement() {
    // A transform with levels = 2 yields exactly 3 layers; the last and
    // only the last carries no pixel scale.
    let input = gray(4, 4, vec![SCALE_ONE / 2; 16]);
    let t = ATrousTransform::new(
        ATrousTransformInput::Grayscale { data: input },
        2,
        Kernel::LinearInterpolationKernel,
    );
    let layers = t.collect_layers().expect("decomposition fits");
    assert_eq!(layers.len(), 3);
    assert_eq!(layers[0].pixel_scale, Some(0));
    assert_eq!(layers[1].pixel_scale, Some(1));
    assert_eq!(layers[2].pixel_scale, None);
    assert!(!layers[0].is_residue_layer());
    assert!(!layers[1].is_residue_layer());
    assert!(layers[2].is_residue_layer());
}

#[test]
fn flat_input_end_to_end() {
    // A 4x4 raster of constant 0.5, levels = 2, linear kernel: the two
    // detail layers are all-zero and the residue is the constant itself.
    let half = SCALE_ONE / 2;
    let input = gray(4, 4, vec![half; 16]);
    let t = ATrousTransform::linear(ATrousTransformInput::Grayscale { data: input }, 2);
    let layers = t.collect_layers().expect("decomposition fits");
    assert_eq!(layers.len(), 3);
    for layer in &layers[0..2] {
        match &layer.buffer {
            WaveletLayerBuffer::Grayscale { data } => {
                assert!(data.samples().iter().all(|&v| v == 0));
            }
            _ => panic!("expected grayscale detail"),
        }
    }
    match &layers[2].buffer {
        WaveletLayerBuffer::Grayscale { data } => {
            assert!(data.samples().iter().all(|&v| v == half));
        }
        _ => panic!("expected grayscale residue"),
    }
}

#[test]
fn reconstruction_identity_varied_input() {
    // Summing every layer reproduces the input exactly.
    let values: Vec<i64> = (0..16).map(|i| (i * i * 1000 + 7) as i64).collect();
    let input = gray(4, 4, values.clone());
    let t = ATrousTransform::linear(ATrousTransformInput::Grayscale { data: input }, 2);
    let layers = t.collect_layers().expect("decomposition fits");
    let mut sums = vec![0i64; 16];
    for layer in &layers {
        match &layer.buffer {
            WaveletLayerBuffer::Grayscale { data } => {
                for (s, v) in sums.iter_mut().zip(data.samples().iter()) {
                    *s += v;
                }
            }
            _ => panic!("expected grayscale layers"),
        }
    }
    assert_eq!(sums, values);
}

#[test]
fn next_protocol_exhaustion() {
    let input = gray(4, 4, vec![100; 16]);
    let mut t = ATrousTransform::linear(ATrousTransformInput::Grayscale { data: input }, 1);
    assert_eq!(t.current_level(), 0);
    let first = t.next().expect("step").expect("fits");
    assert_eq!(first.pixel_scale, Some(0));
    let second = t.next().expect("step").expect("fits");
    assert_eq!(second.pixel_scale, None);
    assert!(t.next().is_none());
    assert!(t.next().is_none());
}

#[test]
fn low_scale_kernel_unsupported_in_decomposition() {
    // The low-scale kernel has no separable form: the decomposition path
    // reports it rather than producing wrong output.
    let input = gray(4, 4, vec![100; 16]);
    let mut t = ATrousTransform::low_scale(ATrousTransformInput::Grayscale { data: input }, 1);
    match t.next() {
        Some(Err(Error::UnsupportedKernel)) => {}
        other => panic!("expected UnsupportedKernel, got {:?}", other.map(|r| r.map(|_| ()))),
    }
    // The failed step exhausts the sequence.
    assert!(t.next().is_none());
}

#[test]
fn oversized_scale_is_an_error() {
    // On a 4x4 raster the linear kernel's taps leave mirror range at
    // dilation 4 (scale 2), so a 5-level run fails.
    let input = gray(4, 4, vec![100; 16]);
    let t = ATrousTransform::linear(ATrousTransformInput::Grayscale { data: input }, 5);
    assert_eq!(t.collect_layers().unwrap_err(), Error::ScaleOutOfRange);
}

#[test]
fn multi_channel_independence() {
    // R constant 1.0, G constant 0.5, B constant 0.0 at levels = 1: each
    // channel's residue is its own constant; details are zero everywhere.
    let mut values = Vec::new();
    for _ in 0..16 {
        values.push(SCALE_ONE);
        values.push(SCALE_ONE / 2);
        values.push(0);
    }
    let input = Raster::from_vec(4, 4, 3, values);
    let t = ATrousTransform::b_spline(ATrousTransformInput::Rgb { data: input }, 1);
    let layers = t.collect_layers().expect("decomposition fits");
    assert_eq!(layers.len(), 2);
    match &layers[0].buffer {
        WaveletLayerBuffer::Rgb { data } => {
            assert!(data.samples().iter().all(|&v| v == 0));
        }
        _ => panic!("expected rgb detail"),
    }
    match &layers[1].buffer {
        WaveletLayerBuffer::Rgb { data } => {
            for p in 0..16 {
                assert_eq!(data.samples()[3 * p], SCALE_ONE);
                assert_eq!(data.samples()[3 * p + 1], SCALE_ONE / 2);
                assert_eq!(data.samples()[3 * p + 2], 0);
            }
        }
        _ => panic!("expected rgb residue"),
    }
}

#[test]
fn impulse_smoothing_exact_values() {
    // A dilated linear smoothing of a centred impulse: the 3x3 outer
    // product [1,2,1]x[1,2,1]/16 lands around the centre.
    let mut values = vec![0i64; 25];
    values[12] = 16;
    let mut r = gray(5, 5, values);
    let detail = r
        .wavelet_decompose(Kernel::LinearInterpolationKernel, 0, false)
        .expect("fits");
    // r is now the smoothed buffer.
    let s = r.samples();
    assert_eq!(s[12], 4);
    assert_eq!(s[11], 2);
    assert_eq!(s[13], 2);
    assert_eq!(s[7], 2);
    assert_eq!(s[17], 2);
    assert_eq!(s[6], 1);
    assert_eq!(s[8], 1);
    assert_eq!(s[16], 1);
    assert_eq!(s[18], 1);
    assert_eq!(s[0], 0);
    match detail {
        WaveletLayerBuffer::Grayscale { data } => {
            assert_eq!(data.samples()[12], 16 - 4);
            assert_eq!(data.samples()[11], -2);
        }
        _ => panic!("expected grayscale detail"),
    }
}

#[test]
fn mirror_symmetry_of_smoothed_impulse() {
    // A single non-zero pixel at the exact centre of an odd-sized square:
    // the smoothed output at scale 0 is symmetric under horizontal and
    // vertical flips.
    for (n, kernel) in [
        (5usize, Kernel::LinearInterpolationKernel),
        (7usize, Kernel::B3SplineKernel),
    ] {
        let mut values = vec![0i64; n * n];
        values[(n / 2) * n + n / 2] = 4096;
        let mut r = gray(n, n, values);
        r.wavelet_decompose(kernel, 0, false).expect("fits");
        let s = r.samples();
        for y in 0..n {
            for x in 0..n {
                let v = s[y * n + x];
                assert_eq!(v, s[y * n + (n - 1 - x)], "horizontal flip at ({y},{x})");
                assert_eq!(v, s[(n - 1 - y) * n + x], "vertical flip at ({y},{x})");
            }
        }
    }
}

#[test]
fn separable_matches_non_separable() {
    // Two 1D passes versus one direct 2D pass of the B3 spline: the
    // outputs agree sample for sample.
    let values: Vec<i64> = (0..64).map(|i| ((i * 37) % 50 - 25) as i64 * 100).collect();
    let r = gray(8, 8, values);
    for stride in [1usize, 2] {
        let a = convolve_separable(&r, Kernel::B3SplineKernel, stride);
        let b = convolve_2d(&r, Kernel::B3SplineKernel, stride);
        assert_eq!(a.samples(), b.samples());
    }
    let a = convolve_separable(&r, Kernel::LinearInterpolationKernel, 1);
    let b = convolve_2d(&r, Kernel::LinearInterpolationKernel, 1);
    assert_eq!(a.samples(), b.samples());
}

#[test]
fn scale_round_trip() {
    // apply maps the recorded min to 0 and the recorded max to one.
    let s = Scale::new(10, 20);
    assert_eq!(s.scaling_ratio(), 10);
    assert_eq!(s.apply(10), 0);
    assert_eq!(s.apply(20), SCALE_ONE);
    assert_eq!(s.apply(15), SCALE_ONE / 2);
}

#[test]
fn scale_flat_range_defined() {
    // A constant raster gives min == max; apply is defined (0), not a
    // division by zero.
    let s = Scale::new(5, 5);
    assert_eq!(s.scaling_ratio(), 0);
    assert_eq!(s.apply(5), 0);
}

#[test]
fn raw_buffer_transform() {
    let values: Vec<i64> = (0..48).map(|i| i as i64 * 11).collect();
    let input = Raster::from_vec(4, 4, 3, values.clone());
    let t = ATrousTransform::from_raw_buffer(input, 1, Kernel::LinearInterpolationKernel);
    let layers = t.collect_layers().expect("fits");
    assert_eq!(layers.len(), 2);
    for layer in &layers {
        assert!(matches!(layer.buffer, WaveletLayerBuffer::Raw { .. }));
    }
    let mut sums = vec![0i64; 48];
    for layer in &layers {
        match &layer.buffer {
            WaveletLayerBuffer::Raw { data } => {
                for (s, v) in sums.iter_mut().zip(data.samples().iter()) {
                    *s += v;
                }
            }
            _ => unreachable!(),
        }
    }
    assert_eq!(sums, values);
}

#[test]
fn huge_exponent_is_an_error() {
    // A dilation exponent past the supported width fails before any
    // arithmetic could overflow.
    let mut r = gray(4, 4, vec![0; 16]);
    assert_eq!(
        r.wavelet_decompose(Kernel::LinearInterpolationKernel, 17, false).unwrap_err(),
        Error::ScaleOutOfRange
    );
}

#[test]
fn decompose_on_too_small_raster_is_an_error() {
    // A 1x1 raster has no room for any mirror reflection.
    let mut r = gray(1, 1, vec![42]);
    assert_eq!(
        r.wavelet_decompose(Kernel::LinearInterpolationKernel, 0, false).unwrap_err(),
        Error::ScaleOutOfRange
    );
}
