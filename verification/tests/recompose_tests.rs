use image_dwt::aggregate::Aggregate;
use image_dwt::kernels::Kernel;
use image_dwt::layer::{WaveletLayer, WaveletLayerBuffer, WaveletLayerImageBuffer};
use image_dwt::raster::Raster;
use image_dwt::recompose::{OutputLayer, RecomposedImage};
use image_dwt::rescale::RescalableImage;
use image_dwt::transform::{ATrousTransform, ATrousTransformInput, Scale};
use image_dwt::{Error, RecomposableWaveletLayers};

fn gray_layer(width: usize, height: usize, values: Vec<i64>, scale: Option<usize>) -> WaveletLayer {
    WaveletLayer {
        buffer: WaveletLayerBuffer::Grayscale {
            data: Raster::from_vec(width, height, 1, values),
        },
        pixel_scale: scale,
    }
}

#[test]
fn to_num_channels_values() {
    assert_eq!(OutputLayer::Grayscale.to_num_channels(), 1);
    assert_eq!(OutputLayer::Rgb.to_num_channels(), 3);
}

#[test]
fn recompose_raw_sums_layers() {
    let a: Vec<i64> = (0..12).map(|i| i as i64).collect();
    let b: Vec<i64> = (0..12).map(|i| 100 - i as i64).collect();
    let layers = vec![
        WaveletLayer {
            buffer: WaveletLayerBuffer::Raw { data: Raster::from_vec(2, 2, 3, a.clone()) },
            pixel_scale: Some(0),
        },
        WaveletLayer {
            buffer: WaveletLayerBuffer::Raw { data: Raster::from_vec(2, 2, 3, b.clone()) },
            pixel_scale: None,
        },
    ];
    let out = layers.recompose_into_raw(2, 2).expect("matching layers");
    let sums: Vec<i64> = a.iter().zip(b.iter()).map(|(x, y)| x + y).collect();
    assert_eq!(out.samples(), &sums);
}

#[test]
fn recompose_raw_rejects_wrong_variant() {
    let layers = vec![gray_layer(2, 2, vec![1, 2, 3, 4], None)];
    assert_eq!(layers.recompose_into_raw(2, 2).unwrap_err(), Error::LayerMismatch);
}

#[test]
fn recompose_raw_rejects_wrong_shape() {
    let layers = vec![WaveletLayer {
        buffer: WaveletLayerBuffer::Raw { data: Raster::from_vec(2, 2, 3, vec![0; 12]) },
        pixel_scale: None,
    }];
    assert_eq!(layers.recompose_into_raw(3, 2).unwrap_err(), Error::LayerMismatch);
}

#[test]
fn recompose_grayscale_rescales_to_u16() {
    let layers = vec![gray_layer(2, 2, vec![0, 100, 200, 300], None)];
    match layers.recompose_into_image(2, 2, OutputLayer::Grayscale).expect("matching layers") {
        RecomposedImage::Grayscale16 { width, height, data } => {
            assert_eq!((width, height), (2, 2));
            assert_eq!(data, vec![0, 21845, 43690, 65535]);
        }
        _ => panic!("expected 16-bit grayscale output"),
    }
}

#[test]
fn recompose_grayscale_flat_input_defined() {
    // A flat accumulated raster has a zero rescale range: the defined
    // fallback maps everything to 0 instead of dividing by zero.
    let layers = vec![gray_layer(2, 2, vec![7, 7, 7, 7], None)];
    match layers.recompose_into_image(2, 2, OutputLayer::Grayscale).expect("matching layers") {
        RecomposedImage::Grayscale16 { data, .. } => {
            assert_eq!(data, vec![0, 0, 0, 0]);
        }
        _ => panic!("expected 16-bit grayscale output"),
    }
}

#[test]
fn recompose_grayscale_rejects_rgb_layer() {
    let layers = vec![WaveletLayer {
        buffer: WaveletLayerBuffer::Rgb { data: Raster::from_vec(2, 2, 3, vec![0; 12]) },
        pixel_scale: None,
    }];
    assert_eq!(
        layers.recompose_into_image(2, 2, OutputLayer::Grayscale).unwrap_err(),
        Error::LayerMismatch
    );
}

#[test]
fn recompose_rgb_rejects_grayscale_layer() {
    let layers = vec![gray_layer(2, 2, vec![0; 4], None)];
    assert_eq!(
        layers.recompose_into_image(2, 2, OutputLayer::Rgb).unwrap_err(),
        Error::LayerMismatch
    );
}

#[test]
fn recompose_rgb_uses_global_range() {
    // One global min/max across all channels: channel values keep their
    // relative order instead of each channel spreading to full range.
    let layers = vec![WaveletLayer {
        buffer: WaveletLayerBuffer::Rgb { data: Raster::from_vec(1, 1, 3, vec![5, 10, 20]) },
        pixel_scale: None,
    }];
    match layers.recompose_into_image(1, 1, OutputLayer::Rgb).expect("matching layers") {
        RecomposedImage::Rgb { data } => {
            // (v - 5) * 65536 / 15, rounded toward minus infinity.
            assert_eq!(data.samples(), &vec![0, 21845, 65536]);
        }
        _ => panic!("expected rgb output"),
    }
}

#[test]
fn recompose_transform_round_trip() {
    // End to end: decompose a raw raster, recompose the layers, and get
    // the input back exactly.
    let values: Vec<i64> = (0..48).map(|i| ((i * 13) % 29) as i64 * 500).collect();
    let input = Raster::from_vec(4, 4, 3, values.clone());
    let t = ATrousTransform::from_raw_buffer(input, 2, Kernel::LinearInterpolationKernel);
    let layers = t.collect_layers().expect("fits");
    let out = layers.recompose_into_raw(4, 4).expect("matching layers");
    assert_eq!(out.samples(), &values);
}

#[test]
fn aggregate_min_max() {
    let r = Raster::from_vec(2, 2, 1, vec![5, -3, 9, 0]);
    assert_eq!(r.min(), -3);
    assert_eq!(r.max(), 9);
    let buf = WaveletLayerBuffer::Grayscale { data: r };
    assert_eq!(buf.min(), -3);
    assert_eq!(buf.max(), 9);
}

#[test]
fn aggregate_empty_defaults() {
    let r = Raster::from_vec(0, 0, 1, Vec::new());
    assert_eq!(r.min(), 0);
    assert_eq!(r.max(), 1);
}

#[test]
fn scaling_parameters_per_channel() {
    // Two pixels of three channels: each channel is aggregated on its own.
    let r = Raster::from_vec(2, 1, 3, vec![1, 5, 0, 3, 5, 10]);
    let scales: [Scale; 3] = r.get_scaling_parameters();
    assert_eq!((scales[0].min(), scales[0].max()), (1, 3));
    assert_eq!((scales[1].min(), scales[1].max()), (5, 5));
    assert_eq!((scales[2].min(), scales[2].max()), (0, 10));
    assert_eq!(scales[2].scaling_ratio(), 10);
}

#[test]
fn image_buffer_from_layer_buffer() {
    let g = WaveletLayerBuffer::Grayscale { data: Raster::from_vec(2, 1, 1, vec![3, 4]) };
    match WaveletLayerImageBuffer::from_buffer(g) {
        Ok(WaveletLayerImageBuffer::Grayscale { buffer }) => {
            assert_eq!(buffer.samples(), &vec![3, 4]);
        }
        _ => panic!("expected grayscale image buffer"),
    }
    let raw = WaveletLayerBuffer::Raw { data: Raster::from_vec(1, 1, 3, vec![0, 0, 0]) };
    assert!(matches!(
        WaveletLayerImageBuffer::from_buffer(raw),
        Err(Error::LayerMismatch)
    ));
}

#[test]
fn extended_index_mirrors() {
    let r = Raster::from_vec(5, 4, 1, vec![0; 20]);
    // In range: identity.
    assert_eq!(r.compute_extended_index(2, 1, 1, 1), [2, 3]);
    // Below zero: reflect to the absolute value.
    assert_eq!(r.compute_extended_index(0, 0, -2, -3), [3, 2]);
    // Past the edge: reflect back by the overshoot.
    assert_eq!(r.compute_extended_index(4, 3, 2, 1), [3, 3]);
}

#[test]
fn recompose_grayscale_floor_rounding() {
    // (1 - (-3)) * 65535 / 8 = 32767.5 rounds toward minus infinity.
    let layers = vec![gray_layer(3, 1, vec![-3, 1, 5], None)];
    match layers.recompose_into_image(3, 1, OutputLayer::Grayscale).expect("matching layers") {
        RecomposedImage::Grayscale16 { data, .. } => {
            assert_eq!(data, vec![0, 32767, 65535]);
        }
        _ => panic!("expected 16-bit grayscale output"),
    }
}

#[test]
fn extended_index_far_edge() {
    let r = Raster::from_vec(3, 3, 1, vec![0; 9]);
    // The farthest reflectable overshoot folds back to the opposite edge.
    assert_eq!(r.compute_extended_index(2, 0, 3, 0), [0, 0]);
    assert_eq!(r.compute_extended_index(0, 0, -2, 0), [0, 2]);
}
