use resampler::FilterKind;
use resampler::Raster;
use resampler::ResizeError;
use resampler::resize;
use resampler::resize_image;

fn uniform(w: u32, h: u32, px: [u8; 4]) -> Vec<u8> {
    let mut v: Vec<u8> = Vec::new();
    for _ in 0..(w * h) {
        v.extend_from_slice(&px);
    }
    v
}

#[test]
fn test_resize() {
    // Create a simple 2x2 red image
    let src_data = vec![
        255, 0, 0, 255, 255, 0, 0, 255, //
        255, 0, 0, 255, 255, 0, 0, 255,
    ];

    let result = resize_image(2, 2, &src_data, 4, 4, "nearest");
    assert!(result.is_ok());

    let dst_data = result.unwrap();
    assert_eq!(dst_data.len(), 4 * 4 * 4); // 4x4 pixels, 4 bytes per pixel
}

#[test]
fn nearest_upscale_red_is_all_red() {
    let src_data = uniform(2, 2, [255, 0, 0, 255]);
    let out = resize_image(2, 2, &src_data, 4, 4, "nearest").unwrap();
    assert_eq!(out.len(), 64);
    for p in 0..16 {
        assert_eq!(&out[p * 4..p * 4 + 4], &[255, 0, 0, 255]);
    }
}

#[test]
fn nearest_upscale_uniform_stays_uniform() {
    let src_data = uniform(3, 2, [10, 20, 30, 40]);
    let out = resize_image(3, 2, &src_data, 7, 5, "nearest").unwrap();
    assert_eq!(out.len(), 7 * 5 * 4);
    for p in 0..(7 * 5) {
        assert_eq!(&out[p * 4..p * 4 + 4], &[10, 20, 30, 40]);
    }
}

#[test]
fn convolution_upscale_uniform_stays_uniform() {
    for name in ["bilinear", "catmull", "mitchell", "lanczos3"] {
        let src_data = uniform(3, 3, [7, 130, 200, 255]);
        let out = resize_image(3, 3, &src_data, 9, 6, name).unwrap();
        assert_eq!(out.len(), 9 * 6 * 4);
        for p in 0..(9 * 6) {
            assert_eq!(&out[p * 4..p * 4 + 4], &[7, 130, 200, 255], "filter {}", name);
        }
    }
}

#[test]
fn identity_resize_is_exact_for_vanishing_kernels() {
    let mut src_data: Vec<u8> = Vec::new();
    for i in 0..(5 * 4 * 4) {
        src_data.push((i * 37 % 256) as u8);
    }
    for name in ["nearest", "bilinear", "catmull", "lanczos3"] {
        let out = resize_image(5, 4, &src_data, 5, 4, name).unwrap();
        assert_eq!(out, src_data, "filter {}", name);
    }
}

#[test]
fn identity_resize_mitchell_on_uniform_is_exact() {
    let src_data = uniform(4, 3, [9, 90, 180, 255]);
    let out = resize_image(4, 3, &src_data, 4, 3, "mitchell").unwrap();
    assert_eq!(out, src_data);
}

#[test]
fn nearest_downscale_picks_mapped_pixels() {
    // 4x1 image with distinct pixels; output x maps to floor(x * 4 / 2 + 0.5)
    // = 0 and 2.
    let src_data = vec![
        10, 11, 12, 13, 20, 21, 22, 23, //
        30, 31, 32, 33, 40, 41, 42, 43,
    ];
    let out = resize_image(4, 1, &src_data, 2, 1, "nearest").unwrap();
    assert_eq!(&out[0..4], &[10, 11, 12, 13]);
    assert_eq!(&out[4..8], &[30, 31, 32, 33]);
}

#[test]
fn lanczos_round_trip_on_gradient_stays_bounded() {
    let mut src_data: Vec<u8> = Vec::new();
    for _y in 0..4 {
        for x in 0..16u32 {
            let v = (x * 8 + 64) as u8;
            src_data.extend_from_slice(&[v, v, v, 255]);
        }
    }
    let down = resize_image(16, 4, &src_data, 8, 4, "lanczos3").unwrap();
    let up = resize_image(8, 4, &down, 16, 4, "lanczos3").unwrap();
    assert_eq!(up.len(), src_data.len());
    for i in 0..src_data.len() {
        let a = src_data[i] as i32;
        let b = up[i] as i32;
        assert!((a - b).abs() <= 16, "index {}: {} vs {}", i, a, b);
    }
}

#[test]
fn extreme_inputs_stay_in_byte_range() {
    // A checkerboard of extremes exercises the negative kernel lobes; the
    // output must still be a full buffer of plain bytes.
    let mut src_data: Vec<u8> = Vec::new();
    for y in 0..8 {
        for x in 0..8 {
            let v = if (x + y) % 2 == 0 { 0u8 } else { 255u8 };
            src_data.extend_from_slice(&[v, v, v, v]);
        }
    }
    for name in ["bilinear", "catmull", "mitchell", "lanczos3"] {
        let out = resize_image(8, 8, &src_data, 3, 5, name).unwrap();
        assert_eq!(out.len(), 3 * 5 * 4, "filter {}", name);
        let out2 = resize_image(8, 8, &src_data, 13, 17, name).unwrap();
        assert_eq!(out2.len(), 13 * 17 * 4, "filter {}", name);
    }
}

#[test]
fn zero_destination_width_fails_with_invalid_dimensions() {
    let src_data = uniform(2, 2, [1, 2, 3, 4]);
    let r = resize_image(2, 2, &src_data, 0, 4, "nearest");
    assert_eq!(r, Err(ResizeError::InvalidDimensions));
    let r2 = resize_image(2, 2, &src_data, 4, 0, "lanczos3");
    assert_eq!(r2, Err(ResizeError::InvalidDimensions));
}

#[test]
fn bad_source_fails_with_invalid_source() {
    let src_data = uniform(2, 2, [1, 2, 3, 4]);
    assert_eq!(
        resize_image(0, 2, &src_data, 4, 4, "nearest"),
        Err(ResizeError::InvalidSource)
    );
    assert_eq!(
        resize_image(2, 0, &src_data, 4, 4, "nearest"),
        Err(ResizeError::InvalidSource)
    );
    // buffer too short for the declared dimensions
    assert_eq!(
        resize_image(3, 2, &src_data, 4, 4, "nearest"),
        Err(ResizeError::InvalidSource)
    );
}

#[test]
fn unknown_filter_behaves_like_lanczos3() {
    let mut src_data: Vec<u8> = Vec::new();
    for i in 0..(6 * 5 * 4) {
        src_data.push((i * 53 % 256) as u8);
    }
    let a = resize_image(6, 5, &src_data, 9, 7, "bicubic-xyz").unwrap();
    let b = resize_image(6, 5, &src_data, 9, 7, "lanczos3").unwrap();
    assert_eq!(a, b);
}

#[test]
fn raster_new_checks_buffer_length() {
    assert!(Raster::new(2, 2, uniform(2, 2, [0, 0, 0, 0])).is_ok());
    assert_eq!(
        Raster::new(2, 2, vec![0u8; 15]).err(),
        Some(ResizeError::InvalidSource)
    );
    assert_eq!(
        Raster::new(0, 2, vec![]).err(),
        Some(ResizeError::InvalidSource)
    );
}

#[test]
fn resize_raster_reports_dimensions() {
    let raster = Raster::new(4, 4, uniform(4, 4, [50, 60, 70, 80])).unwrap();
    let out = resize(&raster, 6, 2, FilterKind::Bilinear).unwrap();
    assert_eq!(out.width, 6);
    assert_eq!(out.height, 2);
    assert_eq!(out.data.len(), 6 * 2 * 4);
    for p in 0..(6 * 2) {
        assert_eq!(&out.data[p * 4..p * 4 + 4], &[50, 60, 70, 80]);
    }
}
