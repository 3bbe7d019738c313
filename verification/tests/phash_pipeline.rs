use image::GrayImage;
use img_similarity::hamming::distance;
use img_similarity::p_hash::low_freq_indices;
use img_similarity::p_hash::pack_signs;
use img_similarity::preprocess::preprocess;
use rustdct::DctPlanner;

/// The full perceptual hash, assembled from the library's preprocessing,
/// extraction order and bit packing, with the DCT and the median done on
/// floating-point coefficients as the application does them.
fn p_hash_bytes(bytes: &Vec<u8>) -> Option<u64> {
    let pixels = preprocess(bytes, 32, 32).ok()?;
    let mut buf: Vec<f64> = pixels.iter().map(|&p| p as f64).collect();
    let mut planner = DctPlanner::<f64>::new();
    let dct = planner.plan_dct2(32);
    for row in buf.chunks_mut(32) {
        dct.process_dct2(row);
    }
    let mut transposed = vec![0.0f64; 1024];
    for r in 0..32 {
        for c in 0..32 {
            transposed[c * 32 + r] = buf[r * 32 + c];
        }
    }
    for row in transposed.chunks_mut(32) {
        dct.process_dct2(row);
    }
    let indices = low_freq_indices();
    let coeffs: Vec<f64> = indices.iter().map(|&i| transposed[i]).collect();
    let mut sorted = coeffs.clone();
    sorted.sort_by(|a, b| a.partial_cmp(b).unwrap_or(std::cmp::Ordering::Equal));
    let median = (sorted[31] + sorted[32]) / 2.0;
    let signs: Vec<bool> = coeffs.iter().map(|&c| c >= median).collect();
    Some(pack_signs(&signs))
}

/// Encode a grayscale image produced by `f(row, column)` as PNG bytes.
fn gray_png(width: u32, height: u32, f: fn(u32, u32) -> u8) -> Vec<u8> {
    let img = GrayImage::from_fn(width, height, |x, y| image::Luma([f(y, x)]));
    let mut bytes: Vec<u8> = Vec::new();
    img.write_to(&mut std::io::Cursor::new(&mut bytes), image::ImageFormat::Png)
        .unwrap();
    bytes
}

/// A strongly asymmetric pattern: a bright triangle over a dark gradient.
fn asymmetric(r: u32, c: u32) -> u8 {
    if c > r {
        230
    } else {
        (c * 3 % 97) as u8
    }
}

#[test]
fn pack_signs_alternating() {
    let signs: Vec<bool> = (0..64).map(|i| i % 2 == 0).collect();
    assert_eq!(pack_signs(&signs), 0x5555_5555_5555_5555);
}

#[test]
fn pack_signs_extremes() {
    let none: Vec<bool> = vec![false; 64];
    assert_eq!(pack_signs(&none), 0);
    let mut last_only: Vec<bool> = vec![false; 64];
    last_only[63] = true;
    assert_eq!(pack_signs(&last_only), 1u64 << 63);
}

#[test]
fn low_freq_indices_structure() {
    let indices = low_freq_indices();
    assert_eq!(indices.len(), 64);
    assert_eq!(indices[0], 0);
    assert_eq!(indices[7], 7);
    assert_eq!(indices[8], 32);
    assert_eq!(indices[63], 7 * 32 + 7);
}

#[test]
fn p_hash_deterministic() {
    let bytes = gray_png(64, 64, asymmetric);
    let first = p_hash_bytes(&bytes).unwrap();
    let second = p_hash_bytes(&bytes).unwrap();
    assert_eq!(first, second);
}

#[test]
fn p_hash_mirror_differs_strongly() {
    let img = GrayImage::from_fn(64, 64, |x, y| image::Luma([asymmetric(y, x)]));
    let mirrored = image::imageops::flip_horizontal(&img);
    let mut bytes: Vec<u8> = Vec::new();
    img.write_to(&mut std::io::Cursor::new(&mut bytes), image::ImageFormat::Png)
        .unwrap();
    let mut mirrored_bytes: Vec<u8> = Vec::new();
    mirrored
        .write_to(
            &mut std::io::Cursor::new(&mut mirrored_bytes),
            image::ImageFormat::Png,
        )
        .unwrap();
    let h = p_hash_bytes(&bytes).unwrap();
    let h_mirrored = p_hash_bytes(&mirrored_bytes).unwrap();
    assert!(
        distance(h, h_mirrored) >= 16,
        "mirror changed only {} bits",
        distance(h, h_mirrored)
    );
}

#[test]
fn p_hash_lossless_reencode_identical() {
    let bytes = gray_png(64, 64, asymmetric);
    // The same pixels, encoded losslessly a second time in another layout:
    // grayscale with an opaque alpha channel.
    let with_alpha = image::GrayAlphaImage::from_fn(64, 64, |x, y| {
        image::LumaA([asymmetric(y, x), 255])
    });
    let mut alpha_bytes: Vec<u8> = Vec::new();
    with_alpha
        .write_to(&mut std::io::Cursor::new(&mut alpha_bytes), image::ImageFormat::Png)
        .unwrap();
    assert_ne!(bytes, alpha_bytes);
    assert_eq!(p_hash_bytes(&bytes).unwrap(), p_hash_bytes(&alpha_bytes).unwrap());
}
