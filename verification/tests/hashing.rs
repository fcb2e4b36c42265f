use dejavu::exact_hash::ExactHasher;
use dejavu::perceptual_hash::PerceptualHasher;

#[test]
fn test_compute_hash() {
    let content: Vec<u8> = b"Hello, World!".to_vec();
    let hash = ExactHasher::compute_hash(&content);
    assert_eq!(hash.len(), 32); // SHA-256 produces 32 bytes
}

#[test]
fn test_files_equal() {
    let content1: Vec<u8> = b"Same content".to_vec();
    let content2: Vec<u8> = b"Same content".to_vec();
    assert!(ExactHasher::files_equal(&content1, &content2));
}

#[test]
fn test_hamming_distance() {
    // Identical hashes
    assert_eq!(PerceptualHasher::hamming_distance(0b1010, 0b1010), 0);

    // Completely different hashes
    assert_eq!(PerceptualHasher::hamming_distance(0b0000, 0b1111), 4);

    // One bit different
    assert_eq!(PerceptualHasher::hamming_distance(0b1010, 0b1011), 1);
}

#[test]
fn test_are_similar() {
    // threshold = 2 means up to 2 bits can differ
    assert!(PerceptualHasher::are_similar(0b1010, 0b1010, 2)); // identical
    assert!(PerceptualHasher::are_similar(0b1010, 0b1011, 2)); // 1 bit diff
    assert!(PerceptualHasher::are_similar(0b1010, 0b1001, 2)); // 2 bits diff
    assert!(!PerceptualHasher::are_similar(0b1010, 0b0001, 2)); // 3 bits diff
}

#[test]
fn equal_content_gives_equal_digests() {
    let a: Vec<u8> = b"the very same bytes".to_vec();
    let b: Vec<u8> = b"the very same bytes".to_vec();
    assert_eq!(ExactHasher::compute_hash(&a), ExactHasher::compute_hash(&b));
}

#[test]
fn different_content_gives_different_digests() {
    let a: Vec<u8> = b"content A".to_vec();
    let b: Vec<u8> = b"content B".to_vec();
    assert_ne!(ExactHasher::compute_hash(&a), ExactHasher::compute_hash(&b));
    assert!(!ExactHasher::files_equal(&a, &b));
}

#[test]
fn digest_differs_from_input() {
    let a: Vec<u8> = b"short".to_vec();
    let hash = ExactHasher::compute_hash(&a);
    assert_ne!(hash, a);
}

#[test]
fn known_digest_as_hex() {
    // The well-known SHA-256 test vector for "abc".
    let content: Vec<u8> = b"abc".to_vec();
    let hex = ExactHasher::compute_hash_string(&content);
    assert_eq!(hex, "ba7816bf8f01cfea414140de5dae2223b00361a396177a9cb410ff61f20015ad");
}

#[test]
fn hamming_distance_symmetry_and_bound() {
    let a: u64 = 0x0123456789abcdef;
    let b: u64 = 0xfedcba9876543210;
    assert_eq!(
        PerceptualHasher::hamming_distance(a, b),
        PerceptualHasher::hamming_distance(b, a)
    );
    assert!(PerceptualHasher::hamming_distance(a, b) <= 64);
    assert_eq!(PerceptualHasher::hamming_distance(a, a), 0);
    assert_eq!(PerceptualHasher::hamming_distance(0, u64::MAX), 64);
}

fn png_bytes(pixels: &dyn Fn(u32, u32) -> [u8; 3]) -> Vec<u8> {
    let img = image::RgbImage::from_fn(8, 8, |x, y| image::Rgb(pixels(x, y)));
    let mut buf = std::io::Cursor::new(Vec::new());
    image::DynamicImage::ImageRgb8(img)
        .write_to(&mut buf, image::ImageFormat::Png)
        .unwrap();
    buf.into_inner()
}

#[test]
fn uniform_image_fingerprint_is_all_ones() {
    // Every sample equals the mean, so every bit of the fingerprint is set.
    let bytes = png_bytes(&|_, _| [128, 128, 128]);
    let hasher = PerceptualHasher::new();
    let hash = hasher.compute_hash(&bytes).unwrap();
    assert_eq!(hash, u64::MAX);
}

#[test]
fn split_image_fingerprint_sets_bright_half() {
    // Top four rows black, bottom four rows white: the 32 most
    // significant bits (first samples, row-major) are zero.
    let bytes = png_bytes(&|_, y| if y < 4 { [0, 0, 0] } else { [255, 255, 255] });
    let hasher = PerceptualHasher::new();
    let hash = hasher.compute_hash(&bytes).unwrap();
    assert_eq!(hash, 0x0000_0000_ffff_ffff);
}

#[test]
fn perceptual_fingerprint_is_deterministic() {
    let bytes = png_bytes(&|x, y| [(x * 30) as u8, (y * 30) as u8, 77]);
    let hasher = PerceptualHasher::new();
    assert_eq!(
        hasher.compute_hash(&bytes).unwrap(),
        hasher.compute_hash(&bytes).unwrap()
    );
}

#[test]
fn smaller_grids_use_the_low_bits() {
    // A 4 x 4 grid yields 16 decisions in the low 16 bits.
    let bytes = png_bytes(&|_, _| [200, 200, 200]);
    let hasher = PerceptualHasher::with_size(4);
    let hash = hasher.compute_hash(&bytes).unwrap();
    assert_eq!(hash, 0xffff);
}

#[test]
fn undecodable_bytes_give_image_error() {
    let bytes: Vec<u8> = b"this is not an image".to_vec();
    let hasher = PerceptualHasher::new();
    match hasher.compute_hash(&bytes) {
        Err(dejavu::error::DejaVuError::Image(_)) => {}
        _ => panic!("expected an image error"),
    }
}
