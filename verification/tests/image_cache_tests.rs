// Decoded images and their cache.

use browser_engine::renderer::image_cache::{DecodedImage, ImageCache, DEFAULT_IMAGE_CACHE_SIZE};
use image::ImageFormat;
use url::Url;

// Create a minimal 1x1 PNG image for testing
fn create_test_png() -> Vec<u8> {
    // Minimal valid PNG: 1x1 white pixel
    vec![
        0x89, 0x50, 0x4E, 0x47, 0x0D, 0x0A, 0x1A, 0x0A, // PNG signature
        0x00, 0x00, 0x00, 0x0D, 0x49, 0x48, 0x44, 0x52, // IHDR chunk
        0x00, 0x00, 0x00, 0x01, 0x00, 0x00, 0x00, 0x01, // 1x1 dimensions
        0x08, 0x02, 0x00, 0x00, 0x00, 0x90, 0x77, 0x53,
        0xDE, 0x00, 0x00, 0x00, 0x0C, 0x49, 0x44, 0x41, // IDAT chunk
        0x54, 0x08, 0xD7, 0x63, 0xF8, 0xFF, 0xFF, 0x3F,
        0x00, 0x05, 0xFE, 0x02, 0xFE, 0xDC, 0xCC, 0x59,
        0xE7, 0x00, 0x00, 0x00, 0x00, 0x49, 0x45, 0x4E, // IEND chunk
        0x44, 0xAE, 0x42, 0x60, 0x82,
    ]
}

fn address(name: &str) -> Url {
    Url::parse(&format!("http://example.com/{}", name)).unwrap()
}

fn picture(name: &str, bytes: usize) -> DecodedImage {
    DecodedImage {
        url: address(name),
        width: 1,
        height: (bytes / 4) as u32,
        data: vec![7; bytes],
        format: ImageFormat::Png,
    }
}

#[test]
fn test_decoded_image_from_bytes() {
    let png_data = create_test_png();
    let url = Url::parse("http://example.com/test.png").unwrap();

    let result = DecodedImage::from_bytes(url.clone(), &png_data);
    assert!(result.is_ok());

    let img = result.unwrap();
    assert_eq!(img.width, 1);
    assert_eq!(img.height, 1);
    assert_eq!(img.data.len(), 4); // 1 pixel * 4 bytes (RGBA)
    assert_eq!(img.url, url);
}

#[test]
fn test_decoded_image_is_the_picture_in_the_bytes() {
    let img = DecodedImage::from_bytes(address("a.png"), &create_test_png()).unwrap();
    assert_eq!(img.data, vec![255, 255, 255, 255]);
    assert_eq!(img.format, ImageFormat::Png);
    assert_eq!(img.byte_size(), 4);
    // Bytes that are no image.
    assert!(DecodedImage::from_bytes(address("a.png"), &[1, 2, 3]).is_err());
    assert!(DecodedImage::from_bytes(address("a.png"), &[]).is_err());
    // A signature alone is no image.
    assert!(DecodedImage::from_bytes(address("a.png"), &create_test_png()[..8]).is_err());
}

#[test]
fn test_image_cache_creation() {
    let cache = ImageCache::new(1024 * 1024); // 1 MB
    assert_eq!(cache.count(), 0);
    assert_eq!(cache.size(), 0);
}

#[test]
fn test_image_cache_load() {
    let mut cache = ImageCache::new(1024 * 1024);
    let png_data = create_test_png();
    let url = Url::parse("http://example.com/test.png").unwrap();

    let result = cache.load_from_bytes(url.clone(), &png_data);
    assert!(result.is_ok());

    let img = result.unwrap();
    assert_eq!(img.width, 1);
    assert_eq!(img.height, 1);
    assert_eq!(cache.count(), 1);
}

#[test]
fn test_image_cache_retrieval() {
    let mut cache = ImageCache::new(1024 * 1024);
    let png_data = create_test_png();
    let url = Url::parse("http://example.com/test.png").unwrap();

    cache.load_from_bytes(url.clone(), &png_data).unwrap();

    let cached = cache.get(&url);
    assert!(cached.is_some());
    assert_eq!(cached.unwrap().width, 1);
}

#[test]
fn test_image_cache_clear() {
    let mut cache = ImageCache::new(1024 * 1024);
    let png_data = create_test_png();
    let url = Url::parse("http://example.com/test.png").unwrap();

    cache.load_from_bytes(url, &png_data).unwrap();
    assert_eq!(cache.count(), 1);

    cache.clear();
    assert_eq!(cache.count(), 0);
    assert_eq!(cache.size(), 0);
}

#[test]
fn test_image_cache_eviction() {
    // Very small cache - only 100 bytes
    let mut cache = ImageCache::new(100);
    let png_data = create_test_png();

    let url1 = Url::parse("http://example.com/test1.png").unwrap();
    let url2 = Url::parse("http://example.com/test2.png").unwrap();

    cache.load_from_bytes(url1.clone(), &png_data).unwrap();

    // Load another image - should trigger eviction
    cache.load_from_bytes(url2.clone(), &png_data).unwrap();

    // Should have evicted the first one (FIFO)
    assert!(cache.get(&url2).is_some());
}

#[test]
fn test_image_cache_keeps_what_it_has_under_a_url() {
    let mut cache = ImageCache::with_default_size();
    assert_eq!(DEFAULT_IMAGE_CACHE_SIZE, 100 * 1024 * 1024);
    let url = address("a.png");
    cache.load_from_bytes(url.clone(), &create_test_png()).unwrap();
    assert_eq!(cache.size(), 4);
    // The bytes are not read again: even broken ones give the image that is there.
    let again = cache.load_from_bytes(url.clone(), &[0, 1, 2]).unwrap();
    assert_eq!(again.data, vec![255, 255, 255, 255]);
    assert_eq!(cache.count(), 1);
    assert_eq!(cache.size(), 4);
    let kept = cache.insert(url.clone(), picture("a.png", 8));
    assert_eq!(kept.data.len(), 4);
    assert_eq!(cache.size(), 4);
    // Broken bytes under a new URL change nothing.
    assert!(cache.load_from_bytes(address("b.png"), &[0, 1, 2]).is_err());
    assert_eq!(cache.count(), 1);
    assert!(cache.get(&address("b.png")).is_none());
}

#[test]
fn test_image_cache_gives_up_the_first_that_came() {
    let mut cache = ImageCache::new(10);
    cache.insert(address("a"), picture("a", 4));
    cache.insert(address("b"), picture("b", 4));
    assert_eq!((cache.count(), cache.size()), (2, 8));
    // 8 + 4 > 10: a leaves, and 4 + 4 fits.
    let kept = cache.insert(address("c"), picture("c", 4));
    assert_eq!(kept.url, address("c"));
    assert!(cache.get(&address("a")).is_none());
    assert!(cache.get(&address("b")).is_some());
    assert!(cache.get(&address("c")).is_some());
    assert_eq!((cache.count(), cache.size()), (2, 8));
    // 8 + 8 > 10 twice: b and c leave.
    cache.insert(address("d"), picture("d", 8));
    assert!(cache.get(&address("b")).is_none());
    assert!(cache.get(&address("c")).is_none());
    assert_eq!((cache.count(), cache.size()), (1, 8));
    // Exactly to the limit: nothing leaves.
    let mut full = ImageCache::new(8);
    full.insert(address("a"), picture("a", 4));
    full.insert(address("b"), picture("b", 4));
    assert_eq!((full.count(), full.size()), (2, 8));
}

#[test]
fn test_image_larger_than_the_cache_is_kept_and_not_counted() {
    let mut cache = ImageCache::new(10);
    cache.insert(address("a"), picture("a", 4));
    // Room is made first: a leaves.
    let kept = cache.insert(address("big"), picture("big", 12));
    assert_eq!(kept.data.len(), 12);
    assert_eq!((cache.count(), cache.size()), (1, 0));
    assert!(cache.get(&address("big")).is_some());
    cache.insert(address("b"), picture("b", 8));
    assert_eq!((cache.count(), cache.size()), (2, 8));
    // 8 + 4 > 10: the large one came first and leaves, which frees nothing; then b leaves.
    cache.insert(address("c"), picture("c", 4));
    assert!(cache.get(&address("big")).is_none());
    assert!(cache.get(&address("b")).is_none());
    assert_eq!((cache.count(), cache.size()), (1, 4));
}
