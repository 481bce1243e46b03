// The kinds of resources, and the cache that keeps them.

use browser_engine::net::resource_loader::{
    current_timestamp, CachedResource, ResourceCache, ResourceLoader, ResourceType,
    DEFAULT_CACHE_SIZE,
};
use browser_engine::net::NetError;
use url::Url;

fn resource(url: &Url, data: Vec<u8>, last_accessed: u64) -> CachedResource {
    CachedResource {
        url: url.clone(),
        resource_type: ResourceType::Html,
        content_type: "text/html".to_string(),
        data,
        last_accessed,
    }
}

fn keys(cache: &ResourceCache) -> Vec<String> {
    cache.entries.iter().map(|(url, _)| url.path().to_string()).collect()
}

#[test]
fn test_resource_type_from_content_type() {
    assert_eq!(
        ResourceType::from_content_type("text/html; charset=utf-8"),
        ResourceType::Html
    );
    assert_eq!(
        ResourceType::from_content_type("text/css"),
        ResourceType::Css
    );
    assert_eq!(
        ResourceType::from_content_type("image/png"),
        ResourceType::Image
    );
    assert_eq!(
        ResourceType::from_content_type("font/woff2"),
        ResourceType::Font
    );
    assert_eq!(
        ResourceType::from_content_type("application/json"),
        ResourceType::Other
    );
}

#[test]
fn test_content_types_ignore_case_and_take_the_first_mark() {
    assert_eq!(ResourceType::from_content_type("TEXT/HTML"), ResourceType::Html);
    assert_eq!(ResourceType::from_content_type("application/font-woff"), ResourceType::Font);
    assert_eq!(ResourceType::from_content_type("x image/ text/css"), ResourceType::Css);
    assert_eq!(ResourceType::from_content_type(""), ResourceType::Other);
    assert_eq!(ResourceType::from_content_type("image"), ResourceType::Other);
    assert_eq!(ResourceType::from_lowercase_content_type("TEXT/HTML"), ResourceType::Other);
}

#[test]
fn test_resource_type_from_path() {
    for (path, kind) in [
        ("/page.html", ResourceType::Html),
        ("/page.HTM", ResourceType::Html),
        ("/a.b/style.css", ResourceType::Css),
        ("/image.png", ResourceType::Image),
        ("/photo.jpeg", ResourceType::Image),
        ("/x.svg", ResourceType::Image),
        ("/font.woff2", ResourceType::Font),
        ("/font.otf", ResourceType::Font),
        ("/archive.tar.gz", ResourceType::Other),
        ("/no-extension", ResourceType::Other),
        ("css", ResourceType::Css),
        ("/trailing.", ResourceType::Other),
        ("", ResourceType::Other),
    ] {
        assert_eq!(ResourceType::from_path(path), kind, "{}", path);
    }
}

#[test]
fn test_resource_type_from_extension() {
    let html_url = Url::parse("https://example.com/page.html").unwrap();
    assert_eq!(ResourceType::from_extension(&html_url), ResourceType::Html);

    let css_url = Url::parse("https://example.com/style.css").unwrap();
    assert_eq!(ResourceType::from_extension(&css_url), ResourceType::Css);

    let img_url = Url::parse("https://example.com/image.png").unwrap();
    assert_eq!(ResourceType::from_extension(&img_url), ResourceType::Image);

    let font_url = Url::parse("https://example.com/font.woff2").unwrap();
    assert_eq!(ResourceType::from_extension(&font_url), ResourceType::Font);
}

#[test]
fn test_extension_is_read_from_the_path_alone() {
    let url = Url::parse("https://example.com/style.CSS?name=a.png#x.html").unwrap();
    assert_eq!(ResourceType::from_extension(&url), ResourceType::Css);
    let bare = Url::parse("https://example.com").unwrap();
    assert_eq!(ResourceType::from_extension(&bare), ResourceType::Other);
}

#[test]
fn test_resource_cache_basic() {
    let mut cache = ResourceCache::new(1024);
    let url = Url::parse("https://example.com/test").unwrap();

    let resource = CachedResource {
        url: url.clone(),
        resource_type: ResourceType::Html,
        content_type: "text/html".to_string(),
        data: vec![1, 2, 3, 4],
        last_accessed: current_timestamp(),
    };

    cache.put(url.clone(), resource.clone());
    assert_eq!(cache.current_size, 4);
    assert_eq!(cache.entries.len(), 1);

    let retrieved = cache.get(&url).unwrap();
    assert_eq!(retrieved.data, vec![1, 2, 3, 4]);
}

#[test]
fn test_resource_cache_eviction() {
    let mut cache = ResourceCache::new(10); // Very small cache

    let url1 = Url::parse("https://example.com/1").unwrap();
    let url2 = Url::parse("https://example.com/2").unwrap();
    let url3 = Url::parse("https://example.com/3").unwrap();

    // Add first resource
    cache.put(
        url1.clone(),
        CachedResource {
            url: url1.clone(),
            resource_type: ResourceType::Html,
            content_type: "text/html".to_string(),
            data: vec![1, 2, 3, 4], // 4 bytes
            last_accessed: 100,
        },
    );

    // Add second resource
    cache.put(
        url2.clone(),
        CachedResource {
            url: url2.clone(),
            resource_type: ResourceType::Html,
            content_type: "text/html".to_string(),
            data: vec![5, 6], // 2 bytes
            last_accessed: 200,
        },
    );

    // Both should fit (4 + 2 = 6 bytes)
    assert_eq!(cache.entries.len(), 2);

    // Add third resource that requires eviction
    cache.put(
        url3.clone(),
        CachedResource {
            url: url3.clone(),
            resource_type: ResourceType::Html,
            content_type: "text/html".to_string(),
            data: vec![7, 8, 9, 10, 11], // 5 bytes
            last_accessed: 300,
        },
    );

    // Should have evicted url1 (oldest) to make room
    assert!(cache.get(&url1).is_none());
    assert!(cache.get(&url2).is_some());
    assert!(cache.get(&url3).is_some());
}

#[test]
fn test_resource_cache_clear() {
    let mut cache = ResourceCache::new(1024);
    let url = Url::parse("https://example.com/test").unwrap();

    cache.put(
        url.clone(),
        CachedResource {
            url: url.clone(),
            resource_type: ResourceType::Html,
            content_type: "text/html".to_string(),
            data: vec![1, 2, 3],
            last_accessed: current_timestamp(),
        },
    );

    assert_eq!(cache.entries.len(), 1);
    assert_eq!(cache.current_size, 3);

    cache.clear();
    assert_eq!(cache.entries.len(), 0);
    assert_eq!(cache.current_size, 0);
}

#[test]
fn test_cache_gives_up_the_oldest_entries_until_the_new_one_fits() {
    let mut cache = ResourceCache::new(10);
    let a = Url::parse("https://example.com/a").unwrap();
    let b = Url::parse("https://example.com/b").unwrap();
    let c = Url::parse("https://example.com/c").unwrap();
    let d = Url::parse("https://example.com/d").unwrap();
    cache.put(a.clone(), resource(&a, vec![0; 3], 30));
    cache.put(b.clone(), resource(&b, vec![0; 3], 10));
    cache.put(c.clone(), resource(&c, vec![0; 3], 20));
    assert_eq!(cache.current_size, 9);
    // 9 + 5 > 10: b (10) leaves, 6 + 5 > 10: c (20) leaves, 3 + 5 fits.
    cache.put(d.clone(), resource(&d, vec![0; 5], 40));
    assert_eq!(keys(&cache), vec!["/a", "/d"]);
    assert_eq!(cache.current_size, 8);
    assert_eq!(cache.max_size, 10);
}

#[test]
fn test_cache_fills_to_its_limit_exactly() {
    let mut cache = ResourceCache::new(10);
    let a = Url::parse("https://example.com/a").unwrap();
    let b = Url::parse("https://example.com/b").unwrap();
    cache.put(a.clone(), resource(&a, vec![0; 4], 1));
    cache.put(b.clone(), resource(&b, vec![0; 6], 2));
    assert_eq!(keys(&cache), vec!["/a", "/b"]);
    assert_eq!(cache.current_size, 10);
}

#[test]
fn test_cache_of_equally_old_entries_gives_up_the_first() {
    let mut cache = ResourceCache::new(4);
    let a = Url::parse("https://example.com/a").unwrap();
    let b = Url::parse("https://example.com/b").unwrap();
    cache.put(a.clone(), resource(&a, vec![1, 2], 7));
    cache.put(b.clone(), resource(&b, vec![3, 4], 7));
    cache.evict_lru();
    assert_eq!(keys(&cache), vec!["/b"]);
    assert_eq!(cache.current_size, 2);
    cache.evict_lru();
    cache.evict_lru();
    assert_eq!(cache.entries.len(), 0);
    assert_eq!(cache.current_size, 0);
}

#[test]
fn test_cache_leaves_out_what_is_larger_than_itself() {
    let mut cache = ResourceCache::new(4);
    let a = Url::parse("https://example.com/a").unwrap();
    let b = Url::parse("https://example.com/b").unwrap();
    cache.put(a.clone(), resource(&a, vec![1, 2], 7));
    // Room is made first, and then the resource proves too large.
    cache.put(b.clone(), resource(&b, vec![0; 5], 8));
    assert_eq!(cache.entries.len(), 0);
    assert_eq!(cache.current_size, 0);
    let mut none = ResourceCache::new(0);
    none.put(a.clone(), resource(&a, vec![], 1));
    assert_eq!(none.entries.len(), 1);
    none.put(b.clone(), resource(&b, vec![1], 1));
    assert_eq!(none.entries.len(), 0);
}

#[test]
fn test_cache_replaces_what_a_url_had() {
    let mut cache = ResourceCache::new(10);
    let a = Url::parse("https://example.com/a").unwrap();
    let b = Url::parse("https://example.com/b").unwrap();
    cache.put(a.clone(), resource(&a, vec![1, 2, 3], 1));
    cache.put(b.clone(), resource(&b, vec![4], 2));
    cache.put(a.clone(), resource(&a, vec![9, 9], 3));
    assert_eq!(keys(&cache), vec!["/b", "/a"]);
    assert_eq!(cache.current_size, 3);
    assert_eq!(cache.get_at(&a, 5).unwrap().data, vec![9, 9]);
}

#[test]
fn test_cache_use_keeps_an_entry_young() {
    let mut cache = ResourceCache::new(4);
    let a = Url::parse("https://example.com/a").unwrap();
    let b = Url::parse("https://example.com/b").unwrap();
    let c = Url::parse("https://example.com/c").unwrap();
    cache.put(a.clone(), resource(&a, vec![1, 2], 10));
    cache.put(b.clone(), resource(&b, vec![3, 4], 20));
    let found = cache.get_at(&a, 30).unwrap();
    assert_eq!(found.last_accessed, 30);
    assert_eq!(found.data, vec![1, 2]);
    assert_eq!(found.url, a);
    assert_eq!(keys(&cache), vec!["/a", "/b"]);
    assert_eq!(cache.entries[0].1.last_accessed, 30);
    assert_eq!(cache.entries[1].1.last_accessed, 20);
    assert!(cache.get_at(&c, 40).is_none());
    cache.put(c.clone(), resource(&c, vec![5, 6], 40));
    assert_eq!(keys(&cache), vec!["/a", "/c"]);
}

#[test]
fn test_cached_resource_as_text() {
    let url = Url::parse("https://example.com/a").unwrap();
    let text = resource(&url, "héllo".as_bytes().to_vec(), 0);
    assert_eq!(text.as_text().unwrap(), "héllo");
    let broken = resource(&url, vec![0x68, 0xff], 0);
    assert!(matches!(broken.as_text(), Err(NetError::ParseError(_))));
}

#[test]
fn test_resource_from_response_reads_the_content_type_first() {
    let url = Url::parse("https://example.com/page.css").unwrap();
    let typed = CachedResource::from_response(url.clone(), "image/png".to_string(), vec![1], 5);
    assert_eq!(typed.resource_type, ResourceType::Image);
    assert_eq!(typed.content_type, "image/png");
    assert_eq!(typed.data, vec![1]);
    assert_eq!(typed.last_accessed, 5);
    assert_eq!(typed.url, url);
    let untyped = CachedResource::from_response(url.clone(), String::new(), vec![], 6);
    assert_eq!(untyped.resource_type, ResourceType::Css);
}

#[test]
fn test_loader_keeps_what_it_is_given() {
    let mut loader = ResourceLoader::with_default_cache();
    assert_eq!(loader.cache.max_size, DEFAULT_CACHE_SIZE);
    assert_eq!(DEFAULT_CACHE_SIZE, 50 * 1024 * 1024);
    let url = Url::parse("https://example.com/page.html").unwrap();
    assert!(loader.load_cached(&url).is_none());
    let stored = loader.store_response(url.clone(), String::new(), vec![1, 2, 3], 9);
    assert_eq!(stored.resource_type, ResourceType::Html);
    assert_eq!(loader.cache_size(), 3);
    assert_eq!(loader.cache_count(), 1);
    assert_eq!(loader.load_cached(&url).unwrap().data, vec![1, 2, 3]);
    loader.clear_cache();
    assert_eq!(loader.cache_size(), 0);
    assert_eq!(loader.cache_count(), 0);
    let mut small = ResourceLoader::new(2);
    small.store_response(url.clone(), String::new(), vec![1, 2, 3], 9);
    assert_eq!(small.cache_count(), 0);
}

#[test]
fn test_cache_knows_when_it_is_out_of_order() {
    let a = Url::parse("https://example.com/a").unwrap();
    let b = Url::parse("https://example.com/b").unwrap();
    let mut cache = ResourceCache::new(10);
    assert!(cache.is_well_formed());
    cache.put(a.clone(), resource(&a, vec![1, 2], 1));
    cache.put(b.clone(), resource(&b, vec![3], 2));
    assert!(cache.is_well_formed());
    cache.current_size = 4;
    assert!(!cache.is_well_formed());
    cache.current_size = 3;
    cache.max_size = 2;
    assert!(!cache.is_well_formed());
    cache.max_size = 10;
    cache.entries.push((a.clone(), resource(&a, vec![], 3)));
    assert!(!cache.is_well_formed());
    cache.entries.pop();
    assert!(cache.is_well_formed());
    assert!(ResourceLoader::new(0).is_well_formed());
}
