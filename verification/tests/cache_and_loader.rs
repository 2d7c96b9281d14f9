use rsiv::cache::CacheManager;
use rsiv::format::ImageFormat;
use rsiv::image_item::{FrameData, LoadedImage, ThumbnailData};
use rsiv::loader::{worker_count, LoadRequest, Loader, BACKGROUND_CAP};

/// An image of exactly `kb` kibibytes of pixel data: 16 by 16 pixels per
/// kibibyte.
fn image_of_kb(kb: u32) -> LoadedImage {
    let width = 16 * kb;
    let height = 16;
    let pixels = vec![127u8; (width * height * 4) as usize];
    LoadedImage {
        width,
        height,
        frames: vec![FrameData { pixels, delay_ms: u64::MAX }],
    }
}

/// A manager with an 6400 KiB full-image budget, a 1600 KiB thumbnail
/// budget, and a 100 KiB oversized threshold.
fn small_cache() -> CacheManager {
    CacheManager::new(8000, 100)
}

#[test]
fn cache_round_trips_an_image() {
    let mut cache = small_cache();
    cache.insert_image("a.png".to_string(), image_of_kb(10));
    let got = cache.get_image("a.png").unwrap();
    assert_eq!((got.width, got.height), (160, 16));
    assert!(cache.get_image("b.png").is_none());
}

#[test]
fn weighted_store_evicts_oldest_under_pressure() {
    // 64 images of 100 KiB fill the 6400 KiB budget exactly; the 65th
    // pushes the oldest one out and nothing else.
    let mut cache = small_cache();
    for i in 0..65 {
        cache.insert_image(format!("img-{:03}.png", i), image_of_kb(100));
    }
    assert!(cache.get_image("img-000.png").is_none());
    for i in 1..65 {
        assert!(cache.get_image(&format!("img-{:03}.png", i)).is_some());
    }
}

#[test]
fn oversized_image_is_retrievable() {
    // An image far above the 100 KiB accounting threshold is parked in
    // the side list, not silently dropped.
    let mut cache = small_cache();
    cache.insert_image("giant.png".to_string(), image_of_kb(300));
    let got = cache.get_image("giant.png").unwrap();
    assert_eq!(got.width, 16 * 300);
}

#[test]
fn fourth_oversized_displaces_least_recently_used() {
    let mut cache = small_cache();
    cache.insert_image("g1".to_string(), image_of_kb(200));
    cache.insert_image("g2".to_string(), image_of_kb(201));
    cache.insert_image("g3".to_string(), image_of_kb(202));
    assert!(cache.get_image("g1").is_some());
    assert!(cache.get_image("g2").is_some());
    assert!(cache.get_image("g3").is_some());
    cache.insert_image("g4".to_string(), image_of_kb(203));
    // g1 was promoted by the get above, then g2 and g3; after inserting
    // g4 the least recently used entry, g1, is gone.
    assert!(cache.get_image("g1").is_none());
    assert!(cache.get_image("g2").is_some());
    assert!(cache.get_image("g3").is_some());
    assert!(cache.get_image("g4").is_some());
}

#[test]
fn invalidation_is_total() {
    // invalidate(path): afterwards both the full image and the thumbnail
    // read as absent — no partial invalidation.
    let mut cache = small_cache();
    cache.insert_image("x.png".to_string(), image_of_kb(10));
    let thumb = ThumbnailData {
        width: 4,
        height: 4,
        pixels: vec![9u8; 64],
    };
    assert!(cache.insert_thumbnail("x.png".to_string(), thumb));
    assert!(cache.get_image("x.png").is_some());
    assert!(cache.get_thumbnail("x.png").is_some());
    cache.remove("x.png");
    assert!(cache.get_image("x.png").is_none());
    assert!(cache.get_thumbnail("x.png").is_none());
}

#[test]
fn oversized_invalidation_is_total() {
    let mut cache = small_cache();
    cache.insert_image("big.png".to_string(), image_of_kb(250));
    assert!(cache.get_image("big.png").is_some());
    cache.remove("big.png");
    assert!(cache.get_image("big.png").is_none());
}

#[test]
fn urgent_precedes_background() {
    // A background request is already queued, yet the urgent request
    // submitted afterwards is handed out first.
    let mut loader = Loader::new();
    loader.request_thumbnail("t.png".to_string(), ImageFormat::Static, 64);
    loader.request_image("u.png".to_string(), ImageFormat::Static);
    match loader.next_request() {
        Some(LoadRequest::LoadImage(path, _)) => assert_eq!(path, "u.png"),
        other => panic!("expected the urgent request first, got {:?}", other.is_some()),
    }
    match loader.next_request() {
        Some(LoadRequest::LoadThumbnail(path, _, size)) => {
            assert_eq!(path, "t.png");
            assert_eq!(size, 64);
        }
        _ => panic!("expected the background request next"),
    }
    assert!(loader.next_request().is_none());
}

#[test]
fn urgent_lane_is_fifo() {
    let mut loader = Loader::new();
    loader.request_image("first.png".to_string(), ImageFormat::Static);
    loader.request_image("second.png".to_string(), ImageFormat::Static);
    match loader.next_request() {
        Some(LoadRequest::LoadImage(path, _)) => assert_eq!(path, "first.png"),
        _ => panic!("expected a full-image request"),
    }
    match loader.next_request() {
        Some(LoadRequest::LoadImage(path, _)) => assert_eq!(path, "second.png"),
        _ => panic!("expected a full-image request"),
    }
}

#[test]
fn background_lane_is_lifo() {
    let mut loader = Loader::new();
    loader.request_thumbnail("old.png".to_string(), ImageFormat::Static, 64);
    loader.request_thumbnail("new.png".to_string(), ImageFormat::Static, 64);
    match loader.next_request() {
        Some(LoadRequest::LoadThumbnail(path, _, _)) => assert_eq!(path, "new.png"),
        _ => panic!("expected a thumbnail request"),
    }
}

#[test]
fn background_cap_drops_single_oldest() {
    // Push one past the cap: the oldest entry is dropped, the newest is
    // retained, and the lane holds exactly the cap.
    let mut loader = Loader::new();
    for i in 0..(BACKGROUND_CAP + 1) {
        loader.request_thumbnail(format!("t-{}.png", i), ImageFormat::Static, 64);
    }
    assert_eq!(loader.background_len(), BACKGROUND_CAP);
    match loader.next_request() {
        Some(LoadRequest::LoadThumbnail(path, _, _)) => {
            assert_eq!(path, format!("t-{}.png", BACKGROUND_CAP));
        }
        _ => panic!("expected the newest thumbnail request"),
    }
    // drain: the dropped entry is the very first submitted
    let mut seen = Vec::new();
    while let Some(LoadRequest::LoadThumbnail(path, _, _)) = loader.next_request() {
        seen.push(path);
    }
    assert_eq!(seen.len(), BACKGROUND_CAP - 1);
    assert!(!seen.contains(&"t-0.png".to_string()));
    assert_eq!(seen.last().unwrap(), "t-1.png");
}

#[test]
fn worker_count_leaves_headroom() {
    assert_eq!(worker_count(0), 1);
    assert_eq!(worker_count(1), 1);
    assert_eq!(worker_count(2), 1);
    assert_eq!(worker_count(8), 4);
    assert_eq!(worker_count(9), 4);
}
