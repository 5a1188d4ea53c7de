use gmanim_editor::cache::{forward_distance, EvictionContext, PreviewFrameCache};
use std::sync::Arc;

fn test_image() -> Arc<egui::ColorImage> {
    Arc::new(egui::ColorImage::from_rgba_unmultiplied(
        [1, 1],
        &[0, 0, 0, 255],
    ))
}

fn evict_ctx(playhead: u32, total_frames: u32, horizon: u32) -> EvictionContext {
    EvictionContext {
        playhead,
        total_frames,
        forward: true,
        horizon,
    }
}

#[test]
fn cache_honors_horizon() {
    let mut cache = PreviewFrameCache::new(3);
    let ctx = evict_ctx(5, 1200, 48);
    cache.insert(5, test_image(), ctx);
    cache.insert(6, test_image(), ctx);
    cache.insert(20, test_image(), ctx);
    cache.insert(100, test_image(), ctx);
    assert!(cache.contains(5));
    assert!(cache.contains(6));
    assert!(cache.contains(20));
    assert!(!cache.contains(100));
}

#[test]
fn cache_protects_prerendered_frames_across_a_loop_wrap() {
    let mut cache = PreviewFrameCache::new(8);
    for playhead in 0..10u32 {
        let ctx = evict_ctx(playhead, 10, 4);
        cache.load_image(playhead);
        cache.insert((playhead + 3) % 10, test_image(), ctx);
    }
    assert!(cache.contains(0));
    assert!(cache.contains(1));
    let ctx = evict_ctx(0, 10, 4);
    cache.load_image(0);
    cache.insert(3, test_image(), ctx);
    assert!(cache.contains(0));
    assert!(cache.contains(1));
    assert!(!cache.contains(5));
}

#[test]
fn cache_falls_back_to_furthest_frame_when_all_protected() {
    let mut cache = PreviewFrameCache::new(3);
    let ctx = evict_ctx(0, 1200, 48);
    cache.insert(1, test_image(), ctx);
    cache.insert(2, test_image(), ctx);
    cache.insert(3, test_image(), ctx);
    cache.insert(4, test_image(), ctx);
    assert!(cache.contains(1));
    assert!(!cache.contains(4));
}

#[test]
fn forward_distance_wraps_in_playback_direction() {
    assert_eq!(forward_distance(5, 3, 1200, true), 2);
    assert_eq!(forward_distance(1, 1199, 1200, true), 2);
    assert_eq!(forward_distance(1199, 1, 1200, false), 2);
    assert_eq!(forward_distance(3, 5, 1200, false), 2);
    assert_eq!(forward_distance(7, 7, 1200, true), 0);
}

#[test]
fn playback_selection_never_regresses_outside_a_loop_boundary() {
    let mut cache = PreviewFrameCache::new(8);
    let ctx = evict_ctx(0, 1200, 48);
    for frame in [84, 100, 103, 1199, 0] {
        cache.insert(
            frame,
            Arc::new(egui::ColorImage::from_rgba_unmultiplied(
                [1, 1],
                &[0, 0, 0, 255],
            )),
            ctx,
        );
    }

    assert_eq!(cache.playback_frame(102, Some(100), true, true), Some(100));
    assert_eq!(cache.playback_frame(0, Some(1199), true, true), Some(0));
    assert_eq!(cache.playback_frame(101, Some(103), false, true), Some(103));
}

#[test]
fn the_oldest_frame_goes_without_a_timeline() {
    let mut cache = PreviewFrameCache::new(2);
    let ctx = evict_ctx(0, 0, 48);
    cache.insert(4, test_image(), ctx);
    cache.insert(5, test_image(), ctx);
    assert!(cache.load_image(4).is_some());
    cache.insert(6, test_image(), ctx);
    assert!(cache.contains(4));
    assert!(!cache.contains(5));
    assert!(cache.contains(6));
    assert_eq!(cache.len(), 2);
}

#[test]
fn the_oldest_unprotected_frame_goes_first() {
    let mut cache = PreviewFrameCache::new(3);
    let ctx = evict_ctx(100, 1200, 10);
    for frame in [50, 101, 60, 70] {
        cache.insert(frame, test_image(), ctx);
    }
    assert!(!cache.contains(50));
    assert!(cache.contains(101));
    assert!(cache.contains(60));
    assert!(cache.contains(70));
}

#[test]
fn the_frame_under_the_playhead_stays() {
    let mut cache = PreviewFrameCache::new(1);
    let ctx = evict_ctx(5, 100, 48);
    cache.insert(5, test_image(), ctx);
    for frame in 6..20 {
        cache.insert(frame, test_image(), ctx);
        assert!(cache.contains(5));
        assert_eq!(cache.len(), 1);
    }
}

#[test]
fn an_inserted_picture_is_the_one_that_is_loaded() {
    let mut cache = PreviewFrameCache::new(2);
    let ctx = evict_ctx(0, 10, 4);
    let first = test_image();
    let second = test_image();
    cache.insert(1, first.clone(), ctx);
    cache.insert(1, second.clone(), ctx);
    assert_eq!(cache.len(), 1);
    assert!(Arc::ptr_eq(&cache.load_image(1).unwrap(), &second));
    assert!(cache.load_image(2).is_none());
}

#[test]
fn the_closest_frames_are_found_on_both_sides() {
    let mut cache = PreviewFrameCache::new(8);
    let ctx = evict_ctx(0, 100, 48);
    for frame in [10, 20, 30] {
        cache.insert(frame, test_image(), ctx);
    }
    assert_eq!(cache.closest_not_after(25), Some(20));
    assert_eq!(cache.closest_not_after(20), Some(20));
    assert_eq!(cache.closest_not_after(9), None);
    assert_eq!(cache.closest_not_before(25), Some(30));
    assert_eq!(cache.closest_not_before(10), Some(10));
    assert_eq!(cache.closest_not_before(31), None);
    assert_eq!(cache.playback_frame(25, Some(28), true, false), None);
    assert_eq!(cache.playback_frame(25, None, true, false), Some(20));
    assert_eq!(cache.playback_frame(5, Some(30), true, true), None);
}

#[test]
fn a_cache_without_room_keeps_nothing() {
    let mut cache = PreviewFrameCache::new(0);
    cache.insert(3, test_image(), evict_ctx(0, 10, 4));
    assert_eq!(cache.len(), 0);
    assert!(!cache.contains(3));
}
