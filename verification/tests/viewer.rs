use warpview::decode::{DecodedFrame, DecodedImage};
use warpview::dirscan::DirListing;
use warpview::viewer::{
    navigation_for_key, FrameStep, Key, Navigation, UserEvent, Viewer, CACHE_CAPACITY,
};

fn image(frames: usize, delay_ns: u64) -> DecodedImage {
    DecodedImage {
        width: 1,
        height: 1,
        frames: (0..frames).map(|k| DecodedFrame { rgba: vec![k as u8; 4], delay_ns }).collect(),
    }
}

fn listing(len: usize, start: usize) -> DirListing {
    DirListing { files: (0..len).map(|i| format!("/d/img{i}.png")).collect(), current_index: start }
}

#[test]
fn start_shows_the_first_image_and_prefetches_both_neighbours() {
    let mut v = Viewer::new();
    let (shown, jobs) = v.start(listing(5, 2), image(1, 0));
    let shown = shown.expect("shown");
    assert_eq!(shown.index, 2);
    assert_eq!(shown.first_delay_ns, None);
    assert_eq!(jobs.len(), 2);
    assert_eq!((jobs[0].index, jobs[0].path.as_str()), (3, "/d/img3.png"));
    assert_eq!((jobs[1].index, jobs[1].path.as_str()), (1, "/d/img1.png"));
    assert!(v.pending.contains(&3) && v.pending.contains(&1));
    assert_eq!(v.title().unwrap(), "img2.png (3 of 5) — WarpView");
}

#[test]
fn two_files_prefetch_the_other_one_once() {
    let mut v = Viewer::new();
    let (_, jobs) = v.start(listing(2, 0), image(1, 0));
    assert_eq!(jobs.len(), 1);
    assert_eq!(jobs[0].index, 1);
}

#[test]
fn single_file_prefetches_nothing() {
    let mut v = Viewer::new();
    let (_, jobs) = v.start(listing(1, 0), image(1, 0));
    assert!(jobs.is_empty());
    assert!(v.pending.is_empty());
}

#[test]
fn navigation_needs_a_decode_then_shows_it() {
    let mut v = Viewer::new();
    v.start(listing(5, 0), image(1, 0));
    match v.navigate(false) {
        Navigation::NeedsDecode { index, path } => {
            assert_eq!(index, 4);
            assert_eq!(path, "/d/img4.png");
        }
        _ => panic!("decode expected"),
    }
    let (shown, jobs) = v.finish_navigation(4, Some(image(3, 40_000_000)));
    let shown = shown.expect("shown");
    assert_eq!(shown.index, 4);
    assert_eq!(shown.first_delay_ns, Some(40_000_000));
    // 0 is cached, 3 is new; 4's next is 0.
    assert_eq!(jobs.len(), 1);
    assert_eq!(jobs[0].index, 3);
}

#[test]
fn failed_decode_shows_nothing_but_still_prefetches() {
    let mut v = Viewer::new();
    v.start(listing(5, 0), image(1, 0));
    assert!(matches!(v.navigate(true), Navigation::NeedsDecode { index: 1, .. }));
    let (shown, jobs) = v.finish_navigation(1, None);
    assert!(shown.is_none());
    assert_eq!(jobs.len(), 1);
    assert_eq!(jobs[0].index, 2);
}

#[test]
fn navigating_to_a_cached_image_shows_it_at_once() {
    let mut v = Viewer::new();
    v.start(listing(3, 0), image(1, 0));
    assert!(v.handle_user_event(UserEvent::Decoded(1, image(2, 30_000_000))).is_none());
    match v.navigate(true) {
        Navigation::Cached(Some(shown), jobs) => {
            assert_eq!(shown.index, 1);
            assert_eq!(shown.first_delay_ns, Some(30_000_000));
            assert!(jobs.is_empty());
        }
        _ => panic!("cached image expected"),
    }
}

#[test]
fn empty_or_missing_listing_ignores_navigation() {
    let mut v = Viewer::new();
    assert!(matches!(v.navigate(true), Navigation::Ignored));
    v.start(listing(0, 0), image(1, 0));
    assert!(matches!(v.navigate(false), Navigation::Ignored));
    assert_eq!(v.title().unwrap(), "WarpView");
}

#[test]
fn background_decode_of_current_image_is_shown() {
    let mut v = Viewer::new();
    v.start(listing(4, 0), image(1, 0));
    assert!(matches!(v.navigate(true), Navigation::NeedsDecode { index: 1, .. }));
    v.finish_navigation(1, None);
    let shown = v.handle_user_event(UserEvent::Decoded(1, image(1, 0)));
    assert_eq!(shown.unwrap().index, 1);
    assert!(!v.pending.contains(&1));
}

#[test]
fn eviction_keeps_the_capacity_and_the_current_image() {
    let mut v = Viewer::new();
    v.start(listing(20, 0), image(1, 0));
    for i in 1..10 {
        v.handle_user_event(UserEvent::Decoded(i, image(1, 0)));
    }
    assert_eq!(v.cache.len(), CACHE_CAPACITY);
    assert!(v.cache.contains_key(&0));
    for i in 6..10 {
        assert!(v.cache.contains_key(&i));
    }
    assert_eq!(v.cache_order.iter().copied().collect::<Vec<_>>(), vec![0, 6, 7, 8, 9]);
}

#[test]
fn animation_steps_through_frames_and_wraps() {
    let mut v = Viewer::new();
    let (shown, _) = v.start(listing(1, 0), image(3, 25_000_000));
    assert_eq!(shown.unwrap().first_delay_ns, Some(25_000_000));
    for expected in [1, 2, 0, 1] {
        match v.advance_frame() {
            FrameStep::Show { frame, delay_ns } => {
                assert_eq!(frame, expected);
                assert_eq!(delay_ns, 25_000_000);
            }
            _ => panic!("frame expected"),
        }
    }
    assert_eq!(v.frame_index, 1);
}

#[test]
fn still_image_stops_the_animation() {
    let mut v = Viewer::new();
    assert!(matches!(v.advance_frame(), FrameStep::Unchanged));
    v.start(listing(1, 0), image(1, 0));
    assert!(matches!(v.advance_frame(), FrameStep::Stop));
}

#[test]
fn keys_map_to_directions() {
    assert_eq!(navigation_for_key(true, Key::Space), Some(true));
    assert_eq!(navigation_for_key(true, Key::ArrowRight), Some(true));
    assert_eq!(navigation_for_key(true, Key::ArrowLeft), Some(false));
    assert_eq!(navigation_for_key(true, Key::Other), None);
    assert_eq!(navigation_for_key(false, Key::Space), None);
}

#[test]
fn title_counts_from_one_with_multi_digit_numbers() {
    let mut v = Viewer::new();
    v.start(listing(120, 104), image(1, 0));
    assert_eq!(v.title().unwrap(), "img104.png (105 of 120) — WarpView");
}
