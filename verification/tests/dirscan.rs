use warpview::dirscan::{build_listing, file_name, is_supported, DirListing, ScannedEntry};
use warpview::natural::natural_cmp;

#[test]
fn natural_sort_orders_numbers_numerically() {
    let mut names = vec!["img10.jpg", "img2.jpg", "img1.jpg", "IMG3.jpg"];
    names.sort_by(|a, b| natural_cmp(a, b));
    assert_eq!(names, vec!["img1.jpg", "img2.jpg", "IMG3.jpg", "img10.jpg"]);
}

#[test]
fn is_supported_matches_case_insensitively() {
    assert!(is_supported("photo.HEIC"));
    assert!(is_supported("photo.WebP"));
    assert!(is_supported("anim.APNG"));
    assert!(!is_supported("photo.txt"));
}

fn listing(len: usize, start: usize) -> DirListing {
    DirListing {
        files: (0..len).map(|i| format!("img{i}.png")).collect(),
        current_index: start,
    }
}

#[test]
fn next_wraps_around_to_first() {
    let mut l = listing(3, 2);
    assert_eq!(l.next(), Some("img0.png"));
    assert_eq!(l.current_index, 0);
}

#[test]
fn prev_wraps_around_to_last() {
    let mut l = listing(3, 0);
    assert_eq!(l.prev(), Some("img2.png"));
    assert_eq!(l.current_index, 2);
}

#[test]
fn next_and_prev_on_empty_listing_return_none() {
    let mut l = listing(0, 0);
    assert_eq!(l.next(), None);
    assert_eq!(l.prev(), None);
}

#[test]
fn next_then_prev_returns_to_the_same_file() {
    let mut l = listing(4, 1);
    assert_eq!(l.next(), Some("img2.png"));
    assert_eq!(l.prev(), Some("img1.png"));
    assert_eq!(l.current_index, 1);
    assert_eq!(l.prev(), Some("img0.png"));
    assert_eq!(l.next(), Some("img1.png"));
    assert_eq!(l.current_index, 1);
}

#[test]
fn single_file_listing_stays_put() {
    let mut l = listing(1, 0);
    assert_eq!(l.next(), Some("img0.png"));
    assert_eq!(l.prev(), Some("img0.png"));
    assert_eq!(l.current_index, 0);
}

#[test]
fn is_supported_rejects_paths_without_extension() {
    assert!(!is_supported("README"));
    assert!(!is_supported("/tmp/.png"));
    assert!(is_supported("dir.jpg/"));
    assert!(is_supported("/some/dir/photo.JPEG"));
    assert!(is_supported("a.b.gif"));
    assert!(!is_supported("photo.jpg.bak"));
}

#[test]
fn file_name_takes_the_last_component() {
    assert_eq!(file_name("/photos/2024/img1.jpg"), "img1.jpg");
    assert_eq!(file_name("img1.jpg"), "img1.jpg");
    assert_eq!(file_name("/"), "");
    assert_eq!(file_name("/photos/.."), "");
}

fn entry(path: &str, is_file: bool) -> ScannedEntry {
    ScannedEntry { path: path.to_string(), is_file, canonical: format!("/abs/{path}") }
}

#[test]
fn build_listing_filters_sorts_and_finds_current() {
    let entries = vec![
        entry("d/img10.jpg", true),
        entry("d/notes.txt", true),
        entry("d/img2.PNG", true),
        entry("d/sub.jpg", false),
        entry("d/IMG1.gif", true),
    ];
    let l = build_listing(entries, "/abs/d/img2.PNG".to_string());
    assert_eq!(l.files, vec!["d/IMG1.gif", "d/img2.PNG", "d/img10.jpg"]);
    assert_eq!(l.current_index, 1);
}

#[test]
fn build_listing_points_at_first_file_when_current_is_missing() {
    let entries = vec![entry("b.jpg", true), entry("a.jpg", true)];
    let l = build_listing(entries, "/elsewhere/c.jpg".to_string());
    assert_eq!(l.files, vec!["a.jpg", "b.jpg"]);
    assert_eq!(l.current_index, 0);
}

#[test]
fn build_listing_keeps_scan_order_for_level_names() {
    let entries = vec![entry("x/img01.jpg", true), entry("y/IMG1.jpg", true), entry("z/img1.jpg", true)];
    let l = build_listing(entries, String::new());
    assert_eq!(l.files, vec!["x/img01.jpg", "y/IMG1.jpg", "z/img1.jpg"]);
}

#[test]
fn build_listing_of_empty_directory_is_empty() {
    let l = build_listing(Vec::new(), "/abs/x.jpg".to_string());
    assert!(l.files.is_empty());
    assert_eq!(l.current_index, 0);
}

#[test]
fn stepping_from_an_index_past_the_end_wraps_modulo_the_length() {
    let mut l = listing(3, 7);
    assert_eq!(l.next(), Some("img2.png"));
    assert_eq!(l.current_index, 2);
    let mut l = listing(3, 7);
    assert_eq!(l.prev(), Some("img0.png"));
    assert_eq!(l.current_index, 0);
    let mut l = listing(4, usize::MAX);
    assert_eq!(l.next(), Some("img0.png"));
    let mut l = listing(4, usize::MAX);
    assert_eq!(l.prev(), Some("img2.png"));
}
