use warpview::config::{centered_position, initial_window_size, WindowConfig};

#[test]
fn saved_size_wins_over_the_fallback() {
    let saved = WindowConfig { width: 800, height: 600 };
    assert_eq!(initial_window_size(Some(saved), (1280, 800)), (800, 600));
    assert_eq!(initial_window_size(None, (1280, 800)), (1280, 800));
}

#[test]
fn window_is_centered_on_the_monitor() {
    assert_eq!(centered_position(0, 0, 1920, 1080, 1280, 800), (320, 140));
    assert_eq!(centered_position(1920, 0, 1920, 1080, 1921, 1081), (1920, 0));
    assert_eq!(centered_position(100, 50, 800, 600, 803, 605), (99, 48));
}
