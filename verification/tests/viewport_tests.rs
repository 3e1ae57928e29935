use med_core::viewport::Viewport;

#[test]
fn window_starts_at_the_origin() {
    let vp = Viewport::new();
    assert_eq!(vp.x_scroll(), 0);
    assert_eq!(vp.y_scroll(), 0);
}

#[test]
fn setters_move_the_window() {
    let mut vp = Viewport::new();
    vp.adjust_x_scroll(3);
    vp.adjust_y_scroll(7);
    assert_eq!(vp.x_scroll(), 3);
    assert_eq!(vp.y_scroll(), 7);
}

#[test]
fn short_line_shows_whole() {
    let vp = Viewport::new();
    let (scrolled, slice, truncated) = vp.visible_text_window("hello", 80);
    assert!(!scrolled);
    assert_eq!(slice, "hello");
    assert!(!truncated);
}

#[test]
fn long_line_is_cut_at_the_right_edge() {
    let vp = Viewport::new();
    let line = "abcdefghijklmnopqrstuvwxyz";
    let (scrolled, slice, truncated) = vp.visible_text_window(line, 16);
    assert!(!scrolled);
    assert_eq!(slice, "abcdefghij");
    assert!(truncated);
}

#[test]
fn scrolled_window_starts_mid_line() {
    let mut vp = Viewport::new();
    vp.adjust_x_scroll(3);
    let (scrolled, slice, truncated) = vp.visible_text_window("abcdefgh", 80);
    assert!(scrolled);
    assert_eq!(slice, "defgh");
    assert!(!truncated);
}

#[test]
fn window_past_the_line_end_is_empty() {
    let mut vp = Viewport::new();
    vp.adjust_x_scroll(10);
    let (scrolled, slice, truncated) = vp.visible_text_window("short", 80);
    assert!(!scrolled);
    assert_eq!(slice, "");
    assert!(!truncated);
}
