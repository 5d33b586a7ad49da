use gitmedit::layout::place;
use gitmedit::layout::{compute, pane_at, Pane, Rect};

#[test]
fn wide_terminal_splits_sixty_forty_above_key_bar() {
    let r = compute(Rect::new(0, 0, 120, 30), true, Pane::Left);
    assert_eq!(r.left.unwrap().width, 72);
    assert_eq!(r.right.unwrap().width, 48);
    assert_eq!(r.left.unwrap().height, 29);
    assert_eq!(r.key_bar, Rect::new(0, 29, 120, 1));
}

#[test]
fn no_right_pane_gives_left_the_full_body() {
    let r = compute(Rect::new(0, 0, 120, 30), false, Pane::Right);
    assert_eq!(r.left, Some(Rect::new(0, 0, 120, 29)));
    assert_eq!(r.right, None);
}

#[test]
fn narrow_terminal_shows_only_the_focused_pane() {
    let area = Rect::new(0, 0, 80, 30);
    let left = compute(area, true, Pane::Left);
    assert_eq!((left.left.map(|r| r.width), left.right), (Some(80), None));
    let right = compute(area, true, Pane::Right);
    assert_eq!((right.left, right.right.map(|r| r.width)), (None, Some(80)));
}

#[test]
fn hit_testing_finds_the_pane_under_a_cell() {
    let r = compute(Rect::new(0, 0, 120, 30), true, Pane::Left);
    assert_eq!(pane_at(&r, 10, 5), Some(Pane::Left));
    assert_eq!(pane_at(&r, 100, 5), Some(Pane::Right));
    assert_eq!(pane_at(&r, 10, 29), None);
}

#[test]
fn rectangle_edges() {
    let r = Rect::new(2, 3, 4, 5);
    assert!(r.contains(2, 3));
    assert!(r.contains(5, 7));
    assert!(!r.contains(6, 3));
    assert!(!r.contains(2, 8));
    assert!(!r.contains(1, 3));
    let edge = Rect::new(65530, 0, 100, 1);
    assert!(edge.contains(65534, 0));
    assert!(!edge.contains(65535, 0));
}

#[test]
fn placing_follows_width_right_pane_and_focus() {
    let body = Rect::new(0, 0, 120, 29);
    let key_bar = Rect::new(0, 29, 120, 1);
    let halves = (Rect::new(0, 0, 72, 29), Rect::new(72, 0, 48, 29));
    let wide = place(120, true, Pane::Left, body, key_bar, halves);
    assert_eq!((wide.left, wide.right), (Some(halves.0), Some(halves.1)));
    let alone = place(120, false, Pane::Right, body, key_bar, halves);
    assert_eq!((alone.left, alone.right), (Some(body), None));
    let narrow = place(99, true, Pane::Right, body, key_bar, halves);
    assert_eq!((narrow.left, narrow.right, narrow.key_bar), (None, Some(body), key_bar));
    let narrow_left = place(99, true, Pane::Left, body, key_bar, halves);
    assert_eq!((narrow_left.left, narrow_left.right), (Some(body), None));
}
