//! Popups and clicks.

use notcron::ui::term::{classify_click, popup_rect, Key, KeyCode, LastClick, Rect};

#[test]
fn popup_never_exceeds_a_tiny_frame() {
    let tiny = Rect {
        x: 0,
        y: 0,
        width: 4,
        height: 2,
    };
    let p = popup_rect(tiny, 60, 20);
    assert!(p.width <= tiny.width && p.height <= tiny.height);
    assert!(p.width >= 1 && p.height >= 1);
    // Every smaller frame stays in bounds too, including degenerate ones.
    for w in 0..8u16 {
        for h in 0..8u16 {
            let a = Rect {
                x: 3,
                y: 4,
                width: w,
                height: h,
            };
            let p = popup_rect(a, 60, 20);
            assert!(p.x + p.width <= a.x + a.width, "{w}x{h}");
            assert!(p.y + p.height <= a.y + a.height, "{w}x{h}");
        }
    }
    assert!(p.x + p.width <= tiny.x + tiny.width);
    assert!(p.y + p.height <= tiny.y + tiny.height);
}

#[test]
fn popup_is_centered_in_a_normal_frame() {
    let area = Rect {
        x: 0,
        y: 0,
        width: 100,
        height: 40,
    };
    let p = popup_rect(area, 60, 20);
    assert_eq!((p.width, p.height), (60, 20));
    assert_eq!((p.x, p.y), (20, 10));
}

#[test]
fn zero_sized_frames_do_not_panic() {
    let z = Rect {
        x: 0,
        y: 0,
        width: 0,
        height: 0,
    };
    let p = popup_rect(z, 10, 10);
    assert_eq!((p.width, p.height), (0, 0));
}

#[test]
fn one_by_one_frames_stay_in_bounds() {
    let one = Rect {
        x: 0,
        y: 0,
        width: 1,
        height: 1,
    };
    let p = popup_rect(one, 60, 20);
    assert_eq!((p.x, p.y, p.width, p.height), (0, 0, 1, 1));
}

#[test]
fn two_quick_clicks_on_one_cell_are_a_double_click() {
    let (first, last) = classify_click(None, 3, 4, 1_000);
    assert_eq!(first, Key::Click(3, 4));
    assert_eq!(last, Some(LastClick { x: 3, y: 4, at: 1_000 }));
    let (second, after) = classify_click(last, 3, 4, 1_200);
    assert_eq!(second, Key::DoubleClick(3, 4));
    // A third click starts over.
    assert_eq!(after, None);
    assert_eq!(classify_click(last, 3, 4, 5_000).0, Key::Click(3, 4));
    assert_eq!(classify_click(last, 9, 4, 1_100).0, Key::Click(9, 4));
}

#[test]
fn control_keys_are_told_from_typed_ones() {
    let s = Key::Press(KeyCode::Char('s'), false);
    let ctrl = Key::Press(KeyCode::Char('S'), true);
    assert!(s.is_char('s') && !s.is_ctrl('s'));
    assert!(ctrl.is_ctrl('s') && !ctrl.is_char('s'));
    assert_eq!(ctrl.code(), Some(KeyCode::Char('S')));
    assert_eq!(Key::Resize.code(), None);
}
