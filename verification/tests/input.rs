use deltafishing::input::{client_center_lparam, Hotkey, Hotkeys, RightHold};

#[test]
fn hotkeys_fire_on_press_edges() {
    let mut h = Hotkeys::default();
    assert_eq!(h.poll(false, false), Hotkey::NoKey);
    assert_eq!(h.poll(true, false), Hotkey::Pause);
    assert_eq!(h.poll(true, false), Hotkey::NoKey);
    assert_eq!(h.poll(false, false), Hotkey::NoKey);
    assert_eq!(h.poll(true, true), Hotkey::Quit);
    assert_eq!(h.poll(true, true), Hotkey::NoKey);
    assert_eq!(h.poll(false, false), Hotkey::NoKey);
    // F9 wins when both go down together
    assert_eq!(h.poll(true, true), Hotkey::Quit);
}

#[test]
fn right_hold_sends_each_change_once() {
    let mut r = RightHold::default();
    assert!(r.ensure_down());
    assert!(!r.ensure_down());
    assert!(r.down);
    assert!(r.ensure_up());
    assert!(!r.ensure_up());
    assert!(!r.down);
}

#[test]
fn client_center_packs_y_high_and_x_low() {
    assert_eq!(client_center_lparam(0, 0, 1920, 1080), Some(540 * 65536 + 960));
    assert_eq!(client_center_lparam(100, 50, 300, 250), Some(100 * 65536 + 100));
    // each coordinate keeps its low 16 bits
    assert_eq!(client_center_lparam(0, 0, 200000, 4), Some(2 * 65536 + 34464));
}

#[test]
fn client_center_refuses_rectangles_without_inside() {
    assert_eq!(client_center_lparam(0, 0, 1, 100), None);
    assert_eq!(client_center_lparam(0, 0, 100, 0), None);
    assert_eq!(client_center_lparam(50, 50, 10, 80), None);
}
