use crayon::input;
use crayon::input::keyboard::{Key, Keyboard, KeyboardParams};
use crayon::input::mouse::{ClickDetector, ClickTimeouts, MouseButton, MouseButtons};
use crayon::input::system::{InputSystemShared, EMULATED_TOUCH_ID};
use crayon::input::touchpad::{TouchEvent, TouchState, TouchesRecord, MAX_TOUCHES};

fn params(max_chars: usize) -> KeyboardParams {
    KeyboardParams { max_chars, repeat_timeout: 500, repeat_interval_timeout: 250 }
}

#[test]
fn keyboard_press_release_and_frames() {
    let mut kb = Keyboard::new_at(params(8), 0);
    kb.on_key_pressed(Key::A);
    assert!(kb.is_key_down(Key::A));
    assert!(kb.is_key_press(Key::A));
    assert!(!kb.is_key_release(Key::A));
    assert_eq!(kb.key_presses(), vec![Key::A]);

    // Pressing a held key again changes nothing.
    kb.on_key_pressed(Key::A);
    assert_eq!(kb.key_presses(), vec![Key::A]);

    kb.advance_to(100);
    assert!(kb.is_key_down(Key::A));
    assert!(!kb.is_key_press(Key::A));

    kb.on_key_released(Key::A);
    assert!(!kb.is_key_down(Key::A));
    assert!(kb.is_key_release(Key::A));
    assert_eq!(kb.key_releases(), vec![Key::A]);

    kb.reset();
    assert!(!kb.is_key_release(Key::A));
}

#[test]
fn keyboard_repeat_after_timeout() {
    let mut kb = Keyboard::new_at(params(8), 0);
    kb.on_key_pressed(Key::Space);
    assert!(!kb.is_key_repeat(Key::Space));
    kb.advance_to(400);
    assert!(!kb.is_key_repeat(Key::Space));
    kb.advance_to(600);
    assert!(kb.is_key_repeat(Key::Space));
    // Repeating, the key waits the interval after the frame in which it repeated.
    kb.advance_to(700);
    assert!(kb.is_key_repeat(Key::Space));
    kb.advance_to(800);
    assert!(!kb.is_key_repeat(Key::Space));
    assert!(!kb.is_key_repeat(Key::Escape));
}

#[test]
fn keyboard_keeps_at_most_max_chars() {
    let mut kb = Keyboard::new_at(params(3), 0);
    for c in "hello".chars() {
        kb.on_char(c);
    }
    assert_eq!(kb.captured_chars(), &['h', 'e', 'l'][..]);
    kb.advance_to(1);
    assert!(kb.captured_chars().is_empty());
    assert_eq!(KeyboardParams::default().max_chars, 128);
}

fn timeouts() -> ClickTimeouts {
    ClickTimeouts { press_timeout: 500, click_timeout: 500 }
}

#[test]
fn mouse_click_and_double_click() {
    let mut mouse = MouseButtons::new();
    mouse.on_button_pressed(MouseButton::Left, 0, timeouts(), false);
    assert!(mouse.is_button_down(MouseButton::Left));
    assert!(mouse.is_button_press(MouseButton::Left));
    assert!(mouse.on_button_released(MouseButton::Left, 100, timeouts(), true));
    assert!(!mouse.is_button_down(MouseButton::Left));
    assert!(mouse.is_button_release(MouseButton::Left));
    assert!(mouse.is_button_click(MouseButton::Left));
    assert!(!mouse.is_button_double_click(MouseButton::Left));

    mouse.advance();
    assert!(!mouse.is_button_click(MouseButton::Left));
    mouse.on_button_pressed(MouseButton::Left, 200, timeouts(), false);
    mouse.on_button_released(MouseButton::Left, 250, timeouts(), true);
    assert!(mouse.is_button_double_click(MouseButton::Left));
    assert_eq!(mouse.consecutive_clicks(MouseButton::Left), 2);
    assert_eq!(mouse.consecutive_clicks(MouseButton::Middle), 0);

    // A press too late after the last click starts over.
    mouse.advance();
    mouse.on_button_pressed(MouseButton::Left, 2000, timeouts(), false);
    mouse.on_button_released(MouseButton::Left, 2100, timeouts(), true);
    assert!(mouse.is_button_click(MouseButton::Left));
    assert!(!mouse.is_button_double_click(MouseButton::Left));

    // A release far from the press is no click.
    mouse.advance();
    mouse.on_button_pressed(MouseButton::Right, 3000, timeouts(), false);
    assert!(!mouse.on_button_released(MouseButton::Right, 3010, timeouts(), false));
    assert!(!mouse.is_button_click(MouseButton::Right));
    assert_eq!(mouse.button_releases(), vec![MouseButton::Right]);
}

#[test]
fn click_detector_counts() {
    let mut d = ClickDetector::new(0);
    d.on_pressed(10, timeouts(), false);
    assert!(d.on_released(20, timeouts(), true));
    assert_eq!(d.clicks(), 1);
    d.advance();
    assert_eq!(d.clicks(), 0);
    d.on_pressed(30, timeouts(), true);
    d.on_released(40, timeouts(), true);
    assert_eq!(d.clicks(), 1);
    d.reset();
    assert_eq!(d.clicks(), 0);
}

fn touch(id: u8, state: TouchState, x: i32) -> TouchEvent<i32> {
    TouchEvent { id, state, position: x }
}

#[test]
fn touches_are_ordered_by_first_touch() {
    let mut rec: TouchesRecord<i32> = TouchesRecord::new(0, -1);
    assert_eq!(rec.len(), 0);
    assert_eq!(rec.position(0), None);

    rec.update_touch_at(touch(1, TouchState::Start, 10), 100);
    rec.update_touch_at(touch(2, TouchState::Start, 20), 200);
    assert_eq!(rec.len(), 2);
    assert_eq!(rec.position(0), Some(10));
    assert_eq!(rec.position(1), Some(20));

    // A moving finger keeps its place: fingers are ordered by when they were
    // first seen.
    rec.update_touch_at(touch(1, TouchState::Move, 11), 300);
    assert_eq!(rec.len(), 2);
    assert_eq!(rec.position(0), Some(11));
    assert_eq!(rec.position(1), Some(20));
    assert_eq!(rec.slot(0).0, 100);

    // An ended finger leaves the front of the record.
    rec.update_touch_at(touch(2, TouchState::End, 21), 400);
    assert_eq!(rec.len(), 1);
    assert_eq!(rec.position(0), Some(11));
    assert_eq!(rec.position(1), None);

    let mut other: TouchesRecord<i32> = TouchesRecord::new(0, -1);
    other.update_touch_at(touch(1, TouchState::Start, 0), 5);
    assert!(rec.is_same(&other));
    other.update_touch_at(touch(3, TouchState::Start, 0), 6);
    assert!(!rec.is_same(&other));

    rec.reset(0, -1);
    assert_eq!(rec.len(), 0);
    assert_eq!(rec.slot(MAX_TOUCHES).1.state, TouchState::End);
}

#[test]
fn touches_keep_order_of_equal_slots() {
    let mut rec: TouchesRecord<i32> = TouchesRecord::new(0, -1);
    rec.update_touch_at(touch(1, TouchState::Start, 1), 50);
    rec.update_touch_at(touch(2, TouchState::Start, 2), 50);
    rec.update_touch_at(touch(3, TouchState::Start, 3), 50);
    assert_eq!(rec.len(), 3);
    assert_eq!(rec.position(0), Some(1));
    assert_eq!(rec.position(1), Some(2));
    assert_eq!(rec.position(2), Some(3));
}

#[test]
fn input_system_queries() {
    let mut sys: InputSystemShared<(i32, i32)> = InputSystemShared::new(params(16), false, (0, 0));
    assert!(sys.has_keyboard_attached() && sys.has_mouse_attached() && sys.has_touchpad_attached());
    sys.on_key_pressed(Key::B);
    sys.on_char('o');
    sys.on_char('k');
    assert!(input::is_key_down(&sys, Key::B));
    assert!(input::is_key_press(&sys, Key::B));
    assert_eq!(input::key_presses(&sys), vec![Key::B]);
    assert_eq!(input::text(&sys), "ok".to_string());
    assert_eq!(sys.text(), "ok".to_string());

    sys.on_mouse_pressed(MouseButton::Left, (5, 5), 0, timeouts(), false);
    sys.on_mouse_released(MouseButton::Left, (5, 5), 10, timeouts(), true);
    assert!(input::is_mouse_click(&sys, MouseButton::Left));
    assert_eq!(sys.consecutive_clicks(MouseButton::Left), 1);
    assert!(input::is_mouse_release(&sys, MouseButton::Left));
    assert!(!input::is_mouse_down(&sys, MouseButton::Left));
    assert_eq!(input::mouse_presses(&sys), vec![MouseButton::Left]);
    // Without emulation the mouse leaves the touch screen alone.
    assert!(!input::is_finger_touched(&sys, 0));

    sys.on_touch(7, TouchState::Start, (1, 2));
    assert!(input::is_finger_touched(&sys, 0));
    assert_eq!(input::finger_position(&sys, 0), Some((1, 2)));

    sys.advance();
    assert!(!input::is_key_press(&sys, Key::B));
    assert!(input::is_key_down(&sys, Key::B));
    assert_eq!(input::text(&sys), String::new());
    assert!(!input::is_mouse_click(&sys, MouseButton::Left));

    input::reset(&mut sys);
    assert!(!input::is_key_down(&sys, Key::B));
    assert!(!input::is_finger_touched(&sys, 0));
}

#[test]
fn mouse_stands_in_for_a_finger() {
    let mut sys: InputSystemShared<(i32, i32)> = InputSystemShared::new(params(16), true, (0, 0));
    sys.on_mouse_pressed(MouseButton::Right, (3, 4), 0, timeouts(), false);
    assert!(sys.is_finger_touched(0));
    assert_eq!(sys.finger_position(0), Some((3, 4)));
    sys.on_mouse_moved((3, 4));
    // Other buttons leave the finger alone.
    sys.on_mouse_released(MouseButton::Left, (9, 9), 5, timeouts(), true);
    assert!(sys.is_finger_touched(0));
    sys.on_mouse_released(MouseButton::Right, (6, 6), 10, timeouts(), true);
    assert!(!sys.is_finger_touched(0));
    assert_eq!(EMULATED_TOUCH_ID, 255);
}

use crayon::input::touchpad::{GestureTapDetector, TapTimeouts};

fn tap_timeouts() -> TapTimeouts {
    TapTimeouts { tap_timeout: 750, touch_timeout: 250 }
}

#[test]
fn tap_detector_loses_the_finger_that_leaves() {
    let mut rec: TouchesRecord<i32> = TouchesRecord::new(0, 0);
    let mut tap: GestureTapDetector<i32> = GestureTapDetector::new(1, tap_timeouts(), 0, 0);
    rec.update_touch_at(touch(4, TouchState::Start, 7), 100);
    assert_eq!(tap.detect(&rec, false, true, 100), None);
    assert_eq!(tap.last_tap_position(), 7);
    rec.update_touch_at(touch(4, TouchState::End, 8), 150);
    // The ended finger is no longer on the screen, so the record holds no
    // finger and the detector starts over: no tap comes out of it.
    assert_eq!(rec.len(), 0);
    assert_eq!(tap.detect(&rec, false, true, 150), None);
}

#[test]
fn tap_needs_a_single_finger_that_ends_near() {
    let mut rec: TouchesRecord<i32> = TouchesRecord::new(0, 0);
    let mut tap: GestureTapDetector<i32> = GestureTapDetector::new(1, tap_timeouts(), 0, 0);
    rec.update_touch_at(touch(1, TouchState::Start, 5), 10);
    assert_eq!(tap.detect(&rec, false, true, 10), None);
    // A moving finger is followed without a decision.
    rec.update_touch_at(touch(1, TouchState::Move, 6), 20);
    assert_eq!(tap.detect(&rec, false, true, 20), None);
    // A second finger breaks the gesture off.
    rec.update_touch_at(touch(2, TouchState::Start, 9), 30);
    assert_eq!(rec.len(), 2);
    assert_eq!(tap.detect(&rec, false, true, 30), None);
}

use crayon::input::touchpad::{GesturePanDetector, PanStep};

#[test]
fn pan_starts_after_the_minimum_distance_and_follows_the_finger() {
    let mut rec: TouchesRecord<i32> = TouchesRecord::new(0, 0);
    let mut pan: GesturePanDetector<i32> = GesturePanDetector::new(0, 0);
    rec.update_touch_at(touch(1, TouchState::Start, 10), 10);
    assert!(matches!(pan.detect(&rec, false, 10), PanStep::Idle));
    assert_eq!(pan.start_position(), 10);
    // Not far enough yet.
    rec.update_touch_at(touch(1, TouchState::Move, 12), 20);
    assert!(matches!(pan.detect(&rec, false, 20), PanStep::Idle));
    // Far enough: panning starts from where the finger was placed.
    rec.update_touch_at(touch(1, TouchState::Move, 30), 30);
    assert!(matches!(pan.detect(&rec, true, 30), PanStep::Start { start_position: 10 }));
    // Later moves report where the finger came from.
    rec.update_touch_at(touch(1, TouchState::Move, 35), 40);
    assert!(matches!(
        pan.detect(&rec, true, 40),
        PanStep::Move { start_position: 10, position: 35, previous: 30 }
    ));
    rec.update_touch_at(touch(1, TouchState::Move, 33), 50);
    assert!(matches!(
        pan.detect(&rec, false, 50),
        PanStep::Move { start_position: 10, position: 33, previous: 35 }
    ));
    // A cancelled touch stops the pan.
    rec.update_touch_at(touch(1, TouchState::Cancel, 33), 60);
    assert!(matches!(pan.detect(&rec, true, 60), PanStep::Idle));
}

#[test]
fn pan_needs_a_single_finger() {
    let mut rec: TouchesRecord<i32> = TouchesRecord::new(0, 0);
    let mut pan: GesturePanDetector<i32> = GesturePanDetector::new(0, 0);
    rec.update_touch_at(touch(1, TouchState::Start, 0), 10);
    assert!(matches!(pan.detect(&rec, false, 10), PanStep::Idle));
    rec.update_touch_at(touch(1, TouchState::Move, 50), 20);
    assert!(matches!(pan.detect(&rec, true, 20), PanStep::Start { start_position: 0 }));
    // A second finger breaks the pan off, and the detector starts over.
    rec.update_touch_at(touch(2, TouchState::Start, 5), 30);
    assert!(matches!(pan.detect(&rec, true, 30), PanStep::Idle));
}
