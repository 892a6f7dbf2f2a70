//! Provides unified access to input devices: the state of the keyboard, the
//! mouse buttons and the touch screen.
//!
//! The functions at this level answer the same questions as the methods of
//! `InputSystemShared`, on the input state they are given.
pub mod assoc;
pub mod event;
pub mod touchpad;
pub mod keyboard;
pub mod mouse;
pub mod system;

use vstd::prelude::*;
use self::keyboard::{Key, repeats};
use self::mouse::MouseButton;
use self::system::InputSystemShared;

verus! {

/// Reset input to initial states.
pub fn reset<P: Copy>(sys: &mut InputSystemShared<P>)
    requires
        old(sys).wf(),
    ensures
        final(sys).wf(),
        final(sys).keyboard().downs().is_empty(),
        final(sys).keyboard().presses().is_empty(),
        final(sys).keyboard().releases().is_empty(),
        final(sys).keyboard().chars().len() == 0,
        final(sys).mouse().downs().is_empty(),
        final(sys).mouse().presses().is_empty(),
        final(sys).mouse().releases().is_empty(),
        final(sys).touches().active() == 0,
        final(sys).emulation_button() is None,
{
    sys.reset();
}

/// Returns true if a keyboard is attached.
pub fn has_keyboard_attached<P: Copy>(sys: &InputSystemShared<P>) -> (r: bool)
    ensures
        r,
{
    sys.has_keyboard_attached()
}

/// Checks if a key is currently held down.
pub fn is_key_down<P: Copy>(sys: &InputSystemShared<P>, key: Key) -> (r: bool)
    requires
        sys.wf(),
    ensures
        r == sys.keyboard().downs().contains_key(key),
{
    sys.is_key_down(key)
}

/// Checks if a key has been pressed down during the last frame.
pub fn is_key_press<P: Copy>(sys: &InputSystemShared<P>, key: Key) -> (r: bool)
    ensures
        r == sys.keyboard().presses().contains(key),
{
    sys.is_key_press(key)
}

/// The keys pressed down during the last frame, each once.
pub fn key_presses<P: Copy>(sys: &InputSystemShared<P>) -> (r: Vec<Key>)
    requires
        sys.wf(),
    ensures
        r@.no_duplicates(),
        r@.to_set() == sys.keyboard().presses(),
{
    sys.key_presses()
}

/// Checks if a key has been released during the last frame.
pub fn is_key_release<P: Copy>(sys: &InputSystemShared<P>, key: Key) -> (r: bool)
    ensures
        r == sys.keyboard().releases().contains(key),
{
    sys.is_key_release(key)
}

/// The keys released during the last frame, each once.
pub fn key_releases<P: Copy>(sys: &InputSystemShared<P>) -> (r: Vec<Key>)
    requires
        sys.wf(),
    ensures
        r@.no_duplicates(),
        r@.to_set() == sys.keyboard().releases(),
{
    sys.key_releases()
}

/// Checks if a key has been repeated during the last frame.
pub fn is_key_repeat<P: Copy>(sys: &InputSystemShared<P>, key: Key) -> (r: bool)
    requires
        sys.wf(),
    ensures
        r == (sys.keyboard().downs().contains_key(key) && repeats(
            sys.keyboard().downs()[key],
            sys.keyboard().now(),
            sys.keyboard().params(),
        )),
{
    sys.is_key_repeat(key)
}

/// Gets captured text during the last frame.
pub fn text<P: Copy>(sys: &InputSystemShared<P>) -> (r: String)
    ensures
        r@ == sys.keyboard().chars(),
        sys.wf() ==> r@.len() <= sys.keyboard().params().max_chars,
{
    sys.text()
}

/// Returns true if a mouse is attached.
pub fn has_mouse_attached<P: Copy>(sys: &InputSystemShared<P>) -> (r: bool)
    ensures
        r,
{
    sys.has_mouse_attached()
}

/// Checks if a mouse button is held down.
pub fn is_mouse_down<P: Copy>(sys: &InputSystemShared<P>, button: MouseButton) -> (r: bool)
    ensures
        r == sys.mouse().downs().contains(button),
{
    sys.is_mouse_down(button)
}

/// Checks if a mouse button has been pressed during last frame.
pub fn is_mouse_press<P: Copy>(sys: &InputSystemShared<P>, button: MouseButton) -> (r: bool)
    ensures
        r == sys.mouse().presses().contains(button),
{
    sys.is_mouse_press(button)
}

/// The mouse buttons pressed during last frame, each once.
pub fn mouse_presses<P: Copy>(sys: &InputSystemShared<P>) -> (r: Vec<MouseButton>)
    requires
        sys.wf(),
    ensures
        r@.no_duplicates(),
        r@.to_set() == sys.mouse().presses(),
{
    sys.mouse_presses()
}

/// Checks if a mouse button has been released during last frame.
pub fn is_mouse_release<P: Copy>(sys: &InputSystemShared<P>, button: MouseButton) -> (r: bool)
    ensures
        r == sys.mouse().releases().contains(button),
{
    sys.is_mouse_release(button)
}

/// The mouse buttons released during last frame, each once.
pub fn mouse_releases<P: Copy>(sys: &InputSystemShared<P>) -> (r: Vec<MouseButton>)
    requires
        sys.wf(),
    ensures
        r@.no_duplicates(),
        r@.to_set() == sys.mouse().releases(),
{
    sys.mouse_releases()
}

/// Checks if a mouse button has been clicked during last frame.
pub fn is_mouse_click<P: Copy>(sys: &InputSystemShared<P>, button: MouseButton) -> (r: bool)
    requires
        sys.wf(),
    ensures
        r == (sys.mouse().detectors().contains_key(button) && sys.mouse().detectors()[button].frame_clicks
            > 0),
{
    sys.is_mouse_click(button)
}

/// Checks if a mouse button has been double clicked during last frame.
pub fn is_mouse_double_click<P: Copy>(sys: &InputSystemShared<P>, button: MouseButton) -> (r: bool)
    requires
        sys.wf(),
    ensures
        r == (sys.mouse().detectors().contains_key(button) && sys.mouse().detectors()[button].frame_clicks
            > 0 && sys.mouse().detectors()[button].frame_clicks % 2 == 0),
{
    sys.is_mouse_double_click(button)
}

/// Returns true if a touch screen is attached.
pub fn has_touchpad_attached<P: Copy>(sys: &InputSystemShared<P>) -> (r: bool)
    ensures
        r,
{
    sys.has_touchpad_attached()
}

/// Checks if the `n`th finger is on the screen.
pub fn is_finger_touched<P: Copy>(sys: &InputSystemShared<P>, n: usize) -> (r: bool)
    requires
        sys.wf(),
    ensures
        r == (n < sys.touches().active()),
{
    sys.is_finger_touched(n)
}

/// Gets the position of the `n`th finger on the screen.
pub fn finger_position<P: Copy>(sys: &InputSystemShared<P>, n: usize) -> (r: Option<P>)
    requires
        sys.wf(),
    ensures
        r == (if n < sys.touches().active() {
            Some(sys.touches().slots()[n as int].1.position)
        } else {
            None
        }),
{
    sys.finger_position(n)
}

} // verus!
