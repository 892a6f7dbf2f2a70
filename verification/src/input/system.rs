//! The state of all input devices together, as the window's input events
//! change it, and the queries on it. A mouse button may stand in for a finger
//! on the touch screen (touch emulation).
use vstd::prelude::*;
use super::keyboard::{Key, Keyboard, KeyboardParams, KeyDownState, repeats};
use super::mouse::{ClickDetector, ClickTimeouts, MouseButton, MouseButtons};
use super::touchpad::{TouchEvent, TouchState, TouchesRecord, touch_applied, MAX_TOUCHES};
use crate::time::{elapsed, timestamp_now};

verus! {

/// The finger id that a mouse button takes when it stands in for a finger.
pub const EMULATED_TOUCH_ID: u8 = 255;

/// Builds a `String` of `chars`, in order.
#[verifier::external_body]
fn string_from_chars(chars: &[char]) -> (r: String)
    ensures
        r@ == chars@,
{
    String::from_iter(chars.iter())
}

/// The keyboard, the mouse buttons and the touch screen.
pub struct InputSystemShared<P> {
    touch_emulation: bool,
    touch_emulation_button: Option<MouseButton>,
    keyboard: Keyboard,
    mouse: MouseButtons,
    touches: TouchesRecord<P>,
    blank: P,
}

impl<P: Copy> InputSystemShared<P> {
    pub closed spec fn keyboard(&self) -> Keyboard {
        self.keyboard
    }

    pub closed spec fn mouse(&self) -> MouseButtons {
        self.mouse
    }

    pub closed spec fn touches(&self) -> TouchesRecord<P> {
        self.touches
    }

    /// Whether a pressed mouse button stands in for a finger.
    pub closed spec fn emulation(&self) -> bool {
        self.touch_emulation
    }

    /// The mouse button that stands in for a finger at the moment.
    pub closed spec fn emulation_button(&self) -> Option<MouseButton> {
        self.touch_emulation_button
    }

    /// The position that the touch record is filled with when it is emptied.
    pub closed spec fn blank(&self) -> P {
        self.blank
    }

    pub closed spec fn wf(&self) -> bool {
        &&& self.keyboard.wf()
        &&& self.mouse.wf()
        &&& self.touches.wf()
    }

    /// Input state with nothing held, pressed or touched. `blank` is the
    /// position the empty touch record holds.
    pub fn new(keyboard: KeyboardParams, touch_emulation: bool, blank: P) -> (r: Self)
        ensures
            r.wf(),
            r.keyboard().downs() == Map::<Key, KeyDownState>::empty(),
            r.keyboard().presses() == Set::<Key>::empty(),
            r.keyboard().releases() == Set::<Key>::empty(),
            r.keyboard().chars() == Seq::<char>::empty(),
            r.keyboard().params() == keyboard,
            r.mouse().downs() == Set::<MouseButton>::empty(),
            r.mouse().presses() == Set::<MouseButton>::empty(),
            r.mouse().releases() == Set::<MouseButton>::empty(),
            r.mouse().detectors() == Map::<MouseButton, ClickDetector>::empty(),
            r.touches().active() == 0,
            r.emulation() == touch_emulation,
            r.emulation_button() is None,
            r.blank() == blank,
    {
        let now = timestamp_now();
        InputSystemShared {
            touch_emulation,
            touch_emulation_button: None,
            keyboard: Keyboard::new(keyboard),
            mouse: MouseButtons::new(),
            touches: TouchesRecord::new(now, blank),
            blank,
        }
    }

    /// Resets every device to its initial state; no mouse button stands in
    /// for a finger any more.
    pub fn reset(&mut self)
        requires
            old(self).wf(),
        ensures
            final(self).wf(),
            final(self).keyboard().downs() == Map::<Key, KeyDownState>::empty(),
            final(self).keyboard().presses() == Set::<Key>::empty(),
            final(self).keyboard().releases() == Set::<Key>::empty(),
            final(self).keyboard().chars() == Seq::<char>::empty(),
            final(self).keyboard().params() == old(self).keyboard().params(),
            final(self).mouse().downs() == Set::<MouseButton>::empty(),
            final(self).mouse().presses() == Set::<MouseButton>::empty(),
            final(self).mouse().releases() == Set::<MouseButton>::empty(),
            final(self).mouse().detectors() == old(self).mouse().detectors().map_values(
                |d: ClickDetector| ClickDetector { clicks: 0, frame_clicks: 0, ..d },
            ),
            final(self).touches().active() == 0,
            final(self).touches().slots().len() == MAX_TOUCHES + 1,
            forall|k: int|
                0 <= k < MAX_TOUCHES + 1 ==> #[trigger] final(self).touches().slots()[k] == (
                    final(self).touches().slots()[0].0,
                    TouchEvent { id: 0u8, state: TouchState::End, position: old(self).blank() },
                ),
            final(self).emulation() == old(self).emulation(),
            final(self).emulation_button() is None,
            final(self).blank() == old(self).blank(),
    {
        self.mouse.reset();
        self.keyboard.reset();
        let now = timestamp_now();
        self.touches.reset(now, self.blank);
        self.touch_emulation_button = None;
    }

    /// Starts a new frame: the presses, releases, clicks and characters of
    /// the last frame are dropped and held keys move on.
    pub fn advance(&mut self)
        requires
            old(self).wf(),
        ensures
            final(self).wf(),
            final(self).keyboard().downs() == old(self).keyboard().downs().map_values(
                |s: KeyDownState| super::keyboard::advance_down(s, old(self).keyboard().now(), old(self).keyboard().params()),
            ),
            final(self).keyboard().presses() == Set::<Key>::empty(),
            final(self).keyboard().releases() == Set::<Key>::empty(),
            final(self).keyboard().chars() == Seq::<char>::empty(),
            final(self).keyboard().params() == old(self).keyboard().params(),
            final(self).mouse().downs() == old(self).mouse().downs(),
            final(self).mouse().presses() == Set::<MouseButton>::empty(),
            final(self).mouse().releases() == Set::<MouseButton>::empty(),
            final(self).mouse().detectors() == old(self).mouse().detectors().map_values(
                |d: ClickDetector| ClickDetector { frame_clicks: 0, ..d },
            ),
            final(self).touches() == old(self).touches(),
            final(self).emulation() == old(self).emulation(),
            final(self).emulation_button() == old(self).emulation_button(),
            final(self).blank() == old(self).blank(),
    {
        self.mouse.advance();
        self.keyboard.advance();
    }

    /// A key goes down.
    pub fn on_key_pressed(&mut self, key: Key)
        requires
            old(self).wf(),
        ensures
            final(self).wf(),
            old(self).keyboard().downs().contains_key(key) ==> final(self).keyboard() == old(self).keyboard(),
            !old(self).keyboard().downs().contains_key(key) ==> {
                &&& final(self).keyboard().downs() == old(self).keyboard().downs().insert(
                    key,
                    KeyDownState::Start(old(self).keyboard().now()),
                )
                &&& final(self).keyboard().presses() == old(self).keyboard().presses().insert(key)
                &&& final(self).keyboard().releases() == old(self).keyboard().releases()
                &&& final(self).keyboard().chars() == old(self).keyboard().chars()
                &&& final(self).keyboard().params() == old(self).keyboard().params()
                &&& final(self).keyboard().now() == old(self).keyboard().now()
            },
            final(self).mouse() == old(self).mouse(),
            final(self).touches() == old(self).touches(),
            final(self).emulation_button() == old(self).emulation_button(),
            final(self).emulation() == old(self).emulation(),
            final(self).blank() == old(self).blank(),
    {
        self.keyboard.on_key_pressed(key);
    }

    /// A key goes up.
    pub fn on_key_released(&mut self, key: Key)
        requires
            old(self).wf(),
        ensures
            final(self).wf(),
            final(self).keyboard().downs() == old(self).keyboard().downs().remove(key),
            final(self).keyboard().releases() == old(self).keyboard().releases().insert(key),
            final(self).keyboard().presses() == old(self).keyboard().presses(),
            final(self).keyboard().chars() == old(self).keyboard().chars(),
            final(self).keyboard().params() == old(self).keyboard().params(),
            final(self).keyboard().now() == old(self).keyboard().now(),
            final(self).mouse() == old(self).mouse(),
            final(self).touches() == old(self).touches(),
            final(self).emulation_button() == old(self).emulation_button(),
            final(self).emulation() == old(self).emulation(),
            final(self).blank() == old(self).blank(),
    {
        self.keyboard.on_key_released(key);
    }

    /// A character was typed; it is kept while there is room.
    pub fn on_char(&mut self, c: char)
        requires
            old(self).wf(),
        ensures
            final(self).wf(),
            final(self).keyboard().chars() == if old(self).keyboard().chars().len() < old(
                self,
            ).keyboard().params().max_chars {
                old(self).keyboard().chars().push(c)
            } else {
                old(self).keyboard().chars()
            },
            final(self).keyboard().downs() == old(self).keyboard().downs(),
            final(self).keyboard().presses() == old(self).keyboard().presses(),
            final(self).keyboard().releases() == old(self).keyboard().releases(),
            final(self).keyboard().params() == old(self).keyboard().params(),
            final(self).keyboard().now() == old(self).keyboard().now(),
            final(self).mouse() == old(self).mouse(),
            final(self).touches() == old(self).touches(),
            final(self).emulation_button() == old(self).emulation_button(),
            final(self).emulation() == old(self).emulation(),
            final(self).blank() == old(self).blank(),
    {
        self.keyboard.on_char(c);
    }

    /// A finger touches, moves on or leaves the screen.
    pub fn on_touch(&mut self, id: u8, state: TouchState, position: P)
        requires
            old(self).wf(),
        ensures
            final(self).wf(),
            touch_applied(
                final(self).touches().slots(),
                old(self).touches().slots(),
                old(self).touches().active(),
                TouchEvent { id, state, position },
            ),
            final(self).keyboard() == old(self).keyboard(),
            final(self).mouse() == old(self).mouse(),
            final(self).emulation_button() == old(self).emulation_button(),
            final(self).emulation() == old(self).emulation(),
            final(self).blank() == old(self).blank(),
    {
        self.touches.update_touch(TouchEvent { id, state, position });
    }

    /// The cursor moves away from `position`, where the mouse state had it.
    /// While a button stands in for a finger, the finger moves there.
    pub fn on_mouse_moved(&mut self, position: P)
        requires
            old(self).wf(),
        ensures
            final(self).wf(),
            old(self).emulation_button() is Some ==> touch_applied(
                final(self).touches().slots(),
                old(self).touches().slots(),
                old(self).touches().active(),
                TouchEvent { id: EMULATED_TOUCH_ID, state: TouchState::Move, position },
            ),
            old(self).emulation_button() is None ==> final(self).touches() == old(self).touches(),
            final(self).keyboard() == old(self).keyboard(),
            final(self).mouse() == old(self).mouse(),
            final(self).emulation_button() == old(self).emulation_button(),
            final(self).emulation() == old(self).emulation(),
            final(self).blank() == old(self).blank(),
    {
        if self.touch_emulation_button.is_some() {
            self.touches.update_touch(TouchEvent { id: EMULATED_TOUCH_ID, state: TouchState::Move, position });
        }
    }

    /// A mouse button goes down at `now`, the cursor at `position`. Under
    /// touch emulation the button starts to stand in for a finger there.
    /// `far_from_last_click` tells whether the cursor lies farther than the
    /// click distance from the last click of this button.
    pub fn on_mouse_pressed(
        &mut self,
        button: MouseButton,
        position: P,
        now: u64,
        t: ClickTimeouts,
        far_from_last_click: bool,
    )
        requires
            old(self).wf(),
        ensures
            final(self).wf(),
            old(self).emulation() ==> {
                &&& final(self).emulation_button() == Some(button)
                &&& touch_applied(
                    final(self).touches().slots(),
                    old(self).touches().slots(),
                    old(self).touches().active(),
                    TouchEvent { id: EMULATED_TOUCH_ID, state: TouchState::Start, position },
                )
            },
            !old(self).emulation() ==> {
                &&& final(self).emulation_button() == old(self).emulation_button()
                &&& final(self).touches() == old(self).touches()
            },
            final(self).mouse().downs() == old(self).mouse().downs().insert(button),
            old(self).mouse().downs().contains(button) ==> final(self).mouse().presses() == old(
                self,
            ).mouse().presses(),
            !old(self).mouse().downs().contains(button) ==> final(self).mouse().presses() == old(
                self,
            ).mouse().presses().insert(button),
            final(self).mouse().releases() == old(self).mouse().releases(),
            final(self).mouse().detectors() == old(self).mouse().detectors().insert(
                button,
                super::mouse::pressed(
                    if old(self).mouse().detectors().contains_key(button) {
                        old(self).mouse().detectors()[button]
                    } else {
                        ClickDetector::new_spec(now)
                    },
                    now,
                    t,
                    far_from_last_click,
                ),
            ),
            final(self).keyboard() == old(self).keyboard(),
            final(self).emulation() == old(self).emulation(),
            final(self).blank() == old(self).blank(),
    {
        if self.touch_emulation {
            self.touch_emulation_button = Some(button);
            self.touches.update_touch(TouchEvent { id: EMULATED_TOUCH_ID, state: TouchState::Start, position });
        }
        self.mouse.on_button_pressed(button, now, t, far_from_last_click);
    }

    /// A mouse button goes up at `now`, the cursor at `position`. If it stood
    /// in for a finger, that finger leaves the screen there. `near_press`
    /// tells whether the cursor lies within the press distance of where the
    /// button went down; the result tells whether the release completed a click.
    pub fn on_mouse_released(
        &mut self,
        button: MouseButton,
        position: P,
        now: u64,
        t: ClickTimeouts,
        near_press: bool,
    ) -> (r: bool)
        requires
            old(self).wf(),
            old(self).mouse().detectors().contains_key(button) ==> old(self).mouse().detectors()[button].clicks
                < u32::MAX,
        ensures
            final(self).wf(),
            r == (elapsed(
                now,
                (if old(self).mouse().detectors().contains_key(button) {
                    old(self).mouse().detectors()[button]
                } else {
                    ClickDetector::new_spec(now)
                }).last_press_time,
            ) < t.press_timeout && near_press),
            old(self).emulation_button() == Some(button) ==> {
                &&& final(self).emulation_button() is None
                &&& touch_applied(
                    final(self).touches().slots(),
                    old(self).touches().slots(),
                    old(self).touches().active(),
                    TouchEvent { id: EMULATED_TOUCH_ID, state: TouchState::End, position },
                )
            },
            old(self).emulation_button() != Some(button) ==> {
                &&& final(self).emulation_button() == old(self).emulation_button()
                &&& final(self).touches() == old(self).touches()
            },
            final(self).mouse().downs() == old(self).mouse().downs().remove(button),
            final(self).mouse().releases() == old(self).mouse().releases().insert(button),
            final(self).mouse().presses() == old(self).mouse().presses(),
            final(self).mouse().detectors() == old(self).mouse().detectors().insert(
                button,
                super::mouse::released(
                    if old(self).mouse().detectors().contains_key(button) {
                        old(self).mouse().detectors()[button]
                    } else {
                        ClickDetector::new_spec(now)
                    },
                    now,
                    t,
                    near_press,
                ),
            ),
            final(self).keyboard() == old(self).keyboard(),
            final(self).emulation() == old(self).emulation(),
            final(self).blank() == old(self).blank(),
    {
        if self.touch_emulation_button == Some(button) {
            self.touch_emulation_button = None;
            self.touches.update_touch(TouchEvent { id: EMULATED_TOUCH_ID, state: TouchState::End, position });
        }
        self.mouse.on_button_released(button, now, t, near_press)
    }
}

impl<P: Copy> InputSystemShared<P> {
    /// The record of the fingers on the touch screen.
    pub fn touch_record(&self) -> (r: &TouchesRecord<P>)
        ensures
            *r == self.touches(),
    {
        &self.touches
    }

    /// Whether a pressed mouse button stands in for a finger.
    pub fn touch_emulation(&self) -> (r: bool)
        ensures
            r == self.emulation(),
    {
        self.touch_emulation
    }

    /// The mouse button that stands in for a finger at the moment.
    pub fn touch_emulation_button(&self) -> (r: Option<MouseButton>)
        ensures
            r == self.emulation_button(),
    {
        self.touch_emulation_button
    }

    /// Returns true if a keyboard is attached; one is always taken to be.
    pub fn has_keyboard_attached(&self) -> (r: bool)
        ensures
            r,
    {
        true
    }

    /// Checks if a key is currently held down.
    pub fn is_key_down(&self, key: Key) -> (r: bool)
        requires
            self.wf(),
        ensures
            r == self.keyboard().downs().contains_key(key),
    {
        self.keyboard.is_key_down(key)
    }

    /// Checks if a key has been pressed down during the last frame.
    pub fn is_key_press(&self, key: Key) -> (r: bool)
        ensures
            r == self.keyboard().presses().contains(key),
    {
        self.keyboard.is_key_press(key)
    }

    /// The keys pressed down during the last frame, each once.
    pub fn key_presses(&self) -> (r: Vec<Key>)
        requires
            self.wf(),
        ensures
            r@.no_duplicates(),
            r@.to_set() == self.keyboard().presses(),
    {
        self.keyboard.key_presses()
    }

    /// Checks if a key has been released during the last frame.
    pub fn is_key_release(&self, key: Key) -> (r: bool)
        ensures
            r == self.keyboard().releases().contains(key),
    {
        self.keyboard.is_key_release(key)
    }

    /// The keys released during the last frame, each once.
    pub fn key_releases(&self) -> (r: Vec<Key>)
        requires
            self.wf(),
        ensures
            r@.no_duplicates(),
            r@.to_set() == self.keyboard().releases(),
    {
        self.keyboard.key_releases()
    }

    /// Checks if a held key repeats during the last frame.
    pub fn is_key_repeat(&self, key: Key) -> (r: bool)
        requires
            self.wf(),
        ensures
            r == (self.keyboard().downs().contains_key(key) && repeats(
                self.keyboard().downs()[key],
                self.keyboard().now(),
                self.keyboard().params(),
            )),
    {
        self.keyboard.is_key_repeat(key)
    }

    /// Gets captured text during the last frame.
    pub fn text(&self) -> (r: String)
        ensures
            r@ == self.keyboard().chars(),
            self.wf() ==> r@.len() <= self.keyboard().params().max_chars,
    {
        proof {
            if self.wf() {
                self.keyboard.lemma_chars_bounded();
            }
        }
        string_from_chars(self.keyboard.captured_chars())
    }

    /// Returns true if a mouse is attached; one is always taken to be.
    pub fn has_mouse_attached(&self) -> (r: bool)
        ensures
            r,
    {
        true
    }

    /// Checks if a mouse button is held down.
    pub fn is_mouse_down(&self, button: MouseButton) -> (r: bool)
        ensures
            r == self.mouse().downs().contains(button),
    {
        self.mouse.is_button_down(button)
    }

    /// Checks if a mouse button has been pressed during last frame.
    pub fn is_mouse_press(&self, button: MouseButton) -> (r: bool)
        ensures
            r == self.mouse().presses().contains(button),
    {
        self.mouse.is_button_press(button)
    }

    /// The mouse buttons pressed during last frame, each once.
    pub fn mouse_presses(&self) -> (r: Vec<MouseButton>)
        requires
            self.wf(),
        ensures
            r@.no_duplicates(),
            r@.to_set() == self.mouse().presses(),
    {
        self.mouse.button_presses()
    }

    /// Checks if a mouse button has been released during last frame.
    pub fn is_mouse_release(&self, button: MouseButton) -> (r: bool)
        ensures
            r == self.mouse().releases().contains(button),
    {
        self.mouse.is_button_release(button)
    }

    /// The mouse buttons released during last frame, each once.
    pub fn mouse_releases(&self) -> (r: Vec<MouseButton>)
        requires
            self.wf(),
        ensures
            r@.no_duplicates(),
            r@.to_set() == self.mouse().releases(),
    {
        self.mouse.button_releases()
    }

    /// The clicks of a mouse button counted in a row so far.
    pub fn consecutive_clicks(&self, button: MouseButton) -> (r: u32)
        requires
            self.wf(),
        ensures
            r == (if self.mouse().detectors().contains_key(button) {
                self.mouse().detectors()[button].clicks
            } else {
                0
            }),
    {
        self.mouse.consecutive_clicks(button)
    }

    /// Checks if a mouse button has been clicked during last frame.
    pub fn is_mouse_click(&self, button: MouseButton) -> (r: bool)
        requires
            self.wf(),
        ensures
            r == (self.mouse().detectors().contains_key(button)
                && self.mouse().detectors()[button].frame_clicks > 0),
    {
        self.mouse.is_button_click(button)
    }

    /// Checks if a mouse button has been double clicked during last frame.
    pub fn is_mouse_double_click(&self, button: MouseButton) -> (r: bool)
        requires
            self.wf(),
        ensures
            r == (self.mouse().detectors().contains_key(button)
                && self.mouse().detectors()[button].frame_clicks > 0
                && self.mouse().detectors()[button].frame_clicks % 2 == 0),
    {
        self.mouse.is_button_double_click(button)
    }

    /// Returns true if a touch screen is attached; one is always taken to be.
    pub fn has_touchpad_attached(&self) -> (r: bool)
        ensures
            r,
    {
        true
    }

    /// Returns true if the `n`th finger is on the screen.
    pub fn is_finger_touched(&self, n: usize) -> (r: bool)
        requires
            self.wf(),
        ensures
            r == (n < self.touches().active()),
    {
        self.touches.position(n).is_some()
    }

    /// Returns the position of the `n`th finger on the screen.
    pub fn finger_position(&self, n: usize) -> (r: Option<P>)
        requires
            self.wf(),
        ensures
            r == (if n < self.touches().active() {
                Some(self.touches().slots()[n as int].1.position)
            } else {
                None
            }),
    {
        self.touches.position(n)
    }
}

} // verus!
