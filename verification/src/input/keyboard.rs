//! Keyboard state: which keys are held, which were pressed or released during
//! the last frame, and the characters typed during it.
use vstd::prelude::*;
use super::assoc::{assoc_map, has_key, keys_unique, lemma_assoc_at, lemma_assoc_map_values, lemma_assoc_push, lemma_assoc_remove, lemma_set_push};
use crate::time::{elapsed, elapsed_ms, timestamp_now};

verus! {

/// The setup parameters of keyboard device; durations are in milliseconds.
#[derive(Debug, Clone, Copy, PartialEq, Eq, Structural)]
pub struct KeyboardParams {
    /// The maximum characters that could be captured in one frame.
    pub max_chars: usize,
    /// The time duration before a pressing is recognized as repeat operation.
    pub repeat_timeout: u64,
    /// The interval time duration between triggering repeat events.
    pub repeat_interval_timeout: u64,
}

impl Default for KeyboardParams {
    fn default() -> (r: Self)
        ensures
            r.max_chars == 128,
            r.repeat_timeout == 500,
            r.repeat_interval_timeout == 250,
    {
        KeyboardParams { max_chars: 128, repeat_timeout: 500, repeat_interval_timeout: 250 }
    }
}

/// Symbolic name for a keyboard key.
#[derive(Copy, Clone, Eq, PartialEq, Ord, PartialOrd, Hash, Debug, Structural)]
pub enum Key {
    /// The '1' key over the letters.
    Key1,
    /// The '2' key over the letters.
    Key2,
    /// The '3' key over the letters.
    Key3,
    /// The '4' key over the letters.
    Key4,
    /// The '5' key over the letters.
    Key5,
    /// The '6' key over the letters.
    Key6,
    /// The '7' key over the letters.
    Key7,
    /// The '8' key over the letters.
    Key8,
    /// The '9' key over the letters.
    Key9,
    /// The '0' key over the 'O' and 'P' keys.
    Key0,

    A,
    B,
    C,
    D,
    E,
    F,
    G,
    H,
    I,
    J,
    K,
    L,
    M,
    N,
    O,
    P,
    Q,
    R,
    S,
    T,
    U,
    V,
    W,
    X,
    Y,
    Z,

    /// The Escape key, next to F1.
    Escape,

    F1,
    F2,
    F3,
    F4,
    F5,
    F6,
    F7,
    F8,
    F9,
    F10,
    F11,
    F12,
    F13,
    F14,
    F15,

    /// Print Screen/SysRq.
    Snapshot,
    /// Scroll Lock.
    Scroll,
    /// Pause/Break key, next to Scroll lock.
    Pause,

    /// `Insert`, next to Backspace.
    Insert,
    Home,
    Delete,
    End,
    PageDown,
    PageUp,

    Left,
    Up,
    Right,
    Down,

    /// The Backspace key, right over Enter.
    // TODO: rename
    Back,
    /// The Enter key.
    Return,
    /// The space bar.
    Space,

    /// The "Compose" key on Linux.
    Compose,

    Caret,

    Numlock,
    Numpad0,
    Numpad1,
    Numpad2,
    Numpad3,
    Numpad4,
    Numpad5,
    Numpad6,
    Numpad7,
    Numpad8,
    Numpad9,

    Add,
    Backslash,
    Calculator,
    Capital,
    Colon,
    Comma,
    Convert,
    Decimal,
    Divide,
    Equals,
    LAlt,
    LBracket,
    LControl,
    LShift,
    LWin,
    Minus,
    Multiply,
    Mute,
    NavigateForward,  // also called "Prior"
    NavigateBackward, // also called "Next"
    NumpadComma,
    NumpadEnter,
    NumpadEquals,
    Period,
    PlayPause,
    Power,
    PrevTrack,
    RAlt,
    RBracket,
    RControl,
    RShift,
    RWin,
    Semicolon,
    Slash,
    Sleep,
    Stop,
    Subtract,
    Tab,
    Underline,
    Unlabeled,
    VolumeDown,
    VolumeUp,
    Wake,
}

/// Since when a key is held: it was pressed at `Start(t)`, or it last repeated
/// at `Press(t)`.
#[derive(Copy, Clone, Eq, PartialEq, Debug, Structural)]
pub enum KeyDownState {
    Start(u64),
    Press(u64),
}

/// How a held key's state moves on at the frame boundary `ts`.
pub open spec fn advance_down(s: KeyDownState, ts: u64, p: KeyboardParams) -> KeyDownState {
    match s {
        KeyDownState::Start(t) => if elapsed(ts, t) > p.repeat_timeout {
            KeyDownState::Press(t)
        } else {
            s
        },
        KeyDownState::Press(t) => if elapsed(ts, t) > p.repeat_interval_timeout {
            KeyDownState::Press(ts)
        } else {
            s
        },
    }
}

/// A key that already repeated repeats again exactly when more than
/// `repeat_interval_timeout` has passed since its last repeat, whatever the
/// delay before the first repeat.
pub proof fn law_repeats_once_per_interval(t: u64, now: u64, p: KeyboardParams)
    ensures
        repeats(KeyDownState::Press(t), now, p) <==> now > t && now - t > p.repeat_interval_timeout,
{
}

/// A key just pressed repeats for the first time once more than
/// `repeat_timeout` has passed since the press.
pub proof fn law_first_repeat_after_repeat_timeout(t: u64, now: u64, p: KeyboardParams)
    ensures
        repeats(KeyDownState::Start(t), now, p) <==> now > t && now - t > p.repeat_timeout,
{
}

/// How often a key repeats depends only on the timeout that applies to its
/// state: `repeat_timeout` before the first repeat, `repeat_interval_timeout`
/// after it.
pub proof fn law_repeat_timeouts_apply_by_state(t: u64, now: u64, p1: KeyboardParams, p2: KeyboardParams)
    ensures
        p1.repeat_interval_timeout == p2.repeat_interval_timeout ==> repeats(KeyDownState::Press(t), now, p1)
            == repeats(KeyDownState::Press(t), now, p2) && advance_down(KeyDownState::Press(t), now, p1)
            == advance_down(KeyDownState::Press(t), now, p2),
        p1.repeat_timeout == p2.repeat_timeout ==> repeats(KeyDownState::Start(t), now, p1) == repeats(
            KeyDownState::Start(t),
            now,
            p2,
        ) && advance_down(KeyDownState::Start(t), now, p1) == advance_down(KeyDownState::Start(t), now, p2),
{
}

/// A held key repeats at a frame boundary exactly when its state moves on
/// there; a key that repeated is dated as repeated, and an undated repeat
/// leaves it pressed at its press time.
pub proof fn law_repeat_moves_state(s: KeyDownState, now: u64, p: KeyboardParams)
    ensures
        repeats(s, now, p) <==> advance_down(s, now, p) != s,
        repeats(s, now, p) ==> advance_down(s, now, p) is Press,
        s is Press && repeats(s, now, p) ==> advance_down(s, now, p) == KeyDownState::Press(now),
{
}

/// Whether a key in state `s` repeats at time `now`.
pub open spec fn repeats(s: KeyDownState, now: u64, p: KeyboardParams) -> bool {
    match s {
        KeyDownState::Start(t) => elapsed(now, t) > p.repeat_timeout,
        KeyDownState::Press(t) => elapsed(now, t) > p.repeat_interval_timeout,
    }
}

pub struct Keyboard {
    downs: Vec<(Key, KeyDownState)>,
    presses: Vec<Key>,
    releases: Vec<Key>,
    chars: Vec<char>,
    setup: KeyboardParams,
    now: u64,
}

impl Keyboard {
    /// The held keys, with the state of each.
    pub closed spec fn downs(&self) -> Map<Key, KeyDownState> {
        assoc_map(self.downs@)
    }

    /// The keys pressed during the current frame.
    pub closed spec fn presses(&self) -> Set<Key> {
        self.presses@.to_set()
    }

    /// The keys released during the current frame.
    pub closed spec fn releases(&self) -> Set<Key> {
        self.releases@.to_set()
    }

    /// The characters typed during the current frame.
    pub closed spec fn chars(&self) -> Seq<char> {
        self.chars@
    }

    pub closed spec fn params(&self) -> KeyboardParams {
        self.setup
    }

    /// The time at which the current frame started.
    pub closed spec fn now(&self) -> u64 {
        self.now
    }

    /// No key is held, recorded as pressed or recorded as released twice, and
    /// no more characters are kept than the setup allows.
    pub closed spec fn wf(&self) -> bool {
        &&& keys_unique(self.downs@)
        &&& self.presses@.no_duplicates()
        &&& self.releases@.no_duplicates()
        &&& self.chars@.len() <= self.setup.max_chars
    }

    /// A well-formed keyboard keeps at most `max_chars` characters per frame.
    pub proof fn lemma_chars_bounded(&self)
        requires
            self.wf(),
        ensures
            self.chars().len() <= self.params().max_chars,
    {
    }

    /// A keyboard with nothing held, whose frame starts at `now`.
    pub fn new_at(setup: KeyboardParams, now: u64) -> (r: Self)
        ensures
            r.wf(),
            r.downs() == Map::<Key, KeyDownState>::empty(),
            r.presses() == Set::<Key>::empty(),
            r.releases() == Set::<Key>::empty(),
            r.chars() == Seq::<char>::empty(),
            r.params() == setup,
            r.now() == now,
    {
        let r = Keyboard {
            setup,
            downs: Vec::new(),
            presses: Vec::new(),
            releases: Vec::new(),
            chars: Vec::with_capacity(setup.max_chars),
            now: now,
        };
        proof {
            assert(r.downs() =~= Map::<Key, KeyDownState>::empty());
            assert(r.presses() =~= Set::<Key>::empty());
            assert(r.releases() =~= Set::<Key>::empty());
        }
        r
    }

    /// A keyboard with nothing held, whose frame starts at the current time.
    pub fn new(setup: KeyboardParams) -> (r: Self)
        ensures
            r.wf(),
            r.downs() == Map::<Key, KeyDownState>::empty(),
            r.presses() == Set::<Key>::empty(),
            r.releases() == Set::<Key>::empty(),
            r.chars() == Seq::<char>::empty(),
            r.params() == setup,
    {
        Self::new_at(setup, timestamp_now())
    }

    /// Forgets every held, pressed and released key and every typed character.
    pub fn reset(&mut self)
        ensures
            final(self).wf(),
            final(self).downs() == Map::<Key, KeyDownState>::empty(),
            final(self).presses() == Set::<Key>::empty(),
            final(self).releases() == Set::<Key>::empty(),
            final(self).chars() == Seq::<char>::empty(),
            final(self).params() == old(self).params(),
            final(self).now() == old(self).now(),
    {
        self.downs.clear();
        self.presses.clear();
        self.releases.clear();
        self.chars.clear();
        proof {
            assert(self.downs() =~= Map::<Key, KeyDownState>::empty());
            assert(self.presses() =~= Set::<Key>::empty());
            assert(self.releases() =~= Set::<Key>::empty());
        }
    }

    /// Starts a new frame at `now`: the presses, releases and characters of the
    /// last frame are dropped, and every held key moves on as `advance_down`
    /// says, measured at the start of the last frame.
    pub fn advance_to(&mut self, now: u64)
        requires
            old(self).wf(),
        ensures
            final(self).wf(),
            final(self).downs() == old(self).downs().map_values(
                |s: KeyDownState| advance_down(s, old(self).now(), old(self).params()),
            ),
            final(self).presses() == Set::<Key>::empty(),
            final(self).releases() == Set::<Key>::empty(),
            final(self).chars() == Seq::<char>::empty(),
            final(self).params() == old(self).params(),
            final(self).now() == now,
    {
        self.presses.clear();
        self.releases.clear();
        self.chars.clear();
        let last_frame_ts = self.now;
        let ghost f = |s: KeyDownState| advance_down(s, last_frame_ts, self.setup);
        let ghost start = self.downs@;
        let mut i: usize = 0;
        while i < self.downs.len()
            invariant
                self.downs@.len() == start.len(),
                i <= start.len(),
                keys_unique(start),
                last_frame_ts == old(self).now,
                self.now == old(self).now,
                self.setup == old(self).setup,
                self.presses@ == Seq::<Key>::empty(),
                self.releases@ == Seq::<Key>::empty(),
                self.chars@ == Seq::<char>::empty(),
                f == (|s: KeyDownState| advance_down(s, last_frame_ts, self.setup)),
                forall|k: int| 0 <= k < i ==> #[trigger] self.downs@[k] == (start[k].0, f(start[k].1)),
                forall|k: int| i <= k < start.len() ==> #[trigger] self.downs@[k] == start[k],
            decreases start.len() - i,
        {
            let (key, st) = self.downs[i];
            let next = match st {
                KeyDownState::Start(ts) => {
                    if elapsed_ms(last_frame_ts, ts) > self.setup.repeat_timeout {
                        KeyDownState::Press(ts)
                    } else {
                        st
                    }
                },
                KeyDownState::Press(ts) => {
                    if elapsed_ms(last_frame_ts, ts) > self.setup.repeat_interval_timeout {
                        KeyDownState::Press(last_frame_ts)
                    } else {
                        st
                    }
                },
            };
            self.downs.set(i, (key, next));
            i += 1;
        }
        proof {
            lemma_assoc_map_values(start, self.downs@, f);
            assert(self.presses() =~= Set::<Key>::empty());
            assert(self.releases() =~= Set::<Key>::empty());
        }
        self.now = now;
    }

    /// Starts a new frame at the current time; see `advance_to`.
    pub fn advance(&mut self)
        requires
            old(self).wf(),
        ensures
            final(self).wf(),
            final(self).downs() == old(self).downs().map_values(
                |s: KeyDownState| advance_down(s, old(self).now(), old(self).params()),
            ),
            final(self).presses() == Set::<Key>::empty(),
            final(self).releases() == Set::<Key>::empty(),
            final(self).chars() == Seq::<char>::empty(),
            final(self).params() == old(self).params(),
    {
        let now = timestamp_now();
        self.advance_to(now);
    }

    fn find_down(&self, key: Key) -> (r: Option<usize>)
        ensures
            match r {
                Some(i) => i < self.downs@.len() && self.downs@[i as int].0 == key,
                None => !has_key(self.downs@, key),
            },
    {
        let mut i: usize = 0;
        while i < self.downs.len()
            invariant
                i <= self.downs@.len(),
                forall|k: int| 0 <= k < i ==> self.downs@[k].0 != key,
            decreases self.downs.len() - i,
        {
            if self.downs[i].0 == key {
                return Some(i);
            }
            i += 1;
        }
        None
    }

    /// A key goes down: unless it was held already, it is recorded as pressed
    /// and held since the start of the current frame.
    pub fn on_key_pressed(&mut self, key: Key)
        requires
            old(self).wf(),
        ensures
            final(self).wf(),
            old(self).downs().contains_key(key) ==> *final(self) == *old(self),
            !old(self).downs().contains_key(key) ==> {
                &&& final(self).downs() == old(self).downs().insert(key, KeyDownState::Start(old(self).now()))
                &&& final(self).presses() == old(self).presses().insert(key)
                &&& final(self).releases() == old(self).releases()
                &&& final(self).chars() == old(self).chars()
                &&& final(self).params() == old(self).params()
                &&& final(self).now() == old(self).now()
            },
    {
        match self.find_down(key) {
            Some(i) => {
                proof {
                    lemma_assoc_at(self.downs@, i as int);
                }
            },
            None => {
                insert_unique(&mut self.presses, key);
                proof {
                    lemma_assoc_push(self.downs@, key, KeyDownState::Start(self.now));
                }
                self.downs.push((key, KeyDownState::Start(self.now)));
            },
        }
    }

    /// A key goes up: it is no longer held, and is recorded as released.
    pub fn on_key_released(&mut self, key: Key)
        requires
            old(self).wf(),
        ensures
            final(self).wf(),
            final(self).downs() == old(self).downs().remove(key),
            final(self).releases() == old(self).releases().insert(key),
            final(self).presses() == old(self).presses(),
            final(self).chars() == old(self).chars(),
            final(self).params() == old(self).params(),
            final(self).now() == old(self).now(),
    {
        match self.find_down(key) {
            Some(i) => {
                proof {
                    lemma_assoc_remove(self.downs@, i as int);
                }
                self.downs.remove(i);
            },
            None => {
                assert(self.downs() =~= old(self).downs().remove(key));
            },
        }
        insert_unique(&mut self.releases, key);
    }

    /// A character is typed: it is kept unless the frame holds `max_chars`
    /// characters already.
    pub fn on_char(&mut self, c: char)
        requires
            old(self).wf(),
        ensures
            final(self).wf(),
            final(self).chars() == if old(self).chars().len() < old(self).params().max_chars {
                old(self).chars().push(c)
            } else {
                old(self).chars()
            },
            final(self).downs() == old(self).downs(),
            final(self).presses() == old(self).presses(),
            final(self).releases() == old(self).releases(),
            final(self).params() == old(self).params(),
            final(self).now() == old(self).now(),
    {
        if self.chars.len() < self.setup.max_chars {
            self.chars.push(c);
        }
    }

    pub fn is_key_down(&self, key: Key) -> (r: bool)
        requires
            self.wf(),
        ensures
            r == self.downs().contains_key(key),
    {
        match self.find_down(key) {
            Some(i) => {
                proof {
                    lemma_assoc_at(self.downs@, i as int);
                }
                true
            },
            None => false,
        }
    }

    pub fn is_key_press(&self, key: Key) -> (r: bool)
        ensures
            r == self.presses().contains(key),
    {
        contains_key(&self.presses, key)
    }

    /// The keys pressed during the current frame, each once.
    pub fn key_presses(&self) -> (r: Vec<Key>)
        requires
            self.wf(),
        ensures
            r@.no_duplicates(),
            r@.to_set() == self.presses(),
    {
        self.presses.clone()
    }

    pub fn is_key_release(&self, key: Key) -> (r: bool)
        ensures
            r == self.releases().contains(key),
    {
        contains_key(&self.releases, key)
    }

    /// The keys released during the current frame, each once.
    pub fn key_releases(&self) -> (r: Vec<Key>)
        requires
            self.wf(),
        ensures
            r@.no_duplicates(),
            r@.to_set() == self.releases(),
    {
        self.releases.clone()
    }

    /// Whether `key` is held and repeats at the start of the current frame.
    pub fn is_key_repeat(&self, key: Key) -> (r: bool)
        requires
            self.wf(),
        ensures
            r == (self.downs().contains_key(key) && repeats(self.downs()[key], self.now(), self.params())),
    {
        match self.find_down(key) {
            Some(i) => {
                proof {
                    lemma_assoc_at(self.downs@, i as int);
                }
                match self.downs[i].1 {
                    KeyDownState::Start(ts) => elapsed_ms(self.now, ts) > self.setup.repeat_timeout,
                    KeyDownState::Press(ts) => elapsed_ms(self.now, ts)
                        > self.setup.repeat_interval_timeout,
                }
            },
            None => false,
        }
    }

    pub fn captured_chars(&self) -> (r: &[char])
        ensures
            r@ == self.chars(),
    {
        self.chars.as_slice()
    }
}

fn contains_key(v: &Vec<Key>, key: Key) -> (r: bool)
    ensures
        r == v@.contains(key),
{
    let mut i: usize = 0;
    while i < v.len()
        invariant
            i <= v@.len(),
            forall|k: int| 0 <= k < i ==> v@[k] != key,
        decreases v.len() - i,
    {
        if v[i] == key {
            return true;
        }
        i += 1;
    }
    false
}

fn insert_unique(v: &mut Vec<Key>, key: Key)
    requires
        old(v)@.no_duplicates(),
    ensures
        final(v)@.no_duplicates(),
        final(v)@.to_set() == old(v)@.to_set().insert(key),
{
    if contains_key(v, key) {
        assert(v@.to_set() =~= old(v)@.to_set().insert(key));
    } else {
        proof {
            lemma_set_push(v@, key);
        }
        v.push(key);
    }
}

} // verus!
