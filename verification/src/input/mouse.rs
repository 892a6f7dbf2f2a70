//! Mouse button state: which buttons are held, which were pressed or released
//! during the last frame, and the clicks recognized on each button. Positions
//! and distances are measured by the caller; this state receives the outcome
//! of each distance test.
use vstd::prelude::*;
use super::assoc::{assoc_map, has_key, keys_unique, lemma_assoc_at, lemma_assoc_map_values, lemma_assoc_push, lemma_set_push};
use crate::time::{elapsed, elapsed_ms};

verus! {

/// Describes a button of a mouse controller.
#[derive(Debug, Hash, PartialEq, Eq, Clone, Copy, Structural)]
pub enum MouseButton {
    Left,
    Right,
    Middle,
    Other(u8),
}

/// The timing parameters of click recognition, in milliseconds.
#[derive(Debug, Clone, Copy, PartialEq, Eq, Structural)]
pub struct ClickTimeouts {
    /// A press must be released before this long for a click.
    pub press_timeout: u64,
    /// The next press must come before this long after a click to continue
    /// a multi-click.
    pub click_timeout: u64,
}

/// Counts the consecutive clicks of one button.
#[derive(Debug, Clone, Copy, PartialEq, Eq, Structural)]
pub struct ClickDetector {
    pub last_press_time: u64,
    pub last_click_time: u64,
    pub clicks: u32,
    pub frame_clicks: u32,
}

/// The detector after a press at `now`; `far` tells whether the press lies
/// farther than the click distance from the last click.
pub open spec fn pressed(d: ClickDetector, now: u64, t: ClickTimeouts, far: bool) -> ClickDetector {
    let restart = d.clicks > 0 && (elapsed(now, d.last_click_time) > t.click_timeout || far);
    ClickDetector {
        last_press_time: now,
        clicks: if restart { 0 } else { d.clicks },
        frame_clicks: if restart { 0 } else { d.frame_clicks },
        ..d
    }
}

/// The detector after a release at `now`; `near` tells whether the release
/// lies within the press distance of the press.
pub open spec fn released(d: ClickDetector, now: u64, t: ClickTimeouts, near: bool) -> ClickDetector {
    if elapsed(now, d.last_press_time) < t.press_timeout && near {
        ClickDetector {
            clicks: (d.clicks + 1) as u32,
            frame_clicks: (d.clicks + 1) as u32,
            last_click_time: now,
            ..d
        }
    } else {
        d
    }
}

impl ClickDetector {
    pub fn new(now: u64) -> (r: Self)
        ensures
            r == (ClickDetector { last_press_time: now, last_click_time: now, clicks: 0, frame_clicks: 0 }),
    {
        ClickDetector { last_press_time: now, last_click_time: now, clicks: 0, frame_clicks: 0 }
    }

    pub fn reset(&mut self)
        ensures
            *final(self) == (ClickDetector { clicks: 0, frame_clicks: 0, ..*old(self) }),
    {
        self.clicks = 0;
        self.frame_clicks = 0;
    }

    pub fn advance(&mut self)
        ensures
            *final(self) == (ClickDetector { frame_clicks: 0, ..*old(self) }),
    {
        self.frame_clicks = 0;
    }

    /// A press at `now`: a multi-click in progress restarts when the press
    /// comes too late after the last click or too far from it.
    pub fn on_pressed(&mut self, now: u64, t: ClickTimeouts, far_from_last_click: bool)
        ensures
            *final(self) == pressed(*old(self), now, t, far_from_last_click),
    {
        if self.clicks > 0 {
            if elapsed_ms(now, self.last_click_time) > t.click_timeout {
                self.reset();
            }
            if far_from_last_click {
                self.reset();
            }
        }
        self.last_press_time = now;
    }

    /// A release at `now` completes a click when it comes soon enough after
    /// the press and near enough to it; returns whether it did.
    pub fn on_released(&mut self, now: u64, t: ClickTimeouts, near_press: bool) -> (r: bool)
        requires
            old(self).clicks < u32::MAX,
        ensures
            *final(self) == released(*old(self), now, t, near_press),
            r == (elapsed(now, old(self).last_press_time) < t.press_timeout && near_press),
            r == (final(self).clicks > old(self).clicks),
            r ==> final(self).clicks == old(self).clicks + 1 && final(self).last_click_time == now,
            !r ==> *final(self) == *old(self),
    {
        if elapsed_ms(now, self.last_press_time) < t.press_timeout && near_press {
            self.clicks += 1;
            self.frame_clicks = self.clicks;
            self.last_click_time = now;
            true
        } else {
            false
        }
    }

    /// The clicks completed during the current frame.
    pub fn clicks(&self) -> (r: u32)
        ensures
            r == self.frame_clicks,
    {
        self.frame_clicks
    }
}

pub open spec fn advanced(d: ClickDetector) -> ClickDetector {
    ClickDetector { frame_clicks: 0, ..d }
}

pub open spec fn cleared(d: ClickDetector) -> ClickDetector {
    ClickDetector { clicks: 0, frame_clicks: 0, ..d }
}

/// The state of the mouse buttons.
pub struct MouseButtons {
    downs: Vec<MouseButton>,
    presses: Vec<MouseButton>,
    releases: Vec<MouseButton>,
    click_detectors: Vec<(MouseButton, ClickDetector)>,
}

impl MouseButtons {
    pub closed spec fn downs(&self) -> Set<MouseButton> {
        self.downs@.to_set()
    }

    pub closed spec fn presses(&self) -> Set<MouseButton> {
        self.presses@.to_set()
    }

    pub closed spec fn releases(&self) -> Set<MouseButton> {
        self.releases@.to_set()
    }

    /// The click detector of each button that was ever pressed or released.
    pub closed spec fn detectors(&self) -> Map<MouseButton, ClickDetector> {
        assoc_map(self.click_detectors@)
    }

    pub closed spec fn wf(&self) -> bool {
        &&& self.downs@.no_duplicates()
        &&& self.presses@.no_duplicates()
        &&& self.releases@.no_duplicates()
        &&& keys_unique(self.click_detectors@)
    }

    pub fn new() -> (r: Self)
        ensures
            r.wf(),
            r.downs() == Set::<MouseButton>::empty(),
            r.presses() == Set::<MouseButton>::empty(),
            r.releases() == Set::<MouseButton>::empty(),
            r.detectors() == Map::<MouseButton, ClickDetector>::empty(),
    {
        let r = MouseButtons {
            downs: Vec::new(),
            presses: Vec::new(),
            releases: Vec::new(),
            click_detectors: Vec::new(),
        };
        proof {
            assert(r.downs() =~= Set::<MouseButton>::empty());
            assert(r.presses() =~= Set::<MouseButton>::empty());
            assert(r.releases() =~= Set::<MouseButton>::empty());
            assert(r.detectors() =~= Map::<MouseButton, ClickDetector>::empty());
        }
        r
    }

    fn map_detectors(&mut self, clear_clicks: bool)
        requires
            old(self).wf(),
        ensures
            final(self).wf(),
            final(self).downs@ == old(self).downs@,
            final(self).presses@ == old(self).presses@,
            final(self).releases@ == old(self).releases@,
            final(self).detectors() == old(self).detectors().map_values(
                |d: ClickDetector| if clear_clicks { cleared(d) } else { advanced(d) },
            ),
    {
        let ghost f = |d: ClickDetector| if clear_clicks { cleared(d) } else { advanced(d) };
        let ghost start = self.click_detectors@;
        let mut i: usize = 0;
        while i < self.click_detectors.len()
            invariant
                self.click_detectors@.len() == start.len(),
                i <= start.len(),
                keys_unique(start),
                old(self).wf(),
                self.downs@ == old(self).downs@,
                self.presses@ == old(self).presses@,
                self.releases@ == old(self).releases@,
                start == old(self).click_detectors@,
                f == (|d: ClickDetector| if clear_clicks { cleared(d) } else { advanced(d) }),
                forall|k: int| 0 <= k < i ==> #[trigger] self.click_detectors@[k] == (start[k].0, f(start[k].1)),
                forall|k: int| i <= k < start.len() ==> #[trigger] self.click_detectors@[k] == start[k],
            decreases start.len() - i,
        {
            let (b, mut d) = self.click_detectors[i];
            if clear_clicks {
                d.reset();
            } else {
                d.advance();
            }
            self.click_detectors.set(i, (b, d));
            i += 1;
        }
        proof {
            lemma_assoc_map_values(start, self.click_detectors@, f);
        }
    }

    /// Forgets every held, pressed and released button and every click count.
    pub fn reset(&mut self)
        requires
            old(self).wf(),
        ensures
            final(self).wf(),
            final(self).downs() == Set::<MouseButton>::empty(),
            final(self).presses() == Set::<MouseButton>::empty(),
            final(self).releases() == Set::<MouseButton>::empty(),
            final(self).detectors() == old(self).detectors().map_values(|d: ClickDetector| cleared(d)),
    {
        self.downs.clear();
        self.presses.clear();
        self.releases.clear();
        self.map_detectors(true);
        proof {
            assert(self.downs() =~= Set::<MouseButton>::empty());
            assert(self.presses() =~= Set::<MouseButton>::empty());
            assert(self.releases() =~= Set::<MouseButton>::empty());
            assert(self.detectors() =~= old(self).detectors().map_values(|d: ClickDetector| cleared(d)));
        }
    }

    /// Starts a new frame: the presses, releases and clicks of the last frame
    /// are dropped; held buttons stay held.
    pub fn advance(&mut self)
        requires
            old(self).wf(),
        ensures
            final(self).wf(),
            final(self).downs() == old(self).downs(),
            final(self).presses() == Set::<MouseButton>::empty(),
            final(self).releases() == Set::<MouseButton>::empty(),
            final(self).detectors() == old(self).detectors().map_values(|d: ClickDetector| advanced(d)),
    {
        self.presses.clear();
        self.releases.clear();
        self.map_detectors(false);
        proof {
            assert(self.presses() =~= Set::<MouseButton>::empty());
            assert(self.releases() =~= Set::<MouseButton>::empty());
            assert(self.detectors() =~= old(self).detectors().map_values(|d: ClickDetector| advanced(d)));
        }
    }

    fn find_detector(&self, button: MouseButton) -> (r: Option<usize>)
        ensures
            match r {
                Some(i) => i < self.click_detectors@.len() && self.click_detectors@[i as int].0 == button,
                None => !has_key(self.click_detectors@, button),
            },
    {
        let mut i: usize = 0;
        while i < self.click_detectors.len()
            invariant
                i <= self.click_detectors@.len(),
                forall|k: int| 0 <= k < i ==> self.click_detectors@[k].0 != button,
            decreases self.click_detectors.len() - i,
        {
            if self.click_detectors[i].0 == button {
                return Some(i);
            }
            i += 1;
        }
        None
    }

    /// The detector of `button`, made at `now` when the button has none yet.
    fn detector_index(&mut self, button: MouseButton, now: u64) -> (r: usize)
        requires
            old(self).wf(),
        ensures
            final(self).wf(),
            final(self).downs@ == old(self).downs@,
            final(self).presses@ == old(self).presses@,
            final(self).releases@ == old(self).releases@,
            r < final(self).click_detectors@.len(),
            final(self).click_detectors@[r as int].0 == button,
            old(self).detectors().contains_key(button) ==> final(self).detectors() == old(self).detectors(),
            !old(self).detectors().contains_key(button) ==> final(self).detectors() == old(
                self,
            ).detectors().insert(button, ClickDetector::new_spec(now)),
    {
        match self.find_detector(button) {
            Some(i) => {
                proof {
                    lemma_assoc_at(self.click_detectors@, i as int);
                }
                i
            },
            None => {
                let d = ClickDetector::new(now);
                proof {
                    lemma_assoc_push(self.click_detectors@, button, d);
                }
                self.click_detectors.push((button, d));
                self.click_detectors.len() - 1
            },
        }
    }

    /// A button goes down at `now`. It becomes held and, unless it was held
    /// already, pressed; its detector records the press. `far_from_last_click`
    /// tells whether the cursor lies farther than the click distance from the
    /// last click of this button.
    pub fn on_button_pressed(&mut self, button: MouseButton, now: u64, t: ClickTimeouts, far_from_last_click: bool)
        requires
            old(self).wf(),
        ensures
            final(self).wf(),
            final(self).downs() == old(self).downs().insert(button),
            old(self).downs().contains(button) ==> final(self).presses() == old(self).presses(),
            !old(self).downs().contains(button) ==> final(self).presses() == old(self).presses().insert(button),
            final(self).releases() == old(self).releases(),
            ({
                let d = if old(self).detectors().contains_key(button) {
                    old(self).detectors()[button]
                } else {
                    ClickDetector::new_spec(now)
                };
                final(self).detectors() == old(self).detectors().insert(
                    button,
                    pressed(d, now, t, far_from_last_click),
                )
            }),
    {
        if !contains_button(&self.downs, button) {
            insert_button(&mut self.downs, button);
            insert_button(&mut self.presses, button);
        } else {
            assert(self.downs() =~= old(self).downs().insert(button));
        }
        let ghost mid = self.detectors();
        let i = self.detector_index(button, now);
        let (b, mut d) = self.click_detectors[i];
        proof {
            lemma_assoc_at(self.click_detectors@, i as int);
        }
        d.on_pressed(now, t, far_from_last_click);
        let ghost before = self.click_detectors@;
        self.click_detectors.set(i, (b, d));
        proof {
            lemma_assoc_update(before, i as int, d);
        }
    }

    /// A button goes up at `now`. It is no longer held and is released; its
    /// detector records the release, and the result tells whether it completed
    /// a click. `near_press` tells whether the cursor lies within the press
    /// distance of where the button went down.
    pub fn on_button_released(&mut self, button: MouseButton, now: u64, t: ClickTimeouts, near_press: bool) -> (r: bool)
        requires
            old(self).wf(),
            old(self).detectors().contains_key(button) ==> old(self).detectors()[button].clicks < u32::MAX,
        ensures
            final(self).wf(),
            final(self).downs() == old(self).downs().remove(button),
            final(self).releases() == old(self).releases().insert(button),
            final(self).presses() == old(self).presses(),
            ({
                let d = if old(self).detectors().contains_key(button) {
                    old(self).detectors()[button]
                } else {
                    ClickDetector::new_spec(now)
                };
                &&& final(self).detectors() == old(self).detectors().insert(
                    button,
                    released(d, now, t, near_press),
                )
                &&& r == (elapsed(now, d.last_press_time) < t.press_timeout && near_press)
            }),
    {
        remove_button(&mut self.downs, button);
        insert_button(&mut self.releases, button);
        let i = self.detector_index(button, now);
        let (b, mut d) = self.click_detectors[i];
        proof {
            lemma_assoc_at(self.click_detectors@, i as int);
        }
        let clicked = d.on_released(now, t, near_press);
        let ghost before = self.click_detectors@;
        self.click_detectors.set(i, (b, d));
        proof {
            lemma_assoc_update(before, i as int, d);
        }
        clicked
    }

    pub fn is_button_down(&self, button: MouseButton) -> (r: bool)
        ensures
            r == self.downs().contains(button),
    {
        contains_button(&self.downs, button)
    }

    pub fn is_button_press(&self, button: MouseButton) -> (r: bool)
        ensures
            r == self.presses().contains(button),
    {
        contains_button(&self.presses, button)
    }

    /// The buttons pressed during the current frame, each once.
    pub fn button_presses(&self) -> (r: Vec<MouseButton>)
        requires
            self.wf(),
        ensures
            r@.no_duplicates(),
            r@.to_set() == self.presses(),
    {
        self.presses.clone()
    }

    pub fn is_button_release(&self, button: MouseButton) -> (r: bool)
        ensures
            r == self.releases().contains(button),
    {
        contains_button(&self.releases, button)
    }

    /// The buttons released during the current frame, each once.
    pub fn button_releases(&self) -> (r: Vec<MouseButton>)
        requires
            self.wf(),
        ensures
            r@.no_duplicates(),
            r@.to_set() == self.releases(),
    {
        self.releases.clone()
    }

    /// The clicks of `button` counted in a row so far.
    pub fn consecutive_clicks(&self, button: MouseButton) -> (r: u32)
        requires
            self.wf(),
        ensures
            r == (if self.detectors().contains_key(button) { self.detectors()[button].clicks } else { 0 }),
    {
        match self.find_detector(button) {
            Some(i) => {
                proof {
                    lemma_assoc_at(self.click_detectors@, i as int);
                }
                self.click_detectors[i].1.clicks
            },
            None => 0,
        }
    }

    /// Whether `button` completed a click during the current frame.
    pub fn is_button_click(&self, button: MouseButton) -> (r: bool)
        requires
            self.wf(),
        ensures
            r == (self.detectors().contains_key(button) && self.detectors()[button].frame_clicks > 0),
    {
        match self.find_detector(button) {
            Some(i) => {
                proof {
                    lemma_assoc_at(self.click_detectors@, i as int);
                }
                self.click_detectors[i].1.clicks() > 0
            },
            None => false,
        }
    }

    /// Whether `button` completed an even number of consecutive clicks during
    /// the current frame.
    pub fn is_button_double_click(&self, button: MouseButton) -> (r: bool)
        requires
            self.wf(),
        ensures
            r == (self.detectors().contains_key(button) && self.detectors()[button].frame_clicks > 0
                && self.detectors()[button].frame_clicks % 2 == 0),
    {
        match self.find_detector(button) {
            Some(i) => {
                proof {
                    lemma_assoc_at(self.click_detectors@, i as int);
                }
                let c = self.click_detectors[i].1.clicks();
                c > 0 && c % 2 == 0
            },
            None => false,
        }
    }
}

/// A release completes a click exactly when it comes less than
/// `press_timeout` after the press, and near it: the count then grows by one,
/// the click is dated at the release and counted in the current frame;
/// otherwise the detector is unchanged. The press time stays either way.
pub proof fn law_release_completes_click_only_when_quick(d: ClickDetector, now: u64, t: ClickTimeouts, near: bool)
    requires
        d.clicks < u32::MAX,
    ensures
        released(d, now, t, near).clicks > d.clicks <==> near && if now >= d.last_press_time {
            now - d.last_press_time < t.press_timeout
        } else {
            t.press_timeout > 0
        },
        released(d, now, t, near).clicks > d.clicks ==> {
            &&& released(d, now, t, near).clicks == d.clicks + 1
            &&& released(d, now, t, near).frame_clicks == d.clicks + 1
            &&& released(d, now, t, near).last_click_time == now
        },
        !(released(d, now, t, near).clicks > d.clicks) ==> released(d, now, t, near) == d,
        released(d, now, t, near).last_press_time == d.last_press_time,
{
}

/// A button held `press_timeout` or longer completes no click, wherever it
/// is released.
pub proof fn law_long_press_is_no_click(d: ClickDetector, now: u64, t: ClickTimeouts, near: bool)
    requires
        now >= d.last_press_time,
        now - d.last_press_time >= t.press_timeout,
    ensures
        released(d, now, t, near) == d,
{
}

/// A press continues a multi-click when it comes no more than
/// `click_timeout` after the last completed click and near it, and restarts
/// the count otherwise; the press is dated at `now` and the last click keeps
/// its time.
pub proof fn law_press_continues_series_after_last_click(d: ClickDetector, now: u64, t: ClickTimeouts, far: bool)
    ensures
        pressed(d, now, t, far).last_press_time == now,
        pressed(d, now, t, far).last_click_time == d.last_click_time,
        !far && (now <= d.last_click_time || now - d.last_click_time <= t.click_timeout) ==> pressed(d, now, t, far).clicks
            == d.clicks && pressed(d, now, t, far).frame_clicks == d.frame_clicks,
        far || (now > d.last_click_time && now - d.last_click_time > t.click_timeout) ==> pressed(d, now, t, far).clicks
            == 0,
        d.clicks > 0 && (far || (now > d.last_click_time && now - d.last_click_time > t.click_timeout)) ==> pressed(
            d,
            now,
            t,
            far,
        ).frame_clicks == 0,
{
}

/// When the last press happened plays no part in whether a press continues a
/// multi-click: two detectors that differ only in it count alike after it.
pub proof fn law_press_ignores_last_press_time(d1: ClickDetector, d2: ClickDetector, now: u64, t: ClickTimeouts, far: bool)
    requires
        d1.clicks == d2.clicks,
        d1.frame_clicks == d2.frame_clicks,
        d1.last_click_time == d2.last_click_time,
    ensures
        pressed(d1, now, t, far) == pressed(d2, now, t, far),
{
}

/// Two quick clicks, the second pressed no more than `click_timeout` after
/// the first one completed and near it, make a double click, even across a
/// frame boundary.
pub proof fn law_two_quick_clicks_double_click(
    d: ClickDetector,
    t: ClickTimeouts,
    press1: u64,
    release1: u64,
    press2: u64,
    release2: u64,
)
    requires
        d.clicks == 0,
        press1 <= release1 <= press2 <= release2,
        release1 - press1 < t.press_timeout,
        press2 - release1 <= t.click_timeout,
        release2 - press2 < t.press_timeout,
    ensures
        ({
            let first = released(pressed(d, press1, t, false), release1, t, true);
            let second = released(pressed(advanced(first), press2, t, false), release2, t, true);
            &&& first.clicks == 1
            &&& second.clicks == 2
            &&& second.frame_clicks == 2
        }),
{
}

impl ClickDetector {
    pub open spec fn new_spec(now: u64) -> ClickDetector {
        ClickDetector { last_press_time: now, last_click_time: now, clicks: 0, frame_clicks: 0 }
    }
}

/// Replacing the value of one entry replaces it in the map.
pub proof fn lemma_assoc_update<K, V>(s: Seq<(K, V)>, i: int, v: V)
    requires
        keys_unique(s),
        0 <= i < s.len(),
    ensures
        keys_unique(s.update(i, (s[i].0, v))),
        assoc_map(s.update(i, (s[i].0, v))) == assoc_map(s).insert(s[i].0, v),
{
    let k = s[i].0;
    let t = s.update(i, (k, v));
    assert(keys_unique(t)) by {
        assert forall|a: int, b: int|
            0 <= a < t.len() && 0 <= b < t.len() && a != b implies t[a].0 != t[b].0 by {
            assert(t[a].0 == s[a].0 && t[b].0 == s[b].0);
        }
    }
    assert forall|x: K| #[trigger] assoc_map(t).contains_key(x) == assoc_map(s).insert(k, v).contains_key(
        x,
    ) by {
        if has_key(t, x) {
            let a = choose|a: int| 0 <= a < t.len() && t[a].0 == x;
            assert(s[a].0 == x);
        }
        if has_key(s, x) {
            let a = choose|a: int| 0 <= a < s.len() && s[a].0 == x;
            assert(t[a].0 == x);
        }
        if x == k {
            assert(t[i].0 == k);
        }
    }
    assert forall|x: K| #[trigger] assoc_map(t).contains_key(x) implies assoc_map(t)[x] == assoc_map(
        s,
    ).insert(k, v)[x] by {
        let a = choose|a: int| 0 <= a < t.len() && t[a].0 == x;
        assert(s[a].0 == x);
        lemma_assoc_at(t, a);
        lemma_assoc_at(s, a);
    }
    assert(assoc_map(t) =~= assoc_map(s).insert(k, v));
}

fn contains_button(v: &Vec<MouseButton>, button: MouseButton) -> (r: bool)
    ensures
        r == v@.contains(button),
{
    let mut i: usize = 0;
    while i < v.len()
        invariant
            i <= v@.len(),
            forall|k: int| 0 <= k < i ==> v@[k] != button,
        decreases v.len() - i,
    {
        if v[i] == button {
            return true;
        }
        i += 1;
    }
    false
}

fn insert_button(v: &mut Vec<MouseButton>, button: MouseButton)
    requires
        old(v)@.no_duplicates(),
    ensures
        final(v)@.no_duplicates(),
        final(v)@.to_set() == old(v)@.to_set().insert(button),
{
    if contains_button(v, button) {
        assert(v@.to_set() =~= old(v)@.to_set().insert(button));
    } else {
        proof {
            lemma_set_push(v@, button);
        }
        v.push(button);
    }
}

fn remove_button(v: &mut Vec<MouseButton>, button: MouseButton)
    requires
        old(v)@.no_duplicates(),
    ensures
        final(v)@.no_duplicates(),
        final(v)@.to_set() == old(v)@.to_set().remove(button),
{
    let mut i: usize = 0;
    while i < v.len()
        invariant
            v@ == old(v)@,
            old(v)@.no_duplicates(),
            i <= v@.len(),
            forall|k: int| 0 <= k < i ==> v@[k] != button,
        decreases v.len() - i,
    {
        if v[i] == button {
            let ghost s = v@;
            v.remove(i);
            proof {
                assert forall|a: int, b: int|
                    0 <= a < v@.len() && 0 <= b < v@.len() && a != b implies v@[a] != v@[b] by {
                    let a2 = if a < i { a } else { a + 1 };
                    let b2 = if b < i { b } else { b + 1 };
                    assert(v@[a] == s[a2] && v@[b] == s[b2]);
                }
                assert forall|x: MouseButton| #[trigger] v@.to_set().contains(x) == s.to_set().remove(
                    button,
                ).contains(x) by {
                    if v@.contains(x) {
                        let a = choose|a: int| 0 <= a < v@.len() && v@[a] == x;
                        let a2 = if a < i { a } else { a + 1 };
                        assert(s[a2] == x);
                        assert(a2 != i as int);
                    }
                    if s.contains(x) && x != button {
                        let a = choose|a: int| 0 <= a < s.len() && s[a] == x;
                        assert(a != i as int);
                        let a2 = if a < i { a } else { a - 1 };
                        assert(v@[a2] == x);
                    }
                }
                assert(v@.to_set() =~= s.to_set().remove(button));
            }
            return ;
        }
        i += 1;
    }
    assert(v@.to_set() =~= old(v)@.to_set().remove(button));
}

} // verus!
