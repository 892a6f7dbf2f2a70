//! The record of the fingers on a touch screen. Every touch keeps the time it
//! was first seen; the fingers still on the screen come first, in the order
//! they were placed, and the ended and cancelled touches after them.
use vstd::prelude::*;
use crate::time::{elapsed, elapsed_ms, timestamp_now};

verus! {

/// Maximum touches that would be tracked at the same time.
pub const MAX_TOUCHES: usize = 4;

/// Describes touch-screen input state.
#[derive(Debug, Clone, Copy, PartialEq, Eq, PartialOrd, Ord, Hash, Structural)]
pub enum TouchState {
    Start,
    Move,
    End,
    Cancel,
}

/// The place of a state in the record's order. The fingers on the screen,
/// starting or moving, share the first place, so that they are ordered by the
/// time they were first seen.
pub open spec fn rank(s: TouchState) -> int {
    match s {
        TouchState::Start => 0,
        TouchState::Move => 0,
        TouchState::End => 2,
        TouchState::Cancel => 3,
    }
}

/// A finger that is still on the screen.
pub open spec fn is_active(s: TouchState) -> bool {
    rank(s) < 2
}

fn state_rank(s: TouchState) -> (r: u8)
    ensures
        r == rank(s),
{
    match s {
        TouchState::Start => 0,
        TouchState::Move => 0,
        TouchState::End => 2,
        TouchState::Cancel => 3,
    }
}

/// One event of one finger.
#[derive(Debug, Clone, Copy)]
pub struct TouchEvent<P> {
    pub id: u8,
    pub state: TouchState,
    pub position: P,
}

/// A touch together with the time, in milliseconds, when its finger was first seen.
pub type TouchSlot<P> = (u64, TouchEvent<P>);

/// `a` comes no later than `b`: by state first, then by the time of first sight.
pub open spec fn slot_le<P>(a: TouchSlot<P>, b: TouchSlot<P>) -> bool {
    rank(a.1.state) < rank(b.1.state) || (rank(a.1.state) == rank(b.1.state) && a.0 <= b.0)
}

/// `a` and `b` are equal in the record's order.
pub open spec fn same_key<P>(a: TouchSlot<P>, b: TouchSlot<P>) -> bool {
    rank(a.1.state) == rank(b.1.state) && a.0 == b.0
}

pub open spec fn is_sorted<P>(s: Seq<TouchSlot<P>>) -> bool {
    forall|a: int, b: int| 0 <= a < b < s.len() ==> slot_le(#[trigger] s[a], #[trigger] s[b])
}

/// `out` is `inp` sorted stably: `perm` tells, for each place of `out`, the
/// place of `inp` it came from; equal slots keep their order.
pub open spec fn stable_sorted<P>(out: Seq<TouchSlot<P>>, inp: Seq<TouchSlot<P>>, perm: Seq<int>) -> bool {
    &&& out.len() == inp.len()
    &&& perm.len() == inp.len()
    &&& forall|k: int| 0 <= k < perm.len() ==> 0 <= #[trigger] perm[k] < inp.len() && out[k] == inp[perm[k]]
    &&& forall|a: int, b: int| 0 <= a < b < perm.len() ==> #[trigger] perm[a] != #[trigger] perm[b]
    &&& is_sorted(out)
    &&& forall|a: int, b: int|
        0 <= a < b < out.len() && same_key(#[trigger] out[a], #[trigger] out[b]) ==> perm[a] < perm[b]
}

/// The number of fingers still on the screen among the slots of `s`.
pub open spec fn count_active<P>(s: Seq<TouchSlot<P>>) -> nat
    decreases s.len(),
{
    if s.len() == 0 {
        0
    } else {
        count_active(s.drop_last()) + if is_active(s.last().1.state) { 1nat } else { 0nat }
    }
}

/// The first of the first `n` slots of `s` that belongs to finger `id`.
pub open spec fn first_with_id<P>(s: Seq<TouchSlot<P>>, n: int, id: u8) -> Option<int>
    decreases n,
{
    if n <= 0 {
        None
    } else {
        match first_with_id(s, n - 1, id) {
            Some(i) => Some(i),
            None => if s[n - 1].1.id == id { Some(n - 1) } else { None },
        }
    }
}

/// The slots after `touch` was written into them, before they are ordered
/// again: a finger among the first `len` slots is updated in place, keeping
/// its time; a new finger takes the last slot with the time `now`.
pub open spec fn touched<P>(s: Seq<TouchSlot<P>>, len: int, touch: TouchEvent<P>, now: u64) -> Seq<TouchSlot<P>> {
    match first_with_id(s, len, touch.id) {
        Some(i) => s.update(i, (s[i].0, touch)),
        None => s.update(MAX_TOUCHES as int, (now, touch)),
    }
}

/// `after` holds the slots `before`, of which `active` were on the screen,
/// once `touch` was written into them at some time and they were ordered again.
pub open spec fn touch_applied<P>(after: Seq<TouchSlot<P>>, before: Seq<TouchSlot<P>>, active: nat, touch: TouchEvent<P>) -> bool {
    exists|now: u64, perm: Seq<int>| stable_sorted(after, touched(before, active as int, touch, now), perm)
}

/// A touch of a finger that is not on the screen (no slot among the first
/// `len` carries its id) is a new finger, first seen at `now`: it takes the
/// last slot, dated `now`, and no other slot changes. Ended and cancelled
/// slots are never written in place, whatever ids they carry.
pub proof fn law_new_finger_seen_now<P>(s: Seq<TouchSlot<P>>, len: int, touch: TouchEvent<P>, now: u64)
    requires
        s.len() == MAX_TOUCHES + 1,
        0 <= len <= MAX_TOUCHES,
        forall|i: int| 0 <= i < len ==> s[i].1.id != touch.id,
    ensures
        touched(s, len, touch, now)[MAX_TOUCHES as int] == (now, touch),
        forall|k: int| 0 <= k < MAX_TOUCHES ==> touched(s, len, touch, now)[k] == s[k],
{
    lemma_first_with_id(s, len, touch.id);
}

/// A touch of a finger on the screen updates that finger's slot in place,
/// keeping the time the finger was first seen; no other slot changes, and the
/// slots past the fingers on the screen never do.
pub proof fn law_finger_on_screen_keeps_its_time<P>(s: Seq<TouchSlot<P>>, len: int, touch: TouchEvent<P>, now: u64, i: int)
    requires
        s.len() == MAX_TOUCHES + 1,
        0 <= len <= MAX_TOUCHES,
        0 <= i < len,
        s[i].1.id == touch.id,
        forall|j: int| 0 <= j < i ==> s[j].1.id != touch.id,
    ensures
        touched(s, len, touch, now)[i] == (s[i].0, touch),
        forall|k: int| 0 <= k < s.len() && k != i ==> touched(s, len, touch, now)[k] == s[k],
{
    lemma_first_with_id(s, len, touch.id);
}

/// Whatever the touch, the slots from `len` up to the last one, the ended and
/// cancelled touches, are left as they are.
pub proof fn law_ended_slots_untouched<P>(s: Seq<TouchSlot<P>>, len: int, touch: TouchEvent<P>, now: u64)
    requires
        s.len() == MAX_TOUCHES + 1,
        0 <= len <= MAX_TOUCHES,
    ensures
        forall|k: int| len <= k < MAX_TOUCHES ==> touched(s, len, touch, now)[k] == s[k],
        touched(s, len, touch, now).len() == s.len(),
{
    lemma_first_with_id(s, len, touch.id);
}

proof fn lemma_first_with_id<P>(s: Seq<TouchSlot<P>>, n: int, id: u8)
    requires
        0 <= n <= s.len(),
    ensures
        match first_with_id(s, n, id) {
            Some(i) => 0 <= i < n && s[i].1.id == id && forall|k: int| 0 <= k < i ==> s[k].1.id != id,
            None => forall|k: int| 0 <= k < n ==> s[k].1.id != id,
        },
    decreases n,
{
    if n > 0 {
        lemma_first_with_id(s, n - 1, id);
    }
}

proof fn lemma_count_bound<P>(s: Seq<TouchSlot<P>>)
    ensures
        count_active(s) <= s.len(),
    decreases s.len(),
{
    if s.len() > 0 {
        lemma_count_bound(s.drop_last());
    }
}

/// In an ordered record the fingers on the screen are exactly the first
/// `count_active` slots.
pub proof fn lemma_active_prefix<P>(s: Seq<TouchSlot<P>>)
    requires
        is_sorted(s),
    ensures
        forall|k: int| 0 <= k < s.len() ==> (is_active(#[trigger] s[k].1.state) <==> k < count_active(s)),
    decreases s.len(),
{
    if s.len() > 0 {
        let t = s.drop_last();
        assert(is_sorted(t)) by {
            assert forall|a: int, b: int| 0 <= a < b < t.len() implies slot_le(#[trigger] t[a], #[trigger] t[b]) by {
                assert(t[a] == s[a] && t[b] == s[b]);
            }
        }
        lemma_active_prefix(t);
        lemma_count_bound(t);
        let n = s.len() - 1;
        if is_active(s[n].1.state) {
            assert forall|k: int| 0 <= k < t.len() implies is_active(#[trigger] t[k].1.state) by {
                assert(t[k] == s[k]);
                assert(slot_le(s[k], s[n]));
            }
            if count_active(t) < t.len() {
                let k = count_active(t) as int;
                assert(is_active(t[k].1.state));
            }
        }
        assert forall|k: int| 0 <= k < s.len() implies (is_active(#[trigger] s[k].1.state) <==> k < count_active(s)) by {
            if k < n {
                assert(t[k] == s[k]);
            }
        }
    }
}

/// The fingers on a touch screen: `MAX_TOUCHES + 1` slots, ordered, of which
/// the first `len` are fingers still on the screen.
#[derive(Debug, Clone)]
pub struct TouchesRecord<P> {
    touches: Vec<TouchSlot<P>>,
    len: usize,
}

impl<P: Copy> TouchesRecord<P> {
    pub closed spec fn slots(&self) -> Seq<TouchSlot<P>> {
        self.touches@
    }

    pub closed spec fn active(&self) -> nat {
        self.len as nat
    }

    pub closed spec fn wf(&self) -> bool {
        &&& self.touches@.len() == MAX_TOUCHES + 1
        &&& is_sorted(self.touches@)
        &&& self.len == count_active(self.touches@)
    }

    /// An empty record: every slot holds an ended touch of finger 0 at
    /// `blank`, seen at `now`.
    pub fn new(now: u64, blank: P) -> (r: Self)
        ensures
            r.wf(),
            r.active() == 0,
            r.slots() == Seq::new(
                (MAX_TOUCHES + 1) as nat,
                |k: int| (now, TouchEvent { id: 0u8, state: TouchState::End, position: blank }),
            ),
    {
        let slot = (now, TouchEvent { id: 0u8, state: TouchState::End, position: blank });
        let mut touches: Vec<TouchSlot<P>> = Vec::new();
        let mut k: usize = 0;
        while k < MAX_TOUCHES + 1
            invariant
                k <= MAX_TOUCHES + 1,
                touches@ == Seq::new(k as nat, |i: int| slot),
            decreases MAX_TOUCHES + 1 - k,
        {
            touches.push(slot);
            k += 1;
            assert(touches@ =~= Seq::new(k as nat, |i: int| slot));
        }
        let r = TouchesRecord { touches, len: 0 };
        proof {
            lemma_count_zero(r.touches@, r.touches@.len() as int);
            assert(r.touches@.subrange(0, r.touches@.len() as int) =~= r.touches@);
        }
        r
    }

    /// Empties the record, as `new` does.
    pub fn reset(&mut self, now: u64, blank: P)
        ensures
            final(self).wf(),
            final(self).active() == 0,
            final(self).slots() == Seq::new(
                (MAX_TOUCHES + 1) as nat,
                |k: int| (now, TouchEvent { id: 0u8, state: TouchState::End, position: blank }),
            ),
    {
        *self = Self::new(now, blank);
    }

    /// The number of fingers on the screen.
    pub fn len(&self) -> (r: usize)
        ensures
            r == self.active(),
    {
        self.len
    }

    /// The slot at `index`, with the time its finger was first seen.
    pub fn slot(&self, index: usize) -> (r: TouchSlot<P>)
        requires
            self.wf(),
            index <= MAX_TOUCHES,
        ensures
            r == self.slots()[index as int],
    {
        self.touches[index]
    }

    /// Both records hold equally many fingers, the same fingers in the same places.
    pub fn is_same(&self, rhs: &Self) -> (r: bool)
        requires
            self.wf(),
            rhs.wf(),
        ensures
            r == (self.active() == rhs.active() && forall|i: int|
                0 <= i < self.active() ==> #[trigger] self.slots()[i].1.id == rhs.slots()[i].1.id),
    {
        if self.len != rhs.len {
            return false;
        }
        proof {
            lemma_count_bound(self.touches@);
        }
        let mut i: usize = 0;
        while i < self.len
            invariant
                self.wf(),
                rhs.wf(),
                self.len == rhs.len,
                self.len <= MAX_TOUCHES + 1,
                i <= self.len,
                forall|k: int| 0 <= k < i ==> #[trigger] self.touches@[k].1.id == rhs.touches@[k].1.id,
            decreases self.len - i,
        {
            if self.touches[i].1.id != rhs.touches[i].1.id {
                return false;
            }
            i += 1;
        }
        true
    }

    /// The position of the `index`th finger on the screen.
    pub fn position(&self, index: usize) -> (r: Option<P>)
        requires
            self.wf(),
        ensures
            r == (if index < self.active() { Some(self.slots()[index as int].1.position) } else { None }),
    {
        if self.len > index {
            proof {
                lemma_count_bound(self.touches@);
            }
            Some(self.touches[index].1.position)
        } else {
            None
        }
    }
}

impl<P: Copy> TouchesRecord<P> {
    /// What a well-formed record promises: its slots are ordered and the
    /// fingers on the screen are counted by `active`.
    pub proof fn lemma_wf(&self)
        requires
            self.wf(),
        ensures
            self.slots().len() == MAX_TOUCHES + 1,
            is_sorted(self.slots()),
            self.active() == count_active(self.slots()),
            forall|k: int|
                0 <= k < self.slots().len() ==> (is_active(#[trigger] self.slots()[k].1.state) <==> k
                    < self.active()),
    {
        lemma_active_prefix(self.touches@);
    }

    /// A record with the same slots and the same number of fingers.
    pub fn copy(&self) -> (r: Self)
        requires
            self.wf(),
        ensures
            r.wf(),
            r.slots() == self.slots(),
            r.active() == self.active(),
    {
        let mut touches: Vec<TouchSlot<P>> = Vec::new();
        let mut k: usize = 0;
        while k < self.touches.len()
            invariant
                k <= self.touches@.len(),
                touches@ == self.touches@.subrange(0, k as int),
            decreases self.touches.len() - k,
        {
            touches.push(self.touches[k]);
            k += 1;
            assert(touches@ =~= self.touches@.subrange(0, k as int));
        }
        assert(touches@ =~= self.touches@);
        TouchesRecord { touches, len: self.len }
    }

    fn find_id(&self, id: u8) -> (r: Option<usize>)
        requires
            self.wf(),
        ensures
            r matches Some(i) ==> first_with_id(self.slots(), self.active() as int, id) == Some(i as int),
            r is None ==> first_with_id(self.slots(), self.active() as int, id) is None,
    {
        proof {
            lemma_count_bound(self.touches@);
            lemma_first_with_id(self.touches@, self.len as int, id);
        }
        let mut i: usize = 0;
        while i < self.len
            invariant
                self.wf(),
                self.len <= MAX_TOUCHES + 1,
                i <= self.len,
                forall|k: int| 0 <= k < i ==> #[trigger] self.touches@[k].1.id != id,
                match first_with_id(self.touches@, self.len as int, id) {
                    Some(j) => 0 <= j < self.len && self.touches@[j].1.id == id && forall|k: int|
                        0 <= k < j ==> self.touches@[k].1.id != id,
                    None => forall|k: int| 0 <= k < self.len ==> self.touches@[k].1.id != id,
                },
            decreases self.len - i,
        {
            if self.touches[i].1.id == id {
                return Some(i);
            }
            i += 1;
        }
        None
    }

    /// Writes `touch` into the record as `touched` says, a new finger being
    /// seen at `now`, then orders the slots again, keeping the order of equal
    /// slots, and counts the fingers on the screen.
    pub fn update_touch_at(&mut self, touch: TouchEvent<P>, now: u64)
        requires
            old(self).wf(),
        ensures
            final(self).wf(),
            exists|perm: Seq<int>|
                stable_sorted(
                    final(self).slots(),
                    touched(old(self).slots(), old(self).active() as int, touch, now),
                    perm,
                ),
            final(self).active() == count_active(final(self).slots()),
    {
        let ghost written = touched(self.touches@, self.len as int, touch, now);
        proof {
            lemma_count_bound(self.touches@);
            lemma_first_with_id(self.touches@, self.len as int, touch.id);
        }
        match self.find_id(touch.id) {
            Some(i) => {
                let ts = self.touches[i].0;
                self.touches.set(i, (ts, touch));
            },
            None => {
                self.touches.set(MAX_TOUCHES, (now, touch));
            },
        }
        assert(self.touches@ == written);
        let sorted = sort_slots(&self.touches);
        let ghost perm = choose|perm: Seq<int>| stable_sorted(sorted@, written, perm);
        let mut cnt: usize = 0;
        let mut k: usize = 0;
        while k < sorted.len()
            invariant
                sorted@.len() == MAX_TOUCHES + 1,
                k <= sorted@.len(),
                cnt <= k,
                cnt == count_active(sorted@.subrange(0, k as int)),
            decreases sorted.len() - k,
        {
            let st = state_rank(sorted[k].1.state);
            if st < 2 {
                cnt += 1;
            }
            k += 1;
            assert(sorted@.subrange(0, k as int).drop_last() =~= sorted@.subrange(0, k - 1));
        }
        assert(sorted@.subrange(0, sorted@.len() as int) =~= sorted@);
        self.touches = sorted;
        self.len = cnt;
        assert(stable_sorted(self.touches@, written, perm));
        assert(written == touched(old(self).slots(), old(self).active() as int, touch, now));
        assert(stable_sorted(self.slots(), touched(old(self).slots(), old(self).active() as int, touch, now), perm));
    }

    /// Writes `touch` into the record, a new finger being seen at the current
    /// time, and orders the record again.
    pub fn update_touch(&mut self, touch: TouchEvent<P>)
        requires
            old(self).wf(),
        ensures
            final(self).wf(),
            touch_applied(final(self).slots(), old(self).slots(), old(self).active(), touch),
    {
        let now = timestamp_now();
        self.update_touch_at(touch, now);
        proof {
            let perm = choose|perm: Seq<int>|
                stable_sorted(self.touches@, touched(old(self).slots(), old(self).active() as int, touch, now), perm);
            assert(stable_sorted(self.slots(), touched(old(self).slots(), old(self).active() as int, touch, now), perm));
        }
    }
}

fn slot_le_exec<P: Copy>(a: &TouchSlot<P>, b: &TouchSlot<P>) -> (r: bool)
    ensures
        r == slot_le(*a, *b),
{
    let ra = state_rank(a.1.state);
    let rb = state_rank(b.1.state);
    ra < rb || (ra == rb && a.0 <= b.0)
}

/// Insertion sort that keeps equal slots in their order.
fn sort_slots<P: Copy>(v: &Vec<TouchSlot<P>>) -> (r: Vec<TouchSlot<P>>)
    ensures
        exists|perm: Seq<int>| stable_sorted(r@, v@, perm),
{
    let mut out: Vec<TouchSlot<P>> = Vec::new();
    let ghost mut perm: Seq<int> = Seq::empty();
    let mut i: usize = 0;
    while i < v.len()
        invariant
            i <= v@.len(),
            out@.len() == i,
            perm.len() == i,
            forall|k: int| 0 <= k < i ==> 0 <= #[trigger] perm[k] < i && out@[k] == v@[perm[k]],
            forall|a: int, b: int| 0 <= a < b < i ==> #[trigger] perm[a] != #[trigger] perm[b],
            is_sorted(out@),
            forall|a: int, b: int|
                0 <= a < b < out@.len() && same_key(#[trigger] out@[a], #[trigger] out@[b]) ==> perm[a] < perm[b],
        decreases v.len() - i,
    {
        let x = v[i];
        let mut p: usize = 0;
        while p < out.len() && slot_le_exec(&out[p], &x)
            invariant
                p <= out@.len(),
                forall|k: int| 0 <= k < p ==> slot_le(#[trigger] out@[k], x),
            decreases out.len() - p,
        {
            p += 1;
        }
        let ghost before = out@;
        let ghost perm0 = perm;
        out.insert(p, x);
        proof {
            perm = perm0.insert(p as int, i as int);
            assert(out@ == before.insert(p as int, x));
            assert forall|k: int| 0 <= k < i + 1 implies 0 <= #[trigger] perm[k] < i + 1 && out@[k] == v@[perm[k]] by {
                if k < p {
                    assert(perm[k] == perm0[k] && out@[k] == before[k]);
                } else if k > p {
                    assert(perm[k] == perm0[k - 1] && out@[k] == before[k - 1]);
                }
            }
            assert forall|a: int, b: int| 0 <= a < b < i + 1 implies #[trigger] perm[a] != #[trigger] perm[b] by {
                let a2 = if a < p { a } else { a - 1 };
                let b2 = if b < p { b } else { b - 1 };
                if a != p && b != p {
                    assert(perm[a] == perm0[a2] && perm[b] == perm0[b2]);
                } else if a == p {
                    assert(perm[b] == perm0[b2]);
                } else {
                    assert(perm[a] == perm0[a2]);
                }
            }
            assert forall|a: int, b: int| 0 <= a < b < out@.len() implies slot_le(#[trigger] out@[a], #[trigger] out@[b]) by {
                let a2 = if a < p { a } else { a - 1 };
                let b2 = if b < p { b } else { b - 1 };
                if a != p && b != p {
                    assert(out@[a] == before[a2] && out@[b] == before[b2]);
                } else if a == p {
                    assert(out@[b] == before[b2]);
                    assert(slot_le(before[p as int], before[b2]));
                } else {
                    assert(out@[a] == before[a2]);
                }
            }
            assert forall|a: int, b: int|
                0 <= a < b < out@.len() && same_key(#[trigger] out@[a], #[trigger] out@[b]) implies perm[a] < perm[b] by {
                let a2 = if a < p { a } else { a - 1 };
                let b2 = if b < p { b } else { b - 1 };
                if a != p && b != p {
                    assert(out@[a] == before[a2] && out@[b] == before[b2]);
                    assert(perm[a] == perm0[a2] && perm[b] == perm0[b2]);
                } else if a == p {
                    assert(out@[b] == before[b2]);
                    assert(slot_le(before[p as int], before[b2]));
                } else {
                    assert(out@[a] == before[a2]);
                    assert(perm[a] == perm0[a2]);
                }
            }
        }
        i += 1;
    }
    proof {
        assert(stable_sorted(out@, v@, perm));
    }
    out
}

proof fn lemma_count_zero<P>(s: Seq<TouchSlot<P>>, k: int)
    requires
        0 <= k <= s.len(),
        forall|i: int| 0 <= i < s.len() ==> !is_active(#[trigger] s[i].1.state),
    ensures
        count_active(s.subrange(0, k)) == 0,
    decreases k,
{
    if k > 0 {
        assert(s.subrange(0, k).drop_last() =~= s.subrange(0, k - 1));
        lemma_count_zero(s, k - 1);
    }
}

/// The record holds no finger: every slot is an ended touch of finger 0 at
/// `blank`, seen at `now`.
pub open spec fn emptied<P: Copy>(r: TouchesRecord<P>, now: u64, blank: P) -> bool {
    &&& r.active() == 0
    &&& r.slots() == Seq::new(
        (MAX_TOUCHES + 1) as nat,
        |k: int| (now, TouchEvent { id: 0u8, state: TouchState::End, position: blank }),
    )
}

/// Both records hold equally many fingers, the same fingers in the same places.
pub open spec fn same_fingers<P: Copy>(a: TouchesRecord<P>, b: TouchesRecord<P>) -> bool {
    a.active() == b.active() && forall|i: int| 0 <= i < a.active() ==> #[trigger] a.slots()[i].1.id == b.slots()[i].1.id
}

/// The timing parameters of tap recognition, in milliseconds.
#[derive(Debug, Clone, Copy, PartialEq, Eq, Structural)]
pub struct TapTimeouts {
    /// The maximum time between two taps of a multi-tap.
    pub tap_timeout: u64,
    /// The maximum time a finger may stay for a tap.
    pub touch_timeout: u64,
}

/// Recognizes `required` taps in a row of one finger. Positions and distances
/// are measured by the caller; the detector receives the outcome of each
/// distance test.
pub struct GestureTapDetector<P> {
    record: TouchesRecord<P>,
    last_tap_position: P,
    last_tap_time: u64,
    count: u32,
    required: u32,
    timeouts: TapTimeouts,
    blank: P,
}

impl<P: Copy> GestureTapDetector<P> {
    /// The fingers of the touch being followed.
    pub closed spec fn record(&self) -> TouchesRecord<P> {
        self.record
    }

    /// Where the last tap, or the touch that may become one, began.
    pub closed spec fn last_position(&self) -> P {
        self.last_tap_position
    }

    /// When the last tap, or the touch that may become one, began.
    pub closed spec fn last_time(&self) -> u64 {
        self.last_tap_time
    }

    /// The taps recognized in a row so far.
    pub closed spec fn count(&self) -> u32 {
        self.count
    }

    pub closed spec fn required(&self) -> u32 {
        self.required
    }

    pub closed spec fn timeouts(&self) -> TapTimeouts {
        self.timeouts
    }

    pub closed spec fn blank(&self) -> P {
        self.blank
    }

    /// The record is well formed and fewer taps than required were counted.
    pub closed spec fn wf(&self) -> bool {
        &&& self.record.wf()
        &&& self.count < self.required
    }

    /// A detector of `required` taps in a row; its time starts at `now`.
    pub fn new(required: u32, timeouts: TapTimeouts, blank: P, now: u64) -> (r: Self)
        requires
            required > 0,
        ensures
            r.wf(),
            r.required() == required,
            r.timeouts() == timeouts,
            r.blank() == blank,
            r.count() == 0,
            r.last_position() == blank,
            r.last_time() == now,
            emptied(r.record(), now, blank),
    {
        GestureTapDetector {
            record: TouchesRecord::new(now, blank),
            last_tap_position: blank,
            last_tap_time: now,
            count: 0,
            required,
            timeouts,
            blank,
        }
    }

    /// Where the last tap, or the touch that may become one, began.
    pub fn last_tap_position(&self) -> (r: P)
        ensures
            r == self.last_position(),
    {
        self.last_tap_position
    }

    /// Forgets the taps counted and the touch followed.
    pub fn reset(&mut self, now: u64)
        requires
            old(self).wf(),
        ensures
            final(self).wf(),
            final(self).count() == 0,
            emptied(final(self).record(), now, old(self).blank()),
            final(self).last_position() == old(self).last_position(),
            final(self).last_time() == old(self).last_time(),
            final(self).required() == old(self).required(),
            final(self).timeouts() == old(self).timeouts(),
            final(self).blank() == old(self).blank(),
    {
        self.count = 0;
        self.record = TouchesRecord::new(now, self.blank);
    }

    /// Follows the touch record after a touch event and returns the position
    /// of a recognized tap. Only a single finger can tap, and only while it
    /// stays the same finger; a touch that starts too late after the last tap,
    /// or `far_from_last_tap`, begins a new series; a touch that ends soon
    /// enough and `near_last_tap` counts as a tap; the required number of taps
    /// is a recognized gesture. The distances are those of the record's first
    /// finger from `last_position()`; `now` dates what reset empties.
    pub fn detect(&mut self, record: &TouchesRecord<P>, far_from_last_tap: bool, near_last_tap: bool, now: u64) -> (r: Option<P>)
        requires
            old(self).wf(),
            record.wf(),
        ensures
            final(self).wf(),
            final(self).required() == old(self).required(),
            final(self).timeouts() == old(self).timeouts(),
            final(self).blank() == old(self).blank(),
            ({
                let t = record.slots()[0];
                let ts = t.0;
                let ev = t.1;
                let to = old(self).timeouts();
                let reset = final(self).count() == 0 && emptied(final(self).record(), now, old(self).blank());
                let kept = final(self).record().slots() == record.slots() && final(self).record().active()
                    == record.active();
                let same_last = final(self).last_position() == old(self).last_position() && final(self).last_time()
                    == old(self).last_time();
                if record.active() != 1 || (old(self).record().active() > 0 && !same_fingers(
                    old(self).record(),
                    *record,
                )) {
                    r is None && reset && same_last
                } else {
                    match ev.state {
                        TouchState::Start => {
                            let restart = old(self).count() > 0 && (elapsed(ts, old(self).last_time()) > to.tap_timeout
                                || far_from_last_tap);
                            &&& r is None
                            &&& final(self).last_position() == ev.position
                            &&& final(self).last_time() == ts
                            &&& restart ==> reset
                            &&& !restart ==> kept && final(self).count() == old(self).count()
                        },
                        TouchState::End => {
                            if elapsed(ts, old(self).last_time()) < to.touch_timeout && near_last_tap {
                                &&& final(self).last_position() == ev.position
                                &&& final(self).last_time() == ts
                                &&& if old(self).count() + 1 == old(self).required() {
                                    r == Some(ev.position) && reset
                                } else {
                                    r is None && kept && final(self).count() == old(self).count() + 1
                                }
                            } else {
                                r is None && reset && same_last
                            }
                        },
                        TouchState::Cancel => r is None && reset && same_last,
                        TouchState::Move => r is None && kept && same_last && final(self).count() == old(
                            self,
                        ).count(),
                    }
                }
            }),
    {
        proof {
            record.lemma_wf();
        }
        let t1 = record.slot(0);
        let ts = t1.0;
        if record.len() != 1 {
            self.reset(now);
            return None;
        }
        if self.record.len() > 0 && !self.record.is_same(record) {
            self.reset(now);
            return None;
        }
        self.record = record.copy();
        match t1.1.state {
            TouchState::Start => {
                if self.count > 0 {
                    if elapsed_ms(ts, self.last_tap_time) > self.timeouts.tap_timeout {
                        self.reset(now);
                    }
                    if far_from_last_tap {
                        self.reset(now);
                    }
                }
                self.last_tap_position = t1.1.position;
                self.last_tap_time = ts;
                None
            },
            TouchState::End => {
                if elapsed_ms(ts, self.last_tap_time) < self.timeouts.touch_timeout && near_last_tap {
                    self.count = self.count + 1;
                    self.last_tap_position = t1.1.position;
                    self.last_tap_time = ts;
                    if self.count == self.required {
                        self.reset(now);
                        Some(t1.1.position)
                    } else {
                        None
                    }
                } else {
                    self.reset(now);
                    None
                }
            },
            TouchState::Cancel => {
                self.reset(now);
                None
            },
            TouchState::Move => None,
        }
    }
}


/// What the pan detector reports for one touch event.
#[derive(Debug, Clone, Copy)]
pub enum PanStep<P> {
    /// No pan gesture to report.
    Idle,
    /// The finger moved far enough from where it was placed: panning starts.
    Start { start_position: P },
    /// The finger moved while panning; `previous` is where it was before.
    Move { start_position: P, position: P, previous: P },
    /// The finger was lifted while panning.
    End { start_position: P, position: P },
}

/// Recognizes a pan of one finger. The caller measures whether the finger is
/// far enough from where it was placed; the detector follows the finger and
/// decides when panning starts, moves and ends.
pub struct GesturePanDetector<P> {
    record: TouchesRecord<P>,
    start_position: P,
    position: P,
    pan: bool,
    blank: P,
}

impl<P: Copy> GesturePanDetector<P> {
    /// The fingers of the touch being followed.
    pub closed spec fn record(&self) -> TouchesRecord<P> {
        self.record
    }

    /// Where the followed finger was placed.
    pub closed spec fn started_at(&self) -> P {
        self.start_position
    }

    /// Where the followed finger was last seen.
    pub closed spec fn current(&self) -> P {
        self.position
    }

    /// Whether the followed finger is panning.
    pub closed spec fn panning(&self) -> bool {
        self.pan
    }

    pub closed spec fn blank(&self) -> P {
        self.blank
    }

    pub closed spec fn wf(&self) -> bool {
        self.record.wf()
    }

    /// A detector that follows no finger; its time starts at `now`.
    pub fn new(blank: P, now: u64) -> (r: Self)
        ensures
            r.wf(),
            r.blank() == blank,
            r.started_at() == blank,
            r.current() == blank,
            !r.panning(),
            emptied(r.record(), now, blank),
    {
        GesturePanDetector { record: TouchesRecord::new(now, blank), start_position: blank, position: blank, pan: false, blank }
    }

    /// Where the followed finger was placed.
    pub fn start_position(&self) -> (r: P)
        ensures
            r == self.started_at(),
    {
        self.start_position
    }

    /// Forgets the finger followed and stops panning; the positions stay.
    pub fn reset(&mut self, now: u64)
        requires
            old(self).wf(),
        ensures
            final(self).wf(),
            !final(self).panning(),
            emptied(final(self).record(), now, old(self).blank()),
            final(self).started_at() == old(self).started_at(),
            final(self).current() == old(self).current(),
            final(self).blank() == old(self).blank(),
    {
        self.record = TouchesRecord::new(now, self.blank);
        self.pan = false;
    }

    /// Follows the touch record after a touch event. Only a single finger can
    /// pan, and only while it stays the same finger. A finger placed on the
    /// screen is followed from there; once it moved and `reached_min_distance`
    /// (its distance from where it was placed is at least the minimum) panning
    /// starts, and every later move is reported with the place it came from;
    /// lifting the finger ends the pan. `now` dates what reset empties.
    pub fn detect(&mut self, record: &TouchesRecord<P>, reached_min_distance: bool, now: u64) -> (r: PanStep<P>)
        requires
            old(self).wf(),
            record.wf(),
        ensures
            final(self).wf(),
            final(self).blank() == old(self).blank(),
            ({
                let ev = record.slots()[0].1;
                let reset = !final(self).panning() && emptied(final(self).record(), now, old(self).blank());
                let same_start = final(self).started_at() == old(self).started_at();
                if record.active() != 1 || (old(self).record().active() > 0 && !same_fingers(
                    old(self).record(),
                    *record,
                )) {
                    r is Idle && reset && same_start && final(self).current() == old(self).current()
                } else {
                    match ev.state {
                        TouchState::Start => {
                            &&& r is Idle
                            &&& final(self).record().slots() == record.slots()
                            &&& final(self).record().active() == record.active()
                            &&& final(self).started_at() == ev.position
                            &&& final(self).current() == ev.position
                            &&& !final(self).panning()
                        },
                        TouchState::Move => {
                            &&& final(self).record() == old(self).record()
                            &&& same_start
                            &&& final(self).current() == ev.position
                            &&& if old(self).panning() {
                                &&& r == (PanStep::Move {
                                    start_position: old(self).started_at(),
                                    position: ev.position,
                                    previous: old(self).current(),
                                })
                                &&& final(self).panning()
                            } else if reached_min_distance {
                                r == (PanStep::Start { start_position: old(self).started_at() }) && final(self).panning()
                            } else {
                                r is Idle && !final(self).panning()
                            }
                        },
                        TouchState::End => {
                            &&& reset
                            &&& same_start
                            &&& if old(self).panning() {
                                &&& r == (PanStep::End { start_position: old(self).started_at(), position: ev.position })
                                &&& final(self).current() == ev.position
                            } else {
                                r is Idle && final(self).current() == old(self).current()
                            }
                        },
                        TouchState::Cancel => r is Idle && reset && same_start && final(self).current() == old(
                            self,
                        ).current(),
                    }
                }
            }),
    {
        proof {
            record.lemma_wf();
        }
        let t1 = record.slot(0);
        if record.len() != 1 {
            self.reset(now);
            return PanStep::Idle;
        }
        if self.record.len() > 0 && !self.record.is_same(record) {
            self.reset(now);
            return PanStep::Idle;
        }
        match t1.1.state {
            TouchState::Start => {
                self.record = record.copy();
                self.start_position = t1.1.position;
                self.position = t1.1.position;
                self.pan = false;
                PanStep::Idle
            },
            TouchState::Move => {
                let previous = self.position;
                self.position = t1.1.position;
                if self.pan {
                    PanStep::Move { start_position: self.start_position, position: self.position, previous }
                } else if reached_min_distance {
                    self.pan = true;
                    PanStep::Start { start_position: self.start_position }
                } else {
                    PanStep::Idle
                }
            },
            TouchState::End => {
                if self.pan {
                    self.position = t1.1.position;
                    self.reset(now);
                    PanStep::End { start_position: self.start_position, position: self.position }
                } else {
                    self.reset(now);
                    PanStep::Idle
                }
            },
            TouchState::Cancel => {
                self.reset(now);
                PanStep::Idle
            },
        }
    }
}

/// The record's order: fingers on the screen, starting or moving, come
/// before ended touches, which come before cancelled ones; fingers on the
/// screen, and touches in the same state, go by the time they were first seen.
pub proof fn law_record_order<P>(a: TouchSlot<P>, b: TouchSlot<P>)
    ensures
        is_active(a.1.state) <==> (a.1.state == TouchState::Start || a.1.state == TouchState::Move),
        is_active(a.1.state) && !is_active(b.1.state) ==> slot_le(a, b) && !slot_le(b, a),
        a.1.state == TouchState::End && b.1.state == TouchState::Cancel ==> slot_le(a, b) && !slot_le(b, a),
        is_active(a.1.state) && is_active(b.1.state) ==> (slot_le(a, b) <==> a.0 <= b.0),
        a.1.state == b.1.state ==> (slot_le(a, b) <==> a.0 <= b.0),
{
}

} // verus!
