//! Groups systems into batches that may run in parallel: a system runs after
//! the systems it depends on, and two systems of one batch never have one
//! reading a component that the other writes.
use vstd::prelude::*;
use super::bitset::BitSet;
use crate::handle::Handle;

verus! {

/// One queued system, with the component indices it reads and writes.
pub struct DispatchItem<S> {
    system: Option<S>,
    readables: BitSet,
    writables: BitSet,
    dependencies: Vec<usize>,
    children: Vec<usize>,
}

/// The systems queued since the last build, in the order they were added.
pub struct SystemDispatcher<S> {
    generation: u32,
    items: Vec<DispatchItem<S>>,
}

/// Whether two systems may share a batch: neither reads what the other writes.
pub open spec fn compatible(r1: Set<int>, w1: Set<int>, r2: Set<int>, w2: Set<int>) -> bool {
    r1.disjoint(w2) && w1.disjoint(r2)
}

impl<S> SystemDispatcher<S> {
    /// The number of queued systems.
    pub closed spec fn count(&self) -> nat {
        self.items@.len()
    }

    pub closed spec fn reads(&self, i: int) -> Set<int> {
        self.items@[i].readables@
    }

    pub closed spec fn writes(&self, i: int) -> Set<int> {
        self.items@[i].writables@
    }

    /// The systems that system `i` depends on, by index.
    pub closed spec fn deps(&self, i: int) -> Seq<usize> {
        self.items@[i].dependencies@
    }

    /// The number of systems that depend on system `i`.
    pub closed spec fn child_count(&self, i: int) -> nat {
        self.items@[i].children@.len()
    }

    pub closed spec fn generation(&self) -> u32 {
        self.generation
    }

    /// Whether `h` names a system queued since the last build.
    pub open spec fn alive(&self, h: Handle) -> bool {
        h.version == self.generation() && h.index < self.count()
    }

    /// Every system depends only on systems added before it, each once.
    pub closed spec fn wf(&self) -> bool {
        &&& self.items@.len() <= u32::MAX
        &&& forall|i: int|
            0 <= i < self.items@.len() ==> {
                &&& (#[trigger] self.items@[i]).dependencies@.no_duplicates()
                &&& forall|k: int|
                    0 <= k < self.items@[i].dependencies@.len() ==> self.items@[i].dependencies@[k] < i
                &&& self.items@[i].system is Some
            }
    }

    pub fn new() -> (r: Self)
        ensures
            r.wf(),
            r.count() == 0,
    {
        SystemDispatcher { generation: 1, items: Vec::new() }
    }

    /// Returns true if `h` names a system queued since the last build.
    pub fn is_alive(&self, h: Handle) -> (r: bool)
        ensures
            r == self.alive(h),
    {
        h.version() == self.generation && (h.index() as usize) < self.items.len()
    }

    /// Adds a new system with a list of dependencies, which are kept when they
    /// name systems queued since the last build. The dependencies will always be
    /// executed before this system. Returns the handle of the new system.
    pub fn add(&mut self, dependencies: &[Handle], system: S, readables: BitSet, writables: BitSet) -> (r: Handle)
        requires
            old(self).wf(),
            old(self).count() < u32::MAX,
        ensures
            final(self).wf(),
            final(self).count() == old(self).count() + 1,
            final(self).generation() == old(self).generation(),
            r.index == old(self).count(),
            r.version == old(self).generation(),
            final(self).alive(r),
            final(self).reads(r.index as int) == readables@,
            final(self).writes(r.index as int) == writables@,
            forall|d: usize| #[trigger] final(self).deps(r.index as int).contains(d) <==> named_before(
                *old(self),
                dependencies@,
                dependencies@.len() as int,
                d,
            ),
            forall|i: int|
                0 <= i < old(self).count() ==> final(self).reads(i) == old(self).reads(i) && final(self).writes(i)
                    == old(self).writes(i) && final(self).deps(i) == old(self).deps(i) && final(self).system(i)
                    == old(self).system(i),
            final(self).system(r.index as int) == system,
            final(self).child_count(r.index as int) == 0,
            forall|i: int|
                0 <= i < old(self).count() ==> #[trigger] final(self).child_count(i) == old(self).child_count(i) + if final(self).deps(r.index as int).contains(i as usize) {
                    1nat
                } else {
                    0nat
                },
    {
        let n = self.items.len();
        let mut deps: Vec<usize> = Vec::new();
        let mut k: usize = 0;
        while k < dependencies.len()
            invariant
                self.items@.len() == n,
                self.wf(),
                self.generation == old(self).generation,
                self.items@ == old(self).items@,
                k <= dependencies@.len(),
                deps@.no_duplicates(),
                forall|j: int| 0 <= j < deps@.len() ==> deps@[j] < n,
                forall|x: usize| #[trigger] deps@.contains(x) <==> named_before(*old(self), dependencies@, k as int, x),
            decreases dependencies.len() - k,
        {
            let h = dependencies[k];
            let ghost before = deps@;
            if self.is_alive(h) {
                let d = h.index() as usize;
                let mut seen = false;
                let mut j: usize = 0;
                while j < deps.len()
                    invariant
                        j <= deps@.len(),
                        seen == exists|a: int| 0 <= a < j && deps@[a] == d,
                    decreases deps.len() - j,
                {
                    if deps[j] == d {
                        seen = true;
                    }
                    j += 1;
                }
                if !seen {
                    deps.push(d);
                    proof {
                        assert forall|a: int, b: int|
                            0 <= a < deps@.len() && 0 <= b < deps@.len() && a != b implies deps@[a] != deps@[b] by {
                            if a == deps@.len() - 1 {
                                assert(!(before[b] == d));
                            } else if b == deps@.len() - 1 {
                                assert(!(before[a] == d));
                            } else {
                                assert(before[a] != before[b]);
                            }
                        }
                    }
                }
            }
            proof {
                assert forall|x: usize| #[trigger] deps@.contains(x) <==> named_before(*old(self), dependencies@, k + 1, x) by {
                    lemma_named_step(*old(self), dependencies@, k as int, x);
                    if deps@ != before {
                        lemma_push_contains(before, h.index as usize, x);
                    }
                }
            }
            k += 1;
        }
        let mut j: usize = 0;
        while j < deps.len()
            invariant
                self.items@.len() == n,
                self.wf(),
                self.generation == old(self).generation,
                forall|i: int| 0 <= i < n ==> (#[trigger] self.items@[i]).readables == old(self).items@[i].readables
                    && self.items@[i].writables == old(self).items@[i].writables
                    && self.items@[i].dependencies == old(self).items@[i].dependencies
                    && self.items@[i].system == old(self).items@[i].system,
                forall|i: int| 0 <= i < deps@.len() ==> deps@[i] < n,
                deps@.no_duplicates(),
                j <= deps@.len(),
                forall|i: int|
                    0 <= i < n ==> #[trigger] self.items@[i].children@.len() == old(self).items@[i].children@.len()
                        + if deps@.subrange(0, j as int).contains(i as usize) {
                        1nat
                    } else {
                        0nat
                    },
            decreases deps.len() - j,
        {
            let d = deps[j];
            let ghost before = self.items@;
            let ghost jj = j as int;
            self.items[d].children.push(n);
            proof {
                assert(deps@.subrange(0, jj + 1) =~= deps@.subrange(0, jj).push(d));
                assert(!deps@.subrange(0, jj).contains(d)) by {
                    if deps@.subrange(0, jj).contains(d) {
                        let m = choose|m: int| 0 <= m < jj && #[trigger] deps@.subrange(0, jj)[m] == d;
                        assert(deps@[m] == deps@[jj]);
                    }
                }
                assert forall|i: int| 0 <= i < n implies #[trigger] self.items@[i].children@.len() == old(self).items@[i].children@.len() + if deps@.subrange(0, jj + 1).contains(i as usize) {
                    1nat
                } else {
                    0nat
                } by {
                    lemma_push_contains(deps@.subrange(0, jj), d, i as usize);
                    if i != d {
                        assert(self.items@[i] == before[i]);
                    }
                }
            }
            j += 1;
        }
        proof {
            assert(deps@.subrange(0, deps@.len() as int) =~= deps@);
        }
        let ghost dv = deps@;
        let ghost items_before = self.items@;
        let item = DispatchItem {
            system: Some(system),
            readables: readables,
            writables: writables,
            dependencies: deps,
            children: Vec::new(),
        };
        self.items.push(item);
        proof {
            assert(self.items@[n as int].dependencies@ == dv);
            assert forall|i: int| 0 <= i < old(self).count() implies self.deps(i) == old(self).deps(i) by {
                assert(self.items@[i].dependencies == old(self).items@[i].dependencies);
            }
            assert forall|i: int| 0 <= i < old(self).count() implies #[trigger] self.child_count(i) == old(self).child_count(i) + if self.deps(n as int).contains(i as usize) {
                1nat
            } else {
                0nat
            } by {
                assert(self.items@[i] == items_before[i]);
            }
        }
        Handle::new(n as u32, self.generation)
    }

    /// Orders `v` by decreasing number of dependents, keeping the order of
    /// systems with equally many.
    fn sort_by_children(&self, v: Vec<usize>) -> (r: Vec<usize>)
        requires
            forall|i: int| 0 <= i < v@.len() ==> v@[i] < self.count(),
        ensures
            r@.len() == v@.len(),
            forall|x: usize| #[trigger] r@.contains(x) <==> v@.contains(x),
            v@.no_duplicates() ==> r@.no_duplicates(),
            forall|i: int| 0 <= i < r@.len() ==> r@[i] < self.count(),
            forall|a: int, b: int|
                0 <= a < b < r@.len() ==> self.child_count(r@[a] as int) >= self.child_count(r@[b] as int),
            r@ == self.sort_by_dependents(v@),
    {
        let mut out: Vec<usize> = Vec::new();
        let mut i: usize = 0;
        while i < v.len()
            invariant
                i <= v@.len(),
                forall|k: int| 0 <= k < v@.len() ==> v@[k] < self.count(),
                out@.len() == i,
                forall|x: usize| #[trigger] out@.contains(x) <==> v@.subrange(0, i as int).contains(x),
                v@.no_duplicates() ==> out@.no_duplicates(),
                forall|k: int| 0 <= k < out@.len() ==> out@[k] < self.count(),
                forall|a: int, b: int|
                    0 <= a < b < out@.len() ==> self.child_count(out@[a] as int) >= self.child_count(
                        out@[b] as int,
                    ),
                out@ == self.sort_by_dependents(v@.subrange(0, i as int)),
            decreases v.len() - i,
        {
            let x = v[i];
            let key = self.items[x].children.len();
            let mut p: usize = 0;
            while p < out.len() && self.items[out[p]].children.len() >= key
                invariant
                    p <= out@.len(),
                    forall|k: int| 0 <= k < out@.len() ==> out@[k] < self.count(),
                    forall|k: int| 0 <= k < p ==> self.child_count(out@[k] as int) >= key,
                    self.insert_pos(out@, key as nat, p as nat) == self.insert_pos(out@, key as nat, 0),
                decreases out.len() - p,
            {
                p += 1;
            }
            proof {
                assert(v@.subrange(0, i + 1).drop_last() =~= v@.subrange(0, i as int));
                assert(v@.subrange(0, i + 1).last() == x);
                assert(self.insert_pos(out@, key as nat, p as nat) == p);
            }
            let ghost before = out@;
            proof {
                assert(!before.contains(x) || !v@.no_duplicates()) by {
                    if v@.no_duplicates() && before.contains(x) {
                        let k = choose|k: int| 0 <= k < before.len() && before[k] == x;
                        assert(v@.subrange(0, i as int).contains(x));
                        let m = choose|m: int| 0 <= m < i && v@.subrange(0, i as int)[m] == x;
                        assert(v@[m] == v@[i as int]);
                    }
                }
            }
            out.insert(p, x);
            i += 1;
            proof {
                assert(out@ == before.insert(p as int, x));
                assert(v@.subrange(0, i as int) =~= v@.subrange(0, i - 1).push(x));
                assert forall|y: usize| #[trigger] out@.contains(y) <==> v@.subrange(0, i as int).contains(y) by {
                    lemma_insert_contains(before, p as int, x, y);
                    lemma_push_contains(v@.subrange(0, i - 1), x, y);
                }
                if v@.no_duplicates() {
                    assert forall|a: int, b: int|
                        0 <= a < out@.len() && 0 <= b < out@.len() && a != b implies out@[a] != out@[b] by {
                        let a2 = if a < p { a } else { a - 1 };
                        let b2 = if b < p { b } else { b - 1 };
                        if a != p && b != p {
                            assert(out@[a] == before[a2] && out@[b] == before[b2]);
                        } else if a == p {
                            assert(out@[b] == before[b2]);
                        } else {
                            assert(out@[a] == before[a2]);
                        }
                    }
                }
                assert forall|a: int, b: int|
                    0 <= a < b < out@.len() implies self.child_count(out@[a] as int) >= self.child_count(
                        out@[b] as int,
                    ) by {
                    if b < p {
                        assert(out@[a] == before[a] && out@[b] == before[b]);
                    } else if b == p {
                        assert(out@[a] == before[a]);
                    } else if a == p {
                        assert(out@[b] == before[b - 1]);
                        if p < before.len() {
                            assert(self.child_count(before[p as int] as int) < key);
                            assert(self.child_count(before[p as int] as int) >= self.child_count(
                                before[b - 1] as int,
                            ));
                        }
                    } else if a < p {
                        assert(out@[a] == before[a] && out@[b] == before[b - 1]);
                    } else {
                        assert(out@[a] == before[a - 1] && out@[b] == before[b - 1]);
                    }
                }
            }
        }
        proof {
            assert(v@.subrange(0, v@.len() as int) == v@);
        }
        out
    }
}

/// Whether system `x` reads what a member of `batch` writes, or writes what one reads.
pub open spec fn conflicts_with_member<S>(d: &SystemDispatcher<S>, batch: Seq<usize>, x: usize) -> bool {
    exists|a: int|
        0 <= a < batch.len() && !compatible(
            d.reads(#[trigger] batch[a] as int),
            d.writes(batch[a] as int),
            d.reads(x as int),
            d.writes(x as int),
        )
}

/// System `i` is in batch `k`.
pub open spec fn in_batch(bs: Seq<Vec<usize>>, k: int, i: usize) -> bool {
    0 <= k < bs.len() && bs[k]@.contains(i)
}

/// System `i` is in one of the batches before batch `k`.
pub open spec fn scheduled_before(bs: Seq<Vec<usize>>, k: int, i: usize) -> bool {
    exists|k2: int| 0 <= k2 < k && #[trigger] in_batch(bs, k2, i)
}

/// The number of `true` entries.
pub open spec fn count_true(s: Seq<bool>) -> nat
    decreases s.len(),
{
    if s.len() == 0 {
        0
    } else {
        count_true(s.drop_last()) + if s.last() { 1nat } else { 0nat }
    }
}

proof fn lemma_count_true_bound(s: Seq<bool>)
    ensures
        count_true(s) <= s.len(),
    decreases s.len(),
{
    if s.len() > 0 {
        lemma_count_true_bound(s.drop_last());
    }
}

proof fn lemma_count_true_set(s: Seq<bool>, i: int)
    requires
        0 <= i < s.len(),
        !s[i],
    ensures
        count_true(s.update(i, true)) == count_true(s) + 1,
    decreases s.len(),
{
    let t = s.update(i, true);
    if i == s.len() - 1 {
        assert(t.drop_last() =~= s.drop_last());
    } else {
        assert(t.drop_last() =~= s.drop_last().update(i, true));
        lemma_count_true_set(s.drop_last(), i);
    }
}

impl<S> SystemDispatcher<S> {
    /// The batches form a valid schedule: each is non-empty, names queued
    /// systems, no system appears twice, no two systems of a batch have one
    /// reading what the other writes, and every dependency of a system runs in
    /// an earlier batch.
    pub open spec fn valid_schedule(&self, bs: Seq<Vec<usize>>) -> bool {
        &&& forall|k: int|
            0 <= k < bs.len() ==> (#[trigger] bs[k])@.len() > 0 && bs[k]@.no_duplicates() && forall|a: int|
                0 <= a < bs[k]@.len() ==> bs[k]@[a] < self.count()
        &&& forall|k1: int, k2: int, i: usize| #[trigger] in_batch(bs, k1, i) && #[trigger] in_batch(bs, k2, i) ==> k1 == k2
        &&& forall|k: int, a: int, b: int|
            0 <= k < bs.len() && 0 <= a < b < bs[k]@.len() ==> compatible(
                self.reads(bs[k]@[a] as int),
                self.writes(bs[k]@[a] as int),
                self.reads(bs[k]@[b] as int),
                self.writes(bs[k]@[b] as int),
            )
        &&& forall|k: int, a: int, j: int|
            0 <= k < bs.len() && 0 <= a < bs[k]@.len() && 0 <= j < self.deps(bs[k]@[a] as int).len()
                ==> scheduled_before(bs, k, self.deps(bs[k]@[a] as int)[j])
    }
}

impl<S> SystemDispatcher<S> {
    /// The systems of `v` come in decreasing number of dependents.
    pub open spec fn by_dependents(&self, v: Seq<usize>) -> bool {
        forall|a: int, b: int|
            0 <= a < b < v.len() ==> self.child_count(#[trigger] v[a] as int) >= self.child_count(#[trigger] v[b] as int)
    }

    /// The batches are filled greedily: a system left out of a batch although
    /// its dependencies all ran before it conflicts with a member of that batch.
    pub open spec fn greedy(&self, bs: Seq<Vec<usize>>) -> bool {
        forall|k: int, x: usize|
            #![trigger self.ready_before(bs, k, x)]
            0 <= k < bs.len() && x < self.count() && !scheduled_before(bs, k + 1, x) && self.ready_before(bs, k, x)
                ==> conflicts_with_member(self, bs[k]@, x)
    }

    /// Every queued system is in one of the batches.
    pub open spec fn complete(&self, bs: Seq<Vec<usize>>) -> bool {
        forall|i: usize| i < self.count() ==> scheduled_before(bs, bs.len() as int, i)
    }

    /// Every dependency of system `x` runs in one of the batches before batch `k`.
    pub open spec fn ready_before(&self, bs: Seq<Vec<usize>>, k: int, x: usize) -> bool {
        forall|j: int| 0 <= j < self.deps(x as int).len() ==> scheduled_before(bs, k, #[trigger] self.deps(x as int)[j])
    }

    /// Every dependency of system `i` is marked in `done`.
    pub open spec fn ready_in(&self, done: Seq<bool>, i: int) -> bool {
        forall|j: int| 0 <= j < self.deps(i).len() ==> #[trigger] done[self.deps(i)[j] as int]
    }

    /// The pending systems among the first `i` whose dependencies are all
    /// done, in index order.
    pub open spec fn newly_ready(&self, pending: Seq<bool>, done: Seq<bool>, i: nat) -> Seq<usize>
        decreases i,
    {
        if i == 0 {
            Seq::empty()
        } else {
            let prev = self.newly_ready(pending, done, (i - 1) as nat);
            if pending[i - 1] && self.ready_in(done, i - 1) {
                prev.push((i - 1) as usize)
            } else {
                prev
            }
        }
    }

    /// The systems that stay pending: those whose dependencies are not all done.
    pub open spec fn still_pending(&self, pending: Seq<bool>, done: Seq<bool>) -> Seq<bool> {
        Seq::new(pending.len(), |k: int| pending[k] && !self.ready_in(done, k))
    }

    /// The place, at or after `p`, where a system with `key` dependents goes
    /// in `out`: before the first system with fewer.
    pub open spec fn insert_pos(&self, out: Seq<usize>, key: nat, p: nat) -> nat
        decreases out.len() - p,
    {
        if p >= out.len() || self.child_count(out[p as int] as int) < key {
            p
        } else {
            self.insert_pos(out, key, p + 1)
        }
    }

    /// `v` ordered by decreasing number of dependents: each system, in turn,
    /// goes after the systems with at least as many, so that systems with
    /// equally many keep their order.
    pub open spec fn sort_by_dependents(&self, v: Seq<usize>) -> Seq<usize>
        decreases v.len(),
    {
        if v.len() == 0 {
            v
        } else {
            let out = self.sort_by_dependents(v.drop_last());
            out.insert(self.insert_pos(out, self.child_count(v.last() as int), 0) as int, v.last())
        }
    }

    /// Splits `v`, in order, into the systems that join the batch and the ones
    /// deferred, with what the batch reads and writes: a system joins unless it
    /// writes what a member reads or reads what a member writes.
    pub open spec fn fill(&self, v: Seq<usize>) -> (Seq<usize>, Seq<usize>, Set<int>, Set<int>)
        decreases v.len(),
    {
        if v.len() == 0 {
            (Seq::empty(), Seq::empty(), Set::empty(), Set::empty())
        } else {
            let prev = self.fill(v.drop_last());
            let x = v.last();
            if prev.2.disjoint(self.writes(x as int)) && prev.3.disjoint(self.reads(x as int)) {
                (prev.0.push(x), prev.1, prev.2.union(self.reads(x as int)), prev.3.union(self.writes(x as int)))
            } else {
                (prev.0, prev.1.push(x), prev.2, prev.3)
            }
        }
    }

    /// One round from the state `(pending, done, deferred)`: the systems
    /// deferred by the round before, then the pending systems whose
    /// dependencies are all done, ordered by dependents, are split into a batch
    /// and the systems deferred. Returns the batch and the next state.
    pub open spec fn round(&self, s: (Seq<bool>, Seq<bool>, Seq<usize>)) -> (Seq<usize>, (Seq<bool>, Seq<bool>, Seq<usize>)) {
        let candidates = s.2 + self.newly_ready(s.0, s.1, self.count());
        let split = self.fill(self.sort_by_dependents(candidates));
        (
            split.0,
            (
                self.still_pending(s.0, s.1),
                Seq::new(s.1.len(), |k: int| s.1[k] || split.0.contains(k as usize)),
                split.1,
            ),
        )
    }

    /// Some system of the state still waits for its dependencies or was deferred.
    pub open spec fn has_work(s: (Seq<bool>, Seq<bool>, Seq<usize>)) -> bool {
        (exists|i: int| 0 <= i < s.0.len() && s.0[i]) || s.2.len() > 0
    }

    /// The batches of at most `fuel` rounds from state `s`; the rounds stop
    /// when no system waits and none was deferred, or when a batch is empty.
    pub open spec fn rounds(&self, s: (Seq<bool>, Seq<bool>, Seq<usize>), fuel: nat) -> Seq<Seq<usize>>
        decreases fuel,
    {
        if fuel == 0 || !Self::has_work(s) {
            Seq::empty()
        } else {
            let step = self.round(s);
            if step.0.len() == 0 {
                Seq::empty()
            } else {
                seq![step.0] + self.rounds(step.1, (fuel - 1) as nat)
            }
        }
    }

    /// The state before the first round: every system waits.
    pub open spec fn first_state(&self) -> (Seq<bool>, Seq<bool>, Seq<usize>) {
        (Seq::new(self.count(), |k: int| true), Seq::new(self.count(), |k: int| false), Seq::empty())
    }

    /// The batches that the rounds give, from the state where every system
    /// waits; each round batches at least one system, so `count() + 1` rounds
    /// are enough.
    pub open spec fn greedy_rounds(&self) -> Seq<Seq<usize>> {
        self.rounds(self.first_state(), self.count() + 1)
    }

    fn is_ready(&self, i: usize, done: &Vec<bool>) -> (r: bool)
        requires
            self.wf(),
            i < self.count(),
            done@.len() == self.count(),
        ensures
            r == self.ready_in(done@, i as int),
    {
        let n = self.items[i].dependencies.len();
        let mut j: usize = 0;
        while j < n
            invariant
                self.wf(),
                i < self.count(),
                done@.len() == self.count(),
                n == self.deps(i as int).len(),
                j <= n,
                forall|k: int| 0 <= k < j ==> #[trigger] done@[self.deps(i as int)[k] as int],
            decreases n - j,
        {
            let d = self.items[i].dependencies[j];
            assert(self.items@[i as int].dependencies@[j as int] < i);
            if !done[d] {
                return false;
            }
            j += 1;
        }
        true
    }

    /// Moves every pending system whose dependencies are all done into `fbuf`.
    fn collect_ready(&self, pending: &mut Vec<bool>, done: &Vec<bool>, fbuf: &mut Vec<usize>)
        requires
            self.wf(),
            old(pending)@.len() == self.count(),
            done@.len() == self.count(),
            old(fbuf)@.no_duplicates(),
            forall|k: int| 0 <= k < old(fbuf)@.len() ==> {
                let x = #[trigger] old(fbuf)@[k];
                x < self.count() && !old(pending)@[x as int] && !done@[x as int] && self.ready_in(done@, x as int)
            },
            forall|i: int| 0 <= i < self.count() && old(pending)@[i] ==> !done@[i],
        ensures
            final(pending)@.len() == self.count(),
            final(fbuf)@.no_duplicates(),
            forall|k: int| 0 <= k < final(fbuf)@.len() ==> {
                let x = #[trigger] final(fbuf)@[k];
                x < self.count() && !final(pending)@[x as int] && !done@[x as int] && self.ready_in(done@, x as int)
            },
            forall|i: int| 0 <= i < self.count() && final(pending)@[i] ==> old(pending)@[i],
            forall|i: int| 0 <= i < self.count() && final(pending)@[i] ==> !done@[i],
            forall|i: int| 0 <= i < self.count() && old(pending)@[i] && !final(pending)@[i] ==> final(fbuf)@.contains(i as usize),
            forall|i: int| 0 <= i < self.count() && old(pending)@[i] && self.ready_in(done@, i) ==> !final(pending)@[i],
            forall|x: usize| #[trigger] old(fbuf)@.contains(x) ==> final(fbuf)@.contains(x),
            final(fbuf)@ == old(fbuf)@ + self.newly_ready(old(pending)@, done@, self.count()),
            final(pending)@ == self.still_pending(old(pending)@, done@),
    {
        let n = self.items.len();
        let mut i: usize = 0;
        while i < n
            invariant
                self.wf(),
                n == self.count(),
                pending@.len() == n,
                done@.len() == n,
                i <= n,
                fbuf@.no_duplicates(),
                forall|k: int| 0 <= k < fbuf@.len() ==> {
                    let x = #[trigger] fbuf@[k];
                    x < n && !pending@[x as int] && !done@[x as int] && self.ready_in(done@, x as int)
                },
                forall|k: int| i <= k < n ==> pending@[k] == old(pending)@[k],
                forall|k: int| 0 <= k < n && pending@[k] ==> old(pending)@[k],
                forall|k: int| 0 <= k < n && pending@[k] ==> !done@[k],
                forall|k: int| 0 <= k < n && old(pending)@[k] && !pending@[k] ==> fbuf@.contains(k as usize),
                forall|k: int| 0 <= k < i && old(pending)@[k] && self.ready_in(done@, k) ==> !pending@[k],
                forall|x: usize| #[trigger] old(fbuf)@.contains(x) ==> fbuf@.contains(x),
                fbuf@ == old(fbuf)@ + self.newly_ready(old(pending)@, done@, i as nat),
                forall|k: int| 0 <= k < i ==> pending@[k] == (old(pending)@[k] && !self.ready_in(done@, k)),
            decreases n - i,
        {
            let ghost fb0 = fbuf@;
            proof {
                assert(self.newly_ready(old(pending)@, done@, (i + 1) as nat) == if old(pending)@[i as int]
                    && self.ready_in(done@, i as int) {
                    self.newly_ready(old(pending)@, done@, i as nat).push(i)
                } else {
                    self.newly_ready(old(pending)@, done@, i as nat)
                });
            }
            if pending[i] && self.is_ready(i, done) {
                let ghost before = fbuf@;
                pending.set(i, false);
                fbuf.push(i);
                proof {
                    assert forall|a: int, b: int|
                        0 <= a < fbuf@.len() && 0 <= b < fbuf@.len() && a != b implies fbuf@[a] != fbuf@[b] by {
                        if a == before.len() {
                            assert(!pending@[before[b] as int]);
                        } else if b == before.len() {
                            assert(!pending@[before[a] as int]);
                        }
                    }
                    assert forall|k: int| 0 <= k < n && old(pending)@[k] && !pending@[k] implies fbuf@.contains(k as usize) by {
                        if k == i {
                            assert(fbuf@[before.len() as int] == i);
                        } else {
                            lemma_push_contains(before, i, k as usize);
                        }
                    }
                    assert forall|x: usize| #[trigger] old(fbuf)@.contains(x) implies fbuf@.contains(x) by {
                        lemma_push_contains(before, i, x);
                    }
                    assert(fbuf@ =~= old(fbuf)@ + self.newly_ready(old(pending)@, done@, (i + 1) as nat));
                }
            }
            i += 1;
        }
        proof {
            assert(pending@ =~= self.still_pending(old(pending)@, done@));
        }
    }

    /// Splits `fbuf`, in order, into the systems that join the batch and the
    /// ones deferred: a system joins unless it reads what a member writes or
    /// writes what a member reads.
    fn fill_batch(&self, fbuf: &Vec<usize>, bbuf: &mut Vec<usize>) -> (batch: Vec<usize>)
        requires
            fbuf@.no_duplicates(),
            forall|k: int| 0 <= k < fbuf@.len() ==> #[trigger] fbuf@[k] < self.count(),
            self.by_dependents(fbuf@),
        ensures
            self.by_dependents(batch@),
            batch@.no_duplicates(),
            final(bbuf)@.no_duplicates(),
            fbuf@.len() > 0 ==> batch@.len() > 0,
            forall|x: usize| #[trigger] fbuf@.contains(x) <==> (batch@.contains(x) || final(bbuf)@.contains(x)),
            forall|x: usize| !(#[trigger] batch@.contains(x) && final(bbuf)@.contains(x)),
            forall|x: usize| #[trigger] batch@.contains(x) ==> fbuf@.contains(x),
            forall|x: usize| #[trigger] final(bbuf)@.contains(x) ==> fbuf@.contains(x),
            forall|x: usize| #[trigger] final(bbuf)@.contains(x) ==> conflicts_with_member(self, batch@, x),
            forall|a: int, b: int|
                0 <= a < b < batch@.len() ==> compatible(
                    self.reads(batch@[a] as int),
                    self.writes(batch@[a] as int),
                    self.reads(batch@[b] as int),
                    self.writes(batch@[b] as int),
                ),
            batch@ == self.fill(fbuf@).0,
            final(bbuf)@ == self.fill(fbuf@).1,
    {
        bbuf.clear();
        let mut batch: Vec<usize> = Vec::new();
        let mut br = BitSet::new();
        let mut bw = BitSet::new();
        let mut j: usize = 0;
        while j < fbuf.len()
            invariant
                fbuf@.no_duplicates(),
                forall|k: int| 0 <= k < fbuf@.len() ==> #[trigger] fbuf@[k] < self.count(),
                j <= fbuf@.len(),
                batch@.no_duplicates(),
                bbuf@.no_duplicates(),
                j > 0 ==> batch@.len() > 0,
                forall|x: usize| #[trigger] fbuf@.subrange(0, j as int).contains(x) <==> (batch@.contains(x) || bbuf@.contains(x)),
                forall|x: usize| !(#[trigger] batch@.contains(x) && bbuf@.contains(x)),
                forall|a: int| 0 <= a < batch@.len() ==> self.reads(#[trigger] batch@[a] as int).subset_of(br@)
                    && self.writes(batch@[a] as int).subset_of(bw@),
                forall|e: int| #[trigger] br@.contains(e) ==> exists|a: int|
                    0 <= a < batch@.len() && self.reads(#[trigger] batch@[a] as int).contains(e),
                forall|e: int| #[trigger] bw@.contains(e) ==> exists|a: int|
                    0 <= a < batch@.len() && self.writes(#[trigger] batch@[a] as int).contains(e),
                forall|x: usize| #[trigger] bbuf@.contains(x) ==> conflicts_with_member(self, batch@, x),
                forall|a: int, b: int|
                    0 <= a < b < batch@.len() ==> compatible(
                        self.reads(batch@[a] as int),
                        self.writes(batch@[a] as int),
                        self.reads(batch@[b] as int),
                        self.writes(batch@[b] as int),
                    ),
                batch@.len() == 0 ==> br@ == Set::<int>::empty() && bw@ == Set::<int>::empty(),
                self.by_dependents(fbuf@),
                self.by_dependents(batch@),
                forall|a: int, i: int|
                    0 <= a < batch@.len() && j <= i < fbuf@.len() ==> self.child_count(#[trigger] batch@[a] as int)
                        >= self.child_count(#[trigger] fbuf@[i] as int),
                batch@ == self.fill(fbuf@.subrange(0, j as int)).0,
                bbuf@ == self.fill(fbuf@.subrange(0, j as int)).1,
                br@ == self.fill(fbuf@.subrange(0, j as int)).2,
                bw@ == self.fill(fbuf@.subrange(0, j as int)).3,
            decreases fbuf.len() - j,
        {
            proof {
                assert(fbuf@.subrange(0, j + 1).drop_last() =~= fbuf@.subrange(0, j as int));
                assert(fbuf@.subrange(0, j + 1).last() == fbuf@[j as int]);
                lemma_disjoint_intersect(br@, self.writes(fbuf@[j as int] as int));
                lemma_disjoint_intersect(bw@, self.reads(fbuf@[j as int] as int));
            }
            let h = fbuf[j];
            let item = &self.items[h];
            let iw = br.intersect_with(&item.writables);
            let ir = bw.intersect_with(&item.readables);
            let can_write = iw.is_empty();
            let can_read = ir.is_empty();
            let ghost prev_batch = batch@;
            let ghost prev_bbuf = bbuf@;
            let ghost br0 = br@;
            let ghost bw0 = bw@;
            proof {
                if prev_batch.len() == 0 {
                    assert(br0.intersect(item.writables@) =~= Set::<int>::empty());
                    assert(bw0.intersect(item.readables@) =~= Set::<int>::empty());
                }
            }
            proof {
                assert(fbuf@.subrange(0, j + 1) =~= fbuf@.subrange(0, j as int).push(h));
                assert(!fbuf@.subrange(0, j as int).contains(h)) by {
                    if fbuf@.subrange(0, j as int).contains(h) {
                        let m = choose|m: int| 0 <= m < j && fbuf@.subrange(0, j as int)[m] == h;
                        assert(fbuf@[m] == fbuf@[j as int]);
                    }
                }
            }
            if can_write && can_read {
                batch.push(h);
                br = br.union_with(&item.readables);
                bw = bw.union_with(&item.writables);
                proof {
                    assert forall|a: int, b: int|
                        0 <= a < batch@.len() && 0 <= b < batch@.len() && a != b implies batch@[a] != batch@[b] by {
                        if a == prev_batch.len() {
                            assert(!prev_batch.contains(h));
                        } else if b == prev_batch.len() {
                            assert(!prev_batch.contains(h));
                        }
                    }
                    assert forall|a: int, b: int|
                        0 <= a < b < batch@.len() implies compatible(
                            self.reads(batch@[a] as int),
                            self.writes(batch@[a] as int),
                            self.reads(batch@[b] as int),
                            self.writes(batch@[b] as int),
                        ) by {
                        if b == prev_batch.len() {
                            let m = prev_batch[a];
                            assert(batch@[a] == m);
                            assert(batch@[b] == h);
                            assert(self.reads(m as int).subset_of(br0));
                            assert(self.writes(m as int).subset_of(bw0));
                            assert(br0.intersect(self.writes(h as int)) == Set::<int>::empty());
                            assert(bw0.intersect(self.reads(h as int)) == Set::<int>::empty());
                            assert forall|x: int| !(self.reads(m as int).contains(x) && self.writes(h as int).contains(x)) by {
                                if self.reads(m as int).contains(x) && self.writes(h as int).contains(x) {
                                    assert(br0.intersect(self.writes(h as int)).contains(x));
                                }
                            }
                            assert forall|x: int| !(self.writes(m as int).contains(x) && self.reads(h as int).contains(x)) by {
                                if self.writes(m as int).contains(x) && self.reads(h as int).contains(x) {
                                    assert(bw0.intersect(self.reads(h as int)).contains(x));
                                }
                            }
                        } else {
                            assert(batch@[a] == prev_batch[a] && batch@[b] == prev_batch[b]);
                        }
                    }
                    assert forall|e: int| #[trigger] br@.contains(e) implies exists|a: int|
                        0 <= a < batch@.len() && self.reads(#[trigger] batch@[a] as int).contains(e) by {
                        if br0.contains(e) {
                            let a = choose|a: int| 0 <= a < prev_batch.len() && self.reads(#[trigger] prev_batch[a] as int).contains(e);
                            assert(batch@[a] == prev_batch[a]);
                        } else {
                            assert(batch@[prev_batch.len() as int] == h);
                        }
                    }
                    assert forall|e: int| #[trigger] bw@.contains(e) implies exists|a: int|
                        0 <= a < batch@.len() && self.writes(#[trigger] batch@[a] as int).contains(e) by {
                        if bw0.contains(e) {
                            let a = choose|a: int| 0 <= a < prev_batch.len() && self.writes(#[trigger] prev_batch[a] as int).contains(e);
                            assert(batch@[a] == prev_batch[a]);
                        } else {
                            assert(batch@[prev_batch.len() as int] == h);
                        }
                    }
                    assert forall|x: usize| #[trigger] bbuf@.contains(x) implies conflicts_with_member(self, batch@, x) by {
                        assert(conflicts_with_member(self, prev_batch, x));
                        let a = choose|a: int|
                            0 <= a < prev_batch.len() && !compatible(
                                self.reads(#[trigger] prev_batch[a] as int),
                                self.writes(prev_batch[a] as int),
                                self.reads(x as int),
                                self.writes(x as int),
                            );
                        assert(batch@[a] == prev_batch[a]);
                    }
                }
            } else {
                bbuf.push(h);
                proof {
                    if !can_write {
                        let e = choose|e: int| iw@.contains(e);
                        assert(iw@.contains(e)) by {
                            if forall|e2: int| !iw@.contains(e2) {
                                assert(iw@ =~= Set::<int>::empty());
                            }
                        }
                        assert(br0.contains(e));
                        let a = choose|a: int| 0 <= a < batch@.len() && self.reads(#[trigger] batch@[a] as int).contains(e);
                        assert(!self.reads(batch@[a] as int).disjoint(self.writes(h as int)));
                    } else {
                        let e = choose|e: int| ir@.contains(e);
                        assert(ir@.contains(e)) by {
                            if forall|e2: int| !ir@.contains(e2) {
                                assert(ir@ =~= Set::<int>::empty());
                            }
                        }
                        assert(bw0.contains(e));
                        let a = choose|a: int| 0 <= a < batch@.len() && self.writes(#[trigger] batch@[a] as int).contains(e);
                        assert(!self.writes(batch@[a] as int).disjoint(self.reads(h as int)));
                    }
                    assert(conflicts_with_member(self, batch@, h));
                    assert forall|x: usize| #[trigger] bbuf@.contains(x) implies conflicts_with_member(self, batch@, x) by {
                        lemma_push_contains(prev_bbuf, h, x);
                    }
                }
            }
            j += 1;
            proof {
                assert forall|x: usize| #[trigger] fbuf@.subrange(0, j as int).contains(x) <==> (batch@.contains(x)
                    || bbuf@.contains(x)) by {
                    lemma_push_contains(fbuf@.subrange(0, j - 1), h, x);
                    lemma_push_contains(prev_batch, h, x);
                    lemma_push_contains(prev_bbuf, h, x);
                }
                assert(!prev_batch.contains(h) && !prev_bbuf.contains(h));
                assert forall|x: usize| !(#[trigger] batch@.contains(x) && bbuf@.contains(x)) by {
                    lemma_push_contains(prev_batch, h, x);
                    lemma_push_contains(prev_bbuf, h, x);
                }
            }
        }
        proof {
            assert(fbuf@.subrange(0, fbuf@.len() as int) =~= fbuf@);
            assert forall|x: usize| #[trigger] batch@.contains(x) implies fbuf@.contains(x) by {
                assert(fbuf@.subrange(0, j as int).contains(x));
            }
            assert forall|x: usize| #[trigger] bbuf@.contains(x) implies fbuf@.contains(x) by {
                assert(fbuf@.subrange(0, j as int).contains(x));
            }
        }
        batch
    }
}

/// Two sets are disjoint exactly when they have nothing in common.
proof fn lemma_disjoint_intersect(a: Set<int>, b: Set<int>)
    ensures
        a.disjoint(b) <==> a.intersect(b) == Set::<int>::empty(),
{
    if a.disjoint(b) {
        assert(a.intersect(b) =~= Set::<int>::empty());
    }
    if a.intersect(b) == Set::<int>::empty() {
        assert forall|x: int| !(a.contains(x) && b.contains(x)) by {
            if a.contains(x) && b.contains(x) {
                assert(a.intersect(b).contains(x));
            }
        }
    }
}

fn any_true(v: &Vec<bool>) -> (r: bool)
    ensures
        r == exists|i: int| 0 <= i < v@.len() && v@[i],
{
    let mut i: usize = 0;
    while i < v.len()
        invariant
            i <= v@.len(),
            forall|k: int| 0 <= k < i ==> !v@[k],
        decreases v.len() - i,
    {
        if v[i] {
            return true;
        }
        i += 1;
    }
    false
}

/// Appending a batch of systems that were not scheduled yet, whose
/// dependencies all were, keeps the schedule valid.
proof fn lemma_push_batch<S>(d: &SystemDispatcher<S>, bs: Seq<Vec<usize>>, batch: Vec<usize>, done: Seq<bool>)
    requires
        d.wf(),
        d.valid_schedule(bs),
        done.len() == d.count(),
        forall|i: usize| i < d.count() ==> done[i as int] == scheduled_before(bs, bs.len() as int, i),
        batch@.len() > 0,
        batch@.no_duplicates(),
        forall|x: usize| #[trigger] batch@.contains(x) ==> x < d.count() && !done[x as int] && d.ready_in(done, x as int),
        forall|a: int, b: int|
            0 <= a < b < batch@.len() ==> compatible(
                d.reads(batch@[a] as int),
                d.writes(batch@[a] as int),
                d.reads(batch@[b] as int),
                d.writes(batch@[b] as int),
            ),
    ensures
        d.valid_schedule(bs.push(batch)),
        forall|i: usize|
            i < d.count() ==> scheduled_before(bs.push(batch), bs.len() + 1int, i) == (done[i as int] || batch@.contains(i)),
{
    let nb = bs.push(batch);
    let K = bs.len() as int;
    assert forall|k: int, i: usize| #[trigger] in_batch(nb, k, i) == ((k < K && in_batch(bs, k, i)) || (k == K && batch@.contains(i))) by {
        if 0 <= k < K {
            assert(nb[k] == bs[k]);
        }
        if k == K {
            assert(nb[k] == batch);
        }
    }
    assert forall|k: int| 0 <= k < nb.len() implies (#[trigger] nb[k])@.len() > 0 && nb[k]@.no_duplicates() && forall|a: int|
        0 <= a < nb[k]@.len() ==> nb[k]@[a] < d.count() by {
        if k == K {
            assert forall|a: int| 0 <= a < nb[k]@.len() implies nb[k]@[a] < d.count() by {
                assert(batch@.contains(batch@[a]));
            }
        } else {
            assert(nb[k] == bs[k]);
        }
    }
    assert forall|k1: int, k2: int, i: usize| #[trigger] in_batch(nb, k1, i) && #[trigger] in_batch(nb, k2, i) implies k1 == k2 by {
        if k1 == K && k2 < K {
            assert(batch@.contains(i));
            assert(in_batch(bs, k2, i));
            assert(scheduled_before(bs, K, i));
            assert(i < d.count());
            assert(done[i as int]);
        }
        if k2 == K && k1 < K {
            assert(batch@.contains(i));
            assert(in_batch(bs, k1, i));
            assert(scheduled_before(bs, K, i));
            assert(done[i as int]);
        }
        if k1 < K && k2 < K {
            assert(in_batch(bs, k1, i) && in_batch(bs, k2, i));
        }
    }
    assert forall|k: int, a: int, b: int|
        0 <= k < nb.len() && 0 <= a < b < nb[k]@.len() implies compatible(
            d.reads(nb[k]@[a] as int),
            d.writes(nb[k]@[a] as int),
            d.reads(nb[k]@[b] as int),
            d.writes(nb[k]@[b] as int),
        ) by {
        if k < K {
            assert(nb[k] == bs[k]);
        } else {
            assert(nb[k] == batch);
        }
    }
    assert forall|k: int, a: int, j: int|
        0 <= k < nb.len() && 0 <= a < nb[k]@.len() && 0 <= j < d.deps(nb[k]@[a] as int).len() implies scheduled_before(
            nb,
            k,
            d.deps(nb[k]@[a] as int)[j],
        ) by {
        let x = nb[k]@[a];
        let dep = d.deps(x as int)[j];
        if k < K {
            assert(nb[k] == bs[k]);
            assert(scheduled_before(bs, k, dep));
            let k2 = choose|k2: int| 0 <= k2 < k && #[trigger] in_batch(bs, k2, dep);
            assert(in_batch(nb, k2, dep));
        } else {
            assert(nb[k] == batch);
            assert(batch@.contains(x));
            assert(d.ready_in(done, x as int));
            assert(done[dep as int]);
            assert(x < d.count());
            assert(d.deps(x as int)[j] < x) by {
                d.lemma_deps_earlier(x as int, j);
            }
            assert(scheduled_before(bs, K, dep));
            let k2 = choose|k2: int| 0 <= k2 < K && #[trigger] in_batch(bs, k2, dep);
            assert(in_batch(nb, k2, dep));
        }
    }
    assert forall|i: usize|
        i < d.count() implies scheduled_before(nb, K + 1, i) == (done[i as int] || batch@.contains(i)) by {
        if scheduled_before(nb, K + 1, i) {
            let k2 = choose|k2: int| 0 <= k2 < K + 1 && #[trigger] in_batch(nb, k2, i);
            if k2 < K {
                assert(in_batch(bs, k2, i));
                assert(scheduled_before(bs, K, i));
            }
        }
        if done[i as int] {
            assert(scheduled_before(bs, K, i));
            let k2 = choose|k2: int| 0 <= k2 < K && #[trigger] in_batch(bs, k2, i);
            assert(in_batch(nb, k2, i));
        }
        if batch@.contains(i) {
            assert(in_batch(nb, K, i));
        }
    }
}

impl<S> SystemDispatcher<S> {
    proof fn lemma_deps_earlier(&self, i: int, j: int)
        requires
            self.wf(),
            0 <= i < self.count(),
            0 <= j < self.deps(i).len(),
        ensures
            self.deps(i)[j] < i,
    {
        assert(self.items@[i].dependencies@[j] < i);
    }

    /// Groups the queued systems into batches, in rounds. Each round takes the
    /// systems whose dependencies have all run, after the systems deferred in
    /// the round before; orders them by decreasing number of dependents; and
    /// lets each join the batch unless it reads what a member writes or writes
    /// what a member reads, deferring it otherwise. Rounds go on while some
    /// system waits for its dependencies or was deferred, so that every queued
    /// system joins exactly one batch. The batches are those of `greedy_rounds`.
    pub fn schedule(&self) -> (r: Vec<Vec<usize>>)
        requires
            self.wf(),
        ensures
            self.valid_schedule(r@),
            self.complete(r@),
            self.greedy(r@),
            forall|k: int| 0 <= k < r@.len() ==> self.by_dependents(#[trigger] r@[k]@),
            views(r@) == self.greedy_rounds(),
    {
        let n = self.items.len();
        let mut done: Vec<bool> = Vec::new();
        let mut pending: Vec<bool> = Vec::new();
        let mut i: usize = 0;
        while i < n
            invariant
                i <= n,
                done@.len() == i,
                pending@.len() == i,
                forall|k: int| 0 <= k < i ==> !done@[k] && pending@[k],
            decreases n - i,
        {
            done.push(false);
            pending.push(true);
            i += 1;
        }
        let mut results: Vec<Vec<usize>> = Vec::new();
        let mut fbuf: Vec<usize> = Vec::new();
        let mut bbuf: Vec<usize> = Vec::new();
        proof {
            assert(done@ =~= Seq::new(n as nat, |k: int| false));
            assert(pending@ =~= Seq::new(n as nat, |k: int| true));
            assert(bbuf@ =~= Seq::<usize>::empty());
            assert(views(results@) =~= Seq::<Seq<usize>>::empty());
            lemma_count_true_zero(done@);
        }
        while any_true(&pending) || bbuf.len() > 0
            invariant
                self.wf(),
                n == self.count(),
                done@.len() == n,
                pending@.len() == n,
                self.valid_schedule(results@),
                forall|k: usize| k < n ==> done@[k as int] == scheduled_before(results@, results@.len() as int, k),
                forall|k: int| 0 <= k < n && pending@[k] ==> !done@[k],
                bbuf@.no_duplicates(),
                forall|k: int| 0 <= k < bbuf@.len() ==> {
                    let x = #[trigger] bbuf@[k];
                    x < n && !pending@[x as int] && !done@[x as int] && self.ready_in(done@, x as int)
                },
                count_true(done@) <= n,
                forall|x: usize|
                    #![trigger bbuf@.contains(x)]
                    #![trigger done@[x as int]]
                    x < n && !pending@[x as int] && !done@[x as int] ==> bbuf@.contains(x),
                forall|k: int, x: usize|
                    #![trigger self.ready_before(results@, k, x)]
                    0 <= k < results@.len() && x < n && !scheduled_before(results@, k + 1, x) && self.ready_before(
                        results@,
                        k,
                        x,
                    ) ==> conflicts_with_member(self, results@[k]@, x),
                forall|k: int| 0 <= k < results@.len() ==> self.by_dependents(#[trigger] results@[k]@),
                results@.len() <= count_true(done@),
                self.greedy_rounds() == views(results@) + self.rounds(
                    (pending@, done@, bbuf@),
                    (n + 1 - results@.len()) as nat,
                ),
            ensures
                forall|x: usize| x < n ==> #[trigger] done@[x as int],
                self.greedy_rounds() == views(results@),
            decreases n - count_true(done@),
        {
            let ghost p0 = pending@;
            let ghost b0 = bbuf@;
            let ghost d0 = done@;
            let ghost fuel0 = (n + 1 - results@.len()) as nat;
            let ghost s0 = (p0, d0, b0);
            proof {
                assert(Self::has_work(s0));
            }
            std::mem::swap(&mut fbuf, &mut bbuf);
            self.collect_ready(&mut pending, &done, &mut fbuf);
            let ghost collected = fbuf@;
            let sorted = self.sort_by_children(fbuf);
            let batch = self.fill_batch(&sorted, &mut bbuf);
            fbuf = sorted;
            proof {
                assert(batch@ == self.round(s0).0);
                assert(bbuf@ == self.round(s0).1.2);
                assert(pending@ == self.round(s0).1.0);
                assert(fuel0 > 0);
            }
            proof {
                assert forall|x: usize| x < n && !pending@[x as int] && !done@[x as int] implies #[trigger] fbuf@.contains(x) by {
                    if !p0[x as int] {
                        assert(b0.contains(x));
                    }
                    assert(collected.contains(x));
                }
                assert forall|x: usize| x < n && !done@[x as int] && self.ready_in(done@, x as int) implies #[trigger] fbuf@.contains(x) by {
                    if !p0[x as int] {
                        assert(b0.contains(x));
                    }
                    assert(collected.contains(x));
                }
            }
            proof {
                assert forall|x: usize| #[trigger] fbuf@.contains(x) implies x < n && !pending@[x as int] && !done@[x as int]
                    && self.ready_in(done@, x as int) by {
                    {
                        assert(collected.contains(x));
                        let k = choose|k: int| 0 <= k < collected.len() && collected[k] == x;
                    }
                }
            }
            if batch.len() == 0 {
                proof {
                    assert forall|k: int| 0 <= k < bbuf@.len() implies {
                        let x = #[trigger] bbuf@[k];
                        x < n && !pending@[x as int] && !done@[x as int] && self.ready_in(done@, x as int)
                    } by {
                        assert(bbuf@.contains(bbuf@[k]));
                    }
                    assert(fbuf@.len() == 0);
                    assert forall|x: usize| !#[trigger] fbuf@.contains(x) by {
                        if fbuf@.contains(x) {
                            let k = choose|k: int| 0 <= k < fbuf@.len() && fbuf@[k] == x;
                        }
                    }
                    assert forall|x: usize| !#[trigger] bbuf@.contains(x) by {
                        if bbuf@.contains(x) {
                            assert(fbuf@.contains(x));
                        }
                    }
                    assert forall|x: usize| x < n && !pending@[x as int] && !done@[x as int] implies #[trigger] bbuf@.contains(x) by {
                        assert(fbuf@.contains(x));
                    }
                    self.lemma_all_done_when_idle(pending@, done@, fbuf@);
                    assert(self.rounds(s0, fuel0) == Seq::<Seq<usize>>::empty());
                    assert(views(results@) + Seq::<Seq<usize>>::empty() =~= views(results@));
                }
                break;
            }
            let ghost done0 = done@;
            let ghost results0 = results@;
            proof {
                assert forall|x: usize| #[trigger] batch@.contains(x) implies x < n && !done0[x as int] by {
                    assert(fbuf@.contains(x));
                }
            }
            let mut j: usize = 0;
            while j < batch.len()
                invariant
                    n == self.count(),
                    done@.len() == n,
                    done0.len() == n,
                    j <= batch@.len(),
                    batch@.no_duplicates(),
                    forall|x: usize| #[trigger] batch@.contains(x) ==> x < n && !done0[x as int],
                    forall|k: usize| k < n ==> done@[k as int] == (done0[k as int] || batch@.subrange(0, j as int).contains(k)),
                    count_true(done@) == count_true(done0) + j,
                decreases batch.len() - j,
            {
                let h = batch[j];
                let ghost before = done@;
                let ghost jj = j as int;
                proof {
                    assert forall|k: usize| k < n implies before[k as int] == (done0[k as int] || batch@.subrange(0, jj).contains(k)) by {
                    }
                    assert(batch@.contains(h));
                    assert(!batch@.subrange(0, j as int).contains(h)) by {
                        if batch@.subrange(0, j as int).contains(h) {
                            let m = choose|m: int| 0 <= m < j && batch@.subrange(0, j as int)[m] == h;
                            assert(batch@[m] == batch@[j as int]);
                        }
                    }
                    lemma_count_true_set(before, h as int);
                }
                done.set(h, true);
                j += 1;
                proof {
                    assert(done@ == before.update(h as int, true));
                    assert(batch@.subrange(0, j as int) =~= batch@.subrange(0, j - 1).push(h));
                    assert forall|k: usize| k < n implies done@[k as int] == (done0[k as int] || batch@.subrange(0, j as int).contains(k)) by {
                        lemma_push_contains(batch@.subrange(0, jj), h, k);
                        assert(before[k as int] == (done0[k as int] || batch@.subrange(0, jj).contains(k)));
                        if k == h {
                            assert(done@[k as int]);
                        } else {
                            assert(done@[k as int] == before[k as int]);
                        }
                    }
                }
            }
            proof {
                assert(batch@.subrange(0, batch@.len() as int) =~= batch@);
                assert forall|x: usize| #[trigger] batch@.contains(x) implies x < n && !done0[x as int] && self.ready_in(done0, x as int) by {
                    assert(fbuf@.contains(x));
                }
                lemma_push_batch(self, results0, batch, done0);
                lemma_count_true_bound(done@);
                assert forall|k: int| 0 <= k < bbuf@.len() implies {
                    let x = #[trigger] bbuf@[k];
                    x < n && !pending@[x as int] && !done@[x as int] && self.ready_in(done@, x as int)
                } by {
                    let x = bbuf@[k];
                    assert(bbuf@.contains(x));
                    assert(fbuf@.contains(x));
                    assert(!batch@.contains(x));
                    assert forall|m: int| 0 <= m < self.deps(x as int).len() implies #[trigger] done@[self.deps(x as int)[m] as int] by {
                        assert(done0[self.deps(x as int)[m] as int]);
                        self.lemma_deps_earlier(x as int, m);
                    }
                }
                assert forall|k: int| 0 <= k < n && pending@[k] implies !done@[k] by {
                    if batch@.contains(k as usize) {
                        assert(fbuf@.contains(k as usize));
                    }
                    assert(done@[k] == (done0[k] || batch@.contains(k as usize)));
                }
            }
            let ghost bg = batch;
            results.push(batch);
            proof {
                assert(results@ == results0.push(bg));
                assert(done@ =~= self.round(s0).1.1) by {
                    assert forall|k: int| 0 <= k < n implies done@[k] == (d0[k] || bg@.contains(k as usize)) by {
                        assert(done@[(k as usize) as int] == (done0[(k as usize) as int] || bg@.subrange(
                            0,
                            bg@.len() as int,
                        ).contains(k as usize)));
                    }
                }
                let s1 = (pending@, done@, bbuf@);
                assert(self.round(s0).1 == s1);
                assert(self.rounds(s0, fuel0) == seq![bg@] + self.rounds(s1, (fuel0 - 1) as nat));
                assert(views(results@) =~= views(results0).push(bg@));
                assert(views(results0) + (seq![bg@] + self.rounds(s1, (fuel0 - 1) as nat)) =~= views(results@)
                    + self.rounds(s1, (fuel0 - 1) as nat));
                assert(count_true(done@) >= count_true(done0) + 1);
                assert forall|k: int| 0 <= k < results@.len() implies self.by_dependents(#[trigger] results@[k]@) by {
                    if k < results0.len() {
                        assert(results@[k] == results0[k]);
                    }
                }
                assert forall|k: usize| k < n implies done@[k as int] == scheduled_before(results@, results@.len() as int, k) by {
                    assert(done@[k as int] == (done0[k as int] || bg@.subrange(0, bg@.len() as int).contains(k)));
                }
                let K = results0.len() as int;
                assert forall|x: usize| x < n && !pending@[x as int] && !done@[x as int] implies #[trigger] bbuf@.contains(x) by {
                    assert(done@[x as int] == (done0[x as int] || bg@.contains(x)));
                    assert(fbuf@.contains(x));
                }
                assert forall|k: int, x: usize|
                    #![trigger self.ready_before(results@, k, x)]
                    0 <= k < results@.len() && x < n && !scheduled_before(results@, k + 1, x) && self.ready_before(
                        results@,
                        k,
                        x,
                    ) implies conflicts_with_member(self, results@[k]@, x) by {
                    self.lemma_ready_prefix(results0, bg, k, x);
                    if k < K {
                        lemma_scheduled_prefix(results0, bg, k + 1, x);
                        assert(results@[k] == results0[k]);
                        assert(self.ready_before(results0, k, x));
                    } else {
                        assert(done@[x as int] == (done0[x as int] || bg@.contains(x)));
                        assert(!done@[x as int]);
                        self.lemma_ready_in_before(done0, results0, x);
                        assert(self.ready_in(done0, x as int));
                        assert(fbuf@.contains(x));
                        assert(bbuf@.contains(x));
                        assert(results@[k] == bg);
                    }
                }
            }
        }
        proof {
            assert forall|i: usize| i < self.count() implies scheduled_before(results@, results@.len() as int, i) by {
                assert(done@[i as int]);
            }
        }
        results
    }
}

/// Adding a batch at the end changes nothing of what the earlier batches hold.
proof fn lemma_scheduled_prefix(bs: Seq<Vec<usize>>, batch: Vec<usize>, k: int, x: usize)
    requires
        0 <= k <= bs.len(),
    ensures
        scheduled_before(bs.push(batch), k, x) == scheduled_before(bs, k, x),
{
    let nb = bs.push(batch);
    if scheduled_before(nb, k, x) {
        let k2 = choose|k2: int| 0 <= k2 < k && #[trigger] in_batch(nb, k2, x);
        assert(nb[k2] == bs[k2]);
        assert(in_batch(bs, k2, x));
    }
    if scheduled_before(bs, k, x) {
        let k2 = choose|k2: int| 0 <= k2 < k && #[trigger] in_batch(bs, k2, x);
        assert(nb[k2] == bs[k2]);
        assert(in_batch(nb, k2, x));
    }
}

impl<S> SystemDispatcher<S> {
    proof fn lemma_ready_prefix(&self, bs: Seq<Vec<usize>>, batch: Vec<usize>, k: int, x: usize)
        requires
            0 <= k <= bs.len(),
        ensures
            self.ready_before(bs.push(batch), k, x) == self.ready_before(bs, k, x),
    {
        assert forall|j: int| 0 <= j < self.deps(x as int).len() implies scheduled_before(
            bs.push(batch),
            k,
            #[trigger] self.deps(x as int)[j],
        ) == scheduled_before(bs, k, self.deps(x as int)[j]) by {
            lemma_scheduled_prefix(bs, batch, k, self.deps(x as int)[j]);
        }
    }

    /// When `done` marks what the batches `bs` hold, `x` is ready in `done`
    /// exactly when its dependencies all run in `bs`.
    proof fn lemma_ready_in_before(&self, done: Seq<bool>, bs: Seq<Vec<usize>>, x: usize)
        requires
            self.wf(),
            x < self.count(),
            done.len() == self.count(),
            forall|k: usize| k < self.count() ==> done[k as int] == scheduled_before(bs, bs.len() as int, k),
        ensures
            self.ready_in(done, x as int) == self.ready_before(bs, bs.len() as int, x),
    {
        if self.ready_in(done, x as int) {
            assert forall|j: int| 0 <= j < self.deps(x as int).len() implies scheduled_before(
                bs,
                bs.len() as int,
                #[trigger] self.deps(x as int)[j],
            ) by {
                self.lemma_deps_earlier(x as int, j);
                assert(done[self.deps(x as int)[j] as int]);
            }
        }
        if self.ready_before(bs, bs.len() as int, x) {
            assert forall|j: int| 0 <= j < self.deps(x as int).len() implies #[trigger] done[self.deps(
                x as int,
            )[j] as int] by {
                self.lemma_deps_earlier(x as int, j);
                assert(scheduled_before(bs, bs.len() as int, self.deps(x as int)[j]));
            }
        }
    }
}

impl<S> SystemDispatcher<S> {
    /// When no system can be a candidate any more, every system ran: a
    /// system still waiting has a first one, whose dependencies all ran.
    proof fn lemma_all_done_when_idle(&self, pending: Seq<bool>, done: Seq<bool>, fbuf: Seq<usize>)
        requires
            self.wf(),
            pending.len() == self.count(),
            done.len() == self.count(),
            forall|k: int| 0 <= k < self.count() && pending[k] ==> !done[k],
            forall|x: usize| x < self.count() && !pending[x as int] && !done[x as int] ==> #[trigger] fbuf.contains(x),
            forall|x: usize|
                x < self.count() && !done[x as int] && self.ready_in(done, x as int) ==> #[trigger] fbuf.contains(x),
            fbuf.len() == 0,
        ensures
            forall|x: usize| x < self.count() ==> #[trigger] done[x as int],
    {
        assert forall|x: usize| x < self.count() && !pending[x as int] implies #[trigger] done[x as int] by {
            if !done[x as int] {
                assert(fbuf.contains(x));
            }
        }
        if exists|i: int| 0 <= i < pending.len() && pending[i] {
            let j = choose|i: int| 0 <= i < pending.len() && pending[i];
            lemma_min_true(pending, j);
            let x = choose|x: int| 0 <= x <= j && pending[x] && forall|k: int| 0 <= k < x ==> !pending[k];
            assert forall|m: int| 0 <= m < self.deps(x).len() implies #[trigger] done[self.deps(x)[m] as int] by {
                self.lemma_deps_earlier(x, m);
                assert(!pending[self.deps(x)[m] as int]);
            }
            assert(fbuf.contains(x as usize));
        }
        assert forall|x: usize| x < self.count() implies #[trigger] done[x as int] by {
            assert(!pending[x as int]);
        }
    }
}

/// A sequence with a `true` entry at or before `j` has a first one.
proof fn lemma_min_true(s: Seq<bool>, j: int)
    requires
        0 <= j < s.len(),
        s[j],
    ensures
        exists|x: int| 0 <= x <= j && s[x] && forall|k: int| 0 <= k < x ==> !s[k],
    decreases j,
{
    if exists|k: int| 0 <= k < j && s[k] {
        let k = choose|k: int| 0 <= k < j && s[k];
        lemma_min_true(s, k);
    }
}

proof fn lemma_count_true_zero(s: Seq<bool>)
    requires
        forall|i: int| 0 <= i < s.len() ==> !s[i],
    ensures
        count_true(s) == 0,
    decreases s.len(),
{
    if s.len() > 0 {
        lemma_count_true_zero(s.drop_last());
    }
}

/// The systems of each batch.
pub open spec fn views(bs: Seq<Vec<usize>>) -> Seq<Seq<usize>> {
    bs.map_values(|v: Vec<usize>| v@)
}

/// Position `(k2, a2)` of a schedule comes before position `(k, a)`.
pub open spec fn position_before(k2: int, a2: int, k: int, a: int) -> bool {
    k2 < k || (k2 == k && a2 < a)
}

impl<S> SystemDispatcher<S> {
    /// The system queued at index `i`.
    pub closed spec fn system(&self, i: int) -> S {
        self.items@[i].system->0
    }

    /// `out` holds, batch by batch, the systems that `bs` names.
    pub open spec fn batches_of(&self, bs: Seq<Vec<usize>>, out: Seq<Vec<S>>) -> bool {
        &&& out.len() == bs.len()
        &&& forall|k: int| 0 <= k < bs.len() ==> (#[trigger] out[k])@.len() == bs[k]@.len()
        &&& forall|k: int, a: int|
            0 <= k < bs.len() && 0 <= a < bs[k]@.len() ==> out[k]@[a] == self.system(bs[k]@[a] as int)
    }

    /// Groups the queued systems into batches as `schedule` says, hands them
    /// out, and empties the dispatcher; the handles given out so far are no
    /// longer alive.
    pub fn build(&mut self) -> (r: Vec<Vec<S>>)
        requires
            old(self).wf(),
        ensures
            exists|bs: Seq<Vec<usize>>|
                #[trigger] old(self).batches_of(bs, r@) && views(bs) == old(self).greedy_rounds()
                    && old(self).valid_schedule(bs) && old(self).complete(bs) && old(self).greedy(bs) && forall|k: int|
                    0 <= k < bs.len() ==> old(self).by_dependents(#[trigger] bs[k]@),
            final(self).wf(),
            final(self).count() == 0,
            final(self).generation() == old(self).generation().wrapping_add(1),
    {
        let sched = self.schedule();
        let n = self.items.len();
        let ghost orig = *self;
        let ghost taken: Seq<bool> = Seq::new(n as nat, |i: int| false);
        let mut out: Vec<Vec<S>> = Vec::new();
        let mut k: usize = 0;
        while k < sched.len()
            invariant
                orig.wf(),
                orig.valid_schedule(sched@),
                orig.count() == n,
                self.items@.len() == n,
                self.generation == orig.generation,
                k <= sched@.len(),
                taken.len() == n,
                out@.len() == k,
                forall|i: int| 0 <= i < n ==> (#[trigger] self.items@[i]).system == if taken[i] {
                    None
                } else {
                    orig.items@[i].system
                },
                forall|i: int| 0 <= i < n && #[trigger] taken[i] ==> exists|k2: int, a2: int|
                    position_before(k2, a2, k as int, 0) && 0 <= k2 < sched@.len() && 0 <= a2 < sched@[k2]@.len() && sched@[k2]@[a2] == i,
                forall|k2: int| 0 <= k2 < k ==> (#[trigger] out@[k2])@.len() == sched@[k2]@.len(),
                forall|k2: int, a2: int|
                    0 <= k2 < k && 0 <= a2 < sched@[k2]@.len() ==> out@[k2]@[a2] == orig.system(sched@[k2]@[a2] as int),
            decreases sched.len() - k,
        {
            let mut batch: Vec<S> = Vec::new();
            let m = sched[k].len();
            let mut a: usize = 0;
            while a < m
                invariant
                    orig.wf(),
                    orig.valid_schedule(sched@),
                    orig.count() == n,
                    self.items@.len() == n,
                    self.generation == orig.generation,
                    k < sched@.len(),
                    m == sched@[k as int]@.len(),
                    a <= m,
                    taken.len() == n,
                    batch@.len() == a,
                    forall|i: int| 0 <= i < n ==> (#[trigger] self.items@[i]).system == if taken[i] {
                        None
                    } else {
                        orig.items@[i].system
                    },
                    forall|i: int| 0 <= i < n && #[trigger] taken[i] ==> exists|k2: int, a2: int|
                        position_before(k2, a2, k as int, a as int) && 0 <= k2 < sched@.len() && 0 <= a2 < sched@[k2]@.len() && sched@[k2]@[a2] == i,
                    forall|a2: int| 0 <= a2 < a ==> batch@[a2] == orig.system(sched@[k as int]@[a2] as int),
                decreases m - a,
            {
                let x = sched[k][a];
                proof {
                    assert(sched@[k as int]@[a as int] == x);
                    assert(x < n);
                    if taken[x as int] {
                        let (k2, a2) = choose|k2: int, a2: int|
                            position_before(k2, a2, k as int, a as int) && 0 <= k2 < sched@.len() && 0 <= a2 < sched@[k2]@.len() && sched@[k2]@[a2] == x;
                        assert(in_batch(sched@, k2, x));
                        assert(in_batch(sched@, k as int, x));
                        if k2 == k {
                            assert(sched@[k as int]@[a2] == sched@[k as int]@[a as int]);
                        }
                    }
                    assert(orig.items@[x as int].system is Some);
                }
                let taken_sys = self.items[x].system.take();
                let sys = match taken_sys {
                    Some(v) => v,
                    None => {
                        proof {
                            assert(false);
                        }
                        return out;
                    },
                };
                batch.push(sys);
                proof {
                    taken = taken.update(x as int, true);
                    assert forall|i: int| 0 <= i < n && #[trigger] taken[i] implies exists|k2: int, a2: int|
                        position_before(k2, a2, k as int, a + 1) && 0 <= k2 < sched@.len() && 0 <= a2 < sched@[k2]@.len() && sched@[k2]@[a2] == i by {
                        if i == x {
                            assert(position_before(k as int, a as int, k as int, a + 1));
                        } else {
                            let (k2, a2) = choose|k2: int, a2: int|
                                position_before(k2, a2, k as int, a as int) && 0 <= k2 < sched@.len() && 0 <= a2 < sched@[k2]@.len() && sched@[k2]@[a2] == i;
                            assert(position_before(k2, a2, k as int, a + 1));
                        }
                    }
                }
                a += 1;
            }
            out.push(batch);
            k += 1;
            proof {
                assert forall|i: int| 0 <= i < n && #[trigger] taken[i] implies exists|k2: int, a2: int|
                    position_before(k2, a2, k as int, 0) && 0 <= k2 < sched@.len() && 0 <= a2 < sched@[k2]@.len() && sched@[k2]@[a2] == i by {
                    let (k2, a2) = choose|k2: int, a2: int|
                        position_before(k2, a2, k - 1, m as int) && 0 <= k2 < sched@.len() && 0 <= a2 < sched@[k2]@.len() && sched@[k2]@[a2] == i;
                    assert(position_before(k2, a2, k as int, 0));
                }
            }
        }
        self.items = Vec::new();
        self.generation = self.generation.wrapping_add(1);
        proof {
            assert(orig.batches_of(sched@, out@));
        }
        out
    }
}

proof fn lemma_insert_contains<A>(s: Seq<A>, p: int, x: A, y: A)
    requires
        0 <= p <= s.len(),
    ensures
        s.insert(p, x).contains(y) == (s.contains(y) || y == x),
{
    let t = s.insert(p, x);
    if t.contains(y) {
        let k = choose|k: int| 0 <= k < t.len() && t[k] == y;
        if k < p {
            assert(s[k] == y);
        } else if k > p {
            assert(s[k - 1] == y);
        }
    }
    if s.contains(y) {
        let k = choose|k: int| 0 <= k < s.len() && s[k] == y;
        if k < p {
            assert(t[k] == y);
        } else {
            assert(t[k + 1] == y);
        }
    }
    if y == x {
        assert(t[p] == x);
    }
}

proof fn lemma_push_contains<A>(s: Seq<A>, x: A, y: A)
    ensures
        s.push(x).contains(y) == (s.contains(y) || y == x),
{
    lemma_insert_contains(s, s.len() as int, x, y);
    assert(s.insert(s.len() as int, x) =~= s.push(x));
}

/// Whether one of the first `k` handles is alive in `d` and names slot `x`.
pub open spec fn named_before<S>(d: SystemDispatcher<S>, ds: Seq<Handle>, k: int, x: usize) -> bool {
    exists|j: int| 0 <= j < k && d.alive(ds[j]) && ds[j].index == x
}

proof fn lemma_named_step<S>(d: SystemDispatcher<S>, ds: Seq<Handle>, k: int, x: usize)
    requires
        0 <= k < ds.len(),
    ensures
        named_before(d, ds, k + 1, x) == (named_before(d, ds, k, x) || (d.alive(ds[k]) && ds[k].index == x)),
{
    if named_before(d, ds, k + 1, x) {
        let j = choose|j: int| 0 <= j < k + 1 && d.alive(ds[j]) && ds[j].index == x;
        if j < k {
            assert(named_before(d, ds, k, x));
        }
    }
    if named_before(d, ds, k, x) {
        let j = choose|j: int| 0 <= j < k && d.alive(ds[j]) && ds[j].index == x;
        assert(0 <= j < k + 1 && d.alive(ds[j]) && ds[j].index == x);
    }
    if d.alive(ds[k]) && ds[k].index == x {
        assert(0 <= k < k + 1 && d.alive(ds[k]) && ds[k].index == x);
    }
}

/// A build retires every handle given out before it: a handle alive before the
/// build is not alive after it.
pub proof fn law_build_retires_handles<S>(before: &SystemDispatcher<S>, after: &SystemDispatcher<S>, h: Handle)
    requires
        before.alive(h),
        after.generation() == before.generation().wrapping_add(1),
    ensures
        !after.alive(h),
{
}

/// Two systems may share a batch exactly when neither reads a component the
/// other writes; two systems that only write may share one.
pub proof fn law_compatible_means_no_read_of_a_write(r1: Set<int>, w1: Set<int>, r2: Set<int>, w2: Set<int>)
    ensures
        compatible(r1, w1, r2, w2) <==> (forall|c: int| !(r1.contains(c) && w2.contains(c))) && (forall|c: int|
            !(w1.contains(c) && r2.contains(c))),
        compatible(r1, w1, r2, w2) == compatible(r2, w2, r1, w1),
        compatible(Set::<int>::empty(), w1, Set::<int>::empty(), w2),
{
}

} // verus!
