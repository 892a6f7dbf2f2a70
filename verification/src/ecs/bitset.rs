//! Bit-sets with fixed or dynamic size, used to record which components an
//! entity holds.
use vstd::prelude::*;

verus! {

/// The number of 64-bit words in a fixed-size `BitSet`.
pub const MAX_COMPONENTS: usize = 1;

/// The number of bits a fixed-size `BitSet` can hold.
pub open spec fn fixed_capacity() -> int {
    MAX_COMPONENTS as int * 64
}

/// Whether bit `i` of `word` is set.
pub open spec fn has_bit(word: u64, i: u64) -> bool {
    (word >> i) & 1u64 == 1u64
}

pub proof fn lemma_bit_insert(w: u64, b: u64, i: u64)
    by (bit_vector)
    requires
        b < 64,
        i < 64,
    ensures
        has_bit(w | (1u64 << b), i) == (has_bit(w, i) || i == b),
{
}

pub proof fn lemma_bit_remove(w: u64, b: u64, i: u64)
    by (bit_vector)
    requires
        b < 64,
        i < 64,
    ensures
        has_bit(w & !(1u64 << b), i) == (has_bit(w, i) && i != b),
{
}

pub proof fn lemma_bit_test(w: u64, b: u64)
    by (bit_vector)
    requires
        b < 64,
    ensures
        (((1u64 << b) & w) > 0) == has_bit(w, b),
{
}

pub proof fn lemma_bit_and(a: u64, c: u64, i: u64)
    by (bit_vector)
    requires
        i < 64,
    ensures
        has_bit(a & c, i) == (has_bit(a, i) && has_bit(c, i)),
{
}

pub proof fn lemma_bit_or(a: u64, c: u64, i: u64)
    by (bit_vector)
    requires
        i < 64,
    ensures
        has_bit(a | c, i) == (has_bit(a, i) || has_bit(c, i)),
{
}

pub proof fn lemma_bit_zero(i: u64)
    by (bit_vector)
    ensures
        !has_bit(0u64, i),
{
}

pub proof fn lemma_bit_xor(a: u64, c: u64, i: u64)
    by (bit_vector)
    requires
        i < 64,
    ensures
        has_bit(a ^ c, i) == (has_bit(a, i) != has_bit(c, i)),
{
}

proof fn lemma_xor_nonzero(a: u64, c: u64)
    by (bit_vector)
    requires
        a != c,
    ensures
        a ^ c != 0,
{
}

/// A non-zero word has at least one bit set below 64.
pub proof fn lemma_nonzero_has_bit(w: u64)
    requires
        w != 0,
    ensures
        exists|i: u64| i < 64 && has_bit(w, i),
{
    vstd::std_specs::bits::axiom_u64_trailing_zeros(w);
    let t = vstd::std_specs::bits::u64_trailing_zeros(w) as u64;
    assert(t < 64 && has_bit(w, t));
}

/// Splits a bit index into the index of its word and the bit inside the word.
pub open spec fn word_of(index: int) -> int {
    index / 64
}

pub open spec fn bit_of(index: int) -> u64 {
    (index % 64) as u64
}

/// Fixed size bit-set.
#[derive(Debug, Clone, Copy, PartialEq, Eq)]
pub struct BitSet {
    bits: [u64; MAX_COMPONENTS],
}

impl View for BitSet {
    type V = Set<int>;

    closed spec fn view(&self) -> Set<int> {
        Set::new(|i: int| 0 <= i < 64 && has_bit(self.bits@[0], i as u64))
    }
}

impl Default for BitSet {
    /// An empty bit-set, as `new` gives.
    fn default() -> (r: Self)
        ensures
            r@ == Set::<int>::empty(),
    {
        BitSet::new()
    }
}

impl BitSet {
    /// Every member of a bit-set lies below its capacity.
    pub proof fn lemma_range(&self)
        ensures
            forall|i: int| #[trigger] self@.contains(i) ==> 0 <= i < fixed_capacity(),
    {
    }

    /// Two bit-sets with the same members are the same value.
    pub proof fn lemma_view_eq(a: BitSet, b: BitSet)
        requires
            a@ == b@,
        ensures
            a == b,
    {
        let x = a.bits@[0];
        let y = b.bits@[0];
        if x != y {
            lemma_xor_nonzero(x, y);
            lemma_nonzero_has_bit(x ^ y);
            let i = choose|i: u64| i < 64 && has_bit(x ^ y, i);
            lemma_bit_xor(x, y, i);
            let k = i as int;
            assert(k as u64 == i);
            assert(has_bit(x, i) != has_bit(y, i));
            assert(a@.contains(k) == has_bit(x, i));
            assert(b@.contains(k) == has_bit(y, i));
        }
        assert(a.bits =~= b.bits);
    }

    /// Create a new BitSet with *ZERO* bit.
    pub fn new() -> (r: Self)
        ensures
            r@ == Set::<int>::empty(),
    {
        let r = BitSet { bits: [0; MAX_COMPONENTS] };
        proof {
            assert forall|i: int| !r@.contains(i) by {
                lemma_bit_zero(i as u64);
            }
            assert(r@ =~= Set::<int>::empty());
        }
        r
    }

    /// Adds a value to the set.
    pub fn insert(&mut self, index: usize)
        requires
            index < fixed_capacity(),
        ensures
            final(self)@ == old(self)@.insert(index as int),
    {
        let (index, bit_index) = Self::split(index);
        let word = self.bits[index] | (1u64 << (bit_index as u64));
        self.bits[index] = word;
        proof {
            assert forall|i: int| 0 <= i < 64 implies #[trigger] has_bit(word, i as u64) == (has_bit(
                old(self).bits@[0],
                i as u64,
            ) || i == bit_index) by {
                lemma_bit_insert(old(self).bits@[0], bit_index as u64, i as u64);
            }
            assert(self@ =~= old(self)@.insert(bit_index as int));
        }
    }

    /// Removes a value from the set.
    pub fn remove(&mut self, index: usize)
        requires
            index < fixed_capacity(),
        ensures
            final(self)@ == old(self)@.remove(index as int),
    {
        let (index, bit_index) = Self::split(index);
        let word = self.bits[index] & !(1u64 << (bit_index as u64));
        self.bits[index] = word;
        proof {
            assert forall|i: int| 0 <= i < 64 implies #[trigger] has_bit(word, i as u64) == (has_bit(
                old(self).bits@[0],
                i as u64,
            ) && i != bit_index) by {
                lemma_bit_remove(old(self).bits@[0], bit_index as u64, i as u64);
            }
            assert(self@ =~= old(self)@.remove(bit_index as int));
        }
    }

    /// Returns `true` if this set contains the specified integer.
    pub fn contains(&self, index: usize) -> (r: bool)
        requires
            index < fixed_capacity(),
        ensures
            r == self@.contains(index as int),
    {
        let (index, bit_index) = Self::split(index);
        proof {
            lemma_bit_test(self.bits@[0], bit_index as u64);
        }
        ((1u64 << (bit_index as u64)) & self.bits[index]) > 0
    }

    /// Clears all bits in this set.
    pub fn clear(&mut self)
        ensures
            final(self)@ == Set::<int>::empty(),
    {
        *self = Self::new();
    }

    /// Returns whether there are no bits set in this set.
    pub fn is_empty(&self) -> (r: bool)
        ensures
            r == (self@ == Set::<int>::empty()),
    {
        let w = self.bits[0];
        proof {
            if w == 0 {
                assert forall|i: int| !self@.contains(i) by {
                    lemma_bit_zero(i as u64);
                }
                assert(self@ =~= Set::<int>::empty());
            } else {
                lemma_nonzero_has_bit(w);
                let i = choose|i: u64| i < 64 && has_bit(w, i);
                assert(self@.contains(i as int));
            }
        }
        w == 0
    }

    /// Returns an bit-set that intersect self with `rhs`.
    pub fn intersect_with(&self, rhs: &Self) -> (r: Self)
        ensures
            r@ == self@.intersect(rhs@),
    {
        let mut bs = BitSet { bits: [0; MAX_COMPONENTS] };
        let mut i: usize = 0;
        while i < MAX_COMPONENTS
            invariant
                i <= MAX_COMPONENTS,
                i == 0 ==> bs.bits@[0] == 0,
                i == 1 ==> bs.bits@[0] == self.bits@[0] & rhs.bits@[0],
            decreases MAX_COMPONENTS - i,
        {
            bs.bits[i] = self.bits[i] & rhs.bits[i];
            i += 1;
        }
        proof {
            assert forall|k: int| 0 <= k < 64 implies #[trigger] has_bit(bs.bits@[0], k as u64) == (has_bit(
                self.bits@[0],
                k as u64,
            ) && has_bit(rhs.bits@[0], k as u64)) by {
                lemma_bit_and(self.bits@[0], rhs.bits@[0], k as u64);
            }
            assert(bs@ =~= self@.intersect(rhs@));
        }
        bs
    }

    /// Returns an bit-set that union self with `rhs`.
    pub fn union_with(&self, rhs: &Self) -> (r: Self)
        ensures
            r@ == self@.union(rhs@),
    {
        let mut bs = BitSet { bits: [0; MAX_COMPONENTS] };
        let mut i: usize = 0;
        while i < MAX_COMPONENTS
            invariant
                i <= MAX_COMPONENTS,
                i == 0 ==> bs.bits@[0] == 0,
                i == 1 ==> bs.bits@[0] == self.bits@[0] | rhs.bits@[0],
            decreases MAX_COMPONENTS - i,
        {
            bs.bits[i] = self.bits[i] | rhs.bits[i];
            i += 1;
        }
        proof {
            assert forall|k: int| 0 <= k < 64 implies #[trigger] has_bit(bs.bits@[0], k as u64) == (has_bit(
                self.bits@[0],
                k as u64,
            ) || has_bit(rhs.bits@[0], k as u64)) by {
                lemma_bit_or(self.bits@[0], rhs.bits@[0], k as u64);
            }
            assert(bs@ =~= self@.union(rhs@));
        }
        bs
    }

    /// Returns an iterator into this bit-set.
    pub fn iter(&self) -> (r: BitSetIter)
        ensures
            r.bitset@ == self@,
            r.cursor == 0,
            r.remaining() == self@,
    {
        let r = BitSetIter { bitset: *self, cursor: 0 };
        proof {
            assert(r.remaining() =~= self@);
        }
        r
    }

    fn split(index: usize) -> (r: (usize, usize))
        requires
            index < fixed_capacity(),
        ensures
            r.0 == word_of(index as int),
            r.1 == index as int % 64,
            r.0 == 0,
    {
        let len = MAX_COMPONENTS * 64;
        (index / len, index % len)
    }
}

/// One of the calls that change a bit-set's members.
#[derive(Debug, Clone, Copy, PartialEq, Eq, Structural)]
pub enum SetOp {
    Insert(usize),
    Remove(usize),
    Clear,
}

/// The members after `op`, from the members `s`, as `insert`, `remove` and
/// `clear` state it for both kinds of bit-set.
pub open spec fn after_op(s: Set<int>, op: SetOp) -> Set<int> {
    match op {
        SetOp::Insert(i) => s.insert(i as int),
        SetOp::Remove(i) => s.remove(i as int),
        SetOp::Clear => Set::<int>::empty(),
    }
}

/// The members after the calls `ops`, in order, on an empty bit-set.
pub open spec fn after_ops(ops: Seq<SetOp>) -> Set<int>
    decreases ops.len(),
{
    if ops.len() == 0 {
        Set::<int>::empty()
    } else {
        after_op(after_ops(ops.drop_last()), ops.last())
    }
}

/// Index `i` was inserted by one of `ops` and neither removed nor cleared since.
pub open spec fn inserted_since(ops: Seq<SetOp>, i: usize) -> bool {
    exists|k: int|
        0 <= k < ops.len() && #[trigger] ops[k] == SetOp::Insert(i) && forall|m: int|
            k < m < ops.len() ==> ops[m] != SetOp::Remove(i) && ops[m] != SetOp::Clear
}

proof fn lemma_after_ops_members(ops: Seq<SetOp>, i: usize)
    ensures
        after_ops(ops).contains(i as int) <==> inserted_since(ops, i),
    decreases ops.len(),
{
    if ops.len() > 0 {
        let n = ops.len() - 1;
        let pre = ops.drop_last();
        lemma_after_ops_members(pre, i);
        assert forall|k: int| 0 <= k < n implies pre[k] == ops[k] by {}
        if inserted_since(pre, i) {
            let k = choose|k: int|
                0 <= k < pre.len() && #[trigger] pre[k] == SetOp::Insert(i) && forall|m: int|
                    k < m < pre.len() ==> pre[m] != SetOp::Remove(i) && pre[m] != SetOp::Clear;
            if ops[n] != SetOp::Remove(i) && ops[n] != SetOp::Clear {
                assert(ops[k] == SetOp::Insert(i));
                assert forall|m: int| k < m < ops.len() implies ops[m] != SetOp::Remove(i) && ops[m] != SetOp::Clear by {
                    if m < n {
                        assert(ops[m] == pre[m]);
                    }
                }
                assert(inserted_since(ops, i));
            }
        }
        if inserted_since(ops, i) {
            let k = choose|k: int|
                0 <= k < ops.len() && #[trigger] ops[k] == SetOp::Insert(i) && forall|m: int|
                    k < m < ops.len() ==> ops[m] != SetOp::Remove(i) && ops[m] != SetOp::Clear;
            if k < n {
                assert(pre[k] == SetOp::Insert(i));
                assert(inserted_since(pre, i));
            }
        }
        if ops[n] == SetOp::Insert(i) {
            assert(inserted_since(ops, i));
        }
        match ops[n] {
            SetOp::Insert(j) => {},
            SetOp::Remove(j) => {},
            SetOp::Clear => {},
        }
    }
}

proof fn lemma_views_follow_ops(views: Seq<Set<int>>, ops: Seq<SetOp>)
    requires
        views.len() == ops.len() + 1,
        views[0] == Set::<int>::empty(),
        forall|k: int| 0 <= k < ops.len() ==> views[k + 1] == after_op(#[trigger] views[k], ops[k]),
    ensures
        views.last() == after_ops(ops),
    decreases ops.len(),
{
    if ops.len() > 0 {
        let pre = views.drop_last();
        assert forall|k: int| 0 <= k < ops.drop_last().len() implies pre[k + 1] == after_op(
            #[trigger] pre[k],
            ops.drop_last()[k],
        ) by {
            assert(views[k + 1] == after_op(views[k], ops[k]));
        }
        lemma_views_follow_ops(pre, ops.drop_last());
        let n = ops.len() - 1;
        assert(views[n + 1] == after_op(views[n], ops[n]));
    }
}

/// A bit-set made by `new` and changed by the calls `ops` holds exactly the
/// indices inserted and neither removed nor cleared since: when the sets
/// `views` are its members before and after each call, as `insert`, `remove`
/// and `clear` state them, the last one is `after_ops(ops)`, and it contains
/// `i` exactly when `i` was inserted since.
pub proof fn law_members_are_inserted_since(views: Seq<Set<int>>, ops: Seq<SetOp>, i: usize)
    requires
        views.len() == ops.len() + 1,
        views[0] == Set::<int>::empty(),
        forall|k: int| 0 <= k < ops.len() ==> views[k + 1] == after_op(#[trigger] views[k], ops[k]),
    ensures
        views.last() == after_ops(ops),
        views.last().contains(i as int) <==> inserted_since(ops, i),
{
    lemma_views_follow_ops(views, ops);
    lemma_after_ops_members(ops, i);
}

/// One step of an iteration that yields the members of a set in increasing
/// order: from the members `before` not yielded yet, it yields the least one,
/// which is no longer among those `after`; or nothing, when none is left.
pub open spec fn yields_least(before: Set<int>, r: Option<usize>, after: Set<int>) -> bool {
    match r {
        Some(i) => {
            &&& before.contains(i as int)
            &&& forall|j: int| before.contains(j) ==> i <= j
            &&& after == before.remove(i as int)
        },
        None => before == Set::<int>::empty(),
    }
}

/// Iterating to the end yields every member once, in strictly increasing
/// order: when the steps `rs` lead through the sets `rems` of members not yet
/// yielded, each yielding a member and the last one nothing, the members
/// yielded are exactly those of `rems[0]`, each larger than the one before.
pub proof fn law_iteration_yields_members_in_order(rems: Seq<Set<int>>, rs: Seq<Option<usize>>)
    requires
        rs.len() > 0,
        rems.len() == rs.len() + 1,
        forall|k: int| 0 <= k < rs.len() ==> yields_least(#[trigger] rems[k], rs[k], rems[k + 1]),
        forall|k: int| 0 <= k < rs.len() - 1 ==> #[trigger] rs[k] is Some,
        rs.last() is None,
    ensures
        forall|i: int, j: int| 0 <= i < j < rs.len() - 1 ==> (#[trigger] rs[i])->0 < (#[trigger] rs[j])->0,
        forall|x: int|
            rems[0].contains(x) <==> exists|k: int| 0 <= k < rs.len() - 1 && (#[trigger] rs[k])->0 == x,
{
    lemma_iteration_from(rems, rs, 0);
}

proof fn lemma_iteration_from(rems: Seq<Set<int>>, rs: Seq<Option<usize>>, k: int)
    requires
        rs.len() > 0,
        rems.len() == rs.len() + 1,
        forall|k: int| 0 <= k < rs.len() ==> yields_least(#[trigger] rems[k], rs[k], rems[k + 1]),
        forall|k: int| 0 <= k < rs.len() - 1 ==> #[trigger] rs[k] is Some,
        rs.last() is None,
        0 <= k <= rs.len() - 1,
    ensures
        forall|i: int, j: int| k <= i < j < rs.len() - 1 ==> (#[trigger] rs[i])->0 < (#[trigger] rs[j])->0,
        forall|x: int|
            rems[k].contains(x) <==> exists|m: int| k <= m < rs.len() - 1 && (#[trigger] rs[m])->0 == x,
    decreases rs.len() - k,
{
    let last = rs.len() - 1;
    if k == last {
        assert(yields_least(rems[last], rs[last], rems[last + 1]));
        assert(rems[k] == Set::<int>::empty());
    } else {
        lemma_iteration_from(rems, rs, k + 1);
        assert(yields_least(rems[k], rs[k], rems[k + 1]));
        assert(rs[k] is Some);
        let y = rs[k]->0;
        assert forall|x: int|
            rems[k].contains(x) implies exists|m: int| k <= m < rs.len() - 1 && (#[trigger] rs[m])->0 == x by {
            if x != y {
                assert(rems[k + 1].contains(x));
                let m = choose|m: int| k + 1 <= m < rs.len() - 1 && (#[trigger] rs[m])->0 == x;
            }
        }
        assert forall|x: int|
            (exists|m: int| k <= m < rs.len() - 1 && (#[trigger] rs[m])->0 == x) implies rems[k].contains(x) by {
            let m = choose|m: int| k <= m < rs.len() - 1 && (#[trigger] rs[m])->0 == x;
            if m > k {
                assert(rems[k + 1].contains(x));
            }
        }
        assert forall|i: int, j: int| k <= i < j < rs.len() - 1 implies (#[trigger] rs[i])->0 < (
        #[trigger] rs[j])->0 by {
            if i == k {
                let x = rs[j]->0 as int;
                assert(rems[k + 1].contains(x));
                assert(rems[k].contains(x));
            }
        }
    }
}

/// An iterator over the members of a `BitSet`, in increasing order.
pub struct BitSetIter {
    pub bitset: BitSet,
    pub cursor: usize,
}

impl BitSetIter {
    /// The members that this iterator has not yielded yet.
    pub open spec fn remaining(&self) -> Set<int> {
        self.bitset@.filter(|i: int| i >= self.cursor)
    }

    /// Yields the smallest member not yielded yet.
    pub fn next(&mut self) -> (r: Option<usize>)
        requires
            old(self).cursor <= 64,
        ensures
            final(self).bitset == old(self).bitset,
            final(self).cursor <= 64,
            yields_least(old(self).remaining(), r, final(self).remaining()),
    {
        while self.cursor < MAX_COMPONENTS * 64
            invariant
                self.bitset == old(self).bitset,
                old(self).cursor <= self.cursor <= 64,
                forall|j: int| old(self).cursor <= j < self.cursor ==> !self.bitset@.contains(j),
            decreases 64 - self.cursor,
        {
            self.cursor += 1;
            if self.bitset.contains(self.cursor - 1) {
                proof {
                    assert(self.remaining() =~= old(self).remaining().remove(self.cursor - 1));
                }
                return Some(self.cursor - 1);
            }
        }
        proof {
            assert(old(self).remaining() =~= Set::<int>::empty());
        }
        None
    }
}

/// A bit-set that grows on demand.
#[derive(Debug, Clone, PartialEq, Eq)]
pub struct DynamicBitSet {
    bits: Vec<u64>,
}

impl View for DynamicBitSet {
    type V = Set<int>;

    closed spec fn view(&self) -> Set<int> {
        Set::new(
            |i: int|
                0 <= i && word_of(i) < self.bits@.len() && has_bit(
                    self.bits@[word_of(i)],
                    bit_of(i),
                ),
        )
    }
}

impl DynamicBitSet {
    /// Number of words held; every member lies below `64 * words()`.
    pub closed spec fn words(&self) -> nat {
        self.bits@.len()
    }

    /// The words never go past what a `usize` bit index can address.
    pub closed spec fn wf(&self) -> bool {
        self.bits@.len() * 64 <= usize::MAX
    }

    pub proof fn lemma_members_below_words(&self)
        ensures
            forall|i: int| self@.contains(i) ==> 0 <= i < self.words() * 64,
    {
    }

    pub fn new() -> (r: Self)
        ensures
            r@ == Set::<int>::empty(),
            r.wf(),
            r.words() == 0,
    {
        let r = DynamicBitSet { bits: Vec::new() };
        assert(r@ =~= Set::<int>::empty());
        r
    }

    /// Adds a value to the set, growing the storage when needed.
    pub fn insert(&mut self, index: usize)
        requires
            old(self).wf(),
            index <= usize::MAX - 64,
        ensures
            final(self).wf(),
            final(self)@ == old(self)@.insert(index as int),
    {
        let (index, bit_index) = Self::split(index);
        let ghost widx = index;
        while self.bits.len() <= index
            invariant
                self@ == old(self)@,
                old(self).bits@.len() <= self.bits@.len(),
                self.bits@.len() == old(self).bits@.len() || self.bits@.len() <= index + 1,
                forall|k: int|
                    old(self).bits@.len() <= k < self.bits@.len() ==> self.bits@[k] == 0,
                forall|k: int| 0 <= k < old(self).bits@.len() ==> self.bits@[k] == old(self).bits@[k],
            decreases index + 1 - self.bits.len(),
        {
            let ghost before = self@;
            self.bits.push(0);
            proof {
                lemma_bit_zero_all();
                assert(self@ =~= before);
            }
        }
        let ghost mid = self.bits@;
        let word = self.bits[index] | (1u64 << (bit_index as u64));
        self.bits.set(index, word);
        proof {
            assert forall|i: int| #[trigger] self@.contains(i) == old(self)@.insert(
                (widx * 64 + bit_index) as int,
            ).contains(i) by {
                if 0 <= i && word_of(i) < self.bits@.len() {
                    if word_of(i) == widx {
                        lemma_bit_insert(mid[widx as int], bit_index as u64, bit_of(i));
                    }
                }
                if word_of(i) >= old(self).bits@.len() && word_of(i) < mid.len() {
                    lemma_bit_zero(bit_of(i));
                }
            }
            assert(self@ =~= old(self)@.insert((widx * 64 + bit_index) as int));
        }
    }

    /// Removes a value from the set.
    pub fn remove(&mut self, index: usize)
        ensures
            final(self).words() == old(self).words(),
            old(self).wf() ==> final(self).wf(),
            final(self)@ == old(self)@.remove(index as int),
    {
        let (index, bit_index) = Self::split(index);
        if self.bits.len() <= index {
            proof {
                assert(self@ =~= old(self)@.remove((index * 64 + bit_index) as int));
            }
            return ;
        }
        let word = self.bits[index] & !(1u64 << (bit_index as u64));
        self.bits.set(index, word);
        proof {
            assert forall|i: int| #[trigger] self@.contains(i) == old(self)@.remove(
                (index * 64 + bit_index) as int,
            ).contains(i) by {
                if 0 <= i && word_of(i) < self.bits@.len() && word_of(i) == index {
                    lemma_bit_remove(old(self).bits@[index as int], bit_index as u64, bit_of(i));
                }
            }
            assert(self@ =~= old(self)@.remove((index * 64 + bit_index) as int));
        }
    }

    /// Returns `true` if this set contains the specified integer.
    pub fn contains(&self, index: usize) -> (r: bool)
        ensures
            r == self@.contains(index as int),
    {
        let (index, bit_index) = Self::split(index);
        if self.bits.len() <= index {
            return false;
        }
        proof {
            lemma_bit_test(self.bits@[index as int], bit_index as u64);
        }
        ((1u64 << (bit_index as u64)) & self.bits[index]) > 0
    }

    /// Clears all bits in this set.
    pub fn clear(&mut self)
        ensures
            final(self)@ == Set::<int>::empty(),
            final(self).wf(),
            final(self).words() == 0,
    {
        self.bits.clear();
        assert(self@ =~= Set::<int>::empty());
    }

    /// Returns an iterator into this bit-set.
    pub fn iter(&self) -> (r: DynamicBitSetIter<'_>)
        requires
            self.wf(),
        ensures
            *r.bitset == *self,
            r.cursor == 0,
            r.remaining() == self@,
    {
        let r = DynamicBitSetIter { bitset: self, cursor: 0 };
        proof {
            assert(r.remaining() =~= self@);
        }
        r
    }

    fn split(index: usize) -> (r: (usize, usize))
        ensures
            r.0 == word_of(index as int),
            r.1 == index as int % 64,
            index == r.0 * 64 + r.1,
            r.1 < 64,
    {
        let len = MAX_COMPONENTS * 64;
        (index / len, index % len)
    }
}

proof fn lemma_bit_zero_all()
    ensures
        forall|i: u64| !has_bit(0u64, i),
{
    assert forall|i: u64| !has_bit(0u64, i) by {
        lemma_bit_zero(i);
    }
}

/// An iterator over the members of a `DynamicBitSet`, in increasing order.
pub struct DynamicBitSetIter<'a> {
    pub bitset: &'a DynamicBitSet,
    pub cursor: usize,
}

impl<'a> DynamicBitSetIter<'a> {
    /// The members that this iterator has not yielded yet.
    pub open spec fn remaining(&self) -> Set<int> {
        self.bitset@.filter(|i: int| i >= self.cursor)
    }

    /// Yields the smallest member not yielded yet.
    pub fn next(&mut self) -> (r: Option<usize>)
        requires
            old(self).bitset.wf(),
            old(self).cursor <= old(self).bitset.words() * 64,
        ensures
            final(self).bitset == old(self).bitset,
            final(self).cursor <= final(self).bitset.words() * 64,
            yields_least(old(self).remaining(), r, final(self).remaining()),
    {
        let len = self.bitset.bits.len();
        proof {
            self.bitset.lemma_members_below_words();
        }
        while self.cursor / 64 < len
            invariant
                self.bitset == old(self).bitset,
                len == self.bitset.words(),
                self.bitset.wf(),
                old(self).cursor <= self.cursor <= len * 64,
                forall|j: int| old(self).cursor <= j < self.cursor ==> !self.bitset@.contains(j),
                forall|i: int| self.bitset@.contains(i) ==> 0 <= i < len * 64,
            decreases len * 64 - self.cursor,
        {
            self.cursor += 1;
            if self.bitset.contains(self.cursor - 1) {
                proof {
                    assert(self.remaining() =~= old(self).remaining().remove(self.cursor - 1));
                }
                return Some(self.cursor - 1);
            }
        }
        proof {
            assert(old(self).remaining() =~= Set::<int>::empty());
        }
        None
    }
}

/// Iterating a bit-set from `iter()` to the end yields its members, each
/// once, in strictly increasing order: when `its` are the iterator's states,
/// the first as `iter()` returns it and each next one as `next` leaves it
/// after returning `rs[k]`, the values yielded before the final `None` are
/// exactly the members of `s`, each larger than the one before.
pub proof fn law_bitset_iteration(s: BitSet, its: Seq<BitSetIter>, rs: Seq<Option<usize>>)
    requires
        rs.len() > 0,
        its.len() == rs.len() + 1,
        its[0].remaining() == s@,
        forall|k: int| 0 <= k < rs.len() ==> yields_least(#[trigger] its[k].remaining(), rs[k], its[k + 1].remaining()),
        forall|k: int| 0 <= k < rs.len() - 1 ==> #[trigger] rs[k] is Some,
        rs.last() is None,
    ensures
        forall|i: int, j: int| 0 <= i < j < rs.len() - 1 ==> (#[trigger] rs[i])->0 < (#[trigger] rs[j])->0,
        forall|x: int| s@.contains(x) <==> exists|k: int| 0 <= k < rs.len() - 1 && (#[trigger] rs[k])->0 == x,
{
    let rems = Seq::new(its.len(), |k: int| its[k].remaining());
    assert forall|k: int| 0 <= k < rs.len() implies yields_least(#[trigger] rems[k], rs[k], rems[k + 1]) by {
        assert(rems[k] == its[k].remaining());
        assert(rems[k + 1] == its[k + 1].remaining());
        assert(yields_least(its[k].remaining(), rs[k], its[k + 1].remaining()));
    }
    assert(rems[0] == s@);
    law_iteration_yields_members_in_order(rems, rs);
}

/// Iterating a growable bit-set from `iter()` to the end yields its members,
/// each once, in strictly increasing order, as for the fixed-size one.
pub proof fn law_dynamic_bitset_iteration<'a>(s: &'a DynamicBitSet, its: Seq<DynamicBitSetIter<'a>>, rs: Seq<Option<usize>>)
    requires
        rs.len() > 0,
        its.len() == rs.len() + 1,
        its[0].remaining() == s@,
        forall|k: int| 0 <= k < rs.len() ==> yields_least(#[trigger] its[k].remaining(), rs[k], its[k + 1].remaining()),
        forall|k: int| 0 <= k < rs.len() - 1 ==> #[trigger] rs[k] is Some,
        rs.last() is None,
    ensures
        forall|i: int, j: int| 0 <= i < j < rs.len() - 1 ==> (#[trigger] rs[i])->0 < (#[trigger] rs[j])->0,
        forall|x: int| s@.contains(x) <==> exists|k: int| 0 <= k < rs.len() - 1 && (#[trigger] rs[k])->0 == x,
{
    let rems = Seq::new(its.len(), |k: int| its[k].remaining());
    assert forall|k: int| 0 <= k < rs.len() implies yields_least(#[trigger] rems[k], rs[k], rems[k + 1]) by {
        assert(rems[k] == its[k].remaining());
        assert(rems[k + 1] == its[k + 1].remaining());
        assert(yields_least(its[k].remaining(), rs[k], its[k + 1].remaining()));
    }
    assert(rems[0] == s@);
    law_iteration_yields_members_in_order(rems, rs);
}

} // verus!
