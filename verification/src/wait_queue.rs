//! The pending wake-ups, earliest first.

use crate::time::Time;
use crate::waiting::Waiting;
use vstd::multiset::Multiset;
use vstd::prelude::*;
use vstd::seq_lib::*;

verus! {

/// Whether `entry` is in `queue` and no entry of `queue` is due before it.
pub open spec fn is_earliest(queue: Multiset<(int, usize)>, entry: (int, usize)) -> bool {
    &&& queue.contains(entry)
    &&& forall|other: (int, usize)| #[trigger] queue.contains(other) ==> entry.0 <= other.0
}

/// Whether some entry of `queue` is due at or before `horizon`.
pub open spec fn has_due(queue: Multiset<(int, usize)>, horizon: int) -> bool {
    exists|entry: (int, usize)| #[trigger] queue.contains(entry) && entry.0 <= horizon
}

/// Whether some entry of `queue` is for the task `id`.
pub open spec fn names_task(queue: Multiset<(int, usize)>, id: usize) -> bool {
    exists|entry: (int, usize)| #[trigger] queue.contains(entry) && entry.1 == id
}

/// The entries of a heap as pairs of wake-up instant and task.
spec fn keys<T: Time>(heap: Seq<Waiting<T>>) -> Seq<(int, usize)> {
    heap.map_values(|entry: Waiting<T>| entry@)
}

/// The position above `k` in the implicit binary tree.
spec fn parent(k: int) -> int {
    (k - 1) / 2
}

/// The entry at `k` is due no earlier than the one at its parent.
spec fn in_order(s: Seq<(int, usize)>, k: int) -> bool {
    s[parent(k)].0 <= s[k].0
}

/// The entry at `k` is due no earlier than the one two positions above it.
spec fn in_order_twice(s: Seq<(int, usize)>, k: int) -> bool {
    s[parent(parent(k))].0 <= s[k].0
}

/// Every position is due no earlier than its parent.
#[verifier::opaque]
spec fn heap_ordered(s: Seq<(int, usize)>) -> bool {
    forall|k: int| 0 < k < s.len() ==> #[trigger] in_order(s, k)
}

/// Every position but `hole` is due no earlier than its parent.
#[verifier::opaque]
spec fn ordered_but_at(s: Seq<(int, usize)>, hole: int) -> bool {
    forall|k: int| 0 < k < s.len() && k != hole ==> #[trigger] in_order(s, k)
}

/// Every position whose parent is not `hole` is due no earlier than its parent.
#[verifier::opaque]
spec fn ordered_but_below(s: Seq<(int, usize)>, hole: int) -> bool {
    forall|k: int| 0 < k < s.len() && parent(k) != hole ==> #[trigger] in_order(s, k)
}

/// The positions just below `hole` are due no earlier than the one just above it.
#[verifier::opaque]
spec fn bridged_at(s: Seq<(int, usize)>, hole: int) -> bool {
    forall|k: int|
        0 < k < s.len() && parent(k) == hole && hole > 0 ==> #[trigger] in_order_twice(s, k)
}

/// The sequence `s` with the entries at `i` and `j` exchanged.
spec fn exchanged<A>(s: Seq<A>, i: int, j: int) -> Seq<A> {
    s.update(i, s[j]).update(j, s[i])
}

/// A heap without entries is ordered.
proof fn lemma_empty_is_ordered<T: Time>()
    ensures
        heap_ordered(keys(Seq::<Waiting<T>>::empty())),
{
    reveal(heap_ordered);
}

/// In an ordered heap nothing is due before the first entry.
proof fn lemma_first_is_earliest(s: Seq<(int, usize)>, k: int)
    requires
        heap_ordered(s),
        0 <= k < s.len(),
    ensures
        s[0].0 <= s[k].0,
    decreases k,
{
    reveal(heap_ordered);
    if k > 0 {
        assert(in_order(s, k));
        lemma_first_is_earliest(s, parent(k));
    }
}

/// Exchanging two positions leaves the multiset of a sequence as it was.
proof fn lemma_exchange_keeps_multiset<A>(s: Seq<A>, i: int, j: int)
    requires
        0 <= i < s.len(),
        0 <= j < s.len(),
    ensures
        exchanged(s, i, j).to_multiset() == s.to_multiset(),
{
    broadcast use vstd::multiset::group_multiset_axioms;

    let mid = s.update(i, s[j]);
    to_multiset_update(s, i, s[j]);
    to_multiset_update(mid, j, s[i]);
    to_multiset_contains(s, s[i]);
    to_multiset_contains(s, s[j]);
    assert(s.contains(s[i]));
    assert(s.contains(s[j]));
    assert(mid.update(j, s[i]).to_multiset() =~= s.to_multiset());
}

/// The keys of a heap with two entries exchanged are its keys, exchanged.
proof fn lemma_exchange_of_keys<T: Time>(heap: Seq<Waiting<T>>, i: int, j: int)
    requires
        0 <= i < heap.len(),
        0 <= j < heap.len(),
    ensures
        keys(exchanged(heap, i, j)) == exchanged(keys(heap), i, j),
        keys(exchanged(heap, i, j)).to_multiset() == keys(heap).to_multiset(),
{
    assert(keys(exchanged(heap, i, j)) =~= exchanged(keys(heap), i, j));
    lemma_exchange_keeps_multiset(keys(heap), i, j);
}

/// Exchanges the items at positions `i` and `j`.
fn exchange<E>(items: &mut Vec<E>, i: usize, j: usize)
    requires
        i < j < old(items).len(),
    ensures
        final(items)@ == exchanged(old(items)@, i as int, j as int),
{
    let mut moved = items.swap_remove(j);
    core::mem::swap(&mut items[i], &mut moved);
    if j < items.len() {
        core::mem::swap(&mut items[j], &mut moved);
    }
    items.push(moved);
    assert(items@ =~= exchanged(old(items)@, i as int, j as int));
}

/// A heap that grew by one entry at its end is ordered but for that entry.
proof fn lemma_grown(s: Seq<(int, usize)>, entry: (int, usize))
    requires
        heap_ordered(s),
    ensures
        ordered_but_at(s.push(entry), s.len() as int),
        bridged_at(s.push(entry), s.len() as int),
{
    reveal(heap_ordered);
    reveal(ordered_but_at);
    reveal(bridged_at);
    let grown = s.push(entry);
    assert forall|k: int| 0 < k < grown.len() && k != s.len() implies #[trigger] in_order(
        grown,
        k,
    ) by {
        assert(in_order(s, k));
    }
}

/// A heap whose first entry made room for its last is ordered but below the
/// first position.
proof fn lemma_shrunk(s: Seq<(int, usize)>)
    requires
        heap_ordered(s),
        s.len() > 0,
    ensures
        ordered_but_below(s.update(0, s.last()).drop_last(), 0),
        bridged_at(s.update(0, s.last()).drop_last(), 0),
{
    reveal(heap_ordered);
    reveal(ordered_but_below);
    reveal(bridged_at);
    let shrunk = s.update(0, s.last()).drop_last();
    assert forall|k: int| 0 < k < shrunk.len() && parent(k) != 0 implies #[trigger] in_order(
        shrunk,
        k,
    ) by {
        assert(in_order(s, k));
    }
}

/// Exchanging an entry with its later parent moves the one gap in the order
/// up to the parent.
proof fn lemma_lift(s: Seq<(int, usize)>, k: int)
    requires
        0 < k < s.len(),
        ordered_but_at(s, k),
        bridged_at(s, k),
        s[k].0 < s[parent(k)].0,
    ensures
        ordered_but_at(exchanged(s, parent(k), k), parent(k)),
        bridged_at(exchanged(s, parent(k), k), parent(k)),
{
    reveal(ordered_but_at);
    reveal(bridged_at);
    let up = parent(k);
    let after = exchanged(s, up, k);
    assert forall|c: int| 0 < c < after.len() && c != up implies #[trigger] in_order(after, c) by {
        if c == k {
        } else if parent(c) == k {
            assert(in_order_twice(s, c));
        } else {
            assert(in_order(s, c));
        }
    }
    assert forall|c: int| 0 < c < after.len() && parent(c) == up && up > 0 implies #[trigger] in_order_twice(
        after,
        c,
    ) by {
        assert(in_order(s, up));
        if c != k {
            assert(in_order(s, c));
        }
    }
}

/// Where the entry at the gap is due no earlier than its parent, there is no gap.
proof fn lemma_lifted(s: Seq<(int, usize)>, k: int)
    requires
        0 <= k < s.len(),
        ordered_but_at(s, k),
        k > 0 ==> s[parent(k)].0 <= s[k].0,
    ensures
        heap_ordered(s),
{
    reveal(ordered_but_at);
    reveal(heap_ordered);
    assert forall|c: int| 0 < c < s.len() implies #[trigger] in_order(s, c) by {
        if c != k {
            assert(in_order(s, c));
        }
    }
}

/// One round of sinking the entry at `k`, whose lower positions are `2k + 1`
/// and `2k + 2`, with `low` the one of them that is due first. Where `low` is
/// due before `k`, exchanging the two moves the one gap in the order down to
/// `low`; where it is not, there is no gap.
proof fn lemma_lower(s: Seq<(int, usize)>, k: int, low: int)
    requires
        0 <= k,
        2 * k + 1 < s.len(),
        low == 2 * k + 1 || (low == 2 * k + 2 && low < s.len()),
        s[low].0 <= s[2 * k + 1].0,
        2 * k + 2 < s.len() ==> s[low].0 <= s[2 * k + 2].0,
        ordered_but_below(s, k),
        bridged_at(s, k),
    ensures
        s[low].0 < s[k].0 ==> ordered_but_below(exchanged(s, k, low), low) && bridged_at(
            exchanged(s, k, low),
            low,
        ),
        s[k].0 <= s[low].0 ==> heap_ordered(s),
{
    reveal(ordered_but_below);
    reveal(bridged_at);
    reveal(heap_ordered);
    if s[low].0 < s[k].0 {
        let after = exchanged(s, k, low);
        assert forall|c: int| 0 < c < after.len() && parent(c) != low implies #[trigger] in_order(
            after,
            c,
        ) by {
            if c == low {
            } else if parent(c) == k {
                assert(c == 2 * k + 1 || c == 2 * k + 2);
            } else if c == k {
                assert(in_order_twice(s, low));
            } else {
                assert(in_order(s, c));
            }
        }
        assert forall|c: int|
            0 < c < after.len() && parent(c) == low && low > 0 implies #[trigger] in_order_twice(
            after,
            c,
        ) by {
            assert(in_order(s, c));
        }
    } else {
        assert forall|c: int| 0 < c < s.len() implies #[trigger] in_order(s, c) by {
            if parent(c) == k {
                assert(c == 2 * k + 1 || c == 2 * k + 2);
            } else {
                assert(in_order(s, c));
            }
        }
    }
}

/// Where no position lies below the gap, there is no gap.
proof fn lemma_lowered(s: Seq<(int, usize)>, k: int)
    requires
        0 <= k,
        s.len() <= 2 * k + 1,
        ordered_but_below(s, k),
    ensures
        heap_ordered(s),
{
    reveal(ordered_but_below);
    reveal(heap_ordered);
    assert forall|c: int| 0 < c < s.len() implies #[trigger] in_order(s, c) by {
        if parent(c) != k {
            assert(in_order(s, c));
        }
    }
}

/// Moves the entry at `start` towards the front until its parent is due no later.
fn sift_up<T: Time>(heap: &mut Vec<Waiting<T>>, start: usize)
    requires
        start < old(heap).len(),
        ordered_but_at(keys(old(heap)@), start as int),
        bridged_at(keys(old(heap)@), start as int),
    ensures
        heap_ordered(keys(final(heap)@)),
        keys(final(heap)@).to_multiset() == keys(old(heap)@).to_multiset(),
        final(heap).len() == old(heap).len(),
{
    let mut k: usize = start;
    while k > 0 && heap[k].is_due_before(&heap[(k - 1) / 2])
        invariant
            k < heap.len(),
            heap.len() == old(heap).len(),
            ordered_but_at(keys(heap@), k as int),
            bridged_at(keys(heap@), k as int),
            keys(heap@).to_multiset() == keys(old(heap)@).to_multiset(),
        decreases k,
    {
        let up: usize = (k - 1) / 2;
        proof {
            lemma_lift(keys(heap@), k as int);
            lemma_exchange_of_keys(heap@, up as int, k as int);
        }
        exchange(heap, up, k);
        k = up;
    }
    proof {
        lemma_lifted(keys(heap@), k as int);
    }
}

/// Moves the first entry towards the back until neither entry below it is due earlier.
fn sift_down<T: Time>(heap: &mut Vec<Waiting<T>>)
    requires
        ordered_but_below(keys(old(heap)@), 0),
        bridged_at(keys(old(heap)@), 0),
    ensures
        heap_ordered(keys(final(heap)@)),
        keys(final(heap)@).to_multiset() == keys(old(heap)@).to_multiset(),
        final(heap).len() == old(heap).len(),
{
    let len: usize = heap.len();
    let mut k: usize = 0;
    let mut settled: bool = false;
    while !settled && k < len / 2
        invariant
            heap.len() == len,
            len == old(heap).len(),
            !settled ==> ordered_but_below(keys(heap@), k as int),
            !settled ==> bridged_at(keys(heap@), k as int),
            settled ==> heap_ordered(keys(heap@)),
            keys(heap@).to_multiset() == keys(old(heap)@).to_multiset(),
        decreases len - k, (if settled { 0int } else { 1int }),
    {
        let left: usize = 2 * k + 1;
        let right: usize = left + 1;
        let mut low: usize = left;
        if right < len && heap[right].is_due_before(&heap[left]) {
            low = right;
        }
        proof {
            lemma_lower(keys(heap@), k as int, low as int);
            lemma_exchange_of_keys(heap@, k as int, low as int);
        }
        if heap[low].is_due_before(&heap[k]) {
            exchange(heap, k, low);
            k = low;
        } else {
            settled = true;
        }
    }
    proof {
        if !settled {
            lemma_lowered(keys(heap@), k as int);
        }
    }
}

/// The pending wake-ups of a scheduler.
///
/// Seen from outside it is a multiset of pairs of wake-up instant and task.
/// Inside, the entries lie in a vector as a binary heap: each is due no
/// earlier than the one at its parent position, so the first is an earliest.
pub struct WaitQueue<T: Time> {
    heap: Vec<Waiting<T>>,
}

impl<T: Time> View for WaitQueue<T> {
    type V = Multiset<(int, usize)>;

    closed spec fn view(&self) -> Multiset<(int, usize)> {
        keys(self.heap@).to_multiset()
    }
}

impl<T: Time> WaitQueue<T> {
    #[verifier::type_invariant]
    spec fn well_formed(self) -> bool {
        heap_ordered(keys(self.heap@))
    }

    /// The entry that comes out next. Among entries that are due at the same
    /// instant it is the order of the pushes and pops so far that decides.
    pub closed spec fn front(&self) -> (int, usize) {
        keys(self.heap@)[0]
    }

    /// A queue without entries.
    pub fn new() -> (queue: Self)
        ensures
            queue@ == Multiset::<(int, usize)>::empty(),
    {
        proof {
            lemma_empty_is_ordered::<T>();
        }
        let queue = WaitQueue { heap: Vec::new() };
        proof {
            to_multiset_len(keys(queue.heap@));
            vstd::multiset::lemma_multiset_empty_len(queue@);
        }
        queue
    }

    /// The number of entries.
    pub fn len(&self) -> (count: usize)
        ensures
            count == self@.len(),
    {
        proof {
            to_multiset_len(keys(self.heap@));
        }
        self.heap.len()
    }

    /// Whether the queue has no entry.
    pub fn is_empty(&self) -> (empty: bool)
        ensures
            empty == (self@.len() == 0),
    {
        self.len() == 0
    }

    /// Adds `entry`.
    pub fn push(&mut self, entry: Waiting<T>)
        ensures
            final(self)@ == old(self)@.insert(entry@),
    {
        proof {
            use_type_invariant(&*self);
        }
        let mut heap: Vec<Waiting<T>> = Vec::new();
        proof {
            lemma_empty_is_ordered::<T>();
        }
        core::mem::swap(&mut heap, &mut self.heap);
        let ghost before = keys(heap@);
        heap.push(entry);
        let last: usize = heap.len() - 1;
        proof {
            assert(keys(heap@) =~= before.push(entry@));
            to_multiset_build(before, entry@);
            lemma_grown(before, entry@);
        }
        sift_up(&mut heap, last);
        self.heap = heap;
    }

    /// The entry that `pop` would take, if there is one.
    pub fn peek(&self) -> (first: Option<&Waiting<T>>)
        ensures
            first.is_none() <==> self@.len() == 0,
            first matches Some(entry) ==> entry@ == self.front() && is_earliest(self@, entry@),
    {
        proof {
            use_type_invariant(self);
            to_multiset_len(keys(self.heap@));
        }
        if self.heap.len() == 0 {
            None
        } else {
            proof {
                lemma_front_is_earliest(self.heap@);
            }
            Some(&self.heap[0])
        }
    }

    /// Takes out an entry that is due no later than any other.
    pub fn pop(&mut self) -> (first: Option<Waiting<T>>)
        ensures
            first.is_none() <==> old(self)@.len() == 0,
            first.is_none() ==> final(self)@ == old(self)@,
            first matches Some(entry) ==> {
                &&& entry@ == old(self).front()
                &&& is_earliest(old(self)@, entry@)
                &&& final(self)@ == old(self)@.remove(entry@)
            },
    {
        proof {
            use_type_invariant(&*self);
            to_multiset_len(keys(self.heap@));
        }
        if self.heap.len() == 0 {
            return None;
        }
        let mut heap: Vec<Waiting<T>> = Vec::new();
        proof {
            lemma_empty_is_ordered::<T>();
        }
        core::mem::swap(&mut heap, &mut self.heap);
        let ghost before = keys(heap@);
        proof {
            lemma_front_is_earliest(heap@);
        }
        let first = heap.swap_remove(0);
        proof {
            let after = keys(heap@);
            assert(after =~= before.update(0, before.last()).drop_last());
            assert(before.update(0, before.last()).drop_last() =~= before.update(
                0,
                before.last(),
            ).remove(before.len() - 1));
            to_multiset_update(before, 0, before.last());
            to_multiset_remove(before.update(0, before.last()), before.len() - 1);
            to_multiset_contains(before, before.last());
            assert(before.contains(before.last()));
            assert(after.to_multiset() =~= before.to_multiset().remove(first@)) by {
                broadcast use vstd::multiset::group_multiset_axioms;

            }
            lemma_shrunk(before);
        }
        sift_down(&mut heap);
        self.heap = heap;
        Some(first)
    }

    /// Whether some entry is for the task `id`.
    pub fn mentions(&self, id: usize) -> (found: bool)
        ensures
            found == names_task(self@, id),
    {
        let mut k: usize = 0;
        while k < self.heap.len()
            invariant
                k <= self.heap.len(),
                forall|j: int| 0 <= j < k ==> (#[trigger] self.heap@[j]).id != id,
            decreases self.heap.len() - k,
        {
            if self.heap[k].id == id {
                proof {
                    let s = keys(self.heap@);
                    to_multiset_contains(s, s[k as int]);
                    assert(s.contains(s[k as int]));
                    assert(self@.contains(s[k as int]));
                }
                return true;
            }
            k += 1;
        }
        proof {
            let s = keys(self.heap@);
            if names_task(self@, id) {
                let entry = choose|entry: (int, usize)| #[trigger]
                    self@.contains(entry) && entry.1 == id;
                to_multiset_contains(s, entry);
                let j = choose|j: int| 0 <= j < s.len() && s[j] == entry;
                assert(self.heap@[j].id == id);
            }
        }
        false
    }
}

/// The first entry of an ordered heap is an earliest entry of its multiset.
proof fn lemma_front_is_earliest<T: Time>(heap: Seq<Waiting<T>>)
    requires
        heap_ordered(keys(heap)),
        heap.len() > 0,
    ensures
        is_earliest(keys(heap).to_multiset(), heap[0]@),
{
    let s = keys(heap);
    to_multiset_contains(s, s[0]);
    assert(s.contains(s[0]));
    assert forall|other: (int, usize)| #[trigger]
        s.to_multiset().contains(other) implies s[0].0 <= other.0 by {
        to_multiset_contains(s, other);
        let k = choose|k: int| 0 <= k < s.len() && s[k] == other;
        lemma_first_is_earliest(s, k);
    }
}

} // verus!
