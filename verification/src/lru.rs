use vstd::prelude::*;
use shared_buffer::OwnedBuffer;
use std::collections::HashMap;
use std::collections::VecDeque;
use crate::buffer::{buffer_bytes, buffer_clone, buffer_len};

verus! {

broadcast use vstd::std_specs::hash::group_hash_axioms;

/// The number of bytes of the entries named by `order`.
pub open spec fn bytes_in(order: Seq<usize>, entries: Map<usize, OwnedBuffer>) -> int
    decreases order.len(),
{
    if order.len() == 0 {
        0
    } else {
        bytes_in(order.drop_last(), entries) + buffer_bytes(entries[order.last()]).len()
    }
}

/// `a - b`, or 0 when `b > a`.
pub open spec fn sat_sub(a: nat, b: nat) -> nat {
    if b > a {
        0
    } else {
        (a - b) as nat
    }
}

/// `a + b`, or `usize::MAX` when the sum does not fit.
pub open spec fn sat_add(a: nat, b: nat) -> nat {
    if a + b > usize::MAX {
        usize::MAX as nat
    } else {
        a + b
    }
}

/// The position of the first occurrence of `x` in `s`.
pub open spec fn first_index(s: Seq<usize>, x: usize) -> int {
    choose|i: int| 0 <= i < s.len() && s[i] == x && forall|j: int| 0 <= j < i ==> s[j] != x
}

/// `s` without the first occurrence of `x` (unchanged if absent).
pub open spec fn remove_first(s: Seq<usize>, x: usize) -> Seq<usize> {
    if s.contains(x) {
        s.remove(first_index(s, x))
    } else {
        s
    }
}

/// The first occurrence is at `i` when `i` holds `x` and no earlier position does.
pub proof fn lemma_first_index(s: Seq<usize>, x: usize, i: int)
    requires
        0 <= i < s.len(),
        s[i] == x,
        forall|j: int| 0 <= j < i ==> s[j] != x,
    ensures
        first_index(s, x) == i,
        s.contains(x),
{
    let k = first_index(s, x);
    assert(0 <= k < s.len() && s[k] == x && forall|j: int| 0 <= j < k ==> s[j] != x);
    if k < i {
        assert(s[k] != x);
    }
    if k > i {
        assert(s[i] != x);
    }
}

/// The state after evicting from the front of `order` while more than `max`
/// bytes are counted: `(order, entries, total)`.
pub open spec fn evicted(order: Seq<usize>, entries: Map<usize, OwnedBuffer>, total: nat, max: nat) -> (
    Seq<usize>,
    Map<usize, OwnedBuffer>,
    nat,
)
    decreases order.len(),
{
    if total <= max || order.len() == 0 {
        (order, entries, total)
    } else {
        let k = order[0];
        if entries.contains_key(k) {
            evicted(order.drop_first(), entries.remove(k), sat_sub(total, buffer_bytes(entries[k]).len()), max)
        } else {
            evicted(order.drop_first(), entries, total, max)
        }
    }
}

pub proof fn lemma_bytes_in_nonneg(order: Seq<usize>, entries: Map<usize, OwnedBuffer>)
    ensures
        bytes_in(order, entries) >= 0,
    decreases order.len(),
{
    if order.len() > 0 {
        lemma_bytes_in_nonneg(order.drop_last(), entries);
    }
}

/// Changing the entry of a key that `order` does not name changes nothing.
pub proof fn lemma_bytes_in_other_key(order: Seq<usize>, entries: Map<usize, OwnedBuffer>, e2: Map<usize, OwnedBuffer>, k: usize)
    requires
        !order.contains(k),
        e2.remove(k) == entries.remove(k),
    ensures
        bytes_in(order, e2) == bytes_in(order, entries),
    decreases order.len(),
{
    if order.len() > 0 {
        assert(!order.drop_last().contains(k)) by {
            if order.drop_last().contains(k) {
                let i = choose|i: int| 0 <= i < order.drop_last().len() && order.drop_last()[i] == k;
                assert(order[i] == k);
            }
        }
        assert(order.last() != k) by {
            assert(order[order.len() - 1] == order.last());
        }
        lemma_bytes_in_other_key(order.drop_last(), entries, e2, k);
        assert(e2.remove(k)[order.last()] == e2[order.last()]);
        assert(entries.remove(k)[order.last()] == entries[order.last()]);
    }
}

/// Removing the element at position `j` subtracts its bytes.
pub proof fn lemma_bytes_in_remove(order: Seq<usize>, entries: Map<usize, OwnedBuffer>, j: int)
    requires
        0 <= j < order.len(),
    ensures
        bytes_in(order.remove(j), entries) == bytes_in(order, entries) - buffer_bytes(entries[order[j]]).len(),
    decreases order.len(),
{
    if j == order.len() - 1 {
        assert(order.remove(j) =~= order.drop_last());
    } else {
        lemma_bytes_in_remove(order.drop_last(), entries, j);
        assert(order.remove(j).drop_last() =~= order.drop_last().remove(j));
        assert(order.remove(j).last() == order.last());
    }
}

/// What a well-formed cache state keeps: every cached index is listed once,
/// and the counted bytes never exceed the bytes actually cached.
pub open spec fn lru_inv(order: Seq<usize>, entries: Map<usize, OwnedBuffer>, total: nat) -> bool {
    &&& order.no_duplicates()
    &&& forall|k: usize| entries.contains_key(k) <==> order.contains(k)
    &&& total <= bytes_in(order, entries)
}

/// One eviction step keeps the invariant.
pub proof fn lemma_evict_step(order: Seq<usize>, entries: Map<usize, OwnedBuffer>, total: nat)
    requires
        lru_inv(order, entries, total),
        order.len() > 0,
    ensures
        entries.contains_key(order[0]),
        lru_inv(order.drop_first(), entries.remove(order[0]), sat_sub(total, buffer_bytes(entries[order[0]]).len())),
{
    let k = order[0];
    assert(order.contains(k));
    let rest = order.drop_first();
    assert(rest =~= order.remove(0));
    lemma_bytes_in_remove(order, entries, 0);
    assert(!rest.contains(k)) by {
        if rest.contains(k) {
            let i = choose|i: int| 0 <= i < rest.len() && rest[i] == k;
            assert(order[i + 1] == k);
        }
    }
    assert(entries.remove(k).remove(k) =~= entries.remove(k));
    lemma_bytes_in_other_key(rest, entries, entries.remove(k), k);
    lemma_bytes_in_nonneg(rest, entries);
    assert forall|j: usize| entries.remove(k).contains_key(j) <==> rest.contains(j) by {
        if rest.contains(j) {
            let i = choose|i: int| 0 <= i < rest.len() && rest[i] == j;
            assert(order[i + 1] == j);
            assert(order.contains(j));
        }
        if entries.contains_key(j) && j != k {
            assert(order.contains(j));
            let i = choose|i: int| 0 <= i < order.len() && order[i] == j;
            assert(i != 0);
            assert(rest[i - 1] == j);
        }
    }
    assert(rest.no_duplicates()) by {
        assert forall|a: int, b: int| 0 <= a < rest.len() && 0 <= b < rest.len() && a != b implies rest[a] != rest[b] by {
            assert(rest[a] == order[a + 1] && rest[b] == order[b + 1]);
        }
    }
}

/// Eviction keeps the invariant.
pub proof fn lemma_evicted_inv(order: Seq<usize>, entries: Map<usize, OwnedBuffer>, total: nat, max: nat)
    requires
        lru_inv(order, entries, total),
    ensures
        lru_inv(evicted(order, entries, total, max).0, evicted(order, entries, total, max).1, evicted(order, entries, total, max).2),
        evicted(order, entries, total, max).2 <= max || evicted(order, entries, total, max).0.len() == 0,
    decreases order.len(),
{
    if !(total <= max || order.len() == 0) {
        lemma_evict_step(order, entries, total);
        let k = order[0];
        lemma_evicted_inv(order.drop_first(), entries.remove(k), sat_sub(total, buffer_bytes(entries[k]).len()), max);
    }
}

/// Eviction only drops entries: whatever stays is unchanged.
pub proof fn lemma_evicted_submap(order: Seq<usize>, entries: Map<usize, OwnedBuffer>, total: nat, max: nat)
    ensures
        forall|k: usize| #[trigger] evicted(order, entries, total, max).1.contains_key(k) ==> entries.contains_key(k)
            && evicted(order, entries, total, max).1[k] == entries[k],
    decreases order.len(),
{
    if !(total <= max || order.len() == 0) {
        let k = order[0];
        if entries.contains_key(k) {
            let e1 = entries.remove(k);
            let t1 = sat_sub(total, buffer_bytes(entries[k]).len());
            lemma_evicted_submap(order.drop_first(), e1, t1, max);
            assert(evicted(order, entries, total, max) == evicted(order.drop_first(), e1, t1, max));
            assert forall|j: usize| #[trigger] evicted(order, entries, total, max).1.contains_key(j) implies entries.contains_key(j)
                && evicted(order, entries, total, max).1[j] == entries[j] by {
                assert(e1.contains_key(j));
                assert(e1[j] == entries[j]);
            }
        } else {
            lemma_evicted_submap(order.drop_first(), entries, total, max);
            assert(evicted(order, entries, total, max) == evicted(order.drop_first(), entries, total, max));
        }
    } else {
        assert(evicted(order, entries, total, max) == (order, entries, total));
    }
}

/// Eviction never drops the most recently used entry when that entry alone fits
/// within the bound.
pub proof fn lemma_evicted_keeps_last(order: Seq<usize>, entries: Map<usize, OwnedBuffer>, total: nat, max: nat)
    requires
        lru_inv(order, entries, total),
        order.len() > 0,
        buffer_bytes(entries[order.last()]).len() <= max,
    ensures
        evicted(order, entries, total, max).1.contains_key(order.last()),
        evicted(order, entries, total, max).1[order.last()] == entries[order.last()],
        evicted(order, entries, total, max).0.len() > 0,
        evicted(order, entries, total, max).0.last() == order.last(),
    decreases order.len(),
{
    let i = order.last();
    assert(order.contains(i)) by {
        assert(order[order.len() - 1] == i);
    }
    if !(total <= max || order.len() == 0) {
        if order.len() == 1 {
            assert(order.drop_last() =~= Seq::<usize>::empty());
            assert(bytes_in(Seq::<usize>::empty(), entries) == 0);
            assert(bytes_in(order, entries) == bytes_in(order.drop_last(), entries) + buffer_bytes(entries[i]).len());
            assert(bytes_in(order, entries) == buffer_bytes(entries[i]).len());
            assert(false);
        }
        lemma_evict_step(order, entries, total);
        let k = order[0];
        assert(k != i) by {
            assert(order[order.len() - 1] == i);
        }
        let rest = order.drop_first();
        assert(rest.last() == i);
        lemma_evicted_keeps_last(rest, entries.remove(k), sat_sub(total, buffer_bytes(entries[k]).len()), max);
    }
}

/// The state just before eviction when `data` is put under `index`.
pub open spec fn put_before_evict(order: Seq<usize>, entries: Map<usize, OwnedBuffer>, total: nat, index: usize, data: OwnedBuffer) -> (
    Seq<usize>,
    Map<usize, OwnedBuffer>,
    nat,
) {
    let had = entries.contains_key(index);
    let t1 = if had {
        sat_sub(total, buffer_bytes(entries[index]).len())
    } else {
        total
    };
    (remove_first(order, index).push(index), entries.insert(index, data), sat_add(t1, buffer_bytes(data).len()))
}

/// A cache state (usage order, entries, counted bytes) after a hit on
/// `index`: the entry becomes the most recently used.
pub open spec fn lru_touch(st: (Seq<usize>, Map<usize, OwnedBuffer>, nat), index: usize) -> (
    Seq<usize>,
    Map<usize, OwnedBuffer>,
    nat,
) {
    (remove_first(st.0, index).push(index), st.1, st.2)
}

/// A cache state after putting `data` under `index` and evicting down to
/// `max` bytes.
pub open spec fn lru_put(st: (Seq<usize>, Map<usize, OwnedBuffer>, nat), max: nat, index: usize, data: OwnedBuffer) -> (
    Seq<usize>,
    Map<usize, OwnedBuffer>,
    nat,
) {
    let (o2, e2, t2) = put_before_evict(st.0, st.1, st.2, index, data);
    evicted(o2, e2, t2, max)
}

/// Putting keeps the invariant, with `index` the most recently used.
pub proof fn lemma_put_before_evict(order: Seq<usize>, entries: Map<usize, OwnedBuffer>, total: nat, index: usize, data: OwnedBuffer)
    requires
        lru_inv(order, entries, total),
    ensures
        ({
            let (o2, e2, t2) = put_before_evict(order, entries, total, index, data);
            &&& lru_inv(o2, e2, t2)
            &&& o2.len() > 0
            &&& o2.last() == index
            &&& e2[index] == data
        }),
{
    let (o2, e2, t2) = put_before_evict(order, entries, total, index, data);
    let o = order;
    let e = entries;
    let had = e.contains_key(index);
    let o1 = remove_first(o, index);
    let e1 = e.insert(index, data);
    let t1 = if had { sat_sub(total, buffer_bytes(e[index]).len()) } else { total };
    assert(e1.remove(index) =~= e.remove(index));
    if had {
        let j = first_index(o, index);
        assert(o.contains(index));
        lemma_bytes_in_remove(o, e, j);
        assert(!o1.contains(index)) by {
            if o1.contains(index) {
                let a = choose|a: int| 0 <= a < o1.len() && o1[a] == index;
                let b = if a < j { a } else { a + 1 };
                assert(o[b] == index && b != j);
            }
        }
        lemma_bytes_in_other_key(o1, e, e1, index);
    } else {
        assert(!o.contains(index));
        lemma_bytes_in_other_key(o, e, e1, index);
    }
    lemma_bytes_in_nonneg(o1, e1);
    assert(o2.drop_last() =~= o1);
    assert(o2.last() == index);
    assert(o2.no_duplicates()) by {
        assert forall|a: int, b: int| 0 <= a < o2.len() && 0 <= b < o2.len() && a != b implies o2[a] != o2[b] by {
            if had {
                let j = first_index(o, index);
                if a < o1.len() {
                    assert(o1[a] == o[if a < j { a } else { a + 1 }]);
                }
                if b < o1.len() {
                    assert(o1[b] == o[if b < j { b } else { b + 1 }]);
                }
            }
            if a < o1.len() && b < o1.len() {
                assert(o2[a] == o1[a] && o2[b] == o1[b]);
            } else if a < o1.len() {
                assert(o2[a] == o1[a]);
            } else if b < o1.len() {
                assert(o2[b] == o1[b]);
            }
        }
    }
    assert forall|k: usize| e2.contains_key(k) <==> o2.contains(k) by {
        if o2.contains(k) && k != index {
            let a = choose|a: int| 0 <= a < o2.len() && o2[a] == k;
            assert(a < o1.len());
            assert(o1[a] == k);
            if had {
                let j = first_index(o, index);
                let b = if a < j { a } else { a + 1 };
                assert(o[b] == k);
            } else {
                assert(o[a] == k);
            }
            assert(o.contains(k));
        }
        if e2.contains_key(k) && k != index {
            assert(e.contains_key(k));
            assert(o.contains(k));
            let a = choose|a: int| 0 <= a < o.len() && o[a] == k;
            assert(o1.contains(k)) by {
                if had {
                    let j = first_index(o, index);
                    assert(a != j);
                    let b = if a < j { a } else { a - 1 };
                    assert(o1[b] == k);
                } else {
                    assert(o1[a] == k);
                }
            }
            let b = choose|b: int| 0 <= b < o1.len() && o1[b] == k;
            assert(o2[b] == k);
        }
        if k == index {
            assert(o2[o2.len() - 1] == index);
        }
    }
}

/// A put entry that alone fits within the bound is cached afterwards, holding
/// exactly the data put (what is read back is what was written).
pub proof fn law_put_then_cached(
    order: Seq<usize>,
    entries: Map<usize, OwnedBuffer>,
    total: nat,
    max: nat,
    index: usize,
    data: OwnedBuffer,
)
    requires
        lru_inv(order, entries, total),
        buffer_bytes(data).len() <= max,
    ensures
        ({
            let (o2, e2, t2) = put_before_evict(order, entries, total, index, data);
            let (o3, e3, t3) = evicted(o2, e2, t2, max);
            &&& e3.contains_key(index)
            &&& e3[index] == data
            &&& o3.last() == index
            &&& lru_inv(o3, e3, t3)
            &&& t3 <= max
        }),
{
    let (o2, e2, t2) = put_before_evict(order, entries, total, index, data);
    lemma_put_before_evict(order, entries, total, index, data);
    lemma_evicted_keeps_last(o2, e2, t2, max);
    lemma_evicted_inv(o2, e2, t2, max);
}

/// A cache of decompressed file contents, keyed by entry index, bounded by a
/// total number of bytes and evicting the least recently used entry first.
pub struct DecompressedLruCache {
    max_bytes: usize,
    total_bytes: usize,
    entries: HashMap<usize, OwnedBuffer>,
    order: VecDeque<usize>,
}

impl DecompressedLruCache {
    /// The cached contents by entry index.
    pub closed spec fn entries(&self) -> Map<usize, OwnedBuffer> {
        self.entries@
    }

    /// The cached indices, least recently used first.
    pub closed spec fn order(&self) -> Seq<usize> {
        self.order@
    }

    /// The number of bytes counted as cached.
    pub closed spec fn total(&self) -> nat {
        self.total_bytes as nat
    }

    /// The byte bound.
    pub closed spec fn max(&self) -> nat {
        self.max_bytes as nat
    }

    /// Well formed: `order` lists every cached index once, and the counted
    /// bytes never exceed the bytes actually cached.
    pub closed spec fn wf(&self) -> bool {
        lru_inv(self.order@, self.entries@, self.total_bytes as nat)
    }

    /// Facts every well-formed cache has.
    pub proof fn lemma_wf(&self)
        requires
            self.wf(),
        ensures
            self.order().no_duplicates(),
            forall|k: usize| self.entries().contains_key(k) <==> self.order().contains(k),
            self.total() <= bytes_in(self.order(), self.entries()),
    {
    }

    /// An empty cache holding up to `max_bytes` bytes.
    pub fn new(max_bytes: usize) -> (r: Self)
        ensures
            r.wf(),
            r.entries() == Map::<usize, OwnedBuffer>::empty(),
            r.order() == Seq::<usize>::empty(),
            r.total() == 0,
            r.max() == max_bytes,
    {
        let r = DecompressedLruCache { max_bytes, total_bytes: 0, entries: HashMap::new(), order: VecDeque::new() };
        proof {
            assert(r.entries@ =~= Map::<usize, OwnedBuffer>::empty());
        }
        r
    }

    /// The number of cached entries.
    pub fn len(&self) -> (r: usize)
        requires
            self.wf(),
        ensures
            r == self.order().len(),
            r == self.entries().dom().len(),
    {
        proof {
            assert(self.order@.to_set() =~= self.entries@.dom());
            self.order@.unique_seq_to_set();
        }
        self.order.len()
    }

    /// Drops the first occurrence of `index` from the usage order.
    fn remove_from_order(&mut self, index: usize)
        ensures
            final(self).order() == remove_first(old(self).order(), index),
            final(self).entries() == old(self).entries(),
            final(self).total() == old(self).total(),
            final(self).max() == old(self).max(),
    {
        let mut pos: usize = 0;
        let n = self.order.len();
        while pos < n
            invariant
                n == self.order@.len(),
                pos <= n,
                self.order@ == old(self).order@,
                self.entries@ == old(self).entries@,
                self.total_bytes == old(self).total_bytes,
                self.max_bytes == old(self).max_bytes,
                forall|j: int| 0 <= j < pos ==> self.order@[j] != index,
            decreases n - pos,
        {
            if self.order[pos] == index {
                proof {
                    lemma_first_index(self.order@, index, pos as int);
                }
                let _ = self.order.remove(pos);
                return;
            }
            pos = pos + 1;
        }
        proof {
            assert(!self.order@.contains(index));
        }
    }

    /// Marks `index` as the most recently used.
    fn touch(&mut self, index: usize)
        ensures
            final(self).order() == remove_first(old(self).order(), index).push(index),
            final(self).entries() == old(self).entries(),
            final(self).total() == old(self).total(),
            final(self).max() == old(self).max(),
    {
        self.remove_from_order(index);
        self.order.push_back(index);
    }

    /// The cached contents of entry `index`, if cached; a hit makes the entry
    /// the most recently used.
    pub fn get(&mut self, index: usize) -> (r: Option<OwnedBuffer>)
        requires
            old(self).wf(),
        ensures
            final(self).wf(),
            final(self).entries() == old(self).entries(),
            final(self).total() == old(self).total(),
            final(self).max() == old(self).max(),
            match r {
                Some(b) => old(self).entries().contains_key(index) && buffer_bytes(b) == buffer_bytes(
                    old(self).entries()[index],
                ) && final(self).order() == remove_first(old(self).order(), index).push(index),
                None => !old(self).entries().contains_key(index) && final(self).order() == old(self).order(),
            },
    {
        let value = match self.entries.get(&index) {
            Some(v) => buffer_clone(v),
            None => {
                return None;
            },
        };
        let ghost o = self.order@;
        self.touch(index);
        proof {
            let j = first_index(o, index);
            assert(o.contains(index));
            assert(o[j] == index);
            let o2 = o.remove(j);
            lemma_bytes_in_remove(o, self.entries@, j);
            assert(self.order@ == o2.push(index));
            assert(bytes_in(self.order@, self.entries@) == bytes_in(o, self.entries@)) by {
                assert(self.order@.drop_last() =~= o2);
            }
            assert(self.order@.no_duplicates()) by {
                assert forall|a: int, b: int| 0 <= a < self.order@.len() && 0 <= b < self.order@.len() && a != b
                    implies self.order@[a] != self.order@[b] by {
                    if a < o2.len() && b < o2.len() {
                        assert(o2[a] == o[if a < j { a } else { a + 1 }]);
                        assert(o2[b] == o[if b < j { b } else { b + 1 }]);
                    } else if a < o2.len() {
                        assert(o2[a] == o[if a < j { a } else { a + 1 }]);
                    } else if b < o2.len() {
                        assert(o2[b] == o[if b < j { b } else { b + 1 }]);
                    }
                }
            }
            assert forall|k: usize| self.entries@.contains_key(k) <==> self.order@.contains(k) by {
                if self.order@.contains(k) && k != index {
                    let a = choose|a: int| 0 <= a < self.order@.len() && self.order@[a] == k;
                    assert(o2[a] == o[if a < j { a } else { a + 1 }]);
                }
                if o.contains(k) && k != index {
                    let a = choose|a: int| 0 <= a < o.len() && o[a] == k;
                    assert(a != j);
                    let b = if a < j { a } else { a - 1 };
                    assert(o2[b] == k);
                    assert(self.order@[b] == k);
                }
                if k == index {
                    assert(self.order@[self.order@.len() - 1] == index);
                }
            }
        }
        Some(value)
    }

    /// Evicts least recently used entries while more bytes are counted than
    /// the bound allows.
    fn evict_if_needed(&mut self)
        requires
            old(self).wf(),
        ensures
            final(self).wf(),
            final(self).max() == old(self).max(),
            (final(self).order(), final(self).entries(), final(self).total()) == evicted(
                old(self).order(),
                old(self).entries(),
                old(self).total(),
                old(self).max(),
            ),
    {
        let ghost target = evicted(self.order@, self.entries@, self.total_bytes as nat, self.max_bytes as nat);
        while self.total_bytes > self.max_bytes
            invariant
                self.wf(),
                self.max_bytes == old(self).max_bytes,
                evicted(self.order@, self.entries@, self.total_bytes as nat, self.max_bytes as nat) == target,
            ensures
                self.wf(),
                self.max_bytes == old(self).max_bytes,
                evicted(self.order@, self.entries@, self.total_bytes as nat, self.max_bytes as nat) == target,
                self.total_bytes <= self.max_bytes || self.order@.len() == 0,
            decreases self.order@.len(),
        {
            let ghost o = self.order@;
            let ghost e = self.entries@;
            let ghost t = self.total_bytes as nat;
            match self.order.pop_front() {
                None => {
                    break;
                },
                Some(oldest) => {
                    proof {
                        lemma_evict_step(o, e, t);
                        assert(self.order@ =~= o.drop_first());
                    }
                    match self.entries.remove(&oldest) {
                        Some(old) => {
                            let n = buffer_len(&old);
                            self.total_bytes = self.total_bytes.saturating_sub(n);
                        },
                        None => {},
                    }
                    proof {
                        assert(self.entries@ == e.remove(oldest));
                        assert(self.total_bytes as nat == sat_sub(t, buffer_bytes(e[oldest]).len()));
                    }
                },
            }
        }
        proof {
            assert(evicted(self.order@, self.entries@, self.total_bytes as nat, self.max_bytes as nat) == (self.order@, self.entries@, self.total_bytes as nat));
        }
    }

    /// Caches the contents of entry `index` as the most recently used entry,
    /// replacing what was cached for it, then evicts least recently used
    /// entries while the byte bound is exceeded.
    pub fn put(&mut self, index: usize, data: OwnedBuffer)
        requires
            old(self).wf(),
        ensures
            final(self).wf(),
            final(self).max() == old(self).max(),
            ({
                let (o2, e2, t2) = put_before_evict(old(self).order(), old(self).entries(), old(self).total(), index, data);
                (final(self).order(), final(self).entries(), final(self).total()) == evicted(o2, e2, t2, old(self).max())
            }),
    {
        let ghost o = self.order@;
        let ghost e = self.entries@;
        let ghost t = self.total_bytes as nat;
        proof {
            lemma_put_before_evict(o, e, t, index, data);
        }
        let data_len = buffer_len(&data);
        match self.entries.insert(index, data) {
            Some(old) => {
                let n = buffer_len(&old);
                self.total_bytes = self.total_bytes.saturating_sub(n);
                self.remove_from_order(index);
            },
            None => {
                proof {
                    assert(!o.contains(index));
                }
            },
        }
        self.total_bytes = self.total_bytes.saturating_add(data_len);
        self.order.push_back(index);
        proof {
            let (o2, e2, t2) = put_before_evict(o, e, t, index, data);
            assert(self.order@ =~= o2);
            assert(self.entries@ == e2);
            assert(self.total_bytes as nat == t2);
        }
        self.evict_if_needed();
    }
}

} // verus!
