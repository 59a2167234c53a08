use vstd::prelude::*;
use std::collections::HashMap;

verus! {

broadcast use vstd::std_specs::hash::group_hash_axioms;

/// `s` with every occurrence of `k` taken out, the rest in order.
pub open spec fn without(s: Seq<u64>, k: u64) -> Seq<u64>
    decreases s.len(),
{
    if s.len() == 0 {
        s
    } else {
        let w = without(s.drop_last(), k);
        if s.last() == k {
            w
        } else {
            w.push(s.last())
        }
    }
}

/// `k` moved to the most recent end of the recency order.
pub open spec fn touch(s: Seq<u64>, k: u64) -> Seq<u64> {
    without(s, k).push(k)
}

proof fn lemma_push_contains(w: Seq<u64>, l: u64)
    ensures
        forall|x: u64| #[trigger] w.push(l).contains(x) <==> (w.contains(x) || x == l),
{
    assert forall|x: u64| #[trigger] w.push(l).contains(x) <==> (w.contains(x) || x == l) by {
        if w.push(l).contains(x) {
            let i = choose|i: int| 0 <= i < w.len() + 1 && w.push(l)[i] == x;
            if i < w.len() {
                assert(w[i] == x);
            }
        }
        if w.contains(x) {
            let i = choose|i: int| 0 <= i < w.len() && w[i] == x;
            assert(w.push(l)[i] == x);
        }
        if x == l {
            assert(w.push(l)[w.len() as int] == x);
        }
    }
}

proof fn lemma_without(s: Seq<u64>, k: u64)
    ensures
        forall|x: u64| #[trigger] without(s, k).contains(x) <==> (s.contains(x) && x != k),
        s.no_duplicates() ==> without(s, k).no_duplicates(),
    decreases s.len(),
{
    if s.len() > 0 {
        let p = s.drop_last();
        let l = s.last();
        let w = without(p, k);
        lemma_without(p, k);
        assert(s == p.push(l));
        lemma_push_contains(p, l);
        lemma_push_contains(w, l);
        if s.no_duplicates() {
            assert(p.no_duplicates()) by {
                assert forall|i: int, j: int|
                    0 <= i < p.len() && 0 <= j < p.len() && i != j implies p[i] != p[j] by {
                    assert(p[i] == s[i] && p[j] == s[j]);
                }
            }
            assert(!p.contains(l)) by {
                if p.contains(l) {
                    let i = choose|i: int| 0 <= i < p.len() && p[i] == l;
                    assert(s[i] == s[s.len() - 1]);
                }
            }
            if l != k {
                assert(!w.contains(l));
                assert(w.push(l).no_duplicates()) by {
                    assert forall|i: int, j: int|
                        0 <= i < w.len() + 1 && 0 <= j < w.len() + 1 && i != j implies w.push(l)[i]
                        != w.push(l)[j] by {
                        if i < w.len() && j < w.len() {
                        } else if i < w.len() {
                            assert(w.contains(w[i]));
                        } else if j < w.len() {
                            assert(w.contains(w[j]));
                        }
                    }
                }
            }
        }
    }
}

/// After `k` is taken out of a duplicate-free order and put back at the end, the order
/// lists the same timestamps and is still free of duplicates.
proof fn lemma_touch(s: Seq<u64>, k: u64)
    requires
        s.no_duplicates(),
    ensures
        touch(s, k).no_duplicates(),
        forall|x: u64| #[trigger] touch(s, k).contains(x) <==> (s.contains(x) || x == k),
{
    let w = without(s, k);
    lemma_without(s, k);
    lemma_push_contains(w, k);
    assert(touch(s, k).no_duplicates()) by {
        assert forall|i: int, j: int|
            0 <= i < w.len() + 1 && 0 <= j < w.len() + 1 && i != j implies w.push(k)[i] != w.push(
                k,
            )[j] by {
            if i < w.len() && j < w.len() {
            } else if i < w.len() {
                assert(w.contains(w[i]));
            } else if j < w.len() {
                assert(w.contains(w[j]));
            }
        }
    }
}

/// A bounded map from frame timestamps to pixel data that, when full, drops the
/// entry used least recently.
pub struct LruFrameCache {
    cache: HashMap<u64, Vec<u8>>,
    order: Vec<u64>,
    capacity: usize,
}

impl LruFrameCache {
    /// The cached data, by timestamp.
    pub closed spec fn entries(&self) -> Map<u64, Seq<u8>> {
        self.cache@.map_values(|v: Vec<u8>| v@)
    }

    /// The cached timestamps, least recently used first.
    pub closed spec fn recency(&self) -> Seq<u64> {
        self.order@
    }

    /// The number of entries past which the least recently used one is dropped.
    pub closed spec fn spec_capacity(&self) -> usize {
        self.capacity
    }

    /// The recency order lists each cached timestamp exactly once.
    pub closed spec fn wf(&self) -> bool {
        &&& self.order@.no_duplicates()
        &&& forall|k: u64| #[trigger] self.order@.contains(k) <==> self.cache@.contains_key(k)
    }

    /// An empty cache holding at most `capacity` entries.
    pub fn new(capacity: usize) -> (r: Self)
        ensures
            r.wf(),
            r.entries() == Map::<u64, Seq<u8>>::empty(),
            r.recency() == Seq::<u64>::empty(),
            r.spec_capacity() == capacity,
    {
        let r = LruFrameCache {
            cache: HashMap::with_capacity(capacity),
            order: Vec::with_capacity(capacity),
            capacity,
        };
        assert(r.entries() =~= Map::<u64, Seq<u8>>::empty());
        r
    }

    fn remove_from_order(&mut self, k: u64)
        requires
            old(self).wf(),
        ensures
            final(self).order@ == without(old(self).order@, k),
            final(self).cache == old(self).cache,
            final(self).capacity == old(self).capacity,
    {
        let mut kept: Vec<u64> = Vec::new();
        let mut i: usize = 0;
        assert(self.order@.take(0) =~= Seq::<u64>::empty());
        while i < self.order.len()
            invariant
                i <= self.order@.len(),
                kept@ == without(self.order@.take(i as int), k),
            decreases self.order.len() - i,
        {
            let x = self.order[i];
            assert(self.order@.take(i + 1).drop_last() =~= self.order@.take(i as int));
            if x != k {
                kept.push(x);
            }
            i = i + 1;
        }
        assert(self.order@.take(i as int) =~= self.order@);
        self.order = kept;
    }

    /// The data cached under `pts_ms`, if any; a hit makes `pts_ms` the most recently used.
    pub fn get(&mut self, pts_ms: u64) -> (r: Option<&Vec<u8>>)
        requires
            old(self).wf(),
        ensures
            final(self).wf(),
            final(self).entries() == old(self).entries(),
            final(self).spec_capacity() == old(self).spec_capacity(),
            match r {
                Some(v) => old(self).entries().contains_key(pts_ms) && v@ == old(self).entries()[pts_ms]
                    && final(self).recency() == touch(old(self).recency(), pts_ms),
                None => !old(self).entries().contains_key(pts_ms) && final(self).recency() == old(
                    self,
                ).recency(),
            },
    {
        if self.cache.contains_key(&pts_ms) {
            proof {
                lemma_touch(self.order@, pts_ms);
            }
            self.remove_from_order(pts_ms);
            self.order.push(pts_ms);
            let r = self.cache.get(&pts_ms);
            r
        } else {
            None
        }
    }

    /// Stores `data` under `pts_ms` as the most recently used entry. A new timestamp
    /// arriving when the cache holds `capacity` entries or more first drops the least
    /// recently used one.
    pub fn put(&mut self, pts_ms: u64, data: Vec<u8>)
        requires
            old(self).wf(),
        ensures
            final(self).wf(),
            final(self).spec_capacity() == old(self).spec_capacity(),
            ({
                let old_entries = old(self).entries();
                let old_order = old(self).recency();
                if old_entries.contains_key(pts_ms) {
                    &&& final(self).entries() == old_entries.insert(pts_ms, data@)
                    &&& final(self).recency() == touch(old_order, pts_ms)
                } else if old_entries.len() >= old(self).spec_capacity() && old_order.len() > 0 {
                    &&& final(self).entries() == old_entries.remove(old_order[0]).insert(
                        pts_ms,
                        data@,
                    )
                    &&& final(self).recency() == old_order.drop_first().push(pts_ms)
                } else {
                    &&& final(self).entries() == old_entries.insert(pts_ms, data@)
                    &&& final(self).recency() == old_order.push(pts_ms)
                }
            }),
    {
        let ghost old_cache = self.cache@;
        let ghost old_order = self.order@;
        assert(self.cache@.len() == self.entries().len()) by {
            assert(self.entries().dom() =~= self.cache@.dom());
        }
        if self.cache.contains_key(&pts_ms) {
            proof {
                lemma_without(self.order@, pts_ms);
            }
            self.remove_from_order(pts_ms);
        } else if self.cache.len() >= self.capacity {
            if self.order.len() > 0 {
                let oldest = self.order[0];
                self.order.remove(0);
                self.cache.remove(&oldest);
                proof {
                    assert(self.order@ =~= old_order.drop_first());
                    assert forall|k: u64| #[trigger] self.order@.contains(k) <==> self.cache@.contains_key(k) by {
                        if self.order@.contains(k) {
                            let i = choose|i: int| 0 <= i < self.order@.len() && self.order@[i] == k;
                            assert(old_order[i + 1] == k);
                            assert(old_order.contains(k));
                        }
                        if self.cache@.contains_key(k) {
                            assert(old_order.contains(k));
                            let i = choose|i: int| 0 <= i < old_order.len() && old_order[i] == k;
                            assert(i != 0);
                            assert(self.order@[i - 1] == k);
                        }
                    }
                    assert(!self.order@.contains(pts_ms));
                }
            }
        }
        let ghost mid_order = self.order@;
        proof {
            if old_cache.contains_key(pts_ms) {
                lemma_without(old_order, pts_ms);
            }
            assert(!mid_order.contains(pts_ms));
        }
        self.order.push(pts_ms);
        self.cache.insert(pts_ms, data);
        proof {
            assert forall|k: u64| #[trigger] self.order@.contains(k) <==> self.cache@.contains_key(k) by {
                if k == pts_ms {
                    assert(self.order@[self.order@.len() - 1] == k);
                } else {
                    if self.order@.contains(k) {
                        let i = choose|i: int| 0 <= i < self.order@.len() && self.order@[i] == k;
                        assert(mid_order[i] == k);
                        assert(mid_order.contains(k));
                    }
                    if self.cache@.contains_key(k) {
                        assert(mid_order.contains(k));
                        let i = choose|i: int| 0 <= i < mid_order.len() && mid_order[i] == k;
                        assert(self.order@[i] == k);
                    }
                }
            }
            assert(self.order@.no_duplicates()) by {
                assert forall|i: int, j: int|
                    0 <= i < self.order@.len() && 0 <= j < self.order@.len() && i != j implies
                    self.order@[i] != self.order@[j] by {
                    if i < mid_order.len() && j < mid_order.len() {
                        assert(self.order@[i] == mid_order[i] && self.order@[j] == mid_order[j]);
                    } else if i < mid_order.len() {
                        assert(mid_order.contains(mid_order[i]));
                    } else if j < mid_order.len() {
                        assert(mid_order.contains(mid_order[j]));
                    }
                }
            }
            assert(self.entries() =~= old_cache.map_values(|v: Vec<u8>| v@).insert(pts_ms, data@)
                || self.entries() =~= old_cache.map_values(|v: Vec<u8>| v@).remove(old_order[0]).insert(pts_ms, data@));
        }
    }

    /// Drops every entry.
    pub fn clear(&mut self)
        ensures
            final(self).wf(),
            final(self).entries() == Map::<u64, Seq<u8>>::empty(),
            final(self).recency() == Seq::<u64>::empty(),
            final(self).spec_capacity() == old(self).spec_capacity(),
    {
        self.cache.clear();
        self.order.clear();
        assert(self.entries() =~= Map::<u64, Seq<u8>>::empty());
    }

    /// The number of cached entries.
    pub fn len(&self) -> (r: usize)
        ensures
            r == self.entries().len(),
    {
        assert(self.entries().dom() =~= self.cache@.dom());
        self.cache.len()
    }
}

} // verus!
