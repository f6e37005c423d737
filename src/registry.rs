//! The registry of cache entries, keyed by URL, and the choice of what a
//! garbage collection removes.
use vstd::prelude::*;
use crate::mode::bytes_equal;

verus! {

/// The limits of the periodic collection: at most `max_elements` entries,
/// none older than `max_lifetime` seconds, a run every `sleep` seconds.
#[derive(Clone, Copy, Debug, PartialEq, Eq, Structural)]
pub struct GcProperties {
    pub max_elements: usize,
    pub max_lifetime: u64,
    pub sleep: u64,
}

/// The order of entries by age: no time counts as oldest.
pub open spec fn older_or_same(a: Option<u64>, b: Option<u64>) -> bool {
    match (a, b) {
        (None, _) => true,
        (Some(_), None) => false,
        (Some(x), Some(y)) => x <= y,
    }
}

/// The positions of the `num` oldest of `times` (all of them where there
/// are fewer): no position twice, and none chosen is younger than one left.
pub fn gc_select_oldest(times: &Vec<Option<u64>>, num: usize) -> (r: Vec<usize>)
    ensures
        r@.len() == if num < times@.len() { num as int } else { times@.len() as int },
        forall|i: int| 0 <= i < r@.len() ==> #[trigger] r@[i] < times@.len(),
        forall|i: int, j: int| 0 <= i < j < r@.len() ==> r@[i] != r@[j],
        forall|i: int, u: int|
            0 <= i < r@.len() && 0 <= u < times@.len() && !r@.contains(u as usize) ==> older_or_same(
                #[trigger] times@[r@[i] as int],
                #[trigger] times@[u],
            ),
{
    let n = times.len();
    let mut taken: Vec<bool> = Vec::new();
    let mut k: usize = 0;
    while k < n
        invariant
            k <= n,
            n == times@.len(),
            taken@.len() == k,
            forall|i: int| 0 <= i < k ==> !taken@[i],
            count_taken(taken@) == 0,
        decreases n - k,
    {
        let ghost t0 = taken@;
        taken.push(false);
        assert(taken@.drop_last() =~= t0);
        k += 1;
    }
    let mut r: Vec<usize> = Vec::new();
    while r.len() < num && r.len() < n
        invariant
            n == times@.len(),
            taken@.len() == n,
            r@.len() <= n,
            r@.len() <= num,
            forall|i: int| 0 <= i < r@.len() ==> #[trigger] r@[i] < n,
            forall|i: int, j: int| 0 <= i < j < r@.len() ==> r@[i] != r@[j],
            forall|u: int| 0 <= u < n ==> (taken@[u] <==> r@.contains(u as usize)),
            count_taken(taken@) == r@.len(),
            forall|i: int, u: int|
                0 <= i < r@.len() && 0 <= u < n && !taken@[u] ==> older_or_same(
                    #[trigger] times@[r@[i] as int],
                    #[trigger] times@[u],
                ),
        decreases n - r@.len(),
    {
        proof {
            lemma_untaken_exists(taken@);
        }
        let mut best: usize = n;
        let mut i: usize = 0;
        while i < n
            invariant
                n == times@.len(),
                taken@.len() == n,
                i <= n,
                best == n || (best < i && !taken@[best as int]),
                best < n ==> forall|u: int| 0 <= u < i && !taken@[u] ==> older_or_same(times@[best as int], #[trigger] times@[u]),
                best == n ==> forall|u: int| 0 <= u < i ==> #[trigger] taken@[u],
            decreases n - i,
        {
            if !taken[i] {
                let better = if best == n {
                    true
                } else {
                    match (times[i], times[best]) {
                        (None, Some(_)) => true,
                        (Some(x), Some(y)) => x < y,
                        _ => false,
                    }
                };
                if better {
                    best = i;
                }
            }
            i += 1;
        }
        if best == n {
            proof { assert(false); }
            return r;
        }
        let ghost old_r = r@;
        proof {
            lemma_count_take(taken@, best as int);
        }
        taken.set(best, true);
        r.push(best);
        proof {
            assert forall|u: int| 0 <= u < n implies (taken@[u] <==> r@.contains(u as usize)) by {
                if r@.contains(u as usize) && u != best as int {
                    let j = choose|j: int| 0 <= j < r@.len() && r@[j] == u as usize;
                    assert(j < old_r.len());
                    assert(old_r.contains(u as usize));
                }
                if u != best as int && taken@[u] {
                    assert(old_r.contains(u as usize));
                    let j = choose|j: int| 0 <= j < old_r.len() && old_r[j] == u as usize;
                    assert(r@[j] == u as usize);
                }
                if u == best as int {
                    assert(r@[r@.len() - 1] == best);
                }
            }
            assert forall|a: int, b: int| 0 <= a < b < r@.len() implies r@[a] != r@[b] by {
                if b == r@.len() - 1 && r@[a] == best {
                    assert(old_r.contains(best));
                }
            }
        }
    }
    r
}

/// How many places of `s` are taken.
pub open spec fn count_taken(s: Seq<bool>) -> int
    decreases s.len(),
{
    if s.len() == 0 {
        0
    } else {
        count_taken(s.drop_last()) + if s.last() { 1int } else { 0int }
    }
}

proof fn lemma_untaken_exists(s: Seq<bool>)
    requires
        count_taken(s) < s.len(),
    ensures
        exists|u: int| 0 <= u < s.len() && !s[u],
    decreases s.len(),
{
    if s.last() {
        lemma_count_bound(s.drop_last());
        lemma_untaken_exists(s.drop_last());
        let u = choose|u: int| 0 <= u < s.drop_last().len() && !s.drop_last()[u];
        assert(!s[u]);
    } else {
        assert(!s[s.len() - 1]);
    }
}

proof fn lemma_count_bound(s: Seq<bool>)
    ensures
        0 <= count_taken(s) <= s.len(),
    decreases s.len(),
{
    if s.len() > 0 {
        lemma_count_bound(s.drop_last());
    }
}

proof fn lemma_count_take(s: Seq<bool>, i: int)
    requires
        0 <= i < s.len(),
        !s[i],
    ensures
        count_taken(s.update(i, true)) == count_taken(s) + 1,
    decreases s.len(),
{
    if i == s.len() - 1 {
        assert(s.update(i, true).drop_last() =~= s.drop_last());
    } else {
        lemma_count_take(s.drop_last(), i);
        assert(s.update(i, true).drop_last() =~= s.drop_last().update(i, true));
    }
}

/// The entries of the cache, keyed by URL; keys are unique.
pub struct Cache<E> {
    entries: Vec<(Vec<u8>, E)>,
    is_dirty: bool,
    refcnt: u32,
}

impl<E> Cache<E> {
    pub closed spec fn keys(&self) -> Seq<Seq<u8>> {
        self.entries@.map_values(|e: (Vec<u8>, E)| e.0@)
    }

    pub closed spec fn values(&self) -> Seq<E> {
        self.entries@.map_values(|e: (Vec<u8>, E)| e.1)
    }

    /// Whether entries were looked up or changed since the last collection.
    pub closed spec fn dirty(&self) -> bool {
        self.is_dirty
    }

    /// How many users share the cache.
    pub closed spec fn users(&self) -> int {
        self.refcnt as int
    }

    /// Registers a user; returns whether it is the first, which starts the
    /// periodic collection.
    pub fn instanciate(&mut self) -> (r: bool)
        requires
            old(self).users() < u32::MAX,
        ensures
            final(self).users() == old(self).users() + 1,
            r == (old(self).users() == 0),
            final(self).keys() == old(self).keys(),
            final(self).values() == old(self).values(),
            final(self).wf() == old(self).wf(),
            final(self).dirty() == old(self).dirty(),
    {
        let first = self.refcnt == 0;
        self.refcnt = self.refcnt + 1;
        first
    }

    /// Unregisters a user; returns whether it was the last, in which case
    /// the entries are dropped and the collection is to stop.
    pub fn close(&mut self) -> (r: bool)
        requires
            old(self).wf(),
            old(self).users() > 0,
        ensures
            final(self).wf(),
            final(self).users() == old(self).users() - 1,
            r == (old(self).users() == 1),
            r ==> final(self).keys().len() == 0,
            !r ==> final(self).keys() == old(self).keys() && final(self).values() == old(self).values(),
    {
        self.refcnt = self.refcnt - 1;
        if self.refcnt == 0 {
            self.entries.clear();
            true
        } else {
            false
        }
    }

    pub fn is_dirty(&self) -> (r: bool)
        ensures
            r == self.dirty(),
    {
        self.is_dirty
    }

    /// Notes that a collection ran.
    pub fn set_clean(&mut self)
        ensures
            final(self).keys() == old(self).keys(),
            final(self).values() == old(self).values(),
            final(self).wf() == old(self).wf(),
            !final(self).dirty(),
    {
        self.is_dirty = false;
    }

    pub closed spec fn wf(&self) -> bool {
        forall|i: int, j: int| 0 <= i < j < self.entries@.len() ==> self.entries@[i].0@ != self.entries@[j].0@
    }

    pub fn new() -> (r: Cache<E>)
        ensures
            r.wf(),
            r.keys().len() == 0,
            !r.dirty(),
            r.users() == 0,
    {
        Cache { entries: Vec::new(), is_dirty: false, refcnt: 0 }
    }

    pub fn len(&self) -> (r: usize)
        ensures
            r == self.keys().len(),
    {
        self.entries.len()
    }

    pub fn is_empty(&self) -> (r: bool)
        ensures
            r == (self.keys().len() == 0),
    {
        self.entries.len() == 0
    }

    fn position(&self, key: &[u8]) -> (r: Option<usize>)
        ensures
            match r {
                Some(i) => i < self.keys().len() && self.keys()[i as int] == key@,
                None => !self.keys().contains(key@),
            },
    {
        let mut i: usize = 0;
        while i < self.entries.len()
            invariant
                i <= self.entries@.len(),
                forall|j: int| 0 <= j < i ==> self.keys()[j] != key@,
            decreases self.entries@.len() - i,
        {
            if bytes_equal(self.entries[i].0.as_slice(), key) {
                return Some(i);
            }
            i += 1;
        }
        None
    }

    /// The entry of `key`, if there is one; a hit marks the registry dirty.
    pub fn lookup(&mut self, key: &[u8]) -> (r: Option<&E>)
        requires
            old(self).wf(),
        ensures
            final(self).wf(),
            final(self).keys() == old(self).keys(),
            final(self).values() == old(self).values(),
            match r {
                Some(e) => final(self).dirty() && exists|i: int| 0 <= i < old(self).keys().len()
                    && old(self).keys()[i] == key@ && old(self).values()[i] == *e,
                None => !old(self).keys().contains(key@) && final(self).dirty() == old(self).dirty(),
            },
    {
        match self.position(key) {
            Some(i) => {
                self.is_dirty = true;
                Some(&self.entries[i].1)
            },
            None => None,
        }
    }

    /// Stores `entry` under `key`, in place of any entry there.
    pub fn replace(&mut self, key: &[u8], entry: E)
        requires
            old(self).wf(),
        ensures
            final(self).wf(),
            final(self).dirty(),
            final(self).keys().contains(key@),
            forall|i: int| 0 <= i < final(self).keys().len() && final(self).keys()[i] == key@ ==> final(self).values()[i] == entry,
            forall|k: Seq<u8>| k != key@ ==> (final(self).keys().contains(k) <==> old(self).keys().contains(k)),
    {
        self.is_dirty = true;
        let k = crate::datagram::copy_range(key, 0, key.len());
        assert(key@.subrange(0, key@.len() as int) =~= key@);
        match self.position(key) {
            Some(i) => {
                self.entries.set(i, (k, entry));
                proof {
                    assert(self.keys() =~= old(self).keys());
                    assert(self.keys()[i as int] == key@);
                    assert forall|a: int, b: int| 0 <= a < b < self.entries@.len() implies self.entries@[a].0@ != self.entries@[b].0@ by {
                        assert(self.entries@[a].0@ == self.keys()[a]);
                        assert(self.entries@[b].0@ == self.keys()[b]);
                        assert(old(self).entries@[a].0@ == old(self).keys()[a]);
                        assert(old(self).entries@[b].0@ == old(self).keys()[b]);
                    }
                }
            },
            None => {
                self.entries.push((k, entry));
                proof {
                    assert(self.keys() =~= old(self).keys().push(key@));
                    assert(self.keys()[self.keys().len() - 1] == key@);
                    assert forall|a: int, b: int| 0 <= a < b < self.entries@.len() implies self.entries@[a].0@ != self.entries@[b].0@ by {
                        assert(self.entries@[a].0@ == self.keys()[a]);
                        assert(self.entries@[b].0@ == self.keys()[b]);
                        if b == self.entries@.len() - 1 {
                            assert(old(self).keys()[a] == self.keys()[a]);
                        } else {
                            assert(old(self).entries@[a].0@ == old(self).keys()[a]);
                            assert(old(self).entries@[b].0@ == old(self).keys()[b]);
                        }
                    }
                    assert forall|k: Seq<u8>| k != key@ implies (self.keys().contains(k) <==> old(self).keys().contains(k)) by {
                        if old(self).keys().contains(k) {
                            let j = choose|j: int| 0 <= j < old(self).keys().len() && old(self).keys()[j] == k;
                            assert(self.keys()[j] == k);
                        }
                        if self.keys().contains(k) {
                            let j = choose|j: int| 0 <= j < self.keys().len() && self.keys()[j] == k;
                            assert(j < old(self).keys().len());
                            assert(old(self).keys()[j] == k);
                        }
                    }
                }
            },
        }
    }

    /// Drops the entry of `key`.
    pub fn remove(&mut self, key: &[u8])
        requires
            old(self).wf(),
        ensures
            final(self).wf(),
            final(self).dirty(),
            !final(self).keys().contains(key@),
            forall|k: Seq<u8>| k != key@ ==> (final(self).keys().contains(k) <==> old(self).keys().contains(k)),
    {
        self.is_dirty = true;
        match self.position(key) {
            Some(i) => {
                let ghost before = self.entries@;
                self.entries.remove(i);
                proof {
                    assert(self.keys() =~= old(self).keys().remove(i as int));
                    assert forall|k: Seq<u8>| k != key@ implies (self.keys().contains(k) <==> old(self).keys().contains(k)) by {
                        if old(self).keys().contains(k) {
                            let j = choose|j: int| 0 <= j < old(self).keys().len() && old(self).keys()[j] == k;
                            if j < i {
                                assert(self.keys()[j] == k);
                            } else {
                                assert(j != i);
                                assert(self.keys()[j - 1] == k);
                            }
                        }
                        if self.keys().contains(k) {
                            let j = choose|j: int| 0 <= j < self.keys().len() && self.keys()[j] == k;
                            if j < i {
                                assert(old(self).keys()[j] == k);
                            } else {
                                assert(old(self).keys()[j + 1] == k);
                            }
                        }
                    }
                    assert forall|j: int| 0 <= j < self.keys().len() implies self.keys()[j] != key@ by {
                        if j < i {
                            assert(self.keys()[j] == before[j].0@);
                        } else {
                            assert(self.keys()[j] == before[j + 1].0@);
                        }
                    }
                }
            },
            None => {},
        }
    }

    /// Drops every entry.
    pub fn clear(&mut self)
        ensures
            final(self).wf(),
            final(self).users() == old(self).users(),
            final(self).keys().len() == 0,
            final(self).dirty() == old(self).dirty(),
    {
        self.entries.clear();
    }

    /// The key and entry at position `i`.
    pub fn get(&self, i: usize) -> (r: (&[u8], &E))
        requires
            i < self.keys().len(),
        ensures
            r.0@ == self.keys()[i as int],
            *r.1 == self.values()[i as int],
    {
        (self.entries[i].0.as_slice(), &self.entries[i].1)
    }
}

} // verus!
