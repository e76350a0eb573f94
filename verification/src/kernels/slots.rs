//! A hash table of group numbers with linear probing.

use vstd::prelude::*;

verus! {

/// The place of a probe: places go round.
pub open spec fn place(n: int, start: int, step: int) -> int {
    if start + step < n {
        start + step
    } else {
        start + step - n
    }
}

/// Where the probes for a hash start.
pub open spec fn start_of(hash: u64, n: int) -> int {
    hash as int % n
}

/// Whether the probes for a hash find a group at a step, with no gap before.
pub open spec fn reached(slots: Seq<Option<usize>>, hash: u64, g: int, step: int) -> bool {
    let n = slots.len() as int;
    &&& 0 <= step < n
    &&& slots[place(n, start_of(hash, n), step)] == Some(g as usize)
    &&& forall|e: int|
        0 <= e < step ==> (#[trigger] slots[place(n, start_of(hash, n), e)]) is Some
}

/// Whether the probes for a hash find a group.
pub open spec fn is_reached(slots: Seq<Option<usize>>, hash: u64, g: int) -> bool {
    exists|step: int| reached(slots, hash, g, step)
}

/// Group numbers by the hashes of their keys.
#[derive(Debug)]
pub struct SlotTable {
    slots: Vec<Option<usize>>,
}

proof fn no_more_than(s: Seq<usize>, m: nat)
    requires
        forall|i: int| 0 <= i < s.len() ==> #[trigger] s[i] < m,
        forall|i: int, j: int| 0 <= i < j < s.len() ==> #[trigger] s[i] != #[trigger] s[j],
    ensures
        s.len() <= m,
    decreases m,
{
    if m == 0 {
        if s.len() > 0 {
            assert(s[0] < m);
        }
    } else if exists|i: int| 0 <= i < s.len() && s[i] == m - 1 {
        let k = choose|i: int| 0 <= i < s.len() && s[i] == m - 1;
        let rest = s.remove(k);
        assert forall|i: int| 0 <= i < rest.len() implies #[trigger] rest[i] < m - 1 by {
            let j = if i < k { i } else { i + 1 };
            assert(rest[i] == s[j]);
            assert(s[j] != s[k]) by {
                if j < k {
                    assert(s[j] != s[k]);
                } else {
                    assert(s[k] != s[j]);
                }
            }
        }
        assert forall|i: int, j: int| 0 <= i < j < rest.len() implies #[trigger] rest[i]
            != #[trigger] rest[j] by {
            let a = if i < k { i } else { i + 1 };
            let b = if j < k { j } else { j + 1 };
            assert(rest[i] == s[a] && rest[j] == s[b]);
        }
        no_more_than(rest, (m - 1) as nat);
    } else {
        assert forall|i: int| 0 <= i < s.len() implies #[trigger] s[i] < m - 1 by {
            assert(s[i] < m);
        }
        no_more_than(s, (m - 1) as nat);
    }
}

impl SlotTable {
    /// Whether every group is found by the probes for its hash, and none is there twice.
    pub closed spec fn wf(&self, hashes: Seq<u64>) -> bool {
        &&& hashes.len() < self.slots@.len() <= u64::MAX
        &&& forall|p: int|
            0 <= p < self.slots@.len() ==> ((#[trigger] self.slots@[p]) matches Some(g) ==> g
                < hashes.len())
        &&& forall|p: int, q: int|
            #![trigger self.slots@[p], self.slots@[q]]
            0 <= p < q < self.slots@.len() && self.slots@[p] is Some ==> self.slots@[p]
                != self.slots@[q]
        &&& forall|g: int|
            0 <= g < hashes.len() ==> is_reached(self.slots@, #[trigger] hashes[g], g)
    }

    /// The group at a probe.
    pub closed spec fn at(&self, hash: u64, step: int) -> Option<usize> {
        let n = self.slots@.len() as int;
        self.slots@[place(n, start_of(hash, n), step)]
    }

    /// The number of places.
    pub closed spec fn size(&self) -> nat {
        self.slots@.len()
    }

    /// Makes a table with places for no group yet.
    pub fn new(size: usize) -> (table: SlotTable)
        requires
            size > 0,
        ensures
            table.wf(Seq::empty()),
            table.size() == size,
    {
        let addressable = match size.checked_mul(core::mem::size_of::<Option<usize>>()) {
            Some(bytes) => bytes <= isize::MAX as usize,
            None => false,
        };
        let mut slots: Vec<Option<usize>> = if addressable {
            Vec::with_capacity(size)
        } else {
            Vec::new()
        };
        while slots.len() < size
            invariant
                slots@.len() <= size,
                forall|k: int| 0 <= k < slots@.len() ==> #[trigger] slots@[k] is None,
            decreases size - slots.len(),
        {
            slots.push(None);
        }
        SlotTable { slots }
    }

    /// The number of places.
    pub fn len(&self) -> (n: usize)
        ensures
            n == self.size(),
    {
        self.slots.len()
    }

    /// The group at a probe.
    pub fn probe(&self, hash: u64, step: usize) -> (r: Option<usize>)
        requires
            step < self.size() <= u64::MAX,
        ensures
            r == self.at(hash, step as int),
    {
        self.slots[self.locate(hash, step)]
    }

    fn locate(&self, hash: u64, step: usize) -> (at: usize)
        requires
            step < self.slots@.len() <= u64::MAX,
        ensures
            at == place(self.slots@.len() as int, start_of(hash, self.slots@.len() as int), step as int),
            at < self.slots@.len(),
    {
        let n = self.slots.len();
        let start = (hash % (n as u64)) as usize;
        if step < n - start {
            start + step
        } else {
            step - (n - start)
        }
    }

    /// Probes that meet only groups meet no more of them than there are places.
    pub proof fn probes_end(&self, hashes: Seq<u64>, hash: u64, step: int)
        requires
            self.wf(hashes),
            0 <= step <= self.size(),
            forall|e: int| 0 <= e < step ==> (#[trigger] self.at(hash, e)) is Some,
        ensures
            step < self.size(),
    {
        let n = self.slots@.len() as int;
        let start = start_of(hash, n);
        let met = Seq::new(step as nat, |e: int| self.at(hash, e).unwrap());
        assert forall|i: int| 0 <= i < met.len() implies #[trigger] met[i] < hashes.len() by {
            assert(self.at(hash, i) is Some);
            assert(self.slots@[place(n, start, i)] is Some);
        }
        assert forall|i: int, j: int| 0 <= i < j < met.len() implies #[trigger] met[i]
            != #[trigger] met[j] by {
            assert(self.at(hash, i) is Some && self.at(hash, j) is Some);
            let (p, q) = (place(n, start, i), place(n, start, j));
            assert(p != q);
            if p < q {
                assert(self.slots@[p] != self.slots@[q]);
            } else {
                assert(self.slots@[q] != self.slots@[p]);
            }
        }
        no_more_than(met, hashes.len());
    }

    /// A group is met before the first gap of the probes for its hash.
    pub proof fn groups_are_met(&self, hashes: Seq<u64>, g: int) -> (step: int)
        requires
            self.wf(hashes),
            0 <= g < hashes.len(),
        ensures
            0 <= step < self.size(),
            self.at(hashes[g], step) == Some(g as usize),
            forall|e: int| 0 <= e < step ==> (#[trigger] self.at(hashes[g], e)) is Some,
    {
        assert(is_reached(self.slots@, hashes[g], g));
        let step = choose|step: int| reached(self.slots@, hashes[g], g, step);
        assert(reached(self.slots@, hashes[g], g, step));
        let n = self.slots@.len() as int;
        assert forall|e: int| 0 <= e < step implies (#[trigger] self.at(hashes[g], e)) is Some by {
            assert(self.slots@[place(n, start_of(hashes[g], n), e)] is Some);
        }
        step
    }

    /// Puts a new group into the first gap of the probes for its hash.
    pub fn insert(&mut self, hash: u64, step: usize, g: usize, Ghost(hashes): Ghost<Seq<u64>>)
        requires
            old(self).wf(hashes),
            hashes.len() + 1 < old(self).size(),
            g == hashes.len(),
            step < old(self).size(),
            old(self).at(hash, step as int) is None,
            forall|e: int| 0 <= e < step ==> (#[trigger] old(self).at(hash, e)) is Some,
        ensures
            final(self).wf(hashes.push(hash)),
            final(self).size() == old(self).size(),
    {
        let ghost before = self.slots@;
        let ghost n = before.len() as int;
        let ghost grown = hashes.push(hash);
        let p = self.locate(hash, step);
        self.slots.set(p, Some(g));
        proof {
            assert forall|k: int| 0 <= k < grown.len() implies is_reached(
                self.slots@,
                #[trigger] grown[k],
                k,
            ) by {
                if k < hashes.len() {
                    assert(grown[k] == hashes[k]);
                    assert(is_reached(before, hashes[k], k));
                    let s = choose|s: int| reached(before, hashes[k], k, s);
                    assert(reached(before, hashes[k], k, s));
                    assert(reached(self.slots@, grown[k], k, s));
                } else {
                    assert forall|e: int| 0 <= e < step implies (#[trigger] self.slots@[place(
                        n,
                        start_of(hash, n),
                        e,
                    )]) is Some by {
                        assert(old(self).at(hash, e) is Some);
                    }
                    assert(reached(self.slots@, grown[k], k, step as int));
                }
            }
            assert forall|q: int| 0 <= q < n implies ((#[trigger] self.slots@[q]) matches Some(x)
                ==> x < grown.len()) by {
                if q != p {
                    assert(self.slots@[q] == before[q]);
                }
            }
            assert forall|a: int, b: int|
                #![trigger self.slots@[a], self.slots@[b]]
                0 <= a < b < n && self.slots@[a] is Some implies self.slots@[a]
                != self.slots@[b] by {
                if a != p && b != p {
                    assert(before[a] != before[b]);
                } else if a == p {
                    assert(before[b] matches Some(x) ==> x < hashes.len());
                } else {
                    assert(before[a] matches Some(x) ==> x < hashes.len());
                }
            }
        }
    }
}

} // verus!
