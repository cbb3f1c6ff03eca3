use vstd::prelude::*;

use crate::metadata::{copy_records, records_view, IndexMetadata, IndexView};

verus! {

/// One cached snapshot: the records visible at a dataset version.
pub struct CacheEntry {
    pub version: u64,
    pub indices: Vec<IndexMetadata>,
}

/// Process-local cache of the records visible at each dataset version. An
/// entry, once stored, is never replaced.
pub struct IndexCache {
    entries: Vec<CacheEntry>,
    snapshots: Ghost<Map<u64, Seq<IndexView>>>,
}

impl IndexCache {
    /// The snapshot held for each cached version.
    pub closed spec fn view(&self) -> Map<u64, Seq<IndexView>> {
        self.snapshots@
    }

    pub closed spec fn wf(&self) -> bool {
        &&& forall|i: int|
            0 <= i < self.entries@.len() ==> {
                &&& #[trigger] self.snapshots@.contains_key(self.entries@[i].version)
                &&& self.snapshots@[self.entries@[i].version] == records_view(
                    self.entries@[i].indices@,
                )
            }
        &&& forall|v: u64|
            #[trigger] self.snapshots@.contains_key(v) ==> exists|i: int|
                0 <= i < self.entries@.len() && self.entries@[i].version == v
    }

    pub fn new() -> (r: Self)
        ensures
            r.wf(),
            r@ == Map::<u64, Seq<IndexView>>::empty(),
    {
        IndexCache { entries: Vec::new(), snapshots: Ghost(Map::empty()) }
    }

    /// The snapshot cached for `version`, if any.
    pub fn get(&self, version: u64) -> (r: Option<Vec<IndexMetadata>>)
        requires
            self.wf(),
        ensures
            match r {
                Some(v) => self@.contains_key(version) && records_view(v@) == self@[version],
                None => !self@.contains_key(version),
            },
    {
        let mut i: usize = 0;
        while i < self.entries.len()
            invariant
                i <= self.entries@.len(),
                self.wf(),
                forall|j: int| 0 <= j < i ==> self.entries@[j].version != version,
            decreases self.entries@.len() - i,
        {
            if self.entries[i].version == version {
                assert(self.snapshots@.contains_key(self.entries@[i as int].version));
                return Some(copy_records(&self.entries[i].indices));
            }
            i = i + 1;
        }
        None
    }

    /// Stores a snapshot for `version` unless one is already held.
    pub fn insert(&mut self, version: u64, indices: Vec<IndexMetadata>)
        requires
            old(self).wf(),
        ensures
            final(self).wf(),
            final(self)@ == if old(self)@.contains_key(version) {
                old(self)@
            } else {
                old(self)@.insert(version, records_view(indices@))
            },
    {
        let mut i: usize = 0;
        while i < self.entries.len()
            invariant
                i <= self.entries@.len(),
                self.wf(),
                self.entries@ == old(self).entries@,
                self.snapshots@ == old(self).snapshots@,
                forall|j: int| 0 <= j < i ==> self.entries@[j].version != version,
            decreases self.entries@.len() - i,
        {
            if self.entries[i].version == version {
                assert(self.snapshots@.contains_key(self.entries@[i as int].version));
                return;
            }
            i = i + 1;
        }
        let ghost snap = records_view(indices@);
        self.entries.push(CacheEntry { version, indices });
        self.snapshots = Ghost(self.snapshots@.insert(version, snap));
        assert forall|v: u64| #[trigger] self.snapshots@.contains_key(v) implies exists|i: int|
            0 <= i < self.entries@.len() && self.entries@[i].version == v by {
            if v != version {
                let i = choose|i: int|
                    0 <= i < old(self).entries@.len() && old(self).entries@[i].version == v;
                assert(self.entries@[i].version == v);
            } else {
                assert(self.entries@[self.entries@.len() - 1].version == v);
            }
        }
    }

    /// Drops the snapshots of versions older than `version`.
    pub fn evict_older_than(&mut self, version: u64)
        requires
            old(self).wf(),
        ensures
            final(self).wf(),
            final(self)@ == old(self)@.restrict(Set::new(|v: u64| v >= version)),
    {
        let ghost keep = Set::new(|v: u64| v >= version);
        let ghost target = self.snapshots@.restrict(keep);
        let mut kept: Vec<CacheEntry> = Vec::new();
        let ghost all = self.entries@;
        let mut i: usize = 0;
        while i < self.entries.len()
            invariant
                i <= all.len(),
                all == self.entries@,
                forall|j: int|
                    0 <= j < kept@.len() ==> {
                        &&& #[trigger] kept@[j].version >= version
                        &&& target.contains_key(kept@[j].version)
                        &&& target[kept@[j].version] == records_view(kept@[j].indices@)
                    },
                forall|j: int|
                    0 <= j < i && all[j].version >= version ==> exists|t: int|
                        0 <= t < kept@.len() && kept@[t].version == #[trigger] all[j].version,
                self.wf(),
                keep == Set::new(|v: u64| v >= version),
                target == self.snapshots@.restrict(keep),
                self.snapshots@ == old(self).snapshots@,
            decreases all.len() - i,
        {
            let ghost prev = kept@;
            let e = &self.entries[i];
            if e.version >= version {
                kept.push(CacheEntry { version: e.version, indices: copy_records(&e.indices) });
                proof {
                    assert(self.snapshots@.contains_key(all[i as int].version));
                    assert(keep.contains(all[i as int].version));
                    assert forall|j: int| 0 <= j < kept@.len() implies {
                        &&& #[trigger] kept@[j].version >= version
                        &&& target.contains_key(kept@[j].version)
                        &&& target[kept@[j].version] == records_view(kept@[j].indices@)
                    } by {
                        if j < prev.len() {
                            assert(kept@[j] == prev[j]);
                        }
                    }
                }
            }
            proof {
                assert forall|j: int| 0 <= j < i + 1 && all[j].version >= version implies exists|t: int|
                    0 <= t < kept@.len() && kept@[t].version == #[trigger] all[j].version by {
                    if j < i {
                        let t = choose|t: int| 0 <= t < prev.len() && prev[t].version == all[j].version;
                        assert(kept@[t] == prev[t]);
                    } else {
                        assert(kept@[kept@.len() - 1].version == all[j].version);
                    }
                }
            }
            i = i + 1;
        }
        self.entries = kept;
        self.snapshots = Ghost(target);
        assert forall|v: u64| #[trigger] self.snapshots@.contains_key(v) implies exists|t: int|
            0 <= t < self.entries@.len() && self.entries@[t].version == v by {
            assert(old(self).snapshots@.contains_key(v));
            let j = choose|j: int| 0 <= j < all.len() && all[j].version == v;
            assert(all[j].version >= version);
            let t = choose|t: int| 0 <= t < kept@.len() && kept@[t].version == all[j].version;
            assert(self.entries@[t].version == v);
        }
    }
}

} // verus!
