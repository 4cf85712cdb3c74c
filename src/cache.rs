//! Unpacked downloads of one install session, one per addon key.

use vstd::prelude::*;
use crate::addon::{AddonKey, AddonKeyView};

verus! {

/// The directory that each key's download was unpacked into, for one
/// session. A key is fetched only when [`DownloadCache::lookup`] says so,
/// and its directory is then recorded with [`DownloadCache::insert`].
/// Entries are never removed or replaced, so once a key is recorded every
/// lookup finds its first directory and no key is fetched twice. The cache
/// owns the directories, and with them their removal.
pub struct DownloadCache<D> {
    entries: Vec<(AddonKey, D)>,
}

impl<D> DownloadCache<D> {
    /// The keys fetched so far, in order.
    pub closed spec fn keys(&self) -> Seq<AddonKeyView> {
        self.entries@.map_values(|e: (AddonKey, D)| e.0@)
    }

    /// The directory recorded at position `i`.
    pub closed spec fn dir_at(&self, i: int) -> D {
        self.entries@[i].1
    }

    /// Keys are unique.
    pub closed spec fn wf(&self) -> bool {
        self.keys().no_duplicates()
    }

    /// An empty cache.
    pub fn new() -> (r: Self)
        ensures
            r.wf(),
            r.keys() == Seq::<AddonKeyView>::empty(),
    {
        let r = DownloadCache { entries: Vec::new() };
        assert(r.keys() =~= Seq::<AddonKeyView>::empty());
        r
    }

    /// The directory recorded for `key`, if it was fetched.
    pub fn get(&self, key: &AddonKey) -> (r: Option<&D>)
        ensures
            r is Some <==> self.keys().contains(key@),
            r matches Some(d) ==> exists|i: int|
                0 <= i < self.keys().len() && self.keys()[i] == key@ && self.dir_at(i) == *d,
    {
        let mut i: usize = 0;
        while i < self.entries.len()
            invariant
                i <= self.entries.len(),
                forall|j: int| 0 <= j < i ==> self.keys()[j] != key@,
            decreases self.entries.len() - i,
        {
            if self.entries[i].0 == *key {
                assert(self.keys()[i as int] == key@);
                let d = &self.entries[i].1;
                assert(self.dir_at(i as int) == *d);
                return Some(d);
            }
            i = i + 1;
        }
        None
    }

    /// What to do for `key`: use the directory recorded for it, or fetch it
    /// when none is.
    pub fn lookup(&self, key: &AddonKey) -> (r: CacheLookup<'_, D>)
        ensures
            r is Fetch <==> !self.keys().contains(key@),
            r matches CacheLookup::Cached(d) ==> exists|i: int|
                0 <= i < self.keys().len() && self.keys()[i] == key@ && self.dir_at(i) == *d,
    {
        match self.get(key) {
            Some(d) => CacheLookup::Cached(d),
            None => CacheLookup::Fetch,
        }
    }

    /// Records the directory fetched for `key`. A key already recorded keeps
    /// its first directory: the cache is left as it was and `dir` is
    /// dropped. Whether `dir` was recorded is returned.
    pub fn insert(&mut self, key: AddonKey, dir: D) -> (r: bool)
        requires
            old(self).wf(),
        ensures
            final(self).wf(),
            r == !old(self).keys().contains(key@),
            !r ==> final(self).keys() == old(self).keys() && forall|i: int|
                0 <= i < old(self).keys().len() ==> final(self).dir_at(i) == old(self).dir_at(i),
            r ==> final(self).keys() == old(self).keys().push(key@) && final(self).dir_at(
                old(self).keys().len() as int,
            ) == dir && forall|i: int|
                0 <= i < old(self).keys().len() ==> final(self).dir_at(i) == old(self).dir_at(i),
    {
        match self.get(&key) {
            Some(_) => false,
            None => {
                let ghost k = key@;
                self.entries.push((key, dir));
                assert(self.keys() =~= old(self).keys().push(k));
                true
            },
        }
    }
}

/// The decision for a key of a [`DownloadCache`].
pub enum CacheLookup<'a, D> {
    /// The key was fetched; its directory.
    Cached(&'a D),
    /// The key was not fetched yet.
    Fetch,
}

} // verus!
