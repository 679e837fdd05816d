//! The type metadata cache: which package first declared the types that
//! a package address names.
//!
//! The cache only remembers. Fetching what it lacks is left to the caller,
//! who hands the answer to [`PackageCache::insert`]; a caller that holds the
//! cache exclusively never fetches one package twice.

use vstd::prelude::*;
use crate::status::{contains_id, texts};

verus! {

/// One remembered package.
pub struct CachedPackage {
    pub address: String,
    pub origin: String,
}

/// What a sequence of remembered packages says: for each address, the origin
/// that was stored for it last.
pub open spec fn contents(entries: Seq<CachedPackage>) -> Map<Seq<char>, Seq<char>>
    decreases entries.len(),
{
    if entries.len() == 0 {
        Map::empty()
    } else {
        contents(entries.drop_last()).insert(entries.last().address@, entries.last().origin@)
    }
}

/// No address is remembered twice.
pub open spec fn distinct_addresses(entries: Seq<CachedPackage>) -> bool {
    forall|i: int, j: int|
        0 <= i < j < entries.len() ==> entries[i].address@ != entries[j].address@
}

/// The addresses in `contents(entries)` are those of the entries.
pub proof fn lemma_contents_keys(entries: Seq<CachedPackage>, address: Seq<char>)
    ensures
        contents(entries).contains_key(address) <==> exists|j: int|
            0 <= j < entries.len() && entries[j].address@ == address,
    decreases entries.len(),
{
    if entries.len() > 0 {
        let front = entries.drop_last();
        lemma_contents_keys(front, address);
        if contents(entries).contains_key(address) {
            if entries.last().address@ == address {
                assert(entries[entries.len() - 1].address@ == address);
            } else {
                let j = choose|j: int| 0 <= j < front.len() && front[j].address@ == address;
                assert(entries[j].address@ == address);
            }
        }
        if exists|j: int| 0 <= j < entries.len() && entries[j].address@ == address {
            let j = choose|j: int| 0 <= j < entries.len() && entries[j].address@ == address;
            if j < entries.len() - 1 {
                assert(front[j].address@ == address);
            }
        }
    }
}

/// Where no address occurs twice, each entry's origin is what `contents` holds
/// for its address.
pub proof fn lemma_contents_value(entries: Seq<CachedPackage>, i: int)
    requires
        distinct_addresses(entries),
        0 <= i < entries.len(),
    ensures
        contents(entries).contains_key(entries[i].address@),
        contents(entries)[entries[i].address@] == entries[i].origin@,
    decreases entries.len(),
{
    let front = entries.drop_last();
    if i < entries.len() - 1 {
        assert(distinct_addresses(front));
        lemma_contents_value(front, i);
        assert(front[i] == entries[i]);
        assert(entries[i].address@ != entries[entries.len() - 1].address@);
    }
}

/// Package information by package address.
pub struct PackageCache {
    entries: Vec<CachedPackage>,
}

impl View for PackageCache {
    type V = Map<Seq<char>, Seq<char>>;

    closed spec fn view(&self) -> Map<Seq<char>, Seq<char>> {
        contents(self.entries@)
    }
}

impl PackageCache {
    /// The invariant: no address is held twice.
    pub closed spec fn wf(&self) -> bool {
        distinct_addresses(self.entries@)
    }

    /// An empty cache.
    pub fn new() -> (cache: Self)
        ensures
            cache.wf(),
            cache@ == Map::<Seq<char>, Seq<char>>::empty(),
    {
        PackageCache { entries: Vec::new() }
    }

    /// The origin remembered for a package address; `None` says that it has
    /// to be fetched.
    pub fn resolve(&self, address: &String) -> (origin: Option<String>)
        requires
            self.wf(),
        ensures
            match origin {
                Some(found) => self@.contains_key(address@) && found@ == self@[address@],
                None => !self@.contains_key(address@),
            },
    {
        let mut i: usize = 0;
        while i < self.entries.len()
            invariant
                i <= self.entries.len(),
                self.wf(),
                forall|j: int| 0 <= j < i ==> self.entries[j].address@ != address@,
            decreases self.entries.len() - i,
        {
            if self.entries[i].address == *address {
                proof {
                    lemma_contents_value(self.entries@, i as int);
                }
                return Some(self.entries[i].origin.clone());
            }
            i += 1;
        }
        proof {
            lemma_contents_keys(self.entries@, address@);
        }
        None
    }

    /// Remembers `origin` for `address`, in place of what was remembered for
    /// it before.
    pub fn insert(&mut self, address: String, origin: String)
        requires
            old(self).wf(),
        ensures
            final(self).wf(),
            final(self)@ == old(self)@.insert(address@, origin@),
    {
        let mut i: usize = 0;
        while i < self.entries.len()
            invariant
                i <= self.entries.len(),
                self.entries@ == old(self).entries@,
                distinct_addresses(self.entries@),
                forall|j: int| 0 <= j < i ==> self.entries[j].address@ != address@,
            decreases self.entries.len() - i,
        {
            if self.entries[i].address == address {
                let ghost before = self.entries@;
                let ghost key = address@;
                let ghost value = origin@;
                self.entries.set(i, CachedPackage { address, origin });
                proof {
                    let after = self.entries@;
                    assert(distinct_addresses(after));
                    assert forall|k: Seq<char>|
                        contents(after).contains_key(k) <==> #[trigger] contents(before).insert(
                            key,
                            value,
                        ).contains_key(k) by {
                        lemma_contents_keys(after, k);
                        lemma_contents_keys(before, k);
                        if exists|j: int| 0 <= j < after.len() && after[j].address@ == k {
                            let j = choose|j: int| 0 <= j < after.len() && after[j].address@ == k;
                            assert(before[j].address@ == k);
                        }
                        if exists|j: int| 0 <= j < before.len() && before[j].address@ == k {
                            let j = choose|j: int|
                                0 <= j < before.len() && before[j].address@ == k;
                            assert(after[j].address@ == k);
                        }
                        if k == key {
                            assert(after[i as int].address@ == k);
                        }
                    }
                    assert forall|k: Seq<char>| #[trigger]
                        contents(after).contains_key(k) implies contents(after)[k] == contents(
                        before,
                    ).insert(key, value)[k] by {
                        lemma_contents_keys(after, k);
                        let j = choose|j: int| 0 <= j < after.len() && after[j].address@ == k;
                        lemma_contents_value(after, j);
                        if j != i {
                            assert(before[j] == after[j]);
                            lemma_contents_value(before, j);
                        }
                    }
                    assert(contents(after) =~= contents(before).insert(key, value));
                }
                return ;
            }
            i += 1;
        }
        proof {
            lemma_contents_keys(self.entries@, address@);
        }
        let ghost before = self.entries@;
        self.entries.push(CachedPackage { address, origin });
        assert(self.entries@.drop_last() =~= before);
    }

    /// Forgets what is remembered for each of `addresses`. The next
    /// [`resolve`](Self::resolve) of such an address returns `None`.
    pub fn evict(&mut self, addresses: &Vec<String>)
        requires
            old(self).wf(),
        ensures
            final(self).wf(),
            final(self)@ == old(self)@.remove_keys(texts(addresses@).to_set()),
    {
        let ghost gone = texts(addresses@).to_set();
        let mut kept: Vec<CachedPackage> = Vec::new();
        let mut i: usize = 0;
        while i < self.entries.len()
            invariant
                i <= self.entries.len(),
                self.entries@ == old(self).entries@,
                distinct_addresses(self.entries@),
                gone == texts(addresses@).to_set(),
                distinct_addresses(kept@),
                contents(kept@) == contents(self.entries@.take(i as int)).remove_keys(gone),
            decreases self.entries.len() - i,
        {
            let ghost seen = self.entries@.take(i as int);
            assert(self.entries@.take(i + 1).drop_last() =~= seen);
            let entry = &self.entries[i];
            if !contains_id(addresses, &entry.address) {
                let ghost kept_before = kept@;
                proof {
                    lemma_contents_keys(kept_before, entry.address@);
                    lemma_contents_keys(seen, entry.address@);
                    if exists|j: int| 0 <= j < seen.len() && seen[j].address@ == entry.address@ {
                        let j = choose|j: int|
                            0 <= j < seen.len() && seen[j].address@ == entry.address@;
                        assert(self.entries[j].address@ == entry.address@);
                    }
                    assert forall|j: int| 0 <= j < kept_before.len() implies kept_before[j].address@
                        != entry.address@ by {
                        if kept_before[j].address@ == entry.address@ {
                            assert(exists|m: int|
                                0 <= m < kept_before.len() && kept_before[m].address@
                                    == entry.address@);
                        }
                    }
                }
                kept.push(
                    CachedPackage { address: entry.address.clone(), origin: entry.origin.clone() },
                );
                assert(kept@.drop_last() =~= kept_before);
                assert(contents(kept@) =~= contents(self.entries@.take(i + 1)).remove_keys(gone));
            } else {
                assert(gone.contains(entry.address@));
                assert(contents(kept@) =~= contents(self.entries@.take(i + 1)).remove_keys(gone));
            }
            i += 1;
        }
        assert(self.entries@.take(i as int) =~= self.entries@);
        self.entries = kept;
    }
}

} // verus!
