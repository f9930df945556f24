//! In-memory mapping from short names to targets, derived from the store.
//!
//! A [`MappingCache`] holds name-to-target entries with unique names; its
//! view is the map from each cached name to its target. It is seeded once
//! at startup from the store's active rows ([`MappingCache::bulk_load`])
//! and thereafter written only through [`MappingCache::set`]; nothing is
//! ever evicted.

use crate::store::Mapping;
use vstd::prelude::*;

verus! {

/// One cached entry: a name and the target it resolves to.
struct CacheEntry {
    name: String,
    target: String,
}

/// The map described by a sequence of entries; a later entry wins over an
/// earlier one of the same name (the cache never holds such a pair).
spec fn entry_map(entries: Seq<CacheEntry>) -> Map<Seq<char>, Seq<char>>
    decreases entries.len(),
{
    if entries.len() == 0 {
        Map::empty()
    } else {
        entry_map(entries.drop_last()).insert(entries.last().name@, entries.last().target@)
    }
}

spec fn entry_names_unique(entries: Seq<CacheEntry>) -> bool {
    forall|i: int, j: int|
        0 <= i < j < entries.len() ==> (#[trigger] entries[i]).name@ != (#[trigger] entries[j]).name@
}

proof fn lemma_entry_map_contains(entries: Seq<CacheEntry>, k: Seq<char>)
    ensures
        entry_map(entries).contains_key(k) <==> exists|i: int|
            0 <= i < entries.len() && (#[trigger] entries[i]).name@ == k,
    decreases entries.len(),
{
    if entries.len() > 0 {
        lemma_entry_map_contains(entries.drop_last(), k);
        if entries.last().name@ == k {
            assert(entries[entries.len() - 1].name@ == k);
        } else if entry_map(entries.drop_last()).contains_key(k) {
            let i = choose|i: int|
                0 <= i < entries.drop_last().len() && (#[trigger] entries.drop_last()[i]).name@ == k;
            assert(entries[i].name@ == k);
        } else {
            assert forall|i: int| 0 <= i < entries.len() implies (#[trigger] entries[i]).name@ != k by {
                if i < entries.len() - 1 {
                    assert(entries.drop_last()[i] == entries[i]);
                }
            }
        }
    }
}

proof fn lemma_entry_map_index(entries: Seq<CacheEntry>, i: int)
    requires
        0 <= i < entries.len(),
        entry_names_unique(entries),
    ensures
        entry_map(entries).contains_key(entries[i].name@),
        entry_map(entries)[entries[i].name@] == entries[i].target@,
    decreases entries.len(),
{
    if i < entries.len() - 1 {
        assert(entries[i].name@ != entries[entries.len() - 1].name@);
        assert(entries.drop_last()[i] == entries[i]);
        assert(entry_names_unique(entries.drop_last())) by {
            assert forall|a: int, b: int|
                0 <= a < b < entries.drop_last().len() implies (#[trigger] entries.drop_last()[a]).name@
                != (#[trigger] entries.drop_last()[b]).name@ by {
                assert(entries.drop_last()[a] == entries[a]);
                assert(entries.drop_last()[b] == entries[b]);
            }
        }
        lemma_entry_map_index(entries.drop_last(), i);
    }
}

proof fn lemma_entry_map_update(entries: Seq<CacheEntry>, i: int, e: CacheEntry)
    requires
        0 <= i < entries.len(),
        entry_names_unique(entries),
        entries[i].name@ == e.name@,
    ensures
        entry_map(entries.update(i, e)) == entry_map(entries).insert(e.name@, e.target@),
    decreases entries.len(),
{
    let u = entries.update(i, e);
    if i == entries.len() - 1 {
        assert(u.drop_last() =~= entries.drop_last());
        assert(u.last() == e);
        assert(entry_map(u) =~= entry_map(entries).insert(e.name@, e.target@));
    } else {
        assert(entries[i].name@ != entries[entries.len() - 1].name@);
        assert(u.drop_last() =~= entries.drop_last().update(i, e));
        assert(u.last() == entries.last());
        assert(entry_names_unique(entries.drop_last())) by {
            assert forall|a: int, b: int|
                0 <= a < b < entries.drop_last().len() implies (#[trigger] entries.drop_last()[a]).name@
                != (#[trigger] entries.drop_last()[b]).name@ by {
                assert(entries.drop_last()[a] == entries[a]);
                assert(entries.drop_last()[b] == entries[b]);
            }
        }
        assert(entries.drop_last()[i] == entries[i]);
        lemma_entry_map_update(entries.drop_last(), i, e);
        assert(entry_map(u) =~= entry_map(entries).insert(e.name@, e.target@));
    }
}

proof fn lemma_entry_map_push(entries: Seq<CacheEntry>, e: CacheEntry)
    ensures
        entry_map(entries.push(e)) == entry_map(entries).insert(e.name@, e.target@),
{
    assert(entries.push(e).drop_last() =~= entries);
    assert(entries.push(e).last() == e);
}

/// The index of the entry carrying `name`, if any.
fn find_entry(entries: &Vec<CacheEntry>, name: &String) -> (r: Option<usize>)
    ensures
        match r {
            Some(i) => i < entries@.len() && entries@[i as int].name@ == name@,
            None => forall|i: int| 0 <= i < entries@.len() ==> (#[trigger] entries@[i]).name@ != name@,
        },
{
    let mut i: usize = 0;
    while i < entries.len()
        invariant
            i <= entries@.len(),
            forall|j: int| 0 <= j < i ==> (#[trigger] entries@[j]).name@ != name@,
        decreases entries@.len() - i,
    {
        if entries[i].name == *name {
            return Some(i);
        }
        i = i + 1;
    }
    None
}

/// In-memory name-to-target mapping with unique names.
pub struct MappingCache {
    entries: Vec<CacheEntry>,
}

impl View for MappingCache {
    type V = Map<Seq<char>, Seq<char>>;

    closed spec fn view(&self) -> Map<Seq<char>, Seq<char>> {
        entry_map(self.entries@)
    }
}

impl MappingCache {
    #[verifier::type_invariant]
    spec fn names_unique(self) -> bool {
        entry_names_unique(self.entries@)
    }

    /// An empty cache.
    pub fn new() -> (c: MappingCache)
        ensures
            c@ == Map::<Seq<char>, Seq<char>>::empty(),
    {
        MappingCache { entries: Vec::new() }
    }

    /// The cached target for `name`, or nothing on a miss.
    pub fn get(&self, name: &String) -> (r: Option<&String>)
        ensures
            match r {
                Some(t) => self@.contains_key(name@) && t@ == self@[name@],
                None => !self@.contains_key(name@),
            },
    {
        proof {
            use_type_invariant(self);
            lemma_entry_map_contains(self.entries@, name@);
        }
        match find_entry(&self.entries, name) {
            Some(i) => {
                proof {
                    lemma_entry_map_index(self.entries@, i as int);
                }
                Some(&self.entries[i].target)
            },
            None => None,
        }
    }

    /// Inserts or overwrites the entry for `name`; idempotent.
    pub fn set(&mut self, name: &String, target: &String)
        ensures
            final(self)@ == old(self)@.insert(name@, target@),
    {
        proof {
            use_type_invariant(&*self);
        }
        let ghost old_entries = self.entries@;
        let e = CacheEntry { name: name.clone(), target: target.clone() };
        let ghost ge = e;
        let mut entries: Vec<CacheEntry> = Vec::new();
        std::mem::swap(&mut entries, &mut self.entries);
        match find_entry(&entries, name) {
            Some(i) => {
                entries.set(i, e);
                proof {
                    assert forall|a: int, b: int|
                        0 <= a < b < entries@.len() implies (#[trigger] entries@[a]).name@
                        != (#[trigger] entries@[b]).name@ by {
                        assert(old_entries[a].name@ != old_entries[b].name@);
                    }
                    lemma_entry_map_update(old_entries, i as int, ge);
                }
            },
            None => {
                entries.push(e);
                proof {
                    assert forall|a: int, b: int|
                        0 <= a < b < entries@.len() implies (#[trigger] entries@[a]).name@
                        != (#[trigger] entries@[b]).name@ by {
                        if b < entries@.len() - 1 {
                            assert(old_entries[a].name@ != old_entries[b].name@);
                        } else {
                            assert(old_entries[a].name@ != ge.name@);
                        }
                    }
                    lemma_entry_map_push(old_entries, ge);
                }
            },
        }
        self.entries = entries;
    }

    /// Seeds a fresh cache from the store's rows: exactly the active rows
    /// are cached, each under its own name. Used once at startup, before
    /// any lookup is served; there is no re-seeding operation.
    pub fn bulk_load(rows: &Vec<Mapping>) -> (c: MappingCache)
        requires
            crate::store::distinct_names(rows@),
        ensures
            forall|k: Seq<char>| #[trigger]
                c@.contains_key(k) <==> exists|i: int|
                    0 <= i < rows@.len() && (#[trigger] rows@[i])@.name == k && rows@[i]@.active,
            forall|i: int|
                0 <= i < rows@.len() && (#[trigger] rows@[i])@.active ==> c@[rows@[i]@.name]
                    == rows@[i]@.target,
    {
        let mut c = MappingCache::new();
        let mut i: usize = 0;
        while i < rows.len()
            invariant
                i <= rows@.len(),
                crate::store::distinct_names(rows@),
                forall|k: Seq<char>| #[trigger]
                    c@.contains_key(k) <==> exists|j: int|
                        0 <= j < i && (#[trigger] rows@[j])@.name == k && rows@[j]@.active,
                forall|j: int|
                    0 <= j < i && (#[trigger] rows@[j])@.active ==> c@[rows@[j]@.name]
                        == rows@[j]@.target,
            decreases rows@.len() - i,
        {
            let ghost prev = c@;
            if rows[i].active {
                c.set(&rows[i].name, &rows[i].target);
            }
            proof {
                assert forall|k: Seq<char>| #[trigger]
                    c@.contains_key(k) implies exists|j: int|
                    0 <= j < i + 1 && (#[trigger] rows@[j])@.name == k && rows@[j]@.active by {
                    if rows@[i as int]@.active && k == rows@[i as int]@.name {
                        assert(rows@[i as int]@.name == k && rows@[i as int]@.active);
                    } else {
                        assert(prev.contains_key(k));
                    }
                }
            }
            i = i + 1;
        }
        c
    }
}

} // verus!
