//! Index entry file metadata cache (in-memory, per-server instance).

use vstd::hash_map::StringHashMap;
use vstd::prelude::*;

use crate::cache::index_entry::{EntryView, IndexEntry};

verus! {

/// Maximum number of crates held in the metadata cache before it is cleared.
/// Bounds memory use; mirrors the filtered-output memo's capacity policy. On
/// overflow the whole map is dropped (a cheap, rare event) and entries simply
/// repopulate from upstream on the next request.
pub const METADATA_MAX_ENTRIES: usize = 8192;

/// Bounded cache of registry index entry metadata (etag / mtime), keyed by
/// crate name.
///
/// Held as instance state of a server rather than a process-wide global, so
/// the server is cleanly instantiable more than once.
pub struct MetadataCache {
    inner: StringHashMap<IndexEntry>,
}

/// The cached entries, by crate name.
pub type MetadataView = Map<Seq<char>, EntryView>;

/// A map with one more key: everything else is dropped first when the map is
/// full and the key is new.
pub open spec fn bounded_insert<V>(
    map: Map<Seq<char>, V>,
    max: nat,
    key: Seq<char>,
    value: V,
) -> Map<Seq<char>, V> {
    if map.len() >= max && !map.contains_key(key) {
        Map::<Seq<char>, V>::empty().insert(key, value)
    } else {
        map.insert(key, value)
    }
}

impl View for MetadataCache {
    type V = MetadataView;

    closed spec fn view(&self) -> MetadataView {
        self.inner@.map_values(|e: IndexEntry| e@)
    }
}

impl MetadataCache {
    /// The cache is within its bound, and every entry stands under its own
    /// crate name.
    pub open spec fn wf(self) -> bool {
        &&& self@.dom().finite()
        &&& self@.len() <= METADATA_MAX_ENTRIES
        &&& forall|name: Seq<char>| #[trigger]
            self@.contains_key(name) ==> self@[name].name == name
    }

    /// Creates an empty metadata cache.
    pub fn new() -> (r: Self)
        ensures
            r.wf(),
            r@ == Map::<Seq<char>, EntryView>::empty(),
    {
        let r = MetadataCache { inner: StringHashMap::new() };
        assert(r@ =~= Map::<Seq<char>, EntryView>::empty());
        r
    }

    /// Caches the index entry metadata in memory.
    pub fn store(&mut self, entry: &IndexEntry)
        requires
            old(self).wf(),
        ensures
            final(self).wf(),
            final(self)@ == bounded_insert(
                old(self)@,
                METADATA_MAX_ENTRIES as nat,
                entry@.name,
                entry@,
            ),
    {
        let name = entry.name();
        assert(self.inner@.dom() =~= self@.dom());
        if self.inner.len() >= METADATA_MAX_ENTRIES && !self.inner.contains_key(name) {
            self.inner.clear();
            assert(self@ =~= Map::<Seq<char>, EntryView>::empty());
        }
        let ghost before = self@;
        self.inner.insert(name.to_owned(), entry.clone());
        assert(self@ =~= before.insert(entry@.name, entry@));
    }

    /// Fetches the cached index entry metadata from memory.
    pub fn fetch(&self, name: &str) -> (r: Option<IndexEntry>)
        ensures
            match r {
                Some(entry) => self@.contains_key(name@) && entry@ == self@[name@],
                None => !self@.contains_key(name@),
            },
    {
        match self.inner.get(name) {
            Some(entry) => Some(entry.clone()),
            None => None,
        }
    }

    /// Erases the cached index entry metadata from memory.
    pub fn invalidate(&mut self, entry: &IndexEntry)
        requires
            old(self).wf(),
        ensures
            final(self).wf(),
            final(self)@ == old(self)@.remove(entry@.name),
    {
        let ghost before = self@;
        self.inner.remove(entry.name());
        assert(self@ =~= before.remove(entry@.name));
    }
}

/// What was stored is found again, until it is erased; storing or erasing one
/// crate leaves the others alone, but for the clearing of a full cache.
pub proof fn stored_entries_are_found(map: MetadataView, entry: EntryView, other: Seq<char>)
    requires
        other != entry.name,
    ensures
        METADATA_MAX_ENTRIES == 8192,
        ({
            let stored = bounded_insert(map, METADATA_MAX_ENTRIES as nat, entry.name, entry);
            &&& stored.contains_key(entry.name) && stored[entry.name] == entry
            &&& !stored.remove(entry.name).contains_key(entry.name)
            &&& stored.remove(entry.name).contains_key(other) == stored.contains_key(other)
            &&& stored.contains_key(other) ==> map.contains_key(other) && stored[other]
                == map[other]
            &&& map.len() < METADATA_MAX_ENTRIES || map.contains_key(entry.name) ==> (
            stored.contains_key(other) == map.contains_key(other))
        }),
{
}

/// A full map is cleared for a new key, and only then: one with room, or one
/// that has the key, keeps all that it has.
pub proof fn full_maps_are_cleared_for_new_keys<V>(
    map: Map<Seq<char>, V>,
    max: nat,
    key: Seq<char>,
    value: V,
)
    requires
        map.dom().finite(),
        0 < max,
        map.len() <= max,
    ensures
        map.len() == max && !map.contains_key(key) ==> bounded_insert(map, max, key, value).dom()
            =~= set![key],
        map.len() < max || map.contains_key(key) ==> bounded_insert(map, max, key, value).dom()
            =~= map.dom().insert(key),
        forall|other: Seq<char>|
            other != key && #[trigger] bounded_insert(map, max, key, value).contains_key(other)
                ==> bounded_insert(map, max, key, value)[other] == map[other],
        bounded_insert(map, max, key, value)[key] == value,
        bounded_insert(map, max, key, value).dom().finite(),
        bounded_insert(map, max, key, value).len() <= max,
{
}

} // verus!
