use vstd::prelude::*;

verus! {

/// Mathematical model of one stored entry: the value's characters paired
/// with the sequence of tag character-sequences.
pub type EntryModel = (Seq<char>, Seq<Seq<char>>);

/// What the concurrent map stores under each key: the value and its tags.
pub type Stored = (String, Vec<String>);

/// The concurrent map underlying the store.
pub type Inner = dashmap::DashMap<String, Stored>;

/// A cache entry as handed back to callers: an opaque value and the tags
/// under which the entry can be bulk-invalidated. Tag order is irrelevant
/// and duplicate tags carry no extra meaning; both are preserved as given.
pub struct CacheEntry {
    pub value: String,
    pub tags: Vec<String>,
}

impl CacheEntry {
    /// Model of this entry.
    pub open spec fn model(&self) -> EntryModel {
        (self.value@, self.tags.deep_view())
    }
}

/// Declares dashmap::DashMap, the sharded concurrent hash map that backs
/// the store, so it can stand in signatures and fields. The type is
/// opaque here; everything known about a map comes from the contracts of
/// the wrappers below.
#[verifier::external_type_specification]
#[verifier::external_body]
#[verifier::reject_recursive_types(K)]
#[verifier::reject_recursive_types(V)]
#[verifier::reject_recursive_types(S)]
pub struct ExDashMap<K, V, S>(dashmap::DashMap<K, V, S>);

/// The contents of a dashmap::DashMap: which entry model each key maps
/// to. The wrappers below state how each map operation acts on it.
pub uninterp spec fn dash_contents(m: Inner) -> Map<Seq<char>, EntryModel>;

/// The model of a store with nothing in it.
pub open spec fn empty_model() -> Map<Seq<char>, EntryModel> {
    Map::empty()
}

/// Relies on dashmap::DashMap::new: creates an empty map.
#[verifier::external_body]
fn dash_new() -> (r: Inner)
    ensures
        dash_contents(r) == empty_model(),
{
    dashmap::DashMap::new()
}

/// Relies on dashmap::DashMap::insert: maps the key to the given value,
/// fully replacing any entry previously stored under that key.
#[verifier::external_body]
fn dash_insert(
    m: &mut Inner,
    key: String,
    value: String,
    tags: Vec<String>,
)
    ensures
        dash_contents(*final(m)) == dash_contents(*old(m)).insert(key@, (value@, tags.deep_view())),
{
    m.insert(key, (value, tags));
}

/// Relies on dashmap::DashMap::get: returns the value stored under the key
/// if one is present, and nothing otherwise. The wrapper clones the value
/// out of the returned reference so no guard outlives the call.
#[verifier::external_body]
fn dash_get(m: &Inner, key: &String) -> (r: Option<Stored>)
    ensures
        match r {
            Some(p) => dash_contents(*m).contains_key(key@) && p.0@ == dash_contents(*m)[key@].0
                && p.1.deep_view() == dash_contents(*m)[key@].1,
            None => !dash_contents(*m).contains_key(key@),
        },
{
    m.get(key).map(|entry| entry.value().clone())
}

/// Relies on dashmap::DashMap::remove: deletes the entry stored under the
/// key and returns it; removing an absent key changes nothing.
#[verifier::external_body]
fn dash_remove(m: &mut Inner, key: &String) -> (r: bool)
    ensures
        dash_contents(*final(m)) == dash_contents(*old(m)).remove(key@),
        r == dash_contents(*old(m)).contains_key(key@),
{
    m.remove(key).is_some()
}

/// Relies on dashmap::DashMap::len: returns the number of entries held.
#[verifier::external_body]
fn dash_len(m: &Inner) -> (r: usize)
    requires
        dash_contents(*m).dom().finite(),
    ensures
        r == dash_contents(*m).dom().len(),
{
    m.len()
}

/// What a snapshot promises about the map contents it was taken from:
/// every listed pair is a current entry's key and tags, every current key
/// is listed, and no key is listed twice. The order of the pairs is left
/// open: the underlying enumeration fixes none.
pub open spec fn snapshot_matches(
    s: Seq<(Seq<char>, Seq<Seq<char>>)>,
    m: Map<Seq<char>, EntryModel>,
) -> bool {
    &&& forall|i: int|
        0 <= i < s.len() ==> m.contains_key((#[trigger] s[i]).0) && s[i].1 == m[s[i].0].1
    &&& forall|k: Seq<char>|
        #[trigger] m.contains_key(k) ==> exists|i: int| 0 <= i < s.len() && (#[trigger] s[i]).0 == k
    &&& forall|i: int, j: int| 0 <= i < j < s.len() ==> (#[trigger] s[i]).0 != (#[trigger] s[j]).0
}

/// Relies on dashmap::DashMap::iter: with no concurrent writer, the
/// iteration visits every entry exactly once. The wrapper clones each
/// entry's key and tag list out.
#[verifier::external_body]
fn dash_snapshot(m: &Inner) -> (r: Vec<Stored>)
    ensures
        snapshot_matches(r.deep_view(), dash_contents(*m)),
{
    m.iter().map(|entry| (entry.key().clone(), entry.value().1.clone())).collect()
}

/// The tag-indexed cache store: a mapping from string keys to entries,
/// holding at most one entry per key at any instant. A `put` of an
/// existing key replaces the prior entry's value and tags wholesale.
pub struct CacheStore {
    map: Inner,
}

impl View for CacheStore {
    type V = Map<Seq<char>, EntryModel>;

    closed spec fn view(&self) -> Map<Seq<char>, EntryModel> {
        dash_contents(self.map)
    }
}

impl CacheStore {
    /// The store's single structural invariant: it holds finitely many
    /// entries.
    pub open spec fn wf(&self) -> bool {
        self@.dom().finite()
    }

    /// Creates an empty store.
    pub fn new() -> (r: CacheStore)
        ensures
            r@ == empty_model(),
            r.wf(),
    {
        let r = CacheStore { map: dash_new() };
        proof {
            assert(r@.dom() =~= Set::<Seq<char>>::empty());
        }
        r
    }

    /// Inserts or replaces the entry at `key`. Always succeeds; any
    /// previous entry under the same key is gone entirely, never merged.
    pub fn put(&mut self, key: String, value: String, tags: Vec<String>)
        requires
            old(self).wf(),
        ensures
            final(self).wf(),
            final(self)@ == old(self)@.insert(key@, (value@, tags.deep_view())),
    {
        let ghost k = key@;
        dash_insert(&mut self.map, key, value, tags);
        proof {
            assert(self@.dom() =~= old(self)@.dom().insert(k));
        }
    }

    /// Returns a copy of the entry at `key` if one is present, and `None`
    /// if the key was never inserted or has since been removed.
    pub fn get(&self, key: &String) -> (r: Option<CacheEntry>)
        ensures
            match r {
                Some(e) => self@.contains_key(key@) && e.model() == self@[key@],
                None => !self@.contains_key(key@),
            },
    {
        match dash_get(&self.map, key) {
            Some(p) => Some(CacheEntry { value: p.0, tags: p.1 }),
            None => None,
        }
    }

    /// Deletes the entry at `key` if present; a no-op (not an error) when
    /// the key is absent. Returns whether an entry was removed.
    pub fn remove(&mut self, key: &String) -> (r: bool)
        requires
            old(self).wf(),
        ensures
            final(self).wf(),
            final(self)@ == old(self)@.remove(key@),
            r == old(self)@.contains_key(key@),
    {
        let r = dash_remove(&mut self.map, key);
        proof {
            assert(self@.dom() =~= old(self)@.dom().remove(key@));
        }
        r
    }

    /// The number of entries currently stored.
    pub fn len(&self) -> (r: usize)
        requires
            self.wf(),
        ensures
            r == self@.dom().len(),
    {
        dash_len(&self.map)
    }

    /// An enumeration of all current entries' keys and tag sets, used by
    /// the invalidation engine to decide what to remove.
    pub fn snapshot(&self) -> (r: Vec<Stored>)
        ensures
            snapshot_matches(r.deep_view(), self@),
    {
        dash_snapshot(&self.map)
    }
}

} // verus!
