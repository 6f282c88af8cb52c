//! The registry of the indexes that a daemon serves.
use dashmap::DashMap;
use std::sync::Arc;
use vstd::prelude::*;

verus! {

/// `dashmap::DashMap`, a sharded hash map.
#[verifier::external_type_specification]
#[verifier::external_body]
#[verifier::reject_recursive_types(K)]
#[verifier::reject_recursive_types(V)]
#[verifier::reject_recursive_types(S)]
pub struct ExDashMap<K, V, S>(DashMap<K, V, S>);

/// The name of an index.
#[derive(Debug, Clone, PartialEq, Eq, Hash)]
pub struct IndexId(pub String);

impl View for IndexId {
    type V = Seq<char>;

    open spec fn view(&self) -> Seq<char> {
        self.0@
    }
}

impl IndexId {
    /// The index named `s`.
    pub fn new(s: &str) -> (id: IndexId)
        ensures
            id@ == s@,
    {
        IndexId(s.to_owned())
    }

    /// The name as text.
    pub fn as_str(&self) -> (s: &str)
        ensures
            s@ == self@,
    {
        self.0.as_str()
    }

    /// The same index name again.
    pub fn same(&self) -> (id: IndexId)
        ensures
            id@ == self@,
    {
        IndexId(self.0.clone())
    }
}

/// What an index is made from: where its files lie and which of them count.
pub struct IndexHandle {
    pub id: IndexId,
    pub root_path: String,
    /// Subtrees to walk instead of the whole root; none means the whole root.
    pub include_paths: Vec<String>,
    /// Patterns of files to leave out.
    pub exclude_globs: Vec<String>,
    /// File extensions to keep, without the dot; none means all.
    pub extensions: Vec<String>,
    /// Words that the query classifier treats as domain terms.
    pub domain_terms: Vec<String>,
}

impl IndexHandle {
    /// A handle without filters or domain terms.
    pub fn bare(id: IndexId, root_path: String) -> (handle: IndexHandle)
        ensures
            handle.id == id,
            handle.root_path == root_path,
            handle.include_paths@.len() == 0,
            handle.exclude_globs@.len() == 0,
            handle.extensions@.len() == 0,
            handle.domain_terms@.len() == 0,
    {
        IndexHandle {
            id,
            root_path,
            include_paths: Vec::new(),
            exclude_globs: Vec::new(),
            extensions: Vec::new(),
            domain_terms: Vec::new(),
        }
    }
}

/// The handles that the map holds, by the name they are filed under.
pub uninterp spec fn filed_handles(m: DashMap<String, Arc<IndexHandle>>) -> Map<
    Seq<char>,
    IndexHandle,
>;

/// `DashMap::new`: nothing is filed.
#[verifier::external_body]
fn no_handles() -> (m: DashMap<String, Arc<IndexHandle>>)
    ensures
        filed_handles(m) =~= Map::empty(),
{
    DashMap::new()
}

/// `DashMap::insert`: files the value under the key, in place of any earlier
/// one.
#[verifier::external_body]
fn file_handle(m: &mut DashMap<String, Arc<IndexHandle>>, key: String, handle: Arc<IndexHandle>)
    ensures
        filed_handles(*final(m)) == filed_handles(*old(m)).insert(key@, *handle),
{
    m.insert(key, handle);
}

/// `DashMap::get`: the value filed under the key.
#[verifier::external_body]
fn find_handle(m: &DashMap<String, Arc<IndexHandle>>, key: &str) -> (r: Option<Arc<IndexHandle>>)
    ensures
        match r {
            Some(h) => filed_handles(*m).contains_key(key@) && filed_handles(*m)[key@] == *h,
            None => !filed_handles(*m).contains_key(key@),
        },
{
    m.get(key).map(|r| Arc::clone(&*r))
}

/// `DashMap::remove`: takes out what is filed under the key and says whether
/// there was anything.
#[verifier::external_body]
fn drop_handle(m: &mut DashMap<String, Arc<IndexHandle>>, key: &str) -> (existed: bool)
    ensures
        existed == filed_handles(*old(m)).contains_key(key@),
        filed_handles(*final(m)) == filed_handles(*old(m)).remove(key@),
{
    m.remove(key).is_some()
}

/// Whether `n` is the number of keys.
pub open spec fn counts_keys(keys: Set<Seq<char>>, n: nat) -> bool {
    keys.finite() && keys.len() == n
}

/// `DashMap::len`: the number of keys.
#[verifier::external_body]
fn count_handles(m: &DashMap<String, Arc<IndexHandle>>) -> (n: usize)
    ensures
        counts_keys(filed_handles(*m).dom(), n as nat),
{
    m.len()
}

/// `DashMap::iter`: every key once, in no particular order.
#[verifier::external_body]
fn handle_keys(m: &DashMap<String, Arc<IndexHandle>>) -> (keys: Vec<String>)
    ensures
        forall|i: int|
            0 <= i < keys.len() ==> filed_handles(*m).contains_key((#[trigger] keys@[i])@),
        forall|k: Seq<char>| #[trigger]
            filed_handles(*m).contains_key(k) ==> exists|i: int|
                0 <= i < keys.len() && (#[trigger] keys@[i])@ == k,
        forall|i: int, j: int|
            0 <= i < j < keys.len() ==> (#[trigger] keys@[i])@ != (#[trigger] keys@[j])@,
{
    m.iter().map(|r| r.key().clone()).collect()
}

/// The indexes that a daemon serves, by name.
pub struct IndexRegistry {
    indexes: DashMap<String, Arc<IndexHandle>>,
}

impl View for IndexRegistry {
    type V = Map<Seq<char>, IndexHandle>;

    closed spec fn view(&self) -> Map<Seq<char>, IndexHandle> {
        filed_handles(self.indexes)
    }
}

impl IndexRegistry {
    /// A registry without indexes.
    pub fn new() -> (r: IndexRegistry)
        ensures
            r@ == Map::<Seq<char>, IndexHandle>::empty(),
    {
        IndexRegistry { indexes: no_handles() }
    }

    /// Files the handle under its own name, in place of any earlier one, and
    /// hands it back.
    pub fn register(&mut self, handle: IndexHandle) -> (r: Arc<IndexHandle>)
        ensures
            *r == handle,
            final(self)@ == old(self)@.insert(handle.id@, handle),
    {
        let key = handle.id.0.clone();
        let shared = Arc::new(handle);
        file_handle(&mut self.indexes, key, shared.clone());
        shared
    }

    /// The handle filed under `id`.
    pub fn get(&self, id: &IndexId) -> (r: Option<Arc<IndexHandle>>)
        ensures
            match r {
                Some(h) => self@.contains_key(id@) && self@[id@] == *h,
                None => !self@.contains_key(id@),
            },
    {
        find_handle(&self.indexes, id.0.as_str())
    }

    /// The names of all indexes, each once, in no particular order.
    pub fn list(&self) -> (ids: Vec<IndexId>)
        ensures
            forall|i: int| 0 <= i < ids.len() ==> self@.contains_key((#[trigger] ids@[i])@),
            forall|k: Seq<char>| #[trigger]
                self@.contains_key(k) ==> exists|i: int|
                    0 <= i < ids.len() && (#[trigger] ids@[i])@ == k,
            forall|i: int, j: int|
                0 <= i < j < ids.len() ==> (#[trigger] ids@[i])@ != (#[trigger] ids@[j])@,
    {
        let keys = handle_keys(&self.indexes);
        let mut ids: Vec<IndexId> = Vec::new();
        for i in 0..keys.len()
            invariant
                ids.len() == i,
                forall|j: int| 0 <= j < i ==> (#[trigger] ids@[j])@ == keys@[j]@,
        {
            ids.push(IndexId(keys[i].clone()));
        }
        proof {
            assert forall|k: Seq<char>| #[trigger] self@.contains_key(k) implies exists|i: int|
                0 <= i < ids.len() && (#[trigger] ids@[i])@ == k by {
                let i = choose|i: int| 0 <= i < keys.len() && (#[trigger] keys@[i])@ == k;
                assert(ids@[i]@ == k);
            }
            assert forall|i: int| 0 <= i < ids.len() implies self@.contains_key(
                (#[trigger] ids@[i])@,
            ) by {
                assert(filed_handles(self.indexes).contains_key(keys@[i]@));
            }
            assert forall|i: int, j: int| 0 <= i < j < ids.len() implies (#[trigger] ids@[i])@ != (
            #[trigger] ids@[j])@ by {
                assert(keys@[i]@ != keys@[j]@);
            }
        }
        ids
    }

    /// Drops the index from the registry; says whether it was there.
    pub fn unregister(&mut self, id: &IndexId) -> (existed: bool)
        ensures
            existed == old(self)@.contains_key(id@),
            final(self)@ == old(self)@.remove(id@),
    {
        drop_handle(&mut self.indexes, id.0.as_str())
    }

    /// The number of indexes.
    pub fn len(&self) -> (n: usize)
        ensures
            self@.dom().finite(),
            n == self@.dom().len(),
    {
        count_handles(&self.indexes)
    }

    /// Whether there is no index.
    pub fn is_empty(&self) -> (r: bool)
        ensures
            r == (self@ == Map::<Seq<char>, IndexHandle>::empty()),
    {
        let n: usize = self.len();
        proof {
            if n == 0 {
                assert(self@.dom() =~= Set::empty());
                assert(self@ =~= Map::empty());
            }
        }
        n == 0
    }
}

/// A handle just registered is what a lookup of its name finds, and no other
/// name is affected.
pub proof fn register_then_get(before: Map<Seq<char>, IndexHandle>, handle: IndexHandle, other: Seq<char>)
    ensures
        before.insert(handle.id@, handle).contains_key(handle.id@),
        before.insert(handle.id@, handle)[handle.id@] == handle,
        other != handle.id@ ==> before.insert(handle.id@, handle).contains_key(other)
            == before.contains_key(other) && (before.contains_key(other) ==> before.insert(
            handle.id@,
            handle,
        )[other] == before[other]),
{
}

/// After a name is unregistered no lookup finds it, and unregistering what was
/// just added restores a registry that did not hold the name.
pub proof fn unregister_then_get(before: Map<Seq<char>, IndexHandle>, handle: IndexHandle)
    ensures
        !before.remove(handle.id@).contains_key(handle.id@),
        !before.contains_key(handle.id@) ==> before.insert(handle.id@, handle).remove(handle.id@)
            == before,
{
    if !before.contains_key(handle.id@) {
        assert(before.insert(handle.id@, handle).remove(handle.id@) =~= before);
    }
}

} // verus!
