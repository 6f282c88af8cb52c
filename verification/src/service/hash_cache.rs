//! Content fingerprints of the files that an index has seen.
//!
//! The cache only saves work: a file whose entry was dropped is indexed again.
//! Files are told apart by the plain form of their paths, so that two texts with
//! the same components name the same file.
use crate::engine::registry::counts_keys;
use crate::paths::{
    path_key, plain_path, plain_path_keeps_components, plain_path_spec, plain_paths_tell_paths_apart,
};
use dashmap::DashMap;
use sha2::{Digest, Sha256};
use vstd::prelude::*;
use vstd::string::*;
use vstd::utf8::encode_utf8;

verus! {

/// The number of entries above which the cache is cut back.
pub const MAX_FILE_HASHES_PER_INDEX: usize = 200_000;

/// The number of entries that remain after the cache was cut back: nine tenths
/// of the maximum.
pub const FILE_HASHES_KEPT: usize = 180_000;

// ---------------------------------------------------------------------------
// Fingerprints
// ---------------------------------------------------------------------------

/// The SHA-256 digest of some bytes.
pub uninterp spec fn sha256(data: Seq<u8>) -> Seq<u8>;

/// `sha2::Sha256`, fed the bytes and finished: their 32-byte SHA-256 digest.
#[verifier::external_body]
fn sha256_of(data: &[u8]) -> (digest: Vec<u8>)
    ensures
        digest@ == sha256(data@),
        digest@.len() == 32,
{
    let mut hasher = Sha256::new();
    hasher.update(data);
    hasher.finalize().to_vec()
}

/// The lower-case hexadecimal digit of `n`.
pub open spec fn hex_digit(n: u8) -> char {
    if n < 10 {
        ((48 + n) as u8) as char
    } else {
        ((87 + n) as u8) as char
    }
}

/// Two lower-case hexadecimal digits for each byte.
pub open spec fn hex_spec(bytes: Seq<u8>) -> Seq<char>
    decreases bytes.len(),
{
    if bytes.len() == 0 {
        Seq::empty()
    } else {
        hex_spec(bytes.drop_last()).push(hex_digit(bytes.last() / 16)).push(
            hex_digit(bytes.last() % 16),
        )
    }
}

fn digit(n: u8) -> (c: char)
    requires
        n < 16,
    ensures
        c == hex_digit(n),
{
    if n < 10 {
        (48 + n) as char
    } else {
        (87 + n) as char
    }
}

fn hex_text(bytes: &Vec<u8>) -> (s: String)
    ensures
        s@ == hex_spec(bytes@),
{
    let mut s = String::new();
    assert(bytes@.take(0) =~= Seq::empty());
    for i in 0..bytes.len()
        invariant
            s@ == hex_spec(bytes@.take(i as int)),
    {
        assert(bytes@.take(i + 1).drop_last() =~= bytes@.take(i as int));
        s.push(digit(bytes[i] / 16));
        s.push(digit(bytes[i] % 16));
    }
    assert(bytes@.take(bytes@.len() as int) =~= bytes@);
    s
}

/// The fingerprint of a text: the SHA-256 digest of its UTF-8 bytes in
/// hexadecimal.
pub open spec fn fingerprint(content: Seq<char>) -> Seq<char> {
    hex_spec(sha256(encode_utf8(content)))
}

/// The fingerprint of a file's content.
pub fn hash_content(content: &str) -> (s: String)
    ensures
        s@ == fingerprint(content@),
{
    hex_text(&sha256_of(content.as_bytes()))
}

// ---------------------------------------------------------------------------
// The cache
// ---------------------------------------------------------------------------

/// The fingerprints that the map holds, by path.
pub uninterp spec fn stored_hashes(m: DashMap<String, String>) -> Map<Seq<char>, Seq<char>>;

/// `DashMap::new`: nothing is stored.
#[verifier::external_body]
fn no_hashes() -> (m: DashMap<String, String>)
    ensures
        stored_hashes(m) =~= Map::empty(),
{
    DashMap::new()
}

/// `DashMap::get`: the value stored under the key.
#[verifier::external_body]
fn find_hash(m: &DashMap<String, String>, path: &str) -> (r: Option<String>)
    ensures
        match r {
            Some(h) => stored_hashes(*m).contains_key(path@) && stored_hashes(*m)[path@] == h@,
            None => !stored_hashes(*m).contains_key(path@),
        },
{
    m.get(path).map(|r| r.clone())
}

/// `DashMap::insert`: stores the value under the key, in place of any earlier
/// one.
#[verifier::external_body]
fn store_hash(m: &mut DashMap<String, String>, path: String, hash: String)
    ensures
        stored_hashes(*final(m)) == stored_hashes(*old(m)).insert(path@, hash@),
{
    m.insert(path, hash);
}

/// `DashMap::remove`: takes out what is stored under the key.
#[verifier::external_body]
fn forget_hash(m: &mut DashMap<String, String>, path: &str)
    ensures
        stored_hashes(*final(m)) == stored_hashes(*old(m)).remove(path@),
{
    m.remove(path);
}

/// `DashMap::clear`: takes out everything.
#[verifier::external_body]
fn forget_all(m: &mut DashMap<String, String>)
    ensures
        stored_hashes(*final(m)) =~= Map::empty(),
{
    m.clear();
}

/// `DashMap::len`: the number of keys.
#[verifier::external_body]
fn count_hashes(m: &DashMap<String, String>) -> (n: usize)
    ensures
        counts_keys(stored_hashes(*m).dom(), n as nat),
{
    m.len()
}

/// `DashMap::iter`: every key once, in no particular order.
#[verifier::external_body]
fn hashed_paths(m: &DashMap<String, String>) -> (paths: Vec<String>)
    ensures
        counts_keys(stored_hashes(*m).dom(), paths@.len()),
        forall|i: int|
            0 <= i < paths.len() ==> stored_hashes(*m).contains_key((#[trigger] paths@[i])@),
        forall|i: int, j: int|
            0 <= i < j < paths.len() ==> (#[trigger] paths@[i])@ != (#[trigger] paths@[j])@,
{
    m.iter().map(|r| r.key().clone()).collect()
}

/// The fingerprints of the files of one index, by the plain form of the path.
pub struct HashCache {
    map: DashMap<String, String>,
}

impl View for HashCache {
    type V = Map<Seq<char>, Seq<char>>;

    closed spec fn view(&self) -> Map<Seq<char>, Seq<char>> {
        stored_hashes(self.map)
    }
}

/// Whether `after` is what may be left of `before` once the cache was cut back
/// where it had to be.
pub open spec fn cut_back(
    before: Map<Seq<char>, Seq<char>>,
    after: Map<Seq<char>, Seq<char>>,
) -> bool {
    if before.dom().len() <= MAX_FILE_HASHES_PER_INDEX {
        after == before
    } else {
        after.submap_of(before) && after.dom().len() == FILE_HASHES_KEPT
    }
}

/// The paths and fingerprints of a list.
pub open spec fn entry_views(v: Seq<(String, String)>) -> Seq<(Seq<char>, Seq<char>)> {
    v.map_values(|e: (String, String)| (e.0@, e.1@))
}

/// What a cache knows that was empty and then took these fingerprints, in order.
pub open spec fn recorded(entries: Seq<(Seq<char>, Seq<char>)>) -> Map<Seq<char>, Seq<char>>
    decreases entries.len(),
{
    if entries.len() == 0 {
        Map::empty()
    } else {
        recorded(entries.drop_last()).insert(
            plain_path_spec(entries.last().0),
            entries.last().1,
        )
    }
}

/// Whether the list names the path.
pub open spec fn lists_path(entries: Seq<(Seq<char>, Seq<char>)>, path: Seq<char>) -> bool {
    exists|i: int| 0 <= i < entries.len() && (#[trigger] entries[i]).0 == path
}

/// Whether the list holds each path of the map once, with its fingerprint, and
/// nothing else.
pub open spec fn is_listing(
    entries: Seq<(Seq<char>, Seq<char>)>,
    hashes: Map<Seq<char>, Seq<char>>,
) -> bool {
    &&& forall|i: int|
        0 <= i < entries.len() ==> hashes.contains_key((#[trigger] entries[i]).0)
            && hashes[entries[i].0] == entries[i].1
    &&& forall|i: int, j: int|
        0 <= i < j < entries.len() ==> (#[trigger] entries[i]).0 != (#[trigger] entries[j]).0
    &&& forall|k: Seq<char>| #[trigger] hashes.contains_key(k) ==> lists_path(entries, k)
}

/// Whether every path is in its plain form.
pub open spec fn paths_are_plain(hashes: Map<Seq<char>, Seq<char>>) -> bool {
    forall|k: Seq<char>| #[trigger] hashes.contains_key(k) ==> plain_path_spec(k) == k
}

impl HashCache {
    /// A cache that knows no file.
    pub fn new() -> (c: HashCache)
        ensures
            c@ == Map::<Seq<char>, Seq<char>>::empty(),
    {
        HashCache { map: no_hashes() }
    }

    /// Whether the file is known with this very fingerprint.
    pub fn matches(&self, path: &str, hash: &str) -> (r: bool)
        ensures
            r == (self@.contains_key(plain_path_spec(path@)) && self@[plain_path_spec(path@)]
                == hash@),
    {
        match find_hash(&self.map, plain_path(path).as_str()) {
            Some(h) => crate::text::same_text(h.as_str(), hash),
            None => false,
        }
    }

    /// Records the fingerprint of a file.
    pub fn insert(&mut self, path: &str, hash: String)
        ensures
            final(self)@ == old(self)@.insert(plain_path_spec(path@), hash@),
    {
        store_hash(&mut self.map, plain_path(path), hash);
    }

    /// Every path that is known and its fingerprint, in no particular order.
    pub fn entries(&self) -> (entries: Vec<(String, String)>)
        ensures
            is_listing(entry_views(entries@), self@),
    {
        let paths = hashed_paths(&self.map);
        let mut entries: Vec<(String, String)> = Vec::new();
        for i in 0..paths.len()
            invariant
                forall|j: int|
                    0 <= j < paths.len() ==> self@.contains_key((#[trigger] paths@[j])@),
                entries.len() == i,
                forall|j: int|
                    0 <= j < i ==> (#[trigger] entries@[j]).0@ == paths@[j]@ && entries@[j].1@
                        == self@[paths@[j]@],
        {
            assert(self@.contains_key(paths@[i as int]@));
            match find_hash(&self.map, paths[i].as_str()) {
                Some(hash) => entries.push((paths[i].clone(), hash)),
                None => {},
            }
        }
        proof {
            let views = entry_views(entries@);
            let names = crate::text::texts(paths@);
            assert(names.no_duplicates());
            names.unique_seq_to_set();
            assert(names.to_set().subset_of(self@.dom())) by {
                assert forall|k: Seq<char>| names.to_set().contains(k) implies self@.dom().contains(
                k,
                ) by {
                    let i = choose|i: int| 0 <= i < names.len() && names[i] == k;
                    assert(self@.contains_key(paths@[i]@));
                }
            }
            vstd::set_lib::lemma_subset_equality(names.to_set(), self@.dom());
            assert forall|k: Seq<char>| #[trigger] self@.contains_key(k) implies lists_path(
                views,
                k,
            ) by {
                assert(names.to_set().contains(k));
                let i = choose|i: int| 0 <= i < names.len() && names[i] == k;
                assert(views[i].0 == k);
            }
        }
        entries
    }

    /// The cache that knows the listed fingerprints; of a path that is listed
    /// twice the later one.
    pub fn restore(entries: &Vec<(String, String)>) -> (c: HashCache)
        ensures
            c@ == recorded(entry_views(entries@)),
    {
        let mut c = HashCache::new();
        let ghost all = entry_views(entries@);
        assert(all.take(0) =~= Seq::empty());
        for i in 0..entries.len()
            invariant
                all == entry_views(entries@),
                c@ == recorded(all.take(i as int)),
        {
            assert(all.take(i + 1).drop_last() =~= all.take(i as int));
            assert(all.take(i + 1).last() == (entries@[i as int].0@, entries@[i as int].1@));
            c.insert(entries[i].0.as_str(), entries[i].1.clone());
        }
        assert(all.take(all.len() as int) =~= all);
        c
    }

    /// Forgets every file.
    pub fn clear(&mut self)
        ensures
            final(self)@ == Map::<Seq<char>, Seq<char>>::empty(),
    {
        forget_all(&mut self.map);
    }

    /// The number of files known.
    pub fn len(&self) -> (n: usize)
        ensures
            self@.dom().finite(),
            n == self@.dom().len(),
    {
        count_hashes(&self.map)
    }

    /// Cuts the cache back to nine tenths of the maximum where it holds more
    /// than the maximum. Which entries go is not fixed.
    pub fn shrink_if_needed(&mut self)
        ensures
            final(self)@.dom().finite(),
            cut_back(old(self)@, final(self)@),
    {
        let len: usize = self.len();
        if len <= MAX_FILE_HASHES_PER_INDEX {
            return ;
        }
        let to_remove: usize = len - FILE_HASHES_KEPT;
        let paths = hashed_paths(&self.map);
        let ghost start = self@;
        for i in 0..to_remove
            invariant
                to_remove <= paths.len(),
                paths.len() == start.dom().len(),
                self@.dom().finite(),
                self@.submap_of(start),
                self@.dom().len() == start.dom().len() - i,
                forall|j: int| i <= j < paths.len() ==> self@.contains_key((#[trigger] paths@[j])@),
                forall|j: int, k: int|
                    0 <= j < k < paths.len() ==> (#[trigger] paths@[j])@ != (#[trigger] paths@[k])@,
        {
            assert(self@.contains_key(paths@[i as int]@));
            let ghost before = self@;
            forget_hash(&mut self.map, paths[i].as_str());
            proof {
                assert forall|k: Seq<char>| #[trigger] self@.dom().contains(k) implies start.dom().contains(
                k,
                ) && self@[k] == start[k] by {
                    assert(before.dom().contains(k) && start.dom().contains(k));
                }
            }
        }
    }
}

// ---------------------------------------------------------------------------
// Laws
// ---------------------------------------------------------------------------

/// Recording a fingerprint keeps every path in its plain form.
pub proof fn recorded_paths_are_plain(
    hashes: Map<Seq<char>, Seq<char>>,
    path: Seq<char>,
    hash: Seq<char>,
)
    requires
        paths_are_plain(hashes),
    ensures
        paths_are_plain(hashes.insert(plain_path_spec(path), hash)),
{
    plain_path_keeps_components(path);
}

/// A restored cache has every path in its plain form, whatever was listed.
pub proof fn restored_paths_are_plain(entries: Seq<(Seq<char>, Seq<char>)>)
    ensures
        paths_are_plain(recorded(entries)),
    decreases entries.len(),
{
    if entries.len() > 0 {
        let last = entries.last();
        restored_paths_are_plain(entries.drop_last());
        recorded_paths_are_plain(recorded(entries.drop_last()), last.0, last.1);
    }
}

/// Two texts of one path are one file: a fingerprint that was recorded under the
/// one is found under the other.
pub proof fn one_path_has_one_fingerprint(
    hashes: Map<Seq<char>, Seq<char>>,
    a: Seq<char>,
    b: Seq<char>,
    hash: Seq<char>,
)
    requires
        path_key(a) == path_key(b),
    ensures
        hashes.insert(plain_path_spec(a), hash).contains_key(plain_path_spec(b)),
        hashes.insert(plain_path_spec(a), hash)[plain_path_spec(b)] == hash,
{
    plain_paths_tell_paths_apart(a, b);
}

proof fn lemma_recorded(entries: Seq<(Seq<char>, Seq<char>)>, k: Seq<char>)
    requires
        forall|i: int|
            0 <= i < entries.len() ==> plain_path_spec((#[trigger] entries[i]).0) == entries[i].0,
        forall|i: int, j: int|
            0 <= i < j < entries.len() ==> (#[trigger] entries[i]).0 != (#[trigger] entries[j]).0,
    ensures
        recorded(entries).contains_key(k) == lists_path(entries, k),
        forall|i: int|
            0 <= i < entries.len() && (#[trigger] entries[i]).0 == k ==> recorded(entries)[k]
                == entries[i].1,
    decreases entries.len(),
{
    if entries.len() > 0 {
        let head = entries.drop_last();
        let n = entries.len() - 1;
        assert forall|i: int| 0 <= i < head.len() implies plain_path_spec((#[trigger] head[i]).0)
            == head[i].0 by {
            assert(head[i] == entries[i]);
        }
        assert forall|i: int, j: int| 0 <= i < j < head.len() implies (#[trigger] head[i]).0 != (
        #[trigger] head[j]).0 by {
            assert(head[i] == entries[i] && head[j] == entries[j]);
        }
        lemma_recorded(head, k);
        assert(plain_path_spec(entries[n].0) == entries[n].0);
        if lists_path(head, k) {
            let i = choose|i: int| 0 <= i < head.len() && (#[trigger] head[i]).0 == k;
            assert(entries[i].0 == k);
        }
        if lists_path(entries, k) {
            let i = choose|i: int| 0 <= i < entries.len() && (#[trigger] entries[i]).0 == k;
            if i < n {
                assert(head[i].0 == k);
            }
        }
        assert forall|i: int| 0 <= i < entries.len() && (#[trigger] entries[i]).0 == k implies recorded(
            entries,
        )[k] == entries[i].1 by {
            if i < n {
                assert(head[i].0 == k);
                assert(entries[i].0 != entries[n].0);
            }
        }
    }
}

/// A cache that is restored from what another one handed out knows the same.
pub proof fn restored_cache_knows_the_same(
    entries: Seq<(Seq<char>, Seq<char>)>,
    hashes: Map<Seq<char>, Seq<char>>,
)
    requires
        paths_are_plain(hashes),
        is_listing(entries, hashes),
    ensures
        recorded(entries) == hashes,
{
    assert forall|i: int| 0 <= i < entries.len() implies plain_path_spec((#[trigger] entries[i]).0)
        == entries[i].0 by {
        assert(hashes.contains_key(entries[i].0));
    }
    assert forall|k: Seq<char>|
        #![trigger recorded(entries).dom().contains(k)]
        #![trigger hashes.dom().contains(k)]
        #![trigger hashes[k]]
        recorded(entries).dom().contains(k) == hashes.dom().contains(k) && (hashes.dom().contains(k)
            ==> recorded(entries)[k] == hashes[k]) by {
        lemma_recorded(entries, k);
        if hashes.contains_key(k) {
            let i = choose|i: int| 0 <= i < entries.len() && (#[trigger] entries[i]).0 == k;
            assert(entries[i].0 == k);
        }
        if lists_path(entries, k) {
            let i = choose|i: int| 0 <= i < entries.len() && (#[trigger] entries[i]).0 == k;
            assert(hashes.contains_key(entries[i].0));
        }
    }
    assert(recorded(entries) =~= hashes);
}

} // verus!
