//! The content-fingerprint cache: a cache-aside lookup keyed by the file's
//! root-relative path. On a hit the stored value is returned untouched; on
//! a miss the content is hashed, the digest stored best-effort, and
//! returned. The store is deliberately keyed by path alone: a file edited
//! in place keeps its cached fingerprint until the entry is evicted.

use crate::utils::decimal_of;
use crate::utils::is_under;
use crate::utils::rel_of;
use crate::utils::relative_to;
use crate::utils::u64_to_decimal;
use std::collections::hash_map::DefaultHasher;
use std::hash::Hash;
use std::hash::Hasher;
use vstd::prelude::*;

verus! {

/// The digest the content hash assigns to a byte string; a fixed function
/// of the bytes alone.
pub uninterp spec fn content_hash_of(bytes: Seq<u8>) -> u64;

/// Relies on std's `DefaultHasher`: instances created through `new` are
/// documented to compute the same hash function, so the digest is a
/// function of the hashed bytes alone.
#[verifier::external_body]
fn hash_bytes_u64(bytes: &[u8]) -> (r: u64)
    ensures
        r == content_hash_of(bytes@),
{
    let mut hasher = DefaultHasher::new();
    bytes.hash(&mut hasher);
    hasher.finish()
}

/// The fingerprint of a file's content, rendered in decimal.
pub fn fingerprint_of_content(content: &[u8]) -> (r: String)
    ensures
        r@ == decimal_of(content_hash_of(content@) as nat),
{
    u64_to_decimal(hash_bytes_u64(content))
}

/// An in-memory key-value store, the shape the cache is written against: a
/// log of insertions read back latest-first.
pub struct MemoryStore {
    entries: Vec<(String, String)>,
}

/// The map a store log denotes: later insertions win.
pub open spec fn store_map(s: Seq<(String, String)>) -> Map<Seq<char>, Seq<char>>
    decreases s.len(),
{
    if s.len() == 0 {
        Map::empty()
    } else {
        store_map(s.drop_last()).insert(s.last().0@, s.last().1@)
    }
}

impl View for MemoryStore {
    type V = Map<Seq<char>, Seq<char>>;

    closed spec fn view(&self) -> Map<Seq<char>, Seq<char>> {
        store_map(self.entries@)
    }
}

impl MemoryStore {
    /// An empty store.
    pub fn new() -> (r: Self)
        ensures
            r@ == Map::<Seq<char>, Seq<char>>::empty(),
    {
        let r = MemoryStore { entries: Vec::new() };
        proof {
            assert(r@ =~= Map::<Seq<char>, Seq<char>>::empty());
        }
        r
    }

    /// The value stored under `key`, if any.
    pub fn get(&self, key: &str) -> (r: Option<String>)
        ensures
            match r {
                Some(v) => self@.contains_key(key@) && v@ == self@[key@],
                None => !self@.contains_key(key@),
            },
    {
        proof {
            assert(self.entries@.take(self.entries@.len() as int) =~= self.entries@);
        }
        let mut i = self.entries.len();
        while i > 0
            invariant
                i <= self.entries@.len(),
                self@ == store_map(self.entries@),
                store_map(self.entries@).contains_key(key@) == store_map(
                    self.entries@.take(i as int),
                ).contains_key(key@),
                store_map(self.entries@).contains_key(key@) ==> store_map(
                    self.entries@,
                )[key@] == store_map(self.entries@.take(i as int))[key@],
            decreases i,
        {
            proof {
                assert(self.entries@.take(i as int).drop_last() =~= self.entries@.take(
                    i - 1,
                ));
                assert(self.entries@.take(i as int).last() == self.entries@[i - 1]);
            }
            if crate::text::str_eq(self.entries[i - 1].0.as_str(), key) {
                return Some(self.entries[i - 1].1.clone());
            }
            i -= 1;
        }
        proof {
            assert(self.entries@.take(0) =~= Seq::<(String, String)>::empty());
        }
        None
    }

    /// Store `value` under `key`, overwriting any earlier value.
    pub fn set(&mut self, key: &str, value: &str)
        ensures
            final(self)@ == old(self)@.insert(key@, value@),
    {
        self.entries.push((key.to_owned(), value.to_owned()));
        proof {
            assert(self.entries@.drop_last() =~= old(self).entries@);
            assert(self.entries@.last().0@ == key@ && self.entries@.last().1@ == value@);
            assert(self@ == old(self)@.insert(key@, value@));
        }
    }
}

/// The view of an optional cached value.
pub open spec fn opt_string_view(o: Option<String>) -> Option<Seq<char>> {
    match o {
        Some(s) => Some(s@),
        None => None,
    }
}

/// The view of optional file content; `None` stands for a file that could
/// not be read.
pub open spec fn opt_bytes_view(o: Option<&[u8]>) -> Option<Seq<u8>> {
    match o {
        Some(b) => Some(b@),
        None => None,
    }
}

/// The fingerprint a row gets, given the store's answer for its key and
/// the file's content: the cached value on a hit; the content's digest on
/// a miss; the empty mark when the lookup missed and the content could not
/// be read.
pub open spec fn fingerprint_value(cached: Option<Seq<char>>, content: Option<Seq<u8>>) -> Seq<
    char,
> {
    match cached {
        Some(v) => v,
        None => match content {
            Some(c) => decimal_of(content_hash_of(c) as nat),
            None => Seq::empty(),
        },
    }
}

/// What one cache-aside lookup returns and leaves behind: the stored value
/// and the unchanged store on a hit; the content's digest and the store
/// extended by it on a miss; the empty mark and the unchanged store when
/// the content could not be read.
pub open spec fn fingerprint_spec(
    m: Map<Seq<char>, Seq<char>>,
    key: Seq<char>,
    content: Option<Seq<u8>>,
) -> (Seq<char>, Map<Seq<char>, Seq<char>>) {
    let cached = if m.contains_key(key) {
        Some(m[key])
    } else {
        None
    };
    let v = fingerprint_value(cached, content);
    if !m.contains_key(key) && content is Some {
        (v, m.insert(key, v))
    } else {
        (v, m)
    }
}

/// The decision for one row's fingerprint: the value the row carries, and
/// the value to write back to the store, if the lookup missed and the
/// content was readable.
pub fn fingerprint_decision(cached: Option<String>, content: Option<&[u8]>) -> (r: (
    String,
    Option<String>,
))
    ensures
        r.0@ == fingerprint_value(opt_string_view(cached), opt_bytes_view(content)),
        match r.1 {
            Some(w) => w@ == r.0@ && cached is None && content is Some,
            None => cached is Some || content is None,
        },
{
    match cached {
        Some(v) => (v, None),
        None => match content {
            Some(b) => {
                let v = fingerprint_of_content(b);
                let w = v.clone();
                (v, Some(w))
            },
            None => (String::new(), None),
        },
    }
}

/// Cache-aside fingerprint lookup: check the store, compute from the
/// content only on a miss, write the result back.
pub fn cache_aside(key: &str, content: &[u8], store: &mut MemoryStore) -> (r: String)
    ensures
        r@ == fingerprint_spec(old(store)@, key@, Some(content@)).0,
        final(store)@ == fingerprint_spec(old(store)@, key@, Some(content@)).1,
{
    match store.get(key) {
        Some(v) => v,
        None => {
            let v = fingerprint_of_content(content);
            store.set(key, v.as_str());
            v
        },
    }
}

/// The fingerprint of the file at `path` under `root`: the cache key is the
/// root-relative path, so moving the catalog root does not invalidate the
/// cache.
pub fn fingerprint(path: &str, root: &str, content: &[u8], store: &mut MemoryStore) -> (r:
    String)
    requires
        is_under(path@, root@),
    ensures
        r@ == fingerprint_spec(old(store)@, rel_of(path@, root@), Some(content@)).0,
        final(store)@ == fingerprint_spec(old(store)@, rel_of(path@, root@), Some(content@)).1,
{
    let key = relative_to(path, root);
    cache_aside(key.as_str(), content, store)
}

/// A fingerprint, once cached, is stable: after a lookup whose key is in
/// the store — or whose content was readable, so that its digest was
/// stored — a later lookup of the same key returns the same value
/// unchanged, whatever content is supplied then. This is the deliberate
/// consequence of keying by path alone.
pub proof fn lemma_fingerprint_stable(
    m: Map<Seq<char>, Seq<char>>,
    key: Seq<char>,
    c1: Option<Seq<u8>>,
    c2: Option<Seq<u8>>,
)
    requires
        m.contains_key(key) || c1 is Some,
    ensures
        fingerprint_spec(fingerprint_spec(m, key, c1).1, key, c2).0 == fingerprint_spec(
            m,
            key,
            c1,
        ).0,
        fingerprint_spec(fingerprint_spec(m, key, c1).1, key, c2).1 == fingerprint_spec(
            m,
            key,
            c1,
        ).1,
{
}

} // verus!
