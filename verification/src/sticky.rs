//! The cache of sticky sessions: an `lru::LruCache` from a session key to the
//! account that serves it and the time at which it was bound.
use lru::LruCache;
use vstd::prelude::*;

verus! {

/// The least-recently-used cache of the `lru` crate.
#[verifier::external_type_specification]
#[verifier::external_body]
#[verifier::reject_recursive_types(K)]
#[verifier::reject_recursive_types(V)]
#[verifier::reject_recursive_types(S)]
pub struct ExLruCache<K, V, S>(lru::LruCache<K, V, S>);

/// The hasher that `lru` caches use unless told otherwise.
#[verifier::external_type_specification]
#[verifier::external_body]
pub struct ExDefaultHasher(lru::DefaultHasher);

/// Session key, account, time of binding.
pub type Entry = (Seq<char>, Seq<char>, int);

/// What a cache holds, the most recently used entry first.
pub uninterp spec fn entries(c: LruCache<String, (String, i64)>) -> Seq<(Seq<char>, Seq<char>, int)>;

/// The most entries that a cache holds.
pub uninterp spec fn capacity(c: LruCache<String, (String, i64)>) -> nat;

/// The entries that are not under `key`, in order.
pub open spec fn without_key(s: Seq<Entry>, key: Seq<char>) -> Seq<Entry>
    decreases s.len(),
{
    if s.len() == 0 {
        s
    } else if s.last().0 == key {
        without_key(s.drop_last(), key)
    } else {
        without_key(s.drop_last(), key).push(s.last())
    }
}

/// The entry under `key`.
pub open spec fn lookup(s: Seq<Entry>, key: Seq<char>) -> Option<Entry>
    decreases s.len(),
{
    if s.len() == 0 {
        None
    } else if s.last().0 == key {
        Some(s.last())
    } else {
        lookup(s.drop_last(), key)
    }
}

/// The entries after the entry under `key`, if there is one, was used.
pub open spec fn touched(s: Seq<Entry>, key: Seq<char>) -> Seq<Entry> {
    match lookup(s, key) {
        Some(e) => seq![e] + without_key(s, key),
        None => s,
    }
}

/// The entries after `e` was put in: it comes first; the least recently used
/// entry makes room when the cache is full and the key is new.
pub open spec fn put_in(s: Seq<Entry>, cap: nat, e: Entry) -> Seq<Entry> {
    if lookup(s, e.0) is Some {
        seq![e] + without_key(s, e.0)
    } else if s.len() == cap {
        seq![e] + s.drop_last()
    } else {
        seq![e] + s
    }
}

/// `LruCache::new` makes an empty cache with the given capacity.
#[verifier::external_body]
pub(crate) fn cache_new(cap: usize) -> (r: LruCache<String, (String, i64)>)
    requires
        cap > 0,
    ensures
        entries(r) == Seq::<(Seq<char>, Seq<char>, int)>::empty(),
        capacity(r) == cap,
{
    LruCache::new(std::num::NonZeroUsize::new(cap).unwrap())
}

/// `LruCache::get` hands out the value under `key` and makes its entry the most
/// recently used one.
#[verifier::external_body]
pub(crate) fn cache_get(c: &mut LruCache<String, (String, i64)>, key: &str) -> (r: Option<
    (String, i64),
>)
    ensures
        match r {
            Some(v) => lookup(entries(*old(c)), key@) == Some((key@, v.0@, v.1 as int)),
            None => lookup(entries(*old(c)), key@) is None,
        },
        entries(*final(c)) == touched(entries(*old(c)), key@),
        capacity(*final(c)) == capacity(*old(c)),
{
    c.get(key).cloned()
}

/// `LruCache::put` replaces the value under `key`, or makes room for it, and
/// makes its entry the most recently used one.
#[verifier::external_body]
pub(crate) fn cache_put(
    c: &mut LruCache<String, (String, i64)>,
    key: String,
    account: String,
    at: i64,
)
    ensures
        entries(*final(c)) == put_in(
            entries(*old(c)),
            capacity(*old(c)),
            (key@, account@, at as int),
        ),
        capacity(*final(c)) == capacity(*old(c)),
{
    c.put(key, (account, at));
}

/// `LruCache::pop` takes the entry under `key` out.
#[verifier::external_body]
pub(crate) fn cache_pop(c: &mut LruCache<String, (String, i64)>, key: &str)
    ensures
        entries(*final(c)) == without_key(entries(*old(c)), key@),
        capacity(*final(c)) == capacity(*old(c)),
{
    c.pop(key);
}

/// The views of entries that were handed out.
pub open spec fn entry_views(v: Seq<(String, String, i64)>) -> Seq<Entry> {
    v.map_values(|e: (String, String, i64)| (e.0@, e.1@, e.2 as int))
}

/// `LruCache::iter` visits the entries, the most recently used one first, and
/// changes nothing.
#[verifier::external_body]
pub(crate) fn cache_entries(c: &LruCache<String, (String, i64)>) -> (r: Vec<(String, String, i64)>)
    ensures
        entry_views(r@) == entries(*c),
{
    c.iter().map(|(k, v)| (k.clone(), v.0.clone(), v.1)).collect()
}

} // verus!
