//! A bounded cache of whole HTTP responses, evicting the oldest entry.
use vstd::prelude::*;
use crate::bytes::extend_bytes;
use crate::text::{chars_of, eq};

verus! {

/// Cached responses, oldest first.
pub type CacheView = Seq<(Seq<char>, Seq<u8>)>;

/// Position of the entry for `k`.
pub open spec fn cache_index(v: CacheView, k: Seq<char>) -> Option<int>
    decreases v.len(),
{
    if v.len() == 0 {
        None
    } else if v[0].0 == k {
        Some(0)
    } else {
        match cache_index(v.drop_first(), k) {
            Some(i) => Some(i + 1),
            None => None,
        }
    }
}

/// No key occurs twice.
pub open spec fn keys_distinct(v: CacheView) -> bool {
    forall|i: int, j: int| 0 <= i < j < v.len() ==> v[i].0 != v[j].0
}

/// The cached response for `k`.
pub open spec fn spec_cache_get(v: CacheView, k: Seq<char>) -> Option<Seq<u8>> {
    match cache_index(v, k) {
        Some(i) => Some(v[i].1),
        None => None,
    }
}

/// The newest `limit` entries (all of them for `limit` 0).
pub open spec fn keep_newest(v: CacheView, limit: nat) -> CacheView {
    if limit > 0 && v.len() > limit {
        v.subrange(v.len() - limit, v.len() as int)
    } else {
        v
    }
}

/// The cache after storing `val` under `k`: a cached key takes the new
/// response and becomes the newest; a new key is added as the newest and
/// the oldest entries beyond `limit` (when non-zero) are evicted.
pub open spec fn spec_cache_insert(v: CacheView, k: Seq<char>, val: Seq<u8>, limit: nat) -> CacheView {
    match cache_index(v, k) {
        Some(i) => v.remove(i).push((k, val)),
        None => keep_newest(v.push((k, val)), limit),
    }
}

proof fn lemma_cache_index(v: CacheView, k: Seq<char>)
    ensures
        match cache_index(v, k) {
            Some(i) => 0 <= i < v.len() && v[i].0 == k && forall|j: int| 0 <= j < i ==> v[j].0 != k,
            None => forall|j: int| 0 <= j < v.len() ==> v[j].0 != k,
        },
    decreases v.len(),
{
    if v.len() > 0 {
        lemma_cache_index(v.drop_first(), k);
        if v[0].0 != k {
            assert forall|j: int| 0 < j < v.len() implies v[j] == v.drop_first()[j - 1] by {}
        }
    }
}

proof fn lemma_cache_index_at(v: CacheView, k: Seq<char>, i: int)
    requires
        0 <= i < v.len(),
        v[i].0 == k,
        keys_distinct(v),
    ensures
        cache_index(v, k) == Some(i),
{
    lemma_cache_index(v, k);
    match cache_index(v, k) {
        Some(m) => {
            if m < i {
            } else if m > i {
            }
        },
        None => {},
    }
}

/// Responses cached by request key.
pub struct HttpResponseCache {
    entries: Vec<(String, Vec<u8>)>,
}

pub open spec fn entries_view(e: Seq<(String, Vec<u8>)>) -> CacheView {
    Seq::new(e.len(), |i: int| (e[i].0@, e[i].1@))
}

impl View for HttpResponseCache {
    type V = CacheView;

    closed spec fn view(&self) -> CacheView {
        entries_view(self.entries@)
    }
}

impl HttpResponseCache {
    #[verifier::type_invariant]
    spec fn well_formed(self) -> bool {
        keys_distinct(entries_view(self.entries@))
    }

    /// An empty cache.
    pub fn new() -> (r: Self)
        ensures
            r@ == Seq::<(Seq<char>, Seq<u8>)>::empty(),
            keys_distinct(r@),
    {
        let r = HttpResponseCache { entries: Vec::new() };
        assert(r@ =~= Seq::<(Seq<char>, Seq<u8>)>::empty());
        r
    }

    /// Number of cached responses.
    pub fn len(&self) -> (r: usize)
        ensures
            r == self@.len(),
    {
        self.entries.len()
    }

    fn index_of(&self, key: &str) -> (r: Option<usize>)
        ensures
            match r {
                Some(i) => cache_index(self@, key@) == Some(i as int),
                None => cache_index(self@, key@) is None,
            },
    {
        let ghost v = self@;
        let kc = chars_of(key);
        let mut i: usize = 0;
        while i < self.entries.len()
            invariant
                v == self@,
                v == entries_view(self.entries@),
                kc@ == key@,
                i <= self.entries.len(),
                forall|j: int| 0 <= j < i ==> v[j].0 != key@,
            decreases self.entries.len() - i,
        {
            if eq(&chars_of(self.entries[i].0.as_str()), &kc) {
                proof {
                    lemma_cache_index(v, key@);
                    match cache_index(v, key@) {
                        Some(m) => {
                            if m < i {
                            } else if m > i {
                                assert(v[i as int].0 == key@);
                            }
                        },
                        None => {
                            assert(v[i as int].0 == key@);
                        },
                    }
                }
                return Some(i);
            }
            i += 1;
        }
        proof {
            lemma_cache_index(v, key@);
            match cache_index(v, key@) {
                Some(m) => {
                    assert(v[m].0 != key@);
                },
                None => {},
            }
        }
        None
    }

    /// The cached response for a key.
    pub fn get(&self, key: &str) -> (r: Option<Vec<u8>>)
        ensures
            match r {
                Some(v) => spec_cache_get(self@, key@) == Some(v@),
                None => spec_cache_get(self@, key@) is None,
            },
    {
        match self.index_of(key) {
            Some(i) => {
                proof {
                    lemma_cache_index(self@, key@);
                }
                let mut out: Vec<u8> = Vec::new();
                extend_bytes(&mut out, self.entries[i].1.as_slice());
                Some(out)
            },
            None => None,
        }
    }

    /// Stores a response under a key, evicting the oldest entries beyond a
    /// non-zero `limit` when the key is new.
    pub fn insert(&mut self, key: String, value: Vec<u8>, limit: usize)
        ensures
            final(self)@ == spec_cache_insert(old(self)@, key@, value@, limit as nat),
            keys_distinct(final(self)@),
    {
        proof {
            use_type_invariant(&*self);
        }
        let ghost v = self@;
        let ghost kv = key@;
        let ghost vv = value@;
        proof {
            lemma_cache_index(v, kv);
        }
        let found = self.index_of(key.as_str());
        let mut entries: Vec<(String, Vec<u8>)> = Vec::new();
        std::mem::swap(&mut entries, &mut self.entries);
        assert(entries_view(entries@) == v);
        match found {
            Some(i) => {
                let _ = entries.remove(i);
                entries.push((key, value));
                assert(entries_view(entries@) =~= v.remove(i as int).push((kv, vv)));
                assert(keys_distinct(entries_view(entries@))) by {
                    assert forall|a: int, b: int| 0 <= a < b < entries_view(entries@).len() implies entries_view(entries@)[a].0
                        != entries_view(entries@)[b].0 by {
                        if b == entries_view(entries@).len() - 1 {
                            let oa = if a < i {
                                a
                            } else {
                                a + 1
                            };
                            assert(entries_view(entries@)[a] == v[oa]);
                        } else {
                            let oa = if a < i {
                                a
                            } else {
                                a + 1
                            };
                            let ob = if b < i {
                                b
                            } else {
                                b + 1
                            };
                            assert(entries_view(entries@)[a] == v[oa]);
                            assert(entries_view(entries@)[b] == v[ob]);
                        }
                    }
                }
            },
            None => {
                entries.push((key, value));
                assert(entries_view(entries@) =~= v.push((kv, vv)));
                if limit > 0 {
                    let n = entries.len();
                    if n > limit {
                        let drop = n - limit;
                        let mut kept: Vec<(String, Vec<u8>)> = Vec::new();
                        let mut j: usize = 0;
                        let ghost w = entries_view(entries@);
                        while j < entries.len()
                            invariant
                                w == entries_view(entries@),
                                w == entries_view(entries@),
                                n == entries.len(),
                                drop == n - limit,
                                j <= n,
                                j < drop ==> kept@.len() == 0,
                                j >= drop ==> entries_view(kept@) == w.subrange(drop as int, j as int),
                            decreases n - j,
                        {
                            if j >= drop {
                                let ghost before = kept@;
                                let k2 = entries[j].0.clone();
                                let mut v2: Vec<u8> = Vec::new();
                                extend_bytes(&mut v2, entries[j].1.as_slice());
                                kept.push((k2, v2));
                                assert(entries_view(kept@) =~= w.subrange(drop as int, j + 1));
                            } else if j + 1 == drop {
                                assert(entries_view(kept@) =~= w.subrange(drop as int, drop as int));
                            }
                            j += 1;
                        }
                        entries = kept;
                    }
                }
                assert(keys_distinct(entries_view(entries@))) by {
                    let w = v.push((kv, vv));
                    assert(keys_distinct(w)) by {
                        assert forall|a: int, b: int| 0 <= a < b < w.len() implies w[a].0 != w[b].0 by {
                            if b == w.len() - 1 {
                                assert(w[a] == v[a]);
                            } else {
                                assert(w[a] == v[a]);
                                assert(w[b] == v[b]);
                            }
                        }
                    }
                    let kn = keep_newest(w, limit as nat);
                    if limit > 0 && w.len() > limit {
                        assert forall|a: int, b: int| 0 <= a < b < kn.len() implies kn[a].0 != kn[b].0 by {
                            let off = w.len() - limit;
                            assert(kn[a] == w[a + off]);
                            assert(kn[b] == w[b + off]);
                        }
                    }
                }
            },
        }
        self.entries = entries;
    }
}

/// What the cache gives back of a write: right after storing `val` under
/// `k`, the cache answers `k` with `val`, whatever the limit.
pub proof fn lemma_insert_then_get(v: CacheView, k: Seq<char>, val: Seq<u8>, limit: nat)
    requires
        keys_distinct(v),
    ensures
        spec_cache_get(spec_cache_insert(v, k, val, limit), k) == Some(val),
{
    lemma_cache_index(v, k);
    let out = spec_cache_insert(v, k, val, limit);
    match cache_index(v, k) {
        Some(i) => {
            let w = v.remove(i);
            assert forall|a: int, b: int| 0 <= a < b < w.len() implies w[a].0 != w[b].0 by {
                let oa = if a < i { a } else { a + 1 };
                let ob = if b < i { b } else { b + 1 };
                assert(w[a] == v[oa]);
                assert(w[b] == v[ob]);
            }
            assert forall|a: int| 0 <= a < w.len() implies w[a].0 != k by {
                let oa = if a < i { a } else { a + 1 };
                assert(w[a] == v[oa]);
            }
            let o = w.push((k, val));
            assert forall|a: int, b: int| 0 <= a < b < o.len() implies o[a].0 != o[b].0 by {
                if b < w.len() {
                    assert(o[a] == w[a]);
                    assert(o[b] == w[b]);
                } else {
                    assert(o[a] == w[a]);
                }
            }
            lemma_cache_index_at(o, k, o.len() - 1);
        },
        None => {
            let w = v.push((k, val));
            assert forall|a: int, b: int| 0 <= a < b < w.len() implies w[a].0 != w[b].0 by {
                if b == w.len() - 1 {
                    assert(w[a] == v[a]);
                } else {
                    assert(w[a] == v[a]);
                    assert(w[b] == v[b]);
                }
            }
            let kn = keep_newest(w, limit);
            if limit > 0 && w.len() > limit {
                let off = w.len() - limit;
                assert forall|a: int, b: int| 0 <= a < b < kn.len() implies kn[a].0 != kn[b].0 by {
                    assert(kn[a] == w[a + off]);
                    assert(kn[b] == w[b + off]);
                }
                assert(kn[kn.len() - 1] == w[w.len() - 1]);
            }
            lemma_cache_index_at(kn, k, kn.len() - 1);
        },
    }
}

/// A cache within a non-zero limit stays within it.
pub proof fn lemma_insert_bounded(v: CacheView, k: Seq<char>, val: Seq<u8>, limit: nat)
    requires
        limit > 0,
        v.len() <= limit,
    ensures
        spec_cache_insert(v, k, val, limit).len() <= limit,
{
    lemma_cache_index(v, k);
}

} // verus!
