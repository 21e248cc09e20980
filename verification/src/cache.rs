//! The edge read-cache: results of a ranked read, kept for a short time
//! under the hash of the query.
//!
//! The cache is never a source of truth. An entry may be dropped at any
//! time; a result that was dropped is computed again.

use crate::hash::{blake3_hex, content_hash};
use crate::text::{join_tokens, joined, tokenize, tokens_of};
use vstd::prelude::*;
use vstd::string::StringExecFns;
use vstd::utf8::encode_utf8;

verus! {

/// The time that a result stays in the cache where no other is chosen.
pub const DEFAULT_TTL_SECONDS: u64 = 300;

/// One cached result.
#[derive(Debug)]
pub struct CacheEntry {
    pub key: String,
    pub value: String,
    pub expires_at: u64,
}

/// What the cache holds under one key, as a mathematical value.
pub struct CachedValue {
    pub value: Seq<char>,
    pub expires_at: u64,
}

/// Mathematical value of a cache: what it holds under each key, and the
/// time that a new entry stays.
pub struct CacheModel {
    pub entries: Map<Seq<char>, CachedValue>,
    pub ttl: u64,
}

/// The query in its normal form: its words in lower case, with one space
/// between them. Queries with the same normal form are matched against the
/// same tokens, so they have the same result.
pub open spec fn normalized(query: Seq<char>) -> Seq<char> {
    joined(tokens_of(query))
}

/// The key under which the result of `query` is cached.
pub open spec fn key_of(query: Seq<char>) -> Seq<char> {
    "search:"@ + blake3_hex(encode_utf8(normalized(query)))
}

/// The entry under `key` is there and has not expired at `now`.
pub open spec fn fresh(m: Map<Seq<char>, CachedValue>, key: Seq<char>, now: u64) -> bool {
    m.contains_key(key) && now < m[key].expires_at
}

/// The entries after `value` was stored under `key` at `now`. An entry
/// whose expiry would lie beyond the last instant that can be told is not
/// stored.
pub open spec fn stored(
    m: Map<Seq<char>, CachedValue>,
    key: Seq<char>,
    value: Seq<char>,
    now: u64,
    ttl: u64,
) -> Map<Seq<char>, CachedValue> {
    if now + ttl <= u64::MAX {
        m.insert(key, CachedValue { value, expires_at: (now + ttl) as u64 })
    } else {
        m
    }
}

/// The entries that have not expired at `now`.
pub open spec fn unexpired(m: Map<Seq<char>, CachedValue>, now: u64) -> Map<
    Seq<char>,
    CachedValue,
> {
    Map::new(|k: Seq<char>| fresh(m, k, now), |k: Seq<char>| m[k])
}

/// Brings a query into its normal form.
pub fn normalize(query: &str) -> (normal: String)
    ensures
        normal@ == normalized(query@),
{
    join_tokens(&tokenize(query))
}

/// Derives the cache key of a query: the word `search:` and the hash of
/// the bytes of the query in its normal form.
pub fn cache_key(query: &str) -> (key: String)
    ensures
        key@ == key_of(query@),
{
    let normal = normalize(query);
    let hex = content_hash(normal.as_str().as_bytes());
    let mut key = "search:".to_owned();
    key.append(hex.as_str());
    key
}

spec fn key_at(s: Seq<CacheEntry>, i: int) -> Seq<char> {
    s[i].key@
}

spec fn no_key_twice(s: Seq<CacheEntry>) -> bool {
    forall|i: int, j: int| 0 <= i < j < s.len() ==> key_at(s, i) != key_at(s, j)
}

spec fn holds(s: Seq<CacheEntry>, k: Seq<char>) -> bool {
    exists|i: int| 0 <= i < s.len() && #[trigger] key_at(s, i) == k
}

spec fn place_of(s: Seq<CacheEntry>, k: Seq<char>) -> int {
    choose|i: int| 0 <= i < s.len() && #[trigger] key_at(s, i) == k
}

spec fn value_at(s: Seq<CacheEntry>, i: int) -> CachedValue {
    CachedValue { value: s[i].value@, expires_at: s[i].expires_at }
}

spec fn table(s: Seq<CacheEntry>) -> Map<Seq<char>, CachedValue> {
    Map::new(|k: Seq<char>| holds(s, k), |k: Seq<char>| value_at(s, place_of(s, k)))
}

proof fn lemma_table_at(s: Seq<CacheEntry>, i: int)
    requires
        no_key_twice(s),
        0 <= i < s.len(),
    ensures
        table(s).contains_key(key_at(s, i)),
        table(s)[key_at(s, i)] == value_at(s, i),
{
    let k = key_at(s, i);
    assert(holds(s, k));
    let j = place_of(s, k);
    assert(key_at(s, j) == k);
    if j < i {
        assert(key_at(s, j) != key_at(s, i));
    }
    if i < j {
        assert(key_at(s, i) != key_at(s, j));
    }
}

proof fn lemma_table_without(s: Seq<CacheEntry>, i: int)
    requires
        no_key_twice(s),
        0 <= i < s.len(),
    ensures
        no_key_twice(s.remove(i)),
        table(s.remove(i)) == table(s).remove(key_at(s, i)),
{
    let t = s.remove(i);
    assert forall|a: int| 0 <= a < t.len() implies key_at(t, a) == key_at(
        s,
        if a < i {
            a
        } else {
            a + 1
        },
    ) && value_at(t, a) == value_at(
        s,
        if a < i {
            a
        } else {
            a + 1
        },
    ) by {}
    assert(no_key_twice(t)) by {
        assert forall|a: int, b: int| 0 <= a < b < t.len() implies key_at(t, a) != key_at(
            t,
            b,
        ) by {
            let a1 = if a < i {
                a
            } else {
                a + 1
            };
            let b1 = if b < i {
                b
            } else {
                b + 1
            };
            assert(key_at(s, a1) != key_at(s, b1));
        }
    }
    assert(table(t) =~= table(s).remove(key_at(s, i))) by {
        assert forall|q: Seq<char>| table(t).contains_key(q) <==> table(s).remove(
            key_at(s, i),
        ).contains_key(q) by {
            if holds(t, q) {
                let a = place_of(t, q);
                let a1 = if a < i {
                    a
                } else {
                    a + 1
                };
                assert(key_at(s, a1) == q);
                if a1 < i {
                    assert(key_at(s, a1) != key_at(s, i));
                } else {
                    assert(key_at(s, i) != key_at(s, a1));
                }
            }
            if q != key_at(s, i) && holds(s, q) {
                let a = place_of(s, q);
                let a0 = if a < i {
                    a
                } else {
                    a - 1
                };
                assert(key_at(t, a0) == q);
            }
        }
        assert forall|q: Seq<char>| table(t).contains_key(q) implies table(t)[q] == table(
            s,
        ).remove(key_at(s, i))[q] by {
            let a = place_of(t, q);
            let a1 = if a < i {
                a
            } else {
                a + 1
            };
            lemma_table_at(t, a);
            lemma_table_at(s, a1);
        }
    }
}

proof fn lemma_table_len(s: Seq<CacheEntry>)
    requires
        no_key_twice(s),
    ensures
        table(s).dom().finite(),
        table(s).dom().len() == s.len(),
    decreases s.len(),
{
    if s.len() == 0 {
        assert(table(s).dom() =~= Set::<Seq<char>>::empty());
    } else {
        let i = s.len() - 1;
        lemma_table_without(s, i);
        lemma_table_at(s, i);
        assert(s.remove(i) =~= s.drop_last());
        lemma_table_len(s.drop_last());
        assert(table(s).dom() =~= table(s.drop_last()).dom().insert(key_at(s, i)));
    }
}

/// A cache with a fixed time to live.
pub struct EdgeCache {
    entries: Vec<CacheEntry>,
    ttl: u64,
}

impl View for EdgeCache {
    type V = CacheModel;

    closed spec fn view(&self) -> CacheModel {
        CacheModel { entries: table(self.entries@), ttl: self.ttl }
    }
}

impl EdgeCache {
    #[verifier::type_invariant]
    spec fn well_formed(self) -> bool {
        no_key_twice(self.entries@)
    }

    /// An empty cache whose entries stay for `ttl`.
    pub fn new(ttl: u64) -> (c: Self)
        ensures
            c@.entries == Map::<Seq<char>, CachedValue>::empty(),
            c@.ttl == ttl,
    {
        let c = EdgeCache { entries: Vec::new(), ttl };
        assert(table(c.entries@) =~= Map::<Seq<char>, CachedValue>::empty()) by {
            assert forall|k: Seq<char>| !holds(c.entries@, k) by {}
        }
        c
    }

    /// The time that a new entry stays.
    pub fn ttl(&self) -> (t: u64)
        ensures
            t == self@.ttl,
    {
        self.ttl
    }

    fn find(&self, key: &String) -> (r: Option<usize>)
        ensures
            match r {
                Some(i) => i < self.entries@.len() && key_at(self.entries@, i as int) == key@,
                None => !holds(self.entries@, key@),
            },
    {
        let mut i: usize = 0;
        while i < self.entries.len()
            invariant
                i <= self.entries@.len(),
                forall|j: int| 0 <= j < i ==> key_at(self.entries@, j) != key@,
            decreases self.entries.len() - i,
        {
            if self.entries[i].key == *key {
                return Some(i);
            }
            i += 1;
        }
        None
    }

    /// The value that is cached under `key`, unless it has expired at
    /// `now`.
    pub fn lookup(&self, key: &str, now: u64) -> (r: Option<String>)
        ensures
            fresh(self@.entries, key@, now) ==> r is Some && r->0@ == self@.entries[key@].value,
            !fresh(self@.entries, key@, now) ==> r is None,
    {
        proof {
            use_type_invariant(self);
        }
        let owned = key.to_owned();
        match self.find(&owned) {
            Some(i) => {
                proof {
                    lemma_table_at(self.entries@, i as int);
                }
                if now < self.entries[i].expires_at {
                    Some(self.entries[i].value.clone())
                } else {
                    None
                }
            },
            None => None,
        }
    }

    /// Stores `value` under `key` until `now` plus the time to live, in
    /// place of what was stored under `key` before.
    pub fn insert(&mut self, key: String, value: String, now: u64)
        ensures
            final(self)@.entries == stored(old(self)@.entries, key@, value@, now, old(self)@.ttl),
            final(self)@.ttl == old(self)@.ttl,
    {
        proof {
            use_type_invariant(&*self);
        }
        let expires_at = match now.checked_add(self.ttl) {
            Some(t) => t,
            None => {
                return ;
            },
        };
        let found = self.find(&key);
        let ghost before = self.entries@;
        let ghost k = key@;
        let entry = CacheEntry { key, value, expires_at };
        let ghost cached = CachedValue { value: entry.value@, expires_at };
        let mut entries: Vec<CacheEntry> = Vec::new();
        std::mem::swap(&mut entries, &mut self.entries);
        match found {
            Some(i) => {
                entries.set(i, entry);
            },
            None => {
                entries.push(entry);
            },
        }
        proof {
            let after = entries@;
            let at: int = match found {
                Some(i) => i as int,
                None => before.len() as int,
            };
            assert(key_at(after, at) == k);
            assert forall|j: int| 0 <= j < after.len() && j != at implies key_at(after, j)
                == key_at(before, j) && value_at(after, j) == value_at(before, j) && key_at(
                before,
                j,
            ) != k by {
                if found is Some {
                    if j < at {
                        assert(key_at(before, j) != key_at(before, at));
                    } else {
                        assert(key_at(before, at) != key_at(before, j));
                    }
                }
            }
            assert(no_key_twice(after)) by {
                assert forall|a: int, b: int| 0 <= a < b < after.len() implies key_at(after, a)
                    != key_at(after, b) by {
                    if a != at && b != at {
                        assert(key_at(before, a) != key_at(before, b));
                    }
                }
            }
            assert(table(after) =~= table(before).insert(k, cached)) by {
                assert forall|q: Seq<char>| table(after).contains_key(q) <==> table(
                    before,
                ).insert(k, cached).contains_key(q) by {
                    if holds(after, q) {
                        let j = place_of(after, q);
                        if j != at {
                            assert(key_at(before, j) == q);
                        }
                    }
                    if q != k && holds(before, q) {
                        let j = place_of(before, q);
                        assert(key_at(after, j) == q);
                    }
                }
                assert forall|q: Seq<char>| table(after).contains_key(q) implies table(after)[q]
                    == table(before).insert(k, cached)[q] by {
                    let j = place_of(after, q);
                    lemma_table_at(after, j);
                    if j != at {
                        lemma_table_at(before, j);
                    }
                }
            }
        }
        self.entries = entries;
    }

    /// Drops every entry that has expired at `now`. What has not expired
    /// stays as it is.
    pub fn purge_expired(&mut self, now: u64)
        ensures
            final(self)@.entries == unexpired(old(self)@.entries, now),
            final(self)@.ttl == old(self)@.ttl,
    {
        proof {
            use_type_invariant(&*self);
        }
        let ghost at_start = table(self.entries@);
        let mut entries: Vec<CacheEntry> = Vec::new();
        std::mem::swap(&mut entries, &mut self.entries);
        let mut i: usize = 0;
        while i < entries.len()
            invariant
                i <= entries@.len(),
                no_key_twice(entries@),
                forall|j: int| 0 <= j < i ==> now < (#[trigger] entries@[j]).expires_at,
                unexpired(table(entries@), now) == unexpired(at_start, now),
            decreases entries.len() - i,
        {
            if entries[i].expires_at <= now {
                let ghost before = entries@;
                proof {
                    lemma_table_without(before, i as int);
                    lemma_table_at(before, i as int);
                    assert(unexpired(table(before).remove(key_at(before, i as int)), now)
                        =~= unexpired(table(before), now));
                }
                let _ = entries.remove(i);
            } else {
                i += 1;
            }
        }
        proof {
            assert(table(entries@) =~= unexpired(table(entries@), now)) by {
                assert forall|q: Seq<char>| table(entries@).contains_key(q) implies fresh(
                    table(entries@),
                    q,
                    now,
                ) by {
                    let a = place_of(entries@, q);
                    lemma_table_at(entries@, a);
                }
            }
        }
        self.entries = entries;
    }

    /// Number of entries, expired ones too.
    pub fn len(&self) -> (n: usize)
        ensures
            n == self@.entries.dom().len(),
            self@.entries.dom().finite(),
    {
        proof {
            use_type_invariant(self);
            lemma_table_len(self.entries@);
        }
        self.entries.len()
    }

    /// Returns the result for `query`: the cached one where there is one
    /// that has not expired at `now`, and otherwise the one that `compute`
    /// gives, which is then cached.
    pub fn get_or_compute<F: FnOnce(&str) -> String>(
        &mut self,
        query: &str,
        now: u64,
        compute: F,
    ) -> (result: String)
        requires
            call_requires(compute, (query,)),
        ensures
            final(self)@.ttl == old(self)@.ttl,
            fresh(old(self)@.entries, key_of(query@), now) ==> result@ == old(
                self,
            )@.entries[key_of(query@)].value && final(self)@ == old(self)@,
            !fresh(old(self)@.entries, key_of(query@), now) ==> call_ensures(
                compute,
                (query,),
                result,
            ) && final(self)@.entries == stored(
                old(self)@.entries,
                key_of(query@),
                result@,
                now,
                old(self)@.ttl,
            ),
    {
        let key = cache_key(query);
        match self.lookup(key.as_str(), now) {
            Some(value) => value,
            None => {
                let value = compute(query);
                self.insert(key, value.clone(), now);
                value
            },
        }
    }
}

/// Within the time to live, a stored result is served: no computation is
/// asked for.
pub proof fn lemma_hit_within_ttl(
    m: Map<Seq<char>, CachedValue>,
    key: Seq<char>,
    value: Seq<char>,
    stored_at: u64,
    ttl: u64,
    now: u64,
)
    requires
        stored_at + ttl <= u64::MAX,
        now < stored_at + ttl,
    ensures
        fresh(stored(m, key, value, stored_at, ttl), key, now),
        stored(m, key, value, stored_at, ttl)[key].value == value,
{
}

/// Once the time to live has passed, a stored result is no longer served:
/// the next query computes again.
pub proof fn lemma_miss_after_expiry(
    m: Map<Seq<char>, CachedValue>,
    key: Seq<char>,
    value: Seq<char>,
    stored_at: u64,
    ttl: u64,
    now: u64,
)
    requires
        stored_at + ttl <= u64::MAX,
        now >= stored_at + ttl,
    ensures
        !fresh(stored(m, key, value, stored_at, ttl), key, now),
{
}

/// Storing under one key leaves what is cached under another as it was.
pub proof fn lemma_other_keys_untouched(
    m: Map<Seq<char>, CachedValue>,
    key: Seq<char>,
    value: Seq<char>,
    stored_at: u64,
    ttl: u64,
    other: Seq<char>,
    now: u64,
)
    requires
        other != key,
    ensures
        fresh(stored(m, key, value, stored_at, ttl), other, now) == fresh(m, other, now),
        fresh(m, other, now) ==> stored(m, key, value, stored_at, ttl)[other] == m[other],
{
}

} // verus!
