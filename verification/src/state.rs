//! The in-memory state of one scope: at most one record per item key.

use crate::record::{AvailabilityRecord, RecordView};
use vstd::prelude::*;

verus! {

/// The mathematical values of a sequence of records, in order.
pub open spec fn views(s: Seq<AvailabilityRecord>) -> Seq<RecordView> {
    s.map_values(|r: AvailabilityRecord| r@)
}

/// No two records of `s` share an item key.
pub open spec fn distinct_keys(s: Seq<RecordView>) -> bool {
    forall|i: int, j: int| 0 <= i < j < s.len() ==> s[i].item_key != s[j].item_key
}

/// Some record of `s` has item key `key`.
pub open spec fn has_key(s: Seq<RecordView>, key: Seq<char>) -> bool {
    exists|i: int| 0 <= i < s.len() && #[trigger] s[i].item_key == key
}

/// The map from item key to record that `s` stands for. Where a key occurs
/// more than once, the record that comes last is the one that counts.
pub open spec fn records_map(s: Seq<RecordView>) -> Map<Seq<char>, RecordView>
    decreases s.len(),
{
    if s.len() == 0 {
        Map::empty()
    } else {
        records_map(s.drop_last()).insert(s.last().item_key, s.last())
    }
}

/// A key is in the map of `s` exactly when some record of `s` carries it,
/// and the record stored under a key carries that key.
pub proof fn lemma_records_map_keys(s: Seq<RecordView>)
    ensures
        forall|k: Seq<char>| #[trigger] records_map(s).contains_key(k) <==> has_key(s, k),
        forall|k: Seq<char>| #[trigger]
            records_map(s).contains_key(k) ==> records_map(s)[k].item_key == k,
        records_map(s).dom().finite(),
    decreases s.len(),
{
    if s.len() > 0 {
        let init = s.drop_last();
        lemma_records_map_keys(init);
        assert forall|k: Seq<char>| #[trigger] records_map(s).contains_key(k) <==> has_key(
            s,
            k,
        ) by {
            if records_map(s).contains_key(k) {
                if k == s.last().item_key {
                    assert(s[s.len() - 1].item_key == k);
                } else {
                    assert(has_key(init, k));
                    let i = choose|i: int| 0 <= i < init.len() && #[trigger] init[i].item_key == k;
                    assert(s[i].item_key == k);
                }
            }
            if has_key(s, k) {
                let i = choose|i: int| 0 <= i < s.len() && #[trigger] s[i].item_key == k;
                if i < s.len() - 1 {
                    assert(init[i].item_key == k);
                }
            }
        }
    }
}

/// With distinct keys, every record of `s` is the one stored under its key.
pub proof fn lemma_records_map_index(s: Seq<RecordView>, i: int)
    requires
        distinct_keys(s),
        0 <= i < s.len(),
    ensures
        records_map(s).contains_key(s[i].item_key),
        records_map(s)[s[i].item_key] == s[i],
    decreases s.len(),
{
    let init = s.drop_last();
    if i < s.len() - 1 {
        assert(distinct_keys(init)) by {
            assert forall|a: int, b: int| 0 <= a < b < init.len() implies init[a].item_key
                != init[b].item_key by {
                assert(s[a].item_key != s[b].item_key);
            }
        }
        lemma_records_map_index(init, i);
        assert(s[i].item_key != s[s.len() - 1].item_key);
    }
}

/// With distinct keys, the map has as many keys as `s` has records.
pub proof fn lemma_records_map_len(s: Seq<RecordView>)
    requires
        distinct_keys(s),
    ensures
        records_map(s).dom().finite(),
        records_map(s).dom().len() == s.len(),
    decreases s.len(),
{
    lemma_records_map_keys(s);
    if s.len() > 0 {
        let init = s.drop_last();
        assert(distinct_keys(init)) by {
            assert forall|a: int, b: int| 0 <= a < b < init.len() implies init[a].item_key
                != init[b].item_key by {
                assert(s[a].item_key != s[b].item_key);
            }
        }
        lemma_records_map_len(init);
        lemma_records_map_keys(init);
        if has_key(init, s.last().item_key) {
            let i = choose|i: int| 0 <= i < init.len() && #[trigger] init[i].item_key
                == s.last().item_key;
            assert(s[i].item_key != s[s.len() - 1].item_key);
        }
        assert(!records_map(init).contains_key(s.last().item_key));
    }
}

/// Replacing the record at `i` by one with the same key replaces it in the map.
pub proof fn lemma_records_map_replace(s: Seq<RecordView>, i: int, r: RecordView)
    requires
        distinct_keys(s),
        0 <= i < s.len(),
        s[i].item_key == r.item_key,
    ensures
        distinct_keys(s.update(i, r)),
        records_map(s.update(i, r)) == records_map(s).insert(r.item_key, r),
    decreases s.len(),
{
    let t = s.update(i, r);
    let init = s.drop_last();
    assert(distinct_keys(t)) by {
        assert forall|a: int, b: int| 0 <= a < b < t.len() implies t[a].item_key
            != t[b].item_key by {
            assert(s[a].item_key != s[b].item_key);
        }
    }
    if i == s.len() - 1 {
        assert(t.drop_last() =~= init);
        assert(records_map(t) =~= records_map(s).insert(r.item_key, r));
    } else {
        assert(distinct_keys(init)) by {
            assert forall|a: int, b: int| 0 <= a < b < init.len() implies init[a].item_key
                != init[b].item_key by {
                assert(s[a].item_key != s[b].item_key);
            }
        }
        lemma_records_map_replace(init, i, r);
        assert(t.drop_last() =~= init.update(i, r));
        assert(t.last() == s.last());
        assert(s[i].item_key != s[s.len() - 1].item_key);
        assert(records_map(t) =~= records_map(s).insert(r.item_key, r));
    }
}

/// Appending a record with a new key adds it to the map.
pub proof fn lemma_records_map_push(s: Seq<RecordView>, r: RecordView)
    requires
        distinct_keys(s),
        !has_key(s, r.item_key),
    ensures
        distinct_keys(s.push(r)),
        records_map(s.push(r)) == records_map(s).insert(r.item_key, r),
{
    let t = s.push(r);
    assert(t.drop_last() =~= s);
    assert(distinct_keys(t)) by {
        assert forall|a: int, b: int| 0 <= a < b < t.len() implies t[a].item_key
            != t[b].item_key by {
            if b == s.len() {
                assert(s[a].item_key == t[a].item_key);
            } else {
                assert(s[a].item_key != s[b].item_key);
            }
        }
    }
}

/// `list` names every record of `m` once, and nothing else.
pub open spec fn holds_exactly(list: Seq<RecordView>, m: Map<Seq<char>, RecordView>) -> bool {
    &&& distinct_keys(list)
    &&& m.dom().finite()
    &&& list.len() == m.dom().len()
    &&& forall|i: int|
        0 <= i < list.len() ==> m.contains_key((#[trigger] list[i]).item_key) && m[list[i].item_key]
            == list[i]
    &&& forall|k: Seq<char>| #[trigger] m.contains_key(k) ==> has_key(list, k)
}

/// A list with distinct keys names every record of its map once.
pub proof fn lemma_list_holds_its_map(s: Seq<RecordView>)
    requires
        distinct_keys(s),
    ensures
        holds_exactly(s, records_map(s)),
{
    lemma_records_map_keys(s);
    lemma_records_map_len(s);
    assert forall|i: int| 0 <= i < s.len() implies records_map(s).contains_key(
        (#[trigger] s[i]).item_key,
    ) && records_map(s)[s[i].item_key] == s[i] by {
        lemma_records_map_index(s, i);
    }
}

/// The full map from item key to record for one scope.
pub struct ScopeState {
    records: Vec<AvailabilityRecord>,
}

impl View for ScopeState {
    type V = Map<Seq<char>, RecordView>;

    closed spec fn view(&self) -> Map<Seq<char>, RecordView> {
        records_map(views(self.records@))
    }
}

impl ScopeState {
    #[verifier::type_invariant]
    spec fn well_formed(self) -> bool {
        distinct_keys(views(self.records@))
    }

    /// The records in the order in which their keys were first seen.
    pub closed spec fn entries(&self) -> Seq<RecordView> {
        views(self.records@)
    }

    /// A state that tracks no item.
    pub fn new() -> (s: Self)
        ensures
            s@ == Map::<Seq<char>, RecordView>::empty(),
            s.entries() == Seq::<RecordView>::empty(),
    {
        let s = ScopeState { records: Vec::new() };
        assert(views(s.records@) =~= Seq::<RecordView>::empty());
        s
    }

    /// Number of tracked items.
    pub fn len(&self) -> (n: usize)
        ensures
            n == self.entries().len(),
            n == self@.dom().len(),
            self@.dom().finite(),
    {
        proof {
            use_type_invariant(self);
            lemma_records_map_len(views(self.records@));
        }
        self.records.len()
    }

    fn find_index(&self, key: &String) -> (r: Option<usize>)
        ensures
            match r {
                Some(i) => i < self.records.len() && self.records[i as int].item_key@ == key@,
                None => !has_key(views(self.records@), key@),
            },
    {
        let mut i: usize = 0;
        while i < self.records.len()
            invariant
                i <= self.records.len(),
                forall|j: int| 0 <= j < i ==> self.records[j].item_key@ != key@,
            decreases self.records.len() - i,
        {
            if self.records[i].item_key == *key {
                return Some(i);
            }
            i += 1;
        }
        assert(!has_key(views(self.records@), key@)) by {
            if has_key(views(self.records@), key@) {
                let j = choose|j: int|
                    0 <= j < views(self.records@).len() && #[trigger] views(
                        self.records@,
                    )[j].item_key == key@;
                assert(self.records[j].item_key@ == key@);
            }
        }
        None
    }

    /// The record that is tracked under `key`, if there is one.
    pub fn get(&self, key: &str) -> (r: Option<&AvailabilityRecord>)
        ensures
            match r {
                Some(rec) => self@.contains_key(key@) && self@[key@] == rec@,
                None => !self@.contains_key(key@),
            },
    {
        let owned = key.to_owned();
        proof {
            use_type_invariant(self);
            lemma_records_map_keys(views(self.records@));
        }
        match self.find_index(&owned) {
            Some(i) => {
                proof {
                    lemma_records_map_index(views(self.records@), i as int);
                }
                Some(&self.records[i])
            },
            None => None,
        }
    }

    /// Stores `record` under its item key, in place of the record that was
    /// there before, if any. All other records stay as they are.
    pub fn upsert(&mut self, record: AvailabilityRecord)
        ensures
            final(self)@ == old(self)@.insert(record@.item_key, record@),
            final(self).entries().len() == if old(self)@.contains_key(record@.item_key) {
                old(self).entries().len()
            } else {
                old(self).entries().len() + 1
            },
    {
        proof {
            use_type_invariant(&*self);
            lemma_records_map_keys(views(self.records@));
        }
        let ghost before = views(self.records@);
        let found = self.find_index(&record.item_key);
        let mut records: Vec<AvailabilityRecord> = Vec::new();
        std::mem::swap(&mut records, &mut self.records);
        match found {
            Some(i) => {
                proof {
                    lemma_records_map_replace(before, i as int, record@);
                }
                records.set(i, record);
                assert(views(records@) =~= before.update(i as int, record@));
            },
            None => {
                proof {
                    lemma_records_map_push(before, record@);
                }
                records.push(record);
                assert(views(records@) =~= before.push(record@));
            },
        }
        self.records = records;
    }

    /// A copy of every tracked record.
    pub fn snapshot(&self) -> (out: Vec<AvailabilityRecord>)
        ensures
            views(out@) == self.entries(),
            records_map(views(out@)) == self@,
            holds_exactly(views(out@), self@),
    {
        proof {
            use_type_invariant(self);
            lemma_list_holds_its_map(views(self.records@));
        }
        let mut out: Vec<AvailabilityRecord> = Vec::new();
        let mut i: usize = 0;
        while i < self.records.len()
            invariant
                i <= self.records.len(),
                out@.len() == i,
                forall|j: int| 0 <= j < i ==> out@[j]@ == self.records@[j]@,
            decreases self.records.len() - i,
        {
            out.push(self.records[i].clone());
            i += 1;
        }
        assert(views(out@) =~= views(self.records@));
        out
    }
}

} // verus!
