//! The search engine's index: the items, and for each ingredient the
//! positions of the items that list it.

use crate::ranking::rank;
use crate::search::{
    closeness, item_views, lowered_len, match_weight, shared, weight_of, Closeness, ItemView,
    SearchItem,
};
use crate::text::{join_tokens, joined, lowercase, lowercase_of, texts, tokenize, tokens_of};
use vstd::prelude::*;

verus! {

/// The positions that the ingredients `list` of the item at `at` add under
/// the key `k`: `at` once for each ingredient that is `k` in lower case.
pub open spec fn item_postings(list: Seq<Seq<char>>, at: usize, k: Seq<char>) -> Seq<usize>
    decreases list.len(),
{
    if list.len() == 0 {
        Seq::empty()
    } else {
        item_postings(list.drop_last(), at, k) + if lowercase_of(list.last()) == k {
            seq![at]
        } else {
            Seq::empty()
        }
    }
}

/// The positions of the items that list the ingredient `k`, in order. An
/// item that lists it twice stands twice.
pub open spec fn postings(items: Seq<ItemView>, k: Seq<char>) -> Seq<usize>
    decreases items.len(),
{
    if items.len() == 0 {
        Seq::empty()
    } else {
        postings(items.drop_last(), k) + item_postings(
            items.last().ingredients,
            (items.len() - 1) as usize,
            k,
        )
    }
}

/// The index of `items`: every ingredient that some item lists, in lower
/// case, with its postings.
pub open spec fn index_of(items: Seq<ItemView>) -> Map<Seq<char>, Seq<usize>> {
    Map::new(|k: Seq<char>| postings(items, k).len() > 0, |k: Seq<char>| postings(items, k))
}

/// Every posting is the position of an item.
pub proof fn lemma_postings_in_range(items: Seq<ItemView>, k: Seq<char>)
    requires
        items.len() <= usize::MAX,
    ensures
        forall|i: int| 0 <= i < postings(items, k).len() ==> (#[trigger] postings(items, k)[i])
            < items.len(),
    decreases items.len(),
{
    if items.len() > 0 {
        lemma_postings_in_range(items.drop_last(), k);
        lemma_item_postings_all(items.last().ingredients, (items.len() - 1) as usize, k);
        let earlier = postings(items.drop_last(), k);
        let own = item_postings(items.last().ingredients, (items.len() - 1) as usize, k);
        assert forall|i: int| 0 <= i < postings(items, k).len() implies (#[trigger] postings(
            items,
            k,
        )[i]) < items.len() by {
            if i < earlier.len() {
                assert(postings(items, k)[i] == earlier[i]);
            } else {
                assert(postings(items, k)[i] == own[i - earlier.len()]);
            }
        }
    }
}

/// Every posting of one item is that item's position.
pub proof fn lemma_item_postings_all(list: Seq<Seq<char>>, at: usize, k: Seq<char>)
    ensures
        forall|i: int| 0 <= i < item_postings(list, at, k).len() ==> (#[trigger] item_postings(
            list,
            at,
            k,
        )[i]) == at,
    decreases list.len(),
{
    if list.len() > 0 {
        lemma_item_postings_all(list.drop_last(), at, k);
        let earlier = item_postings(list.drop_last(), at, k);
        assert forall|i: int| 0 <= i < item_postings(list, at, k).len() implies (
        #[trigger] item_postings(list, at, k)[i]) == at by {
            if i < earlier.len() {
                assert(item_postings(list, at, k)[i] == earlier[i]);
            }
        }
    }
}

struct IndexEntry {
    key: String,
    positions: Vec<usize>,
}

spec fn key_at(s: Seq<IndexEntry>, i: int) -> Seq<char> {
    s[i].key@
}

spec fn no_key_twice(s: Seq<IndexEntry>) -> bool {
    forall|i: int, j: int| 0 <= i < j < s.len() ==> key_at(s, i) != key_at(s, j)
}

spec fn holds(s: Seq<IndexEntry>, k: Seq<char>) -> bool {
    exists|i: int| 0 <= i < s.len() && #[trigger] key_at(s, i) == k
}

/// What the entries hold while the index is built: under every key the
/// postings `so_far`, and no key without postings.
spec fn holds_postings(s: Seq<IndexEntry>, so_far: spec_fn(Seq<char>) -> Seq<usize>) -> bool {
    &&& no_key_twice(s)
    &&& forall|i: int| 0 <= i < s.len() ==> (#[trigger] s[i]).positions@ == so_far(key_at(s, i))
    &&& forall|k: Seq<char>| so_far(k).len() > 0 <==> #[trigger] holds(s, k)
}

/// The postings after the first `done` ingredients of the item at `at`.
spec fn partial(items: Seq<ItemView>, at: int, done: int) -> spec_fn(Seq<char>) -> Seq<usize> {
    |k: Seq<char>|
        postings(items.take(at), k) + item_postings(
            items[at].ingredients.take(done),
            at as usize,
            k,
        )
}

/// For each ingredient the positions of the items that list it.
pub struct IngredientIndex {
    entries: Vec<IndexEntry>,
    items: Ghost<Seq<ItemView>>,
}

impl View for IngredientIndex {
    type V = Map<Seq<char>, Seq<usize>>;

    closed spec fn view(&self) -> Map<Seq<char>, Seq<usize>> {
        index_of(self.items@)
    }
}

impl IngredientIndex {
    #[verifier::type_invariant]
    spec fn well_formed(self) -> bool {
        holds_postings(self.entries@, |k: Seq<char>| postings(self.items@, k))
    }

    /// The index of no items.
    pub fn new() -> (index: Self)
        ensures
            index@ == index_of(Seq::<ItemView>::empty()),
    {
        let index = IngredientIndex { entries: Vec::new(), items: Ghost(Seq::empty()) };
        assert(forall|k: Seq<char>| !holds(index.entries@, k));
        index
    }

    fn find(entries: &Vec<IndexEntry>, key: &String) -> (r: Option<usize>)
        ensures
            match r {
                Some(i) => i < entries@.len() && key_at(entries@, i as int) == key@,
                None => !holds(entries@, key@),
            },
    {
        let mut i: usize = 0;
        while i < entries.len()
            invariant
                i <= entries@.len(),
                forall|j: int| 0 <= j < i ==> key_at(entries@, j) != key@,
            decreases entries.len() - i,
        {
            if entries[i].key == *key {
                return Some(i);
            }
            i += 1;
        }
        None
    }

    /// Builds the index of `items`.
    pub fn build(items: &Vec<SearchItem>) -> (index: Self)
        ensures
            index@ == index_of(item_views(items@)),
    {
        let ghost all = item_views(items@);
        let mut entries: Vec<IndexEntry> = Vec::new();
        let mut at: usize = 0;
        proof {
            assert(all.take(0) =~= Seq::<ItemView>::empty());
            assert(all[0].ingredients.take(0) =~= Seq::<Seq<char>>::empty());
            assert(forall|k: Seq<char>| !holds(entries@, k));
            assert(forall|k: Seq<char>| (#[trigger] partial(all, 0, 0)(k)) =~= Seq::<usize>::empty());
        }
        while at < items.len()
            invariant
                at <= items.len(),
                all == item_views(items@),
                holds_postings(entries@, partial(all, at as int, 0)),
            decreases items.len() - at,
        {
            let list = &items[at].ingredients;
            let ghost names = all[at as int].ingredients;
            assert(names == texts(list@));
            let mut done: usize = 0;
            while done < list.len()
                invariant
                    done <= list.len(),
                    at < items.len(),
                    all == item_views(items@),
                    names == all[at as int].ingredients,
                    names == texts(list@),
                    holds_postings(entries@, partial(all, at as int, done as int)),
                decreases list.len() - done,
            {
                let key = lowercase(list[done].as_str());
                let ghost k0 = key@;
                let ghost old_entries = entries@;
                let ghost before = partial(all, at as int, done as int);
                let ghost after = partial(all, at as int, done + 1);
                proof {
                    assert(names.take(done + 1).drop_last() =~= names.take(done as int));
                    assert(names.take(done + 1).last() == list@[done as int]@);
                    assert forall|k: Seq<char>| #[trigger] after(k) == before(k) + if k == k0 {
                        seq![at]
                    } else {
                        Seq::<usize>::empty()
                    } by {
                        assert(after(k) =~= before(k) + if k == k0 {
                            seq![at]
                        } else {
                            Seq::<usize>::empty()
                        });
                    }
                    assert forall|k: Seq<char>| k != k0 implies #[trigger] after(k) == before(
                        k,
                    ) by {
                        assert(before(k) + Seq::<usize>::empty() =~= before(k));
                    }
                }
                match Self::find(&entries, &key) {
                    Some(i) => {
                        let mut entry = IndexEntry { key, positions: Vec::new() };
                        std::mem::swap(&mut entry, &mut entries[i]);
                        entry.positions.push(at);
                        entries.set(i, entry);
                        proof {
                            let now = entries@;
                            assert(now.len() == old_entries.len());
                            assert forall|j: int| 0 <= j < now.len() implies key_at(now, j)
                                == key_at(old_entries, j) by {}
                            assert(now[i as int].positions@ =~= before(k0) + seq![at]);
                            assert forall|j: int| 0 <= j < now.len() implies (
                            #[trigger] now[j]).positions@ == after(key_at(now, j)) by {
                                if j != i {
                                    assert(now[j] == old_entries[j]);
                                    if j < i {
                                        assert(key_at(old_entries, j) != key_at(
                                            old_entries,
                                            i as int,
                                        ));
                                    } else {
                                        assert(key_at(old_entries, i as int) != key_at(
                                            old_entries,
                                            j,
                                        ));
                                    }
                                }
                            }
                            assert forall|k: Seq<char>| after(k).len() > 0 <==> #[trigger] holds(
                                now,
                                k,
                            ) by {
                                if holds(now, k) {
                                    let j = choose|j: int|
                                        0 <= j < now.len() && #[trigger] key_at(now, j) == k;
                                    assert(key_at(old_entries, j) == k);
                                    assert(holds(old_entries, k));
                                }
                                if after(k).len() > 0 {
                                    if k == k0 {
                                        assert(key_at(now, i as int) == k);
                                    } else {
                                        assert(holds(old_entries, k));
                                        let j = choose|j: int|
                                            0 <= j < old_entries.len() && #[trigger] key_at(
                                                old_entries,
                                                j,
                                            ) == k;
                                        assert(key_at(now, j) == k);
                                    }
                                }
                            }
                            assert(no_key_twice(now)) by {
                                assert forall|a: int, b: int|
                                    0 <= a < b < now.len() implies key_at(now, a) != key_at(
                                    now,
                                    b,
                                ) by {
                                    assert(key_at(old_entries, a) != key_at(old_entries, b));
                                }
                            }
                        }
                    },
                    None => {
                        let mut positions: Vec<usize> = Vec::new();
                        positions.push(at);
                        entries.push(IndexEntry { key, positions });
                        proof {
                            let now = entries@;
                            assert(before(k0).len() == 0);
                            assert(before(k0) + seq![at] =~= seq![at]);
                            assert(now[old_entries.len() as int].positions@ =~= seq![at]);
                            assert forall|j: int| 0 <= j < old_entries.len() implies key_at(now, j)
                                == key_at(old_entries, j) && key_at(now, j) != k0 by {
                                assert(now[j] == old_entries[j]);
                                assert(holds(old_entries, key_at(old_entries, j)));
                            }
                            assert forall|j: int| 0 <= j < now.len() implies (
                            #[trigger] now[j]).positions@ == after(key_at(now, j)) by {
                                if j < old_entries.len() {
                                    assert(now[j] == old_entries[j]);
                                }
                            }
                            assert forall|k: Seq<char>| after(k).len() > 0 <==> #[trigger] holds(
                                now,
                                k,
                            ) by {
                                if holds(now, k) {
                                    let j = choose|j: int|
                                        0 <= j < now.len() && #[trigger] key_at(now, j) == k;
                                    if j < old_entries.len() {
                                        assert(key_at(old_entries, j) == k);
                                        assert(holds(old_entries, k));
                                    }
                                }
                                if after(k).len() > 0 {
                                    if k == k0 {
                                        assert(key_at(now, old_entries.len() as int) == k);
                                    } else {
                                        assert(holds(old_entries, k));
                                        let j = choose|j: int|
                                            0 <= j < old_entries.len() && #[trigger] key_at(
                                                old_entries,
                                                j,
                                            ) == k;
                                        assert(key_at(now, j) == k);
                                    }
                                }
                            }
                            assert(no_key_twice(now)) by {
                                assert forall|a: int, b: int|
                                    0 <= a < b < now.len() implies key_at(now, a) != key_at(
                                    now,
                                    b,
                                ) by {
                                    if b < old_entries.len() {
                                        assert(key_at(old_entries, a) != key_at(old_entries, b));
                                    }
                                }
                            }
                        }
                    },
                }
                done += 1;
            }
            proof {
                // The item is done: its postings are part of the postings so far.
                let finished = partial(all, at as int, list.len() as int);
                let next = partial(all, at + 1, 0);
                assert(names.take(list.len() as int) =~= names);
                assert(all.take(at + 1).drop_last() =~= all.take(at as int));
                assert(all.take(at + 1).last() == all[at as int]);
                assert forall|k: Seq<char>| #[trigger] next(k) == finished(k) by {
                    if at + 1 < all.len() {
                        assert(all[at + 1].ingredients.take(0) =~= Seq::<Seq<char>>::empty());
                    }
                    assert(item_postings(
                        all[at + 1].ingredients.take(0),
                        (at + 1) as usize,
                        k,
                    ) =~= Seq::<usize>::empty()) by {
                        assert(all[at + 1].ingredients.take(0).len() == 0);
                    }
                    assert(postings(all.take(at + 1), k) + Seq::<usize>::empty() =~= postings(
                        all.take(at + 1),
                        k,
                    ));
                }
            }
            at += 1;
        }
        proof {
            assert(all.take(at as int) =~= all);
            let last = partial(all, at as int, 0);
            assert forall|k: Seq<char>| #[trigger] last(k) == postings(all, k) by {
                assert(all[at as int].ingredients.take(0).len() == 0);
                assert(postings(all, k) + Seq::<usize>::empty() =~= postings(all, k));
            }
        }
        IngredientIndex { entries, items: Ghost(all) }
    }

    /// The postings of the ingredient `key`, which is in lower case.
    pub fn lookup(&self, key: &str) -> (r: Option<&Vec<usize>>)
        ensures
            match r {
                Some(list) => self@.contains_key(key@) && list@ == self@[key@],
                None => !self@.contains_key(key@),
            },
    {
        proof {
            use_type_invariant(self);
        }
        let owned = key.to_owned();
        match Self::find(&self.entries, &owned) {
            Some(i) => {
                assert(holds(self.entries@, key@));
                Some(&self.entries[i].positions)
            },
            None => None,
        }
    }
}

/// What is counted of one item for one query. The host turns the counts
/// into a score.
#[derive(Clone, Copy, Debug, PartialEq, Eq)]
pub struct Relevance {
    /// The weight of the item, or `None` where it does not fit the number
    /// type.
    pub weight: Option<u64>,
    /// Characters of the item's name that the query has too.
    pub common: usize,
    /// The longer of the two lengths, of the name and of the query.
    pub longest: usize,
}

/// The counts for `item` and the tokens of a query.
pub open spec fn relevance_of(item: ItemView, tokens: Seq<Seq<char>>) -> Relevance {
    Relevance {
        weight: if weight_of(item, tokens) <= u64::MAX {
            Some(weight_of(item, tokens) as u64)
        } else {
            None
        },
        common: shared(lowercase_of(item.name), lowercase_of(joined(tokens))) as usize,
        longest: (if lowered_len(item.name) >= lowered_len(joined(tokens)) {
            lowered_len(item.name)
        } else {
            lowered_len(joined(tokens))
        }) as usize,
    }
}

/// Counts what `item` has of the tokens of a query: the weight of the
/// fields that name a token, and how close the item's name is to the
/// tokens put together.
pub fn relevance(item: &SearchItem, tokens: &Vec<String>) -> (r: Relevance)
    ensures
        r == relevance_of(item@, texts(tokens@)),
{
    let weight = match_weight(item, tokens);
    let query = join_tokens(tokens);
    let near: Closeness = closeness(item.name.as_str(), query.as_str());
    Relevance { weight, common: near.common, longest: near.longest }
}

/// The keys are what `score` gives for the counts of each item.
pub open spec fn scored_by<F: Fn(Relevance) -> u64>(
    items: Seq<ItemView>,
    tokens: Seq<Seq<char>>,
    score: F,
    keys: Seq<u64>,
) -> bool {
    &&& keys.len() == items.len()
    &&& forall|i: int|
        0 <= i < items.len() ==> call_ensures(
            score,
            (relevance_of(#[trigger] items[i], tokens),),
            keys[i],
        )
}

/// The items that can be searched, with the index of their ingredients.
pub struct FuzzySearchEngine {
    cocktails: Vec<SearchItem>,
    ingredients: IngredientIndex,
}

impl View for FuzzySearchEngine {
    type V = Seq<ItemView>;

    closed spec fn view(&self) -> Seq<ItemView> {
        item_views(self.cocktails@)
    }
}

impl FuzzySearchEngine {
    #[verifier::type_invariant]
    spec fn well_formed(self) -> bool {
        self.ingredients@ == index_of(item_views(self.cocktails@))
    }

    /// An engine without items.
    pub fn new() -> (e: Self)
        ensures
            e@ == Seq::<ItemView>::empty(),
    {
        let cocktails: Vec<SearchItem> = Vec::new();
        assert(item_views(cocktails@) =~= Seq::<ItemView>::empty());
        FuzzySearchEngine { cocktails, ingredients: IngredientIndex::new() }
    }

    /// Takes `decoded` as the items to search and builds the index of their
    /// ingredients. Where the items could not be decoded, which is `None`,
    /// the engine stays as it is.
    pub fn index_cocktails(&mut self, decoded: Option<Vec<SearchItem>>)
        ensures
            match decoded {
                Some(list) => final(self)@ == item_views(list@),
                None => final(self)@ == old(self)@,
            },
    {
        match decoded {
            Some(list) => {
                let index = IngredientIndex::build(&list);
                *self = FuzzySearchEngine { cocktails: list, ingredients: index };
            },
            None => {},
        }
    }

    /// Number of items.
    pub fn len(&self) -> (n: usize)
        ensures
            n == self@.len(),
    {
        self.cocktails.len()
    }

    /// The item at `position`.
    pub fn item(&self, position: usize) -> (r: Option<&SearchItem>)
        ensures
            match r {
                Some(item) => position < self@.len() && item@ == self@[position as int],
                None => position >= self@.len(),
            },
    {
        if position < self.cocktails.len() {
            Some(&self.cocktails[position])
        } else {
            None
        }
    }

    /// The positions of the items that list `ingredient`, case apart, in
    /// the order of the items.
    pub fn search_by_ingredient(&self, ingredient: &str) -> (out: Vec<usize>)
        ensures
            out@ == postings(self@, lowercase_of(ingredient@)),
            forall|i: int| 0 <= i < out@.len() ==> (#[trigger] out@[i]) < self@.len(),
    {
        proof {
            use_type_invariant(self);
        }
        let key = lowercase(ingredient);
        let mut out: Vec<usize> = Vec::new();
        let count = self.cocktails.len();
        proof {
            assert(self@.len() == count);
            lemma_postings_in_range(self@, key@);
        }
        match self.ingredients.lookup(key.as_str()) {
            Some(list) => {
                let mut i: usize = 0;
                while i < list.len()
                    invariant
                        i <= list.len(),
                        list@ == postings(self@, key@),
                        self@.len() == count,
                        forall|j: int|
                            0 <= j < list@.len() ==> (#[trigger] list@[j]) < self@.len(),
                        out@ == list@.take(i as int),
                    decreases list.len() - i,
                {
                    let position = list[i];
                    if position < count {
                        out.push(position);
                    }
                    assert(out@ =~= list@.take(i + 1));
                    i += 1;
                }
                assert(list@.take(i as int) =~= list@);
            },
            None => {
                assert(postings(self@, key@) =~= Seq::<usize>::empty());
            },
        }
        out
    }

    /// Searches the items for `query`: counts the relevance of each item
    /// for the tokens of the query, lets `score` turn the counts into a
    /// key, and ranks the items by their keys. The result holds the
    /// positions of the items whose key is not 0, best first, and no more
    /// than `limit`.
    pub fn search<F: Fn(Relevance) -> u64>(&self, query: &str, limit: usize, score: F) -> (out:
        Vec<usize>)
        requires
            forall|r: Relevance| call_requires(score, (r,)),
        ensures
            exists|keys: Seq<u64>|
                #![trigger scored_by(self@, tokens_of(query@), score, keys)]
                scored_by(self@, tokens_of(query@), score, keys)
                    && crate::ranking::is_ranking(keys, limit as nat, out@),
    {
        let tokens = tokenize(query);
        let mut keys: Vec<u64> = Vec::new();
        let mut i: usize = 0;
        while i < self.cocktails.len()
            invariant
                i <= self.cocktails.len(),
                keys@.len() == i,
                texts(tokens@) == tokens_of(query@),
                forall|r: Relevance| call_requires(score, (r,)),
                forall|j: int|
                    0 <= j < i ==> call_ensures(
                        score,
                        (relevance_of(#[trigger] self@[j], texts(tokens@)),),
                        keys@[j],
                    ),
            decreases self.cocktails.len() - i,
        {
            let counts = relevance(&self.cocktails[i], &tokens);
            assert(self@[i as int] == self.cocktails@[i as int]@);
            let key = score(counts);
            keys.push(key);
            i += 1;
        }
        let out = rank(&keys, limit);
        assert(scored_by(self@, tokens_of(query@), score, keys@));
        out
    }
}

} // verus!
