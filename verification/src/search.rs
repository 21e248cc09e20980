//! Matching of a query against the indexed items.
//!
//! The library counts: how much of an item a query names, how many
//! characters two texts share, which items list an ingredient, and in which
//! order scored items come out. The score itself is a fraction and is the
//! host's to compute from the counts.

use crate::text::{contains_char, contains_text, lowercase, lowercase_of, occurs_in, texts};
use vstd::prelude::*;
use vstd::string::StrSliceExecFns;

verus! {

/// One searchable item. The host keeps what is not searched, such as the
/// price, and finds it again by the position of the item.
#[derive(Debug)]
pub struct SearchItem {
    pub id: String,
    pub name: String,
    pub category: String,
    pub keywords: Vec<String>,
    pub description: String,
    pub spirit: Option<String>,
    pub ingredients: Vec<String>,
}

/// Mathematical value of a [`SearchItem`].
pub struct ItemView {
    pub id: Seq<char>,
    pub name: Seq<char>,
    pub category: Seq<char>,
    pub keywords: Seq<Seq<char>>,
    pub description: Seq<char>,
    pub spirit: Option<Seq<char>>,
    pub ingredients: Seq<Seq<char>>,
}

impl View for SearchItem {
    type V = ItemView;

    open spec fn view(&self) -> ItemView {
        ItemView {
            id: self.id@,
            name: self.name@,
            category: self.category@,
            keywords: texts(self.keywords@),
            description: self.description@,
            spirit: crate::record::opt_text(self.spirit),
            ingredients: texts(self.ingredients@),
        }
    }
}

/// The mathematical values of a list of items, in order.
pub open spec fn item_views(list: Seq<SearchItem>) -> Seq<ItemView> {
    list.map_values(|x: SearchItem| x@)
}

/// The token stands in the text, case apart.
pub open spec fn names(text: Seq<char>, token: Seq<char>) -> bool {
    occurs_in(token, lowercase_of(text))
}

/// How many texts of `list` the token stands in.
pub open spec fn hits(list: Seq<Seq<char>>, token: Seq<char>) -> nat
    decreases list.len(),
{
    if list.len() == 0 {
        0
    } else {
        hits(list.drop_last(), token) + if names(list.last(), token) {
            1nat
        } else {
            0nat
        }
    }
}

/// What one token adds to the weight of an item: 10 for the name, 7 for
/// the spirit, 5 for each ingredient, 2 for the description and 3 for each
/// keyword that the token stands in.
pub open spec fn token_weight(item: ItemView, token: Seq<char>) -> nat {
    (if names(item.name, token) {
        10nat
    } else {
        0nat
    }) + (if item.spirit is Some && names(item.spirit->0, token) {
        7nat
    } else {
        0nat
    }) + 5 * hits(item.ingredients, token) + (if names(item.description, token) {
        2nat
    } else {
        0nat
    }) + 3 * hits(item.keywords, token)
}

/// The weight of an item for a list of tokens: the sum over the tokens.
pub open spec fn weight_of(item: ItemView, tokens: Seq<Seq<char>>) -> nat
    decreases tokens.len(),
{
    if tokens.len() == 0 {
        0
    } else {
        weight_of(item, tokens.drop_last()) + token_weight(item, tokens.last())
    }
}

/// The weight for the first tokens is not more than the weight for all.
pub proof fn lemma_weight_grows(item: ItemView, tokens: Seq<Seq<char>>, n: int)
    requires
        0 <= n <= tokens.len(),
    ensures
        weight_of(item, tokens.take(n)) <= weight_of(item, tokens),
    decreases tokens.len(),
{
    if n == tokens.len() {
        assert(tokens.take(n) =~= tokens);
    } else {
        lemma_weight_grows(item, tokens.drop_last(), n);
        assert(tokens.drop_last().take(n) =~= tokens.take(n));
    }
}

fn count_hits(list: &Vec<String>, token: &str) -> (n: usize)
    ensures
        n == hits(texts(list@), token@),
{
    let mut n: usize = 0;
    let mut i: usize = 0;
    assert(texts(list@).take(0) =~= Seq::<Seq<char>>::empty());
    while i < list.len()
        invariant
            i <= list.len(),
            n <= i,
            n == hits(texts(list@).take(i as int), token@),
        decreases list.len() - i,
    {
        let lower = lowercase(list[i].as_str());
        assert(texts(list@).take(i + 1).drop_last() =~= texts(list@).take(i as int));
        assert(texts(list@).take(i + 1).last() == list@[i as int]@);
        if contains_text(lower.as_str(), token) {
            n += 1;
        }
        i += 1;
    }
    assert(texts(list@).take(i as int) =~= texts(list@));
    n
}

fn weigh_token(item: &SearchItem, token: &str) -> (w: u128)
    ensures
        w == token_weight(item@, token@),
{
    let mut w: u128 = 0;
    if contains_text(lowercase(item.name.as_str()).as_str(), token) {
        w += 10;
    }
    match &item.spirit {
        Some(spirit) => {
            if contains_text(lowercase(spirit.as_str()).as_str(), token) {
                w += 7;
            }
        },
        None => {},
    }
    let in_ingredients = count_hits(&item.ingredients, token);
    w += 5 * (in_ingredients as u128);
    if contains_text(lowercase(item.description.as_str()).as_str(), token) {
        w += 2;
    }
    let in_keywords = count_hits(&item.keywords, token);
    w += 3 * (in_keywords as u128);
    w
}

/// The weight of `item` for `tokens`, or `None` where it does not fit the
/// number type.
pub fn match_weight(item: &SearchItem, tokens: &Vec<String>) -> (w: Option<u64>)
    ensures
        weight_of(item@, texts(tokens@)) <= u64::MAX ==> w == Some(
            weight_of(item@, texts(tokens@)) as u64,
        ),
        weight_of(item@, texts(tokens@)) > u64::MAX ==> w is None,
{
    let mut total: u64 = 0;
    let mut i: usize = 0;
    let ghost all = texts(tokens@);
    assert(all.take(0) =~= Seq::<Seq<char>>::empty());
    while i < tokens.len()
        invariant
            i <= tokens.len(),
            all == texts(tokens@),
            total == weight_of(item@, all.take(i as int)),
        decreases tokens.len() - i,
    {
        let w = weigh_token(item, tokens[i].as_str());
        proof {
            assert(all.take(i + 1).drop_last() =~= all.take(i as int));
            assert(all.take(i + 1).last() == tokens@[i as int]@);
            lemma_weight_grows(item@, all, i + 1);
        }
        if w > (u64::MAX - total) as u128 {
            return None;
        }
        total = total + (w as u64);
        i += 1;
    }
    assert(all.take(i as int) =~= all);
    Some(total)
}

/// How many characters of `text` are characters of `query`.
pub open spec fn shared(text: Seq<char>, query: Seq<char>) -> nat
    decreases text.len(),
{
    if text.len() == 0 {
        0
    } else {
        shared(text.drop_last(), query) + if query.contains(text.last()) {
            1nat
        } else {
            0nat
        }
    }
}

/// The counts from which the closeness of a text to a query is told.
#[derive(Clone, Copy, Debug, PartialEq, Eq, Structural)]
pub struct Closeness {
    /// Characters of the text, in lower case, that the query has too.
    pub common: usize,
    /// The longer of the two lengths, in bytes, both in lower case.
    pub longest: usize,
}

/// The length in bytes of the text in lower case.
pub open spec fn lowered_len(s: Seq<char>) -> nat {
    vstd::utf8::encode_utf8(lowercase_of(s)).len()
}

/// Counts what a text and a query share. Both are compared in lower case.
pub fn closeness(text: &str, query: &str) -> (c: Closeness)
    ensures
        c.common == shared(lowercase_of(text@), lowercase_of(query@)),
        c.longest == if lowered_len(text@) >= lowered_len(query@) {
            lowered_len(text@)
        } else {
            lowered_len(query@)
        },
{
    let text = lowercase(text);
    let query = lowercase(query);
    let total = text.as_str().unicode_len();
    let mut common: usize = 0;
    let ghost all = text@;
    assert(all.take(0) =~= Seq::<char>::empty());
    for c in it: text.as_str().chars()
        invariant
            it.seq() == all,
            all.len() == total,
            common <= it.index(),
            common == shared(all.take(it.index() as int), query@),
    {
        proof {
            let i = it.index() as int;
            assert(all.take(i + 1).drop_last() =~= all.take(i));
            assert(all.take(i + 1).last() == c);
        }
        if contains_char(query.as_str(), c) {
            common += 1;
        }
    }
    assert(all.take(all.len() as int) =~= all);
    let a = text.as_str().as_bytes().len();
    let b = query.as_str().as_bytes().len();
    let longest = if a >= b {
        a
    } else {
        b
    };
    Closeness { common, longest }
}

} // verus!
