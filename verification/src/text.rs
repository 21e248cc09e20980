//! Texts: comparison, lower case, words.

use vstd::prelude::*;
use vstd::string::StringExecFns;

verus! {

/// The mathematical values of a list of texts, in order.
pub open spec fn texts(list: Seq<String>) -> Seq<Seq<char>> {
    list.map_values(|s: String| s@)
}

/// Whether two texts are the same.
pub fn same_text(a: &str, b: &str) -> (r: bool)
    ensures
        r == (a@ == b@),
{
    a.to_owned() == b.to_owned()
}

/// The text in lower case, as `str::to_lowercase` gives it.
pub uninterp spec fn lowercase_of(s: Seq<char>) -> Seq<char>;

/// The words of the text: its parts between white space, in order, as
/// `str::split_whitespace` gives them.
pub uninterp spec fn words_of(s: Seq<char>) -> Seq<Seq<char>>;

/// `needle` stands somewhere in `hay`, character for character.
pub open spec fn occurs_in(needle: Seq<char>, hay: Seq<char>) -> bool {
    exists|i: int|
        0 <= i && i + needle.len() <= hay.len() && #[trigger] hay.subrange(i, i + needle.len())
            == needle
}

/// `str::to_lowercase`: the text in lower case. The same text gives the
/// same result, whatever the machine's language settings.
#[verifier::external_body]
pub(crate) fn lowercase(s: &str) -> (lower: String)
    ensures
        lower@ == lowercase_of(s@),
{
    s.to_lowercase()
}

/// `str::split_whitespace`, collected: the words of the text, in order.
#[verifier::external_body]
fn words(s: &str) -> (list: Vec<String>)
    ensures
        texts(list@) == words_of(s@),
{
    s.split_whitespace().map(|w| w.to_string()).collect()
}

/// The characters of a text, in order.
pub fn chars_of(s: &str) -> (list: Vec<char>)
    ensures
        list@ == s@,
{
    let mut list: Vec<char> = Vec::new();
    for c in it: s.chars()
        invariant
            it.seq() == s@,
            list@ == s@.take(it.index() as int),
    {
        list.push(c);
        assert(list@ =~= s@.take(it.index() + 1));
    }
    assert(s@.take(s@.len() as int) =~= s@);
    list
}

/// Whether `c` is one of the characters of `hay`.
pub fn contains_char(hay: &str, c: char) -> (found: bool)
    ensures
        found == hay@.contains(c),
{
    for d in it: hay.chars()
        invariant
            it.seq() == hay@,
            forall|j: int| 0 <= j < it.index() ==> hay@[j] != c,
    {
        if d == c {
            assert(hay@[it.index() as int] == c);
            return true;
        }
    }
    false
}

/// Whether `needle` stands somewhere in `hay`. The empty text stands in
/// every text.
pub fn contains_text(hay: &str, needle: &str) -> (found: bool)
    ensures
        found == occurs_in(needle@, hay@),
{
    let h = chars_of(hay);
    let n = chars_of(needle);
    if n.len() > h.len() {
        assert(!occurs_in(n@, h@));
        return false;
    }
    let last = h.len() - n.len();
    let mut i: usize = 0;
    while i <= last
        invariant
            i <= last + 1,
            last == h@.len() - n@.len(),
            h@.len() <= usize::MAX,
            h@ == hay@,
            n@ == needle@,
            forall|j: int| 0 <= j < i ==> #[trigger] h@.subrange(j, j + n@.len()) != n@,
        decreases last + 1 - i,
    {
        let mut k: usize = 0;
        while k < n.len() && h[i + k] == n[k]
            invariant
                i <= last,
                last == h@.len() - n@.len(),
                h@.len() <= usize::MAX,
                k <= n@.len(),
                forall|m: int| 0 <= m < k ==> h@[i + m] == #[trigger] n@[m],
            decreases n.len() - k,
        {
            k += 1;
        }
        if k == n.len() {
            assert(h@.subrange(i as int, i + n@.len()) =~= n@);
            return true;
        }
        assert(h@.subrange(i as int, i + n@.len())[k as int] != n@[k as int]);
        i += 1;
    }
    assert(!occurs_in(n@, h@)) by {
        if occurs_in(n@, h@) {
            let j = choose|j: int|
                0 <= j && j + n@.len() <= h@.len() && #[trigger] h@.subrange(j, j + n@.len())
                    == n@;
            assert(j < i);
        }
    }
    false
}

/// The query in lower case, cut into words.
pub open spec fn tokens_of(query: Seq<char>) -> Seq<Seq<char>> {
    words_of(lowercase_of(query))
}

/// Cuts a query into the tokens that items are matched against: the words
/// of the query in lower case.
pub fn tokenize(query: &str) -> (tokens: Vec<String>)
    ensures
        texts(tokens@) == tokens_of(query@),
{
    let lower = lowercase(query);
    words(lower.as_str())
}

/// The texts of `list`, put together with one space between them.
pub open spec fn joined(list: Seq<Seq<char>>) -> Seq<char>
    decreases list.len(),
{
    if list.len() == 0 {
        Seq::empty()
    } else if list.len() == 1 {
        list.last()
    } else {
        joined(list.drop_last()) + seq![' '] + list.last()
    }
}

/// Puts the tokens together again, with one space between them.
pub fn join_tokens(tokens: &Vec<String>) -> (text: String)
    ensures
        text@ == joined(texts(tokens@)),
{
    let mut text = String::new();
    let mut i: usize = 0;
    let ghost all = texts(tokens@);
    assert(all.take(0) =~= Seq::<Seq<char>>::empty());
    while i < tokens.len()
        invariant
            i <= tokens.len(),
            all == texts(tokens@),
            text@ == joined(all.take(i as int)),
        decreases tokens.len() - i,
    {
        proof {
            assert(all.take(i + 1).drop_last() =~= all.take(i as int));
            assert(all.take(i + 1).last() == tokens@[i as int]@);
            reveal_strlit(" ");
            assert(" "@ =~= seq![' ']);
        }
        if i > 0 {
            text.append(" ");
        }
        text.append(tokens[i].as_str());
        proof {
            if i == 0 {
                assert(Seq::<char>::empty() + tokens@[i as int]@ =~= tokens@[i as int]@);
            }
        }
        i += 1;
    }
    assert(all.take(i as int) =~= all);
    text
}

} // verus!
