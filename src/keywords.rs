use vstd::prelude::*;
use crate::text::{contains_str, lower_of, lowercase, occurs_in};

verus! {

/// Some keyword of `keywords`, lowercased, occurs in the lowercased text.
pub open spec fn any_keyword_in(text: Seq<char>, keywords: Seq<Seq<char>>) -> bool {
    exists|i: int| 0 <= i < keywords.len() && occurs_in(lower_of(#[trigger] keywords[i]), lower_of(text))
}

/// The characters of each keyword.
pub open spec fn keyword_views(keywords: Seq<String>) -> Seq<Seq<char>> {
    keywords.map_values(|k: String| k@)
}

/// Whether any of `keywords` occurs, case-insensitively, anywhere in `text`.
///
/// Both sides are lowercased before the comparison, so the result does not
/// depend on the casing of the text or of the keywords. The keywords are read
/// as a set: neither their order nor repetitions change the result. An empty
/// keyword occurs in every text; no keywords at all gives `false`.
pub fn fast_string_contains(text: &str, keywords: &Vec<String>) -> (r: bool)
    ensures
        r == any_keyword_in(text@, keyword_views(keywords@)),
{
    let text_lower = lowercase(text);
    let ghost ks = keyword_views(keywords@);
    let mut i: usize = 0;
    while i < keywords.len()
        invariant
            i <= keywords.len(),
            ks == keyword_views(keywords@),
            text_lower@ == lower_of(text@),
            forall|j: int| 0 <= j < i ==> !occurs_in(lower_of(#[trigger] ks[j]), lower_of(text@)),
        decreases keywords.len() - i,
    {
        let keyword_lower = lowercase(keywords[i].as_str());
        if contains_str(text_lower.as_str(), keyword_lower.as_str()) {
            assert(ks[i as int] == keywords@[i as int]@);
            return true;
        }
        i += 1;
    }
    false
}

/// Adding a keyword never turns a positive answer into a negative one, and
/// adding one that occurs in the text (case-insensitively) makes it positive.
pub proof fn lemma_contains_monotone(text: Seq<char>, keywords: Seq<Seq<char>>, extra: Seq<char>)
    ensures
        any_keyword_in(text, keywords) ==> any_keyword_in(text, keywords.push(extra)),
        occurs_in(lower_of(extra), lower_of(text)) ==> any_keyword_in(text, keywords.push(extra)),
{
    let more = keywords.push(extra);
    if any_keyword_in(text, keywords) {
        let i = choose|i: int| 0 <= i < keywords.len() && occurs_in(lower_of(#[trigger] keywords[i]), lower_of(text));
        assert(more[i] == keywords[i]);
    }
    if occurs_in(lower_of(extra), lower_of(text)) {
        assert(more[keywords.len() as int] == extra);
    }
}

/// The keywords act as a set: two lists with the same members, in any order
/// and with any repetitions, give the same answer.
pub proof fn lemma_keywords_as_set(text: Seq<char>, a: Seq<Seq<char>>, b: Seq<Seq<char>>)
    requires
        a.to_set() == b.to_set(),
    ensures
        any_keyword_in(text, a) == any_keyword_in(text, b),
{
    assert forall|x: Seq<Seq<char>>, y: Seq<Seq<char>>|
        x.to_set() == y.to_set() && any_keyword_in(text, x) implies any_keyword_in(text, y) by {
        let i = choose|i: int| 0 <= i < x.len() && occurs_in(lower_of(#[trigger] x[i]), lower_of(text));
        assert(x.to_set().contains(x[i]));
        assert(y.to_set().contains(x[i]));
        let j = choose|j: int| 0 <= j < y.len() && y[j] == x[i];
        assert(occurs_in(lower_of(y[j]), lower_of(text)));
    }
}

} // verus!
