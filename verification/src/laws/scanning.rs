use vstd::prelude::*;
use crate::grammar::{char_at, find_quote, is_whitespace, matched_from, skip_whitespace};

verus! {

/// `skip_whitespace` stops at the first offset that holds no whitespace:
/// everything it passes is whitespace, and it stops at the end of the text
/// or at a character that is none.
pub proof fn lemma_skip_whitespace_stops(s: Seq<char>, i: int)
    requires
        0 <= i <= s.len(),
    ensures
        i <= skip_whitespace(s, i) <= s.len(),
        forall|k: int| i <= k < skip_whitespace(s, i) ==> is_whitespace(#[trigger] s[k]),
        skip_whitespace(s, i) < s.len() ==> !is_whitespace(s[skip_whitespace(s, i)]),
    decreases s.len() - i,
{
    if i < s.len() && is_whitespace(s[i]) {
        lemma_skip_whitespace_stops(s, i + 1);
    }
}

/// `matched_from` counts on from `k` as long as text and word agree: it
/// stops within the word, everything it passes agrees, and where it stops
/// short of the word's end the text has ended or differs.
pub proof fn lemma_matched_from_stops(s: Seq<char>, i: int, word: Seq<char>, k: int)
    requires
        0 <= k <= word.len(),
    ensures
        k <= matched_from(s, i, word, k) <= word.len(),
        forall|m: int|
            k <= m < matched_from(s, i, word, k) ==> #[trigger] char_at(s, i + m) == Some(
                word[m],
            ),
        matched_from(s, i, word, k) < word.len() ==> char_at(s, i + matched_from(s, i, word, k))
            != Some(word[matched_from(s, i, word, k)]),
    decreases word.len() - k,
{
    if k < word.len() && char_at(s, i + k) == Some(word[k]) {
        lemma_matched_from_stops(s, i, word, k + 1);
    }
}

/// `find_quote` stops at the first double quote from `i` on: nothing it
/// passes is one, and it stops at the end of the text or at one.
pub proof fn lemma_find_quote_stops(s: Seq<char>, i: int)
    requires
        0 <= i <= s.len(),
    ensures
        i <= find_quote(s, i) <= s.len(),
        forall|k: int| i <= k < find_quote(s, i) ==> #[trigger] s[k] != '"',
        find_quote(s, i) < s.len() ==> s[find_quote(s, i)] == '"',
    decreases s.len() - i,
{
    if i < s.len() && s[i] != '"' {
        lemma_find_quote_stops(s, i + 1);
    }
}

/// Whether every character from offset `from` up to, not including, `to` is
/// whitespace.
pub open spec fn all_whitespace(s: Seq<char>, from: int, to: int) -> bool {
    forall|m: int| from <= m < to ==> is_whitespace(#[trigger] s[m])
}

/// Skipping whitespace from `i` ends at `j` if everything between the two is
/// whitespace and `j` is the end of the text or holds a character that is
/// none.
pub proof fn lemma_skip_whitespace_to(s: Seq<char>, i: int, j: int)
    requires
        0 <= i <= j <= s.len(),
        all_whitespace(s, i, j),
        j < s.len() ==> !is_whitespace(s[j]),
    ensures
        skip_whitespace(s, i) == j,
    decreases j - i,
{
    if i < j {
        assert(is_whitespace(s[i]));
        lemma_skip_whitespace_to(s, i + 1, j);
    }
}

/// A word that stands in the text at offset `i` is matched whole.
pub proof fn lemma_matched_whole(s: Seq<char>, i: int, word: Seq<char>, k: int)
    requires
        0 <= i,
        0 <= k <= word.len(),
        i + word.len() <= s.len(),
        s.subrange(i, i + word.len()) == word,
    ensures
        matched_from(s, i, word, k) == word.len(),
    decreases word.len() - k,
{
    if k < word.len() {
        assert(s.subrange(i, i + word.len())[k] == s[i + k]);
        lemma_matched_whole(s, i, word, k + 1);
    }
}

} // verus!
