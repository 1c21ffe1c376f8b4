use vstd::prelude::*;
use crate::grammar::{parsed, value_at};
use crate::laws::scanning::{all_whitespace, lemma_matched_whole, lemma_skip_whitespace_to};
use crate::value::JsonModel;

verus! {

/// The literals `true`, `false` and `null` parse to their values wherever
/// they stand: after any whitespace, and followed, after any whitespace, by
/// the end of the text, a comma or a closing bracket or brace. The cursor
/// ends behind that second run of whitespace.
///
/// Here the whitespace runs from `i` to `j`, the word from `j` on, and the
/// second run of whitespace up to `k`.
pub proof fn lemma_literals_parse(s: Seq<char>, i: int, j: int, word: Seq<char>, k: int)
    requires
        0 <= i <= j,
        j + word.len() <= k <= s.len(),
        all_whitespace(s, i, j),
        s.subrange(j, j + word.len()) == word,
        all_whitespace(s, j + word.len(), k),
        k == s.len() || s[k] == ',' || s[k] == '}' || s[k] == ']',
    ensures
        word == "true"@ ==> value_at(s, i) == parsed(JsonModel::Boolean(true), k),
        word == "false"@ ==> value_at(s, i) == parsed(JsonModel::Boolean(false), k),
        word == "null"@ ==> value_at(s, i) == parsed(JsonModel::Null, k),
{
    reveal_strlit("true");
    reveal_strlit("false");
    reveal_strlit("null");
    if word == "true"@ || word == "false"@ || word == "null"@ {
        assert(s.subrange(j, j + word.len())[0] == s[j]);
        lemma_skip_whitespace_to(s, i, j);
        lemma_matched_whole(s, j, word, 0);
        lemma_skip_whitespace_to(s, j + word.len(), k);
    }
}

} // verus!
