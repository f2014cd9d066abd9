//! Retrieval for a free-text prompt by the tags that its words name.

use crate::index::{
    first_of, memory_views, picked, recency_order, union_positions, MemoryStore,
};
use crate::recall::{result_views, ResultView};
use crate::scalar::{Scalar, ONE_BITS};
use crate::tags::table_view;
use crate::text::{
    chars_of, contains, is_substring, lowercase, lowercase_text, split_whitespace, string_of,
    tokens, views,
};
use crate::types::{texts, Memory, MemoryView, SearchResult};
use vstd::prelude::*;

verus! {

/// Whether some word of `words` holds `tag` as a run of characters, both
/// taken in lower case.
pub open spec fn named_by(words: Seq<Seq<char>>, tag: Seq<char>) -> bool {
    exists|k: int|
        0 <= k < words.len() && is_substring(lowercase_text(tag), lowercase_text(#[trigger] words[k]))
}

/// Those of `tags`, in order, that a word of `words` names.
pub open spec fn matched(words: Seq<Seq<char>>, tags: Seq<Seq<char>>) -> Seq<Seq<char>>
    decreases tags.len(),
{
    if tags.len() == 0 {
        Seq::empty()
    } else {
        let rest = matched(words, tags.drop_last());
        if named_by(words, tags.last()) {
            rest.push(tags.last())
        } else {
            rest
        }
    }
}

/// The tags of a table.
pub open spec fn tag_names(table: Seq<(String, usize)>) -> Seq<Seq<char>> {
    Seq::new(table.len(), |k: int| table[k].0@)
}

/// The lower-case form of each text.
fn lowered(words: &Vec<Vec<char>>) -> (out: Vec<Vec<char>>)
    ensures
        out@.len() == words@.len(),
        forall|k: int| 0 <= k < out@.len() ==> (#[trigger] out@[k])@ == lowercase_text(words@[k]@),
{
    let mut out: Vec<Vec<char>> = Vec::new();
    let n = words.len();
    let mut k: usize = 0;
    while k < n
        invariant
            k <= n,
            n == words@.len(),
            out@.len() == k,
            forall|i: int| 0 <= i < k ==> (#[trigger] out@[i])@ == lowercase_text(words@[i]@),
        decreases n - k,
    {
        let s = string_of(words[k].as_slice());
        let low = lowercase(s.as_str());
        out.push(chars_of(low.as_str()));
        k += 1;
    }
    out
}

/// Whether one of `words` holds `needle` as a run of characters.
fn held_by_one(words: &Vec<Vec<char>>, needle: &[char]) -> (hit: bool)
    ensures
        hit == exists|k: int|
            0 <= k < words@.len() && is_substring(needle@, (#[trigger] words@[k])@),
{
    let m = words.len();
    let mut k: usize = 0;
    while k < m
        invariant
            k <= m,
            m == words@.len(),
            forall|j: int| 0 <= j < k ==> !is_substring(needle@, (#[trigger] words@[j])@),
        decreases m - k,
    {
        if contains(words[k].as_slice(), needle) {
            return true;
        }
        k += 1;
    }
    false
}

/// The tags of `table`, in its order, that a whitespace-delimited word of
/// `prompt` names: the tag stands in the word, not the word in the tag.
pub fn matching_tags(prompt: &str, table: &Vec<(String, usize)>) -> (out: Vec<String>)
    ensures
        texts(out@) == matched(tokens(prompt@), tag_names(table@)),
{
    let prompt_chars = chars_of(prompt);
    let words = split_whitespace(prompt_chars.as_slice());
    let low_words = lowered(&words);
    let ghost toks = tokens(prompt@);
    let ghost names = tag_names(table@);
    assert(views(words@) == toks);
    let mut out: Vec<String> = Vec::new();
    let n = table.len();
    let mut i: usize = 0;
    assert(names.take(0) == Seq::<Seq<char>>::empty());
    assert(texts(out@) == Seq::<Seq<char>>::empty());
    while i < n
        invariant
            i <= n,
            n == table@.len(),
            names == tag_names(table@),
            views(words@) == toks,
            low_words@.len() == words@.len(),
            forall|k: int|
                0 <= k < low_words@.len() ==> (#[trigger] low_words@[k])@ == lowercase_text(
                    words@[k]@,
                ),
            texts(out@) == matched(toks, names.take(i as int)),
        decreases n - i,
    {
        let tag = &table[i].0;
        let low_tag = lowercase(tag.as_str());
        let tag_chars = chars_of(low_tag.as_str());
        let hit = held_by_one(&low_words, tag_chars.as_slice());
        proof {
            if hit {
                let k = choose|k: int|
                    0 <= k < low_words@.len() && is_substring(tag_chars@, (#[trigger] low_words@[k])@);
                assert(toks[k] == words@[k]@);
            }
            if named_by(toks, tag@) {
                let k = choose|k: int|
                    0 <= k < toks.len() && is_substring(
                        lowercase_text(tag@),
                        lowercase_text(#[trigger] toks[k]),
                    );
                assert(toks[k] == words@[k]@);
                assert(is_substring(tag_chars@, low_words@[k]@));
            }
        }
        assert(names.take(i + 1).drop_last() == names.take(i as int));
        assert(names.take(i + 1).last() == tag@);
        if hit {
            let ghost before = texts(out@);
            out.push(tag.clone());
            assert(texts(out@) == before.push(tag@));
        }
        i += 1;
    }
    assert(names.take(n as int) == names);
    out
}

/// The memories with the score one.
pub open spec fn with_score_one(memories: Seq<MemoryView>) -> Seq<ResultView> {
    Seq::new(memories.len(), |k: int| ResultView { memory: memories[k], score: ONE_BITS })
}

/// The memories for a prompt by tags: those that carry a tag of the store
/// that a word of the prompt names, each once and with the score one, at
/// most `limit` of them.
pub fn context_by_tags(store: &MemoryStore, prompt: &str, limit: usize) -> (out: Vec<SearchResult>)
    ensures
        exists|table: Seq<(String, usize)>, order: Seq<usize>|
            crate::tags::is_tag_table(store@.records, table_view(table)) && recency_order(
                store@.records,
                order,
            ) && result_views(out@) == with_score_one(
                picked(
                    store@.records,
                    first_of(
                        #[trigger] union_positions(
                            store@.records,
                            order,
                            matched(tokens(prompt@), tag_names(table)),
                            limit as nat,
                        ),
                        limit as nat,
                    ),
                ),
            ),
{
    let table = store.get_all_tags();
    let names = matching_tags(prompt, &table);
    let mut memories = store.get_by_tags(&names, limit);
    let ghost found = memory_views(memories@);
    let mut out: Vec<SearchResult> = Vec::new();
    let n = memories.len();
    let mut k: usize = 0;
    while k < n
        invariant
            k <= n,
            n == memories@.len(),
            out@.len() == k,
            forall|i: int|
                0 <= i < k ==> (#[trigger] out@[i])@ == (ResultView {
                    memory: memories@[i]@,
                    score: ONE_BITS,
                }),
        decreases n - k,
    {
        out.push(SearchResult { memory: memories[k].duplicate(), score: Scalar::one() });
        k += 1;
    }
    assert(result_views(out@) =~= with_score_one(found));
    out
}

} // verus!
