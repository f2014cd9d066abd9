//! Laws that relate the operations of the store to one another.

use crate::codec::{decode_embedding, lemma_decode_encode};
use crate::embeddings::{is_embedding, normal_form, weight_values};
use crate::provider::{is_unit_of, Numerics};
use crate::index::{
    at_id, carrying, fold_tags, has_id, lemma_fold_tags_distinct, mirror, newer_first,
    recency_order, well_formed, RecordView, StoreView,
};
use crate::index::later;
use crate::memory::mismatch;
use crate::order::{lemma_bytes_before_irreflexive, lemma_bytes_before_transitive};
use crate::ranking::{lemma_order_unique, listed};
use crate::recall::{higher_first, score_order, ResultView};
use crate::provider::incomparable;
use crate::store_spec::{added, given_at, removed, renewed};
use crate::text::lowercase_text;
use vstd::prelude::*;
use vstd::utf8::encode_utf8;

verus! {

/// Whether the arithmetic returns one vector for given weights, whenever it
/// is asked.
pub open spec fn unit_is_function<N: Numerics>(math: &N) -> bool {
    forall|w: Seq<u128>, u1: Seq<u32>, u2: Seq<u32>|
        #[trigger] is_unit_of(math, w, u1) && #[trigger] is_unit_of(math, w, u2) ==> u1 == u2
}

/// The vector of a text depends on its lower-cased, trimmed form and the
/// number of buckets alone, as far as the arithmetic is a function: two
/// texts with one such form, and so a text embedded twice, have one vector.
pub proof fn lemma_embedding_by_normal_form<N: Numerics>(
    math: &N,
    a: Seq<char>,
    b: Seq<char>,
    dim: nat,
    va: Seq<u32>,
    vb: Seq<u32>,
)
    requires
        unit_is_function(math),
        normal_form(a) == normal_form(b),
        is_embedding(math, a, dim, va),
        is_embedding(math, b, dim, vb),
    ensures
        va == vb,
{
    assert(weight_values(a, dim) =~= weight_values(b, dim));
}

/// Every tag that is given stands, in lower case, among the folded tags.
pub proof fn lemma_fold_tags_holds(tags: Seq<Seq<char>>, k: int)
    requires
        0 <= k < tags.len(),
    ensures
        fold_tags(tags).contains(lowercase_text(tags[k])),
    decreases tags.len(),
{
    let rest = fold_tags(tags.drop_last());
    let t = lowercase_text(tags.last());
    if k == tags.len() - 1 {
        if !rest.contains(t) {
            assert(rest.push(t)[rest.len() as int] == t);
        }
    } else {
        lemma_fold_tags_holds(tags.drop_last(), k);
        let w = lowercase_text(tags[k]);
        let j = choose|j: int| 0 <= j < rest.len() && rest[j] == w;
        if !rest.contains(t) {
            assert(rest.push(t)[j] == w);
        }
    }
}

/// A memory that was added is found under its id, the id that the store
/// gave out, and round-trips its content, its confidence and its folded
/// tags; no other record has that id, and the store stays well formed.
pub proof fn lemma_add_then_get(
    s: StoreView,
    content: Seq<char>,
    confidence: u64,
    embedding: Seq<u32>,
    tags: Seq<Seq<char>>,
    now: Seq<char>,
)
    requires
        well_formed(s),
        s.next_id < i64::MAX,
    ensures
        ({
            let t = added(s, content, confidence, embedding, tags, now);
            let p = s.records.len() as int;
            &&& well_formed(t)
            &&& at_id(t.records, s.next_id, p)
            &&& forall|q: int| at_id(t.records, s.next_id, q) ==> q == p
            &&& t.records[p].memory.content == content
            &&& t.records[p].memory.confidence == confidence
            &&& t.records[p].memory.tags == fold_tags(tags)
            &&& decode_embedding(t.records[p].embedding) == embedding
        }),
{
    let t = added(s, content, confidence, embedding, tags, now);
    lemma_fold_tags_distinct(tags);
    lemma_decode_encode(embedding);
    assert(t.index =~= mirror(t.records));
    assert forall|q: int| at_id(t.records, s.next_id, q) implies q == s.records.len() by {
        if q < s.records.len() {
            assert(t.records[q] == s.records[q]);
        }
    }
}

/// A position that carries a tag is a position of the order that was
/// searched.
proof fn lemma_carrying_from_order(
    records: Seq<RecordView>,
    positions: Seq<usize>,
    tag: Seq<char>,
    i: int,
) -> (j: int)
    requires
        0 <= i < carrying(records, positions, tag).len(),
    ensures
        0 <= j < positions.len(),
        positions[j] == carrying(records, positions, tag)[i],
        records[positions[j] as int].memory.tags.contains(tag),
    decreases positions.len(),
{
    let rest = carrying(records, positions.drop_last(), tag);
    if i < rest.len() {
        lemma_carrying_from_order(records, positions.drop_last(), tag, i)
    } else {
        positions.len() - 1
    }
}

/// The positions that carry a tag come in the order that was searched.
proof fn lemma_carrying_keeps_order(
    records: Seq<RecordView>,
    positions: Seq<usize>,
    tag: Seq<char>,
    a: int,
    b: int,
) -> (r: (int, int))
    requires
        0 <= a < b < carrying(records, positions, tag).len(),
    ensures
        0 <= r.0 < r.1 < positions.len(),
        positions[r.0] == carrying(records, positions, tag)[a],
        positions[r.1] == carrying(records, positions, tag)[b],
    decreases positions.len(),
{
    let rest = carrying(records, positions.drop_last(), tag);
    if b < rest.len() {
        lemma_carrying_keeps_order(records, positions.drop_last(), tag, a, b)
    } else {
        let j = lemma_carrying_from_order(records, positions.drop_last(), tag, a);
        (j, positions.len() - 1)
    }
}

/// A position of the order that carries the tag is among those that carry
/// it.
proof fn lemma_carrying_complete(
    records: Seq<RecordView>,
    positions: Seq<usize>,
    tag: Seq<char>,
    j: int,
)
    requires
        0 <= j < positions.len(),
        records[positions[j] as int].memory.tags.contains(tag),
    ensures
        carrying(records, positions, tag).contains(positions[j]),
    decreases positions.len(),
{
    let rest = carrying(records, positions.drop_last(), tag);
    if j == positions.len() - 1 {
        assert(rest.push(positions.last())[rest.len() as int] == positions[j]);
    } else {
        lemma_carrying_complete(records, positions.drop_last(), tag, j);
        let i = choose|i: int| 0 <= i < rest.len() && rest[i] == positions[j];
        if records[positions.last() as int].memory.tags.contains(tag) {
            assert(rest.push(positions.last())[i] == positions[j]);
        }
    }
}

/// Retrieval by tag gives only memories that carry the stored tag, every
/// such memory, and the most recently updated first.
pub proof fn lemma_by_tag_exact_and_ordered(
    records: Seq<RecordView>,
    order: Seq<usize>,
    tag: Seq<char>,
)
    requires
        recency_order(records, order),
    ensures
        ({
            let found = carrying(records, order, tag);
            &&& forall|i: int|
                0 <= i < found.len() ==> (#[trigger] found[i]) < records.len()
                    && records[found[i] as int].memory.tags.contains(tag)
            &&& forall|a: int, b: int|
                0 <= a < b < found.len() ==> newer_first(
                    records,
                    #[trigger] found[a] as int,
                    #[trigger] found[b] as int,
                )
            &&& forall|p: int|
                0 <= p < records.len() && (#[trigger] records[p]).memory.tags.contains(tag)
                    ==> found.contains(p as usize)
        }),
{
    let found = carrying(records, order, tag);
    assert forall|i: int| 0 <= i < found.len() implies (#[trigger] found[i]) < records.len()
        && records[found[i] as int].memory.tags.contains(tag) by {
        let j = lemma_carrying_from_order(records, order, tag, i);
        assert(order[j] < records.len());
    }
    assert forall|a: int, b: int| 0 <= a < b < found.len() implies newer_first(
        records,
        #[trigger] found[a] as int,
        #[trigger] found[b] as int,
    ) by {
        let r = lemma_carrying_keeps_order(records, order, tag, a, b);
        assert(newer_first(records, order[r.0] as int, order[r.1] as int));
    }
    assert forall|p: int|
        0 <= p < records.len() && (#[trigger] records[p]).memory.tags.contains(
            tag,
        ) implies found.contains(p as usize) by {
        assert(crate::ranking::listed(order, p));
        let j = choose|j: int| 0 <= j < order.len() && #[trigger] order[j] == p;
        lemma_carrying_complete(records, order, tag, j);
    }
}

/// Case does not matter for tags: a memory added with the tag `given` is
/// retrieved by the tag `asked` whenever the two agree in lower case.
pub proof fn lemma_tag_case_fold(
    s: StoreView,
    content: Seq<char>,
    confidence: u64,
    embedding: Seq<u32>,
    tags: Seq<Seq<char>>,
    now: Seq<char>,
    k: int,
    asked: Seq<char>,
    order: Seq<usize>,
)
    requires
        well_formed(s),
        0 <= k < tags.len(),
        lowercase_text(tags[k]) == lowercase_text(asked),
        recency_order(added(s, content, confidence, embedding, tags, now).records, order),
    ensures
        carrying(
            added(s, content, confidence, embedding, tags, now).records,
            order,
            lowercase_text(asked),
        ).contains(s.records.len() as usize),
{
    let t = added(s, content, confidence, embedding, tags, now);
    lemma_fold_tags_holds(tags, k);
    lemma_by_tag_exact_and_ordered(t.records, order, lowercase_text(asked));
    assert(t.records[s.records.len() as int].memory.tags.contains(lowercase_text(asked)));
}

/// After a memory is deleted no record and no entry of the text index has
/// its id, and the store stays well formed; a second delete then finds
/// nothing to do.
pub proof fn lemma_delete_is_final(s: StoreView, id: int, p: int)
    requires
        well_formed(s),
        at_id(s.records, id, p),
    ensures
        well_formed(removed(s, p)),
        !has_id(removed(s, p).records, id),
        forall|q: int|
            0 <= q < removed(s, p).index.len() ==> (#[trigger] removed(s, p).index[q]).0 != id,
{
    let t = removed(s, p);
    assert(t.index =~= mirror(t.records));
    assert forall|q: int| 0 <= q < t.records.len() implies (#[trigger] t.records[q]).memory.id
        != id by {
        if q < p {
            assert(t.records[q] == s.records[q]);
        } else {
            assert(t.records[q] == s.records[q + 1]);
        }
    }
    assert forall|q: int| 0 <= q < t.index.len() implies (#[trigger] t.index[q]).0 != id by {
        assert(t.index[q].0 == t.records[q].memory.id);
    }
    assert forall|i: int, j: int| 0 <= i < j < t.records.len() implies (
    #[trigger] t.records[i]).memory.id < (#[trigger] t.records[j]).memory.id by {
        let i0 = if i < p { i } else { i + 1 };
        let j0 = if j < p { j } else { j + 1 };
        assert(t.records[i] == s.records[i0]);
        assert(t.records[j] == s.records[j0]);
    }
    assert forall|i: int| 0 <= i < t.records.len() implies (#[trigger] t.records[i]).memory.id
        < t.next_id && t.records[i].memory.tags.no_duplicates() by {
        let i0 = if i < p { i } else { i + 1 };
        assert(t.records[i] == s.records[i0]);
    }
}

/// After a rebuild every memory that was given a vector holds that vector,
/// and the marker agrees with the model of the rebuild, so that a check
/// against that model reports no mismatch.
pub proof fn lemma_reindex_renews(
    s: StoreView,
    given: Seq<Option<Seq<u32>>>,
    model: Seq<char>,
    now: Seq<char>,
)
    ensures
        forall|i: int|
            0 <= i < s.records.len() && given_at(given, i) is Some ==> decode_embedding(
                (#[trigger] renewed(s, given, model, now).records[i]).embedding,
            ) == given_at(given, i)->Some_0,
        mismatch(renewed(s, given, model, now).stored_model, model) is None,
{
    let t = renewed(s, given, model, now);
    assert forall|i: int| 0 <= i < s.records.len() && given_at(given, i) is Some implies
        decode_embedding((#[trigger] t.records[i]).embedding) == given_at(given, i)->Some_0 by {
        lemma_decode_encode(given_at(given, i)->Some_0);
    }
}

/// Stored bytes of another length than four for each component of the query
/// give a vector that cannot be compared with the query's, so that the
/// similarity of the two is zero.
pub proof fn lemma_other_length_is_incomparable(query: Seq<u32>, data: Seq<u8>)
    requires
        data.len() != 4 * query.len(),
    ensures
        incomparable(query, decode_embedding(data)),
{
}

/// There is one order of records by recency: what `list` and retrieval by
/// tag give is fixed by the records and the limit alone.
pub proof fn lemma_recency_order_unique(records: Seq<RecordView>, o1: Seq<usize>, o2: Seq<usize>)
    requires
        recency_order(records, o1),
        recency_order(records, o2),
    ensures
        o1 == o2,
{
    let before = |i: int, j: int| newer_first(records, i, j);
    assert forall|x: int, y: int|
        0 <= x < records.len() && 0 <= y < records.len() && x != y implies !(#[trigger] before(
        x,
        y,
    ) && #[trigger] before(y, x)) by {
        let tx = encode_utf8(records[x].memory.updated_at);
        let ty = encode_utf8(records[y].memory.updated_at);
        lemma_bytes_before_irreflexive(tx);
        if later(records[x].memory.updated_at, records[y].memory.updated_at) && later(
            records[y].memory.updated_at,
            records[x].memory.updated_at,
        ) {
            lemma_bytes_before_transitive(tx, ty, tx);
        }
    }
    lemma_order_unique(before, records.len(), o1, o2);
}

/// There is one order of results by score: what a ranking gives is fixed by
/// the scores and the limit alone.
pub proof fn lemma_score_order_unique(results: Seq<ResultView>, o1: Seq<usize>, o2: Seq<usize>)
    requires
        score_order(results, o1),
        score_order(results, o2),
    ensures
        o1 == o2,
{
    let before = |i: int, j: int| higher_first(results, i, j);
    lemma_order_unique(before, results.len(), o1, o2);
}

} // verus!
