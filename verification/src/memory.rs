//! The memory engine: a store, the provider that embeds, and the model that
//! the provider stands for.

use crate::clock::current_time;
use crate::codec::decode_embedding;
use crate::context::{context_by_tags, matched, tag_names, with_score_one};
use crate::index::{
    at_id, carrying, first_of, given_bits, given_texts, has_id, memory_views, picked,
    recency_order, union_positions, vector_views, Embedded, MemoryStore, StoreView,
};
use crate::provider::{cosine_similarity, is_mean_of, is_similarity, Embedder, Numerics};
use crate::recall::{
    filter_results, passing, rank_results, result_views, results_at, score_order, ResultView,
};
use crate::scalar::{rank_value, Scalar, ONE_BITS};
use crate::store_spec::{added, removed, renewals, renewed, updated};
use crate::tags::{is_tag_table, table_view};
use crate::text::{lowercase_text, same_text, tokens};
use crate::types::{message_of, texts, Memory, MemoryError, MemoryView, SearchResult};
use vstd::prelude::*;

verus! {

/// How many of the most recent memories the mean confidence is taken over.
pub const STATS_SAMPLE: usize = 1000;

/// Figures about a store.
#[derive(Debug)]
pub struct MemoryStats {
    pub total_memories: usize,
    pub total_tags: usize,
    pub by_tag: Vec<(String, usize)>,
    pub avg_confidence: Scalar,
}

/// Checks a confidence that was put in: it has to lie between zero and one,
/// both included.
pub fn check_confidence(confidence: Scalar) -> (r: Result<(), MemoryError>)
    ensures
        r is Ok <==> 0 <= rank_value(confidence.bits) <= rank_value(ONE_BITS),
        r is Err ==> r->Err_0 is Validation,
{
    if confidence.in_unit_interval() {
        Ok(())
    } else {
        Err(MemoryError::Validation(String::from_str("confidence must lie between 0 and 1")))
    }
}

/// The main memory interface.
pub struct Memories<E: Embedder, N: Numerics> {
    store: MemoryStore,
    embedder: E,
    math: N,
    model: String,
}

/// The marker after a memory was remembered under the model `model`: a
/// store without a marker gets one, a marker that is there stays.
pub open spec fn marked(s: StoreView, model: Seq<char>) -> StoreView {
    StoreView {
        stored_model: match s.stored_model {
            Some(m) => Some(m),
            None => Some(model),
        },
        ..s
    }
}

/// The stored marker where it differs from the model `current`.
pub open spec fn mismatch(stored: Option<Seq<char>>, current: Seq<char>) -> Option<Seq<char>> {
    match stored {
        Some(m) => if m == current {
            None
        } else {
            Some(m)
        },
        None => None,
    }
}

/// The scored memories of a store for a query vector, given the score of
/// each record.
pub open spec fn scored_records(s: StoreView, scores: Seq<u64>) -> Seq<ResultView> {
    Seq::new(s.records.len(), |i: int| ResultView { memory: s.records[i].memory, score: scores[i] })
}

/// Whether `scores` are the scores of the records of `s` for the query
/// vector `query` under the arithmetic `math`: one for each record, the
/// similarity of the query's vector and the record's.
pub open spec fn fair_scores<N: Numerics>(
    s: StoreView,
    math: &N,
    query: Seq<u32>,
    scores: Seq<u64>,
) -> bool {
    &&& scores.len() == s.records.len()
    &&& forall|i: int|
        0 <= i < scores.len() ==> is_similarity(
            math,
            query,
            decode_embedding(s.records[i].embedding),
            Scalar { bits: #[trigger] scores[i] },
        )
}

/// Whether `out` is what a recall gives for the query vector `q`, where
/// `scores` are the scores of the records and `order` ranks them: the first
/// `limit` records in the order of their scores.
pub open spec fn is_recall<N: Numerics>(
    s: StoreView,
    math: &N,
    q: Seq<u32>,
    scores: Seq<u64>,
    order: Seq<usize>,
    limit: nat,
    out: Seq<ResultView>,
) -> bool {
    &&& fair_scores(s, math, q, scores)
    &&& score_order(scored_records(s, scores), order)
    &&& out == results_at(scored_records(s, scores), first_of(order, limit))
}

/// Whether `out` is what a recall gives for the query vector `q`.
pub open spec fn is_recall_for<N: Numerics>(
    s: StoreView,
    math: &N,
    q: Seq<u32>,
    limit: nat,
    out: Seq<ResultView>,
) -> bool {
    exists|scores: Seq<u64>, order: Seq<usize>| #[trigger]
        is_recall(s, math, q, scores, order, limit, out)
}

/// Whether `res` is what the provider returned for the text `text`.
pub open spec fn is_embedded<E: Embedder>(
    embedder: &E,
    text: Seq<char>,
    res: Result<Vec<u32>, MemoryError>,
) -> bool {
    exists|t: &str| t@ == text && #[trigger] call_ensures(E::embed, (embedder, t), res)
}

/// Whether `r` is an embed failure with the message of the provider's error
/// `e`.
pub open spec fn fails_with<T>(r: Result<T, MemoryError>, e: MemoryError) -> bool {
    r is Err && r->Err_0 is EmbedFailure && message_of(r->Err_0) == message_of(e)
}

/// What a recall gives when the provider returned `res` for the query: the
/// provider's failure, or the ranking for the provider's vector.
pub open spec fn recall_outcome<N: Numerics>(
    s: StoreView,
    math: &N,
    res: Result<Vec<u32>, MemoryError>,
    limit: nat,
    r: Result<Vec<SearchResult>, MemoryError>,
) -> bool {
    match res {
        Ok(q) => r is Ok && is_recall_for(s, math, q@, limit, result_views(r->Ok_0@)),
        Err(e) => fails_with(r, e),
    }
}

/// What remembering gives when the provider returned `res` for the content:
/// the provider's failure and the store unchanged; else the next id of the
/// store and the store with the new memory and a marker; else, where no id
/// is left, a storage failure and the store unchanged.
pub open spec fn remember_outcome(
    before: StoreView,
    model: Seq<char>,
    content: Seq<char>,
    confidence: u64,
    tags: Seq<Seq<char>>,
    res: Result<Vec<u32>, MemoryError>,
    r: Result<i64, MemoryError>,
    after: StoreView,
) -> bool {
    match res {
        Err(e) => fails_with(r, e) && after == before,
        Ok(v) => if before.next_id < i64::MAX {
            r is Ok && r->Ok_0 == before.next_id && exists|now: Seq<char>|
                after == marked(
                    #[trigger] added(before, content, confidence, v@, tags, now),
                    model,
                )
        } else {
            r is Err && r->Err_0 is StorageFailure && after == before
        },
    }
}

impl<E: Embedder, N: Numerics> Memories<E, N> {
    /// What the store holds.
    pub closed spec fn store(&self) -> StoreView {
        self.store@
    }

    /// The identity of the provider.
    pub closed spec fn model(&self) -> Seq<char> {
        self.model@
    }

    /// The arithmetic.
    pub closed spec fn math(&self) -> N {
        self.math
    }

    /// The provider.
    pub closed spec fn embedder(&self) -> E {
        self.embedder
    }

    /// Whether the invariant of the store holds.
    pub closed spec fn wf(&self) -> bool {
        self.store.wf()
    }

    /// The engine over `store`, with the provider `embedder` that stands for
    /// the model `model`.
    pub fn new(store: MemoryStore, embedder: E, math: N, model: &str) -> (m: Self)
        requires
            store.wf(),
        ensures
            m.wf(),
            m.store() == store@,
            m.model() == model@,
            m.math() == math,
            m.embedder() == embedder,
    {
        Memories { store, embedder, math, model: String::from_str(model) }
    }

    /// The store, for a durable copy.
    pub fn store_ref(&self) -> (s: &MemoryStore)
        ensures
            s@ == self.store(),
            s.wf() == self.wf(),
    {
        &self.store
    }

    /// The identity of the provider.
    pub fn current_model(&self) -> (m: &str)
        ensures
            m@ == self.model(),
    {
        self.model.as_str()
    }

    /// The marker of the model whose vectors are stored.
    pub fn get_stored_model(&self) -> (m: Option<String>)
        ensures
            match m {
                Some(name) => self.store().stored_model == Some(name@),
                None => self.store().stored_model is None,
            },
    {
        self.store.stored_model()
    }

    /// The stored marker where it differs from the identity of the provider:
    /// the vectors of the store then come from another model.
    pub fn check_model_mismatch(&self) -> (r: Option<String>)
        ensures
            match r {
                Some(m) => mismatch(self.store().stored_model, self.model()) == Some(m@),
                None => mismatch(self.store().stored_model, self.model()) is None,
            },
    {
        match self.store.stored_model() {
            Some(m) => {
                if same_text(m.as_str(), self.model.as_str()) {
                    None
                } else {
                    Some(m)
                }
            },
            None => None,
        }
    }

    /// Remembers `content` with the vector that the provider returned for
    /// it, or fails as the provider did: see `remember_outcome`.
    pub fn remember_with(
        &mut self,
        content: &str,
        confidence: Scalar,
        embedded: Result<Vec<u32>, MemoryError>,
        tags: &[String],
    ) -> (r: Result<i64, MemoryError>)
        requires
            old(self).wf(),
        ensures
            final(self).wf(),
            final(self).model() == old(self).model(),
            final(self).math() == old(self).math(),
            final(self).embedder() == old(self).embedder(),
            remember_outcome(
                old(self).store(),
                old(self).model(),
                content@,
                confidence.bits,
                texts(tags@),
                embedded,
                r,
                final(self).store(),
            ),
    {
        let embedding = match embedded {
            Ok(v) => v,
            Err(e) => {
                return Err(Self::as_embed_failure(e));
            },
        };
        let now = current_time();
        match self.store.add_at(content, confidence, embedding.as_slice(), tags, now.as_str()) {
            Ok(id) => {
                let ghost after_add = self.store@;
                if self.store.stored_model().is_none() {
                    self.store.set_stored_model(self.model.as_str());
                }
                assert(self.store@ == marked(after_add, self.model@));
                Ok(id)
            },
            Err(e) => Err(e),
        }
    }

    /// Remembers `content`: embeds it with the provider and adds it to the
    /// store, which then bears a marker. A failure of the provider comes out
    /// as an embed failure with the same message; it, or a store without ids
    /// left, changes nothing.
    pub fn remember(&mut self, content: &str, confidence: Scalar, tags: &[String]) -> (r: Result<
        i64,
        MemoryError,
    >)
        requires
            old(self).wf(),
        ensures
            final(self).wf(),
            final(self).model() == old(self).model(),
            final(self).math() == old(self).math(),
            final(self).embedder() == old(self).embedder(),
            exists|res: Result<Vec<u32>, MemoryError>|
                is_embedded(&old(self).embedder(), content@, res) && #[trigger] remember_outcome(
                    old(self).store(),
                    old(self).model(),
                    content@,
                    confidence.bits,
                    texts(tags@),
                    res,
                    r,
                    final(self).store(),
                ),
    {
        let embedded = self.embedder.embed(content);
        proof {
            assert(is_embedded(&self.embedder, content@, embedded));
        }
        self.remember_with(content, confidence, embedded, tags)
    }

    /// An error of the provider, as an embed failure with the same message.
    fn as_embed_failure(e: MemoryError) -> (r: MemoryError)
        ensures
            r is EmbedFailure,
            message_of(r) == message_of(e),
    {
        match e {
            MemoryError::EmbedFailure(msg) => MemoryError::EmbedFailure(msg),
            MemoryError::Validation(msg) => MemoryError::EmbedFailure(msg),
            MemoryError::StorageFailure(msg) => MemoryError::EmbedFailure(msg),
            MemoryError::NotFound => MemoryError::EmbedFailure(String::from_str("not found")),
        }
    }

    /// The memories ranked by the similarity of their vectors to the query
    /// vector, the most similar first and equal scores in stored order, at
    /// most `limit` of them. A memory whose vector cannot be compared with
    /// the query's has the score zero.
    pub fn recall_with(&self, query: &[u32], limit: usize) -> (out: Vec<SearchResult>)
        ensures
            is_recall_for(self.store(), &self.math(), query@, limit as nat, result_views(out@)),
    {
        let all = self.store.get_all_with_embeddings();
        let scored = self.score_all(query, all);
        let out = rank_results(&scored, limit);
        proof {
            let scores = Seq::new(scored@.len(), |i: int| scored@[i].score.bits);
            assert(result_views(scored@) =~= scored_records(self.store(), scores));
            assert forall|i: int| 0 <= i < scores.len() implies is_similarity(
                &self.math(),
                query@,
                decode_embedding(self.store().records[i].embedding),
                Scalar { bits: #[trigger] scores[i] },
            ) by {
                assert(scored@[i].score == Scalar { bits: scores[i] });
            }
            let order = choose|order: Seq<usize>|
                score_order(result_views(scored@), order) && result_views(out@) == results_at(
                    result_views(scored@),
                    #[trigger] first_of(order, limit as nat),
                );
            assert(is_recall(
                self.store(),
                &self.math(),
                query@,
                scores,
                order,
                limit as nat,
                result_views(out@),
            ));
        }
        out
    }

    /// What a recall gives when the provider returned `embedded` for the
    /// query: its failure, as an embed failure with the same message, or the
    /// ranking for its vector.
    pub fn recall_given(&self, embedded: Result<Vec<u32>, MemoryError>, limit: usize) -> (r: Result<
        Vec<SearchResult>,
        MemoryError,
    >)
        ensures
            recall_outcome(self.store(), &self.math(), embedded, limit as nat, r),
    {
        match embedded {
            Ok(query) => {
                let out = self.recall_with(query.as_slice(), limit);
                let r: Result<Vec<SearchResult>, MemoryError> = Ok(out);
                assert(r->Ok_0@ == out@);
                r
            },
            Err(e) => Err(Self::as_embed_failure(e)),
        }
    }

    /// The memories ranked by the similarity of their vectors to the vector
    /// that the provider returns for `query`; a failure of the provider
    /// comes out as an embed failure with the same message.
    pub fn recall(&self, query: &str, limit: usize) -> (r: Result<Vec<SearchResult>, MemoryError>)
        ensures
            exists|res: Result<Vec<u32>, MemoryError>|
                is_embedded(&self.embedder(), query@, res) && #[trigger] recall_outcome(
                    self.store(),
                    &self.math(),
                    res,
                    limit as nat,
                    r,
                ),
    {
        let embedded = self.embedder.embed(query);
        proof {
            assert(is_embedded(&self.embedder, query@, embedded));
        }
        self.recall_given(embedded, limit)
    }

    /// The score of each memory for the query vector.
    fn score_all(&self, query: &[u32], all: Vec<Embedded>) -> (scored: Vec<SearchResult>)
        requires
            all@.len() == self.store().records.len(),
            forall|i: int|
                0 <= i < all@.len() ==> (#[trigger] all@[i]).memory@ == self.store().records[i].memory
                    && all@[i].embedding@ == decode_embedding(self.store().records[i].embedding),
        ensures
            scored@.len() == self.store().records.len(),
            forall|i: int|
                0 <= i < scored@.len() ==> (#[trigger] scored@[i]).memory@
                    == self.store().records[i].memory && is_similarity(
                    &self.math(),
                    query@,
                    decode_embedding(self.store().records[i].embedding),
                    scored@[i].score,
                ),
    {
        let mut scored: Vec<SearchResult> = Vec::new();
        let n = all.len();
        let mut i: usize = 0;
        while i < n
            invariant
                i <= n,
                n == all@.len(),
                all@.len() == self.store().records.len(),
                forall|k: int|
                    0 <= k < all@.len() ==> (#[trigger] all@[k]).memory@
                        == self.store().records[k].memory && all@[k].embedding@ == decode_embedding(
                        self.store().records[k].embedding,
                    ),
                scored@.len() == i,
                forall|k: int|
                    0 <= k < i ==> (#[trigger] scored@[k]).memory@ == self.store().records[k].memory
                        && is_similarity(
                        &self.math(),
                        query@,
                        decode_embedding(self.store().records[k].embedding),
                        scored@[k].score,
                    ),
            decreases n - i,
        {
            let score = cosine_similarity(&self.math, query, all[i].embedding.as_slice());
            scored.push(SearchResult { memory: all[i].memory.duplicate(), score });
            i += 1;
        }
        scored
    }
}

impl<E: Embedder, N: Numerics> Memories<E, N> {
    /// The memories that carry `tag`, whatever its case, the most recently
    /// updated first, at most `limit` of them.
    pub fn recall_by_tag(&self, tag: &str, limit: usize) -> (out: Vec<Memory>)
        ensures
            exists|order: Seq<usize>|
                recency_order(self.store().records, order) && memory_views(out@) == picked(
                    self.store().records,
                    first_of(
                        #[trigger] carrying(self.store().records, order, lowercase_text(tag@)),
                        limit as nat,
                    ),
                ),
    {
        self.store.get_by_tag(tag, limit)
    }

    /// The memory with the id `id`, if there is one.
    pub fn get(&self, id: i64) -> (r: Option<Memory>)
        ensures
            match r {
                Some(m) => exists|p: int|
                    at_id(self.store().records, id as int, p) && self.store().records[p].memory
                        == m@,
                None => !has_id(self.store().records, id as int),
            },
    {
        self.store.get(id)
    }

    /// The memories, the most recently updated first, at most `limit` of them.
    pub fn list(&self, limit: usize) -> (out: Vec<Memory>)
        ensures
            exists|order: Seq<usize>|
                recency_order(self.store().records, order) && memory_views(out@) == picked(
                    self.store().records,
                    #[trigger] first_of(order, limit as nat),
                ),
    {
        self.store.list(limit)
    }

    /// Updates the memory with the id `id` and says whether there is one.
    pub fn update(&mut self, id: i64, confidence: Option<Scalar>, tags: Option<&[String]>) -> (existed:
        bool)
        requires
            old(self).wf(),
        ensures
            final(self).wf(),
            final(self).model() == old(self).model(),
            existed == has_id(old(self).store().records, id as int),
            existed ==> exists|p: int, now: Seq<char>|
                at_id(old(self).store().records, id as int, p) && final(self).store()
                    == #[trigger] updated(
                    old(self).store(),
                    p,
                    given_bits(confidence),
                    given_texts(tags),
                    now,
                ),
            !existed ==> final(self).store() == old(self).store(),
    {
        self.store.update(id, confidence, tags)
    }

    /// Forgets the memory with the id `id` and says whether there was one.
    pub fn forget(&mut self, id: i64) -> (existed: bool)
        requires
            old(self).wf(),
        ensures
            final(self).wf(),
            final(self).model() == old(self).model(),
            existed == has_id(old(self).store().records, id as int),
            existed ==> exists|p: int|
                at_id(old(self).store().records, id as int, p) && final(self).store() == removed(
                    old(self).store(),
                    p,
                ),
            !existed ==> final(self).store() == old(self).store(),
            !has_id(final(self).store().records, id as int),
    {
        self.store.delete(id)
    }

    /// The tags in use with the number of memories that carry each, the
    /// greatest count first.
    pub fn tags(&self) -> (out: Vec<(String, usize)>)
        ensures
            is_tag_table(self.store().records, table_view(out@)),
    {
        self.store.get_all_tags()
    }

    /// Figures about the store. The mean confidence is taken over the most
    /// recent memories and is zero where there is none.
    pub fn stats(&self) -> (s: MemoryStats)
        ensures
            s.total_memories == self.store().records.len(),
            is_tag_table(self.store().records, table_view(s.by_tag@)),
            s.total_tags == s.by_tag@.len(),
            is_mean_confidence(self.store(), &self.math(), s.avg_confidence),
    {
        let count = self.store.count();
        let by_tag = self.store.get_all_tags();
        let memories = self.store.list(STATS_SAMPLE);
        let ghost order = choose|order: Seq<usize>|
            recency_order(self.store().records, order) && memory_views(memories@) == picked(
                self.store().records,
                #[trigger] first_of(order, STATS_SAMPLE as nat),
            );
        assert(memory_views(memories@).len() == memories@.len());
        assert(first_of(order, STATS_SAMPLE as nat).len() == memories@.len());
        let avg_confidence = if memories.len() == 0 {
            Scalar::zero()
        } else {
            let mut values: Vec<Scalar> = Vec::new();
            let n = memories.len();
            let mut i: usize = 0;
            while i < n
                invariant
                    i <= n,
                    n == memories@.len(),
                    values@.len() == i,
                    forall|k: int|
                        0 <= k < i ==> #[trigger] values@[k] == memories@[k].confidence,
                decreases n - i,
            {
                values.push(memories[i].confidence);
                i += 1;
            }
            proof {
                assert(values@ =~= confidences(memory_views(memories@)));
            }
            self.math.mean(values.as_slice())
        };
        MemoryStats { total_memories: count, total_tags: by_tag.len(), by_tag, avg_confidence }
    }

    /// Rebuilds every vector with the provider: embeds the content of each
    /// memory, replaces its vector and moves the time of its last update,
    /// and marks the store with the identity of the provider. A memory whose
    /// content the provider fails to embed keeps its vector and is not
    /// counted. Returns the number of vectors replaced.
    pub fn reindex(&mut self) -> (count: usize)
        requires
            old(self).wf(),
        ensures
            final(self).wf(),
            final(self).model() == old(self).model(),
            final(self).math() == old(self).math(),
            final(self).embedder() == old(self).embedder(),
            exists|given: Seq<Option<Seq<u32>>>, now: Seq<char>|
                all_provided(&old(self).embedder(), old(self).store(), given)
                    && final(self).store() == #[trigger] renewed(
                    old(self).store(),
                    given,
                    old(self).model(),
                    now,
                ) && count == renewals(given, old(self).store().records.len()),
            mismatch(final(self).store().stored_model, final(self).model()) is None,
    {
        let all = self.store.get_all_with_embeddings();
        let ghost start = self.store@;
        let mut vectors: Vec<Option<Vec<u32>>> = Vec::new();
        let n = all.len();
        let mut i: usize = 0;
        while i < n
            invariant
                i <= n,
                n == all@.len(),
                n == start.records.len(),
                self.store@ == start,
                self.wf(),
                self.model() == old(self).model(),
                self.math() == old(self).math(),
                self.embedder() == old(self).embedder(),
                forall|k: int|
                    0 <= k < n ==> (#[trigger] all@[k]).memory@ == start.records[k].memory,
                vectors@.len() == i,
                forall|k: int|
                    0 <= k < i ==> is_provided(
                        &self.embedder(),
                        start.records[k].memory.content,
                        #[trigger] vector_views(vectors@)[k],
                    ),
            decreases n - i,
        {
            let ghost before = vector_views(vectors@);
            let res = self.embedder.embed(all[i].memory.content.as_str());
            proof {
                assert(is_embedded(&self.embedder, start.records[i as int].memory.content, res));
            }
            let ghost given: Option<Seq<u32>> = given_vector(res);
            match res {
                Ok(v) => vectors.push(Some(v)),
                Err(_) => vectors.push(None),
            }
            proof {
                let after = vector_views(vectors@);
                assert(after[i as int] == given);
                assert forall|k: int| 0 <= k < i implies #[trigger] after[k] == before[k] by {}
            }
            i += 1;
        }
        let now = current_time();
        let count = self.store.reindex_at(&vectors, self.model.as_str(), now.as_str());
        assert(self.store@ == renewed(start, vector_views(vectors@), self.model@, now@));
        assert(all_provided(&old(self).embedder(), start, vector_views(vectors@)));
        count
    }
}

/// The confidences of memories.
pub open spec fn confidences(memories: Seq<MemoryView>) -> Seq<Scalar> {
    Seq::new(memories.len(), |i: int| Scalar { bits: memories[i].confidence })
}

/// Whether `avg` is the mean confidence of the store under the arithmetic
/// `math`: zero for a store without memories, else what the arithmetic
/// returned as the mean of the confidences of the most recent memories.
pub open spec fn is_mean_confidence<N: Numerics>(s: StoreView, math: &N, avg: Scalar) -> bool {
    if s.records.len() == 0 {
        avg.bits == 0
    } else {
        exists|order: Seq<usize>|
            recency_order(s.records, order) && is_mean_of(
                math,
                confidences(picked(s.records, #[trigger] first_of(order, STATS_SAMPLE as nat))),
                avg,
            )
    }
}

/// The vector that the provider returned, or nothing where it failed.
pub open spec fn given_vector(res: Result<Vec<u32>, MemoryError>) -> Option<Seq<u32>> {
    match res {
        Ok(v) => Some(v@),
        Err(_) => None,
    }
}

/// Whether `given` is what the provider returned for `content`: its vector,
/// or nothing where it failed.
pub open spec fn is_provided<E: Embedder>(
    embedder: &E,
    content: Seq<char>,
    given: Option<Seq<u32>>,
) -> bool {
    exists|res: Result<Vec<u32>, MemoryError>| #[trigger]
        is_embedded(embedder, content, res) && given == given_vector(res)
}

/// Whether `given` holds, for each record of `s`, what the provider returned
/// for its content.
pub open spec fn all_provided<E: Embedder>(
    embedder: &E,
    s: StoreView,
    given: Seq<Option<Seq<u32>>>,
) -> bool {
    &&& given.len() == s.records.len()
    &&& forall|i: int|
        0 <= i < given.len() ==> is_provided(
            embedder,
            s.records[i].memory.content,
            #[trigger] given[i],
        )
}

/// Twice `limit`, or the largest number where that is more.
pub open spec fn doubled(limit: nat) -> nat {
    if 2 * limit <= usize::MAX {
        2 * limit
    } else {
        usize::MAX as nat
    }
}

/// Whether `found` is what retrieval by tags gives for a prompt.
pub open spec fn is_tag_context(
    s: StoreView,
    prompt: Seq<char>,
    limit: nat,
    table: Seq<(String, usize)>,
    order: Seq<usize>,
    found: Seq<ResultView>,
) -> bool {
    &&& is_tag_table(s.records, table_view(table))
    &&& recency_order(s.records, order)
    &&& found == with_score_one(
        picked(
            s.records,
            first_of(
                union_positions(s.records, order, matched(tokens(prompt), tag_names(table)), limit),
                limit,
            ),
        ),
    )
}

/// What retrieval for a prompt gives in the modes that go by similarity,
/// when the provider returned `res` for the prompt: the provider's failure,
/// or, of the ranking of twice `limit` candidates for the provider's vector,
/// those whose score reaches the threshold, at most `limit` of them.
pub open spec fn similar_context_outcome<N: Numerics>(
    s: StoreView,
    math: &N,
    res: Result<Vec<u32>, MemoryError>,
    limit: nat,
    threshold: u64,
    r: Result<Vec<SearchResult>, MemoryError>,
) -> bool {
    match res {
        Ok(q) => r is Ok && exists|found: Seq<ResultView>| #[trigger]
            is_recall_for(s, math, q@, doubled(limit), found) && result_views(r->Ok_0@)
                == first_of(passing(found, threshold), limit),
        Err(e) => fails_with(r, e),
    }
}

impl<E: Embedder, N: Numerics> Memories<E, N> {
    /// The memories that are relevant to a prompt in the mode `mode`: by the
    /// tags that the prompt names in the mode `tags`, by similarity, among
    /// twice `limit` candidates, in the modes `lite` and `semantic`, none in
    /// any other mode. Of these, those whose score reaches `threshold`, at
    /// most `limit` of them.
    pub fn context(&self, prompt: &str, mode: &str, limit: usize, threshold: Scalar) -> (r: Result<
        Vec<SearchResult>,
        MemoryError,
    >)
        ensures
            if mode@ == "tags"@ {
                r is Ok && exists|
                    table: Seq<(String, usize)>,
                    order: Seq<usize>,
                    found: Seq<ResultView>,
                | #[trigger]
                    is_tag_context(self.store(), prompt@, limit as nat, table, order, found)
                        && result_views(r->Ok_0@) == first_of(
                        passing(found, threshold.bits),
                        limit as nat,
                    )
            } else if mode@ == "lite"@ || mode@ == "semantic"@ {
                exists|res: Result<Vec<u32>, MemoryError>|
                    is_embedded(&self.embedder(), prompt@, res)
                        && #[trigger] similar_context_outcome(
                        self.store(),
                        &self.math(),
                        res,
                        limit as nat,
                        threshold.bits,
                        r,
                    )
            } else {
                r is Ok && r->Ok_0@.len() == 0
            },
    {
        if same_text(mode, "tags") {
            let found = context_by_tags(&self.store, prompt, limit);
            let out = filter_results(&found, threshold, limit);
            let r: Result<Vec<SearchResult>, MemoryError> = Ok(out);
            proof {
                assert(r->Ok_0@ == out@);
                let (table, order) = choose|table: Seq<(String, usize)>, order: Seq<usize>|
                    is_tag_table(self.store().records, table_view(table)) && recency_order(
                        self.store().records,
                        order,
                    ) && result_views(found@) == with_score_one(
                        picked(
                            self.store().records,
                            first_of(
                                #[trigger] union_positions(
                                    self.store().records,
                                    order,
                                    matched(tokens(prompt@), tag_names(table)),
                                    limit as nat,
                                ),
                                limit as nat,
                            ),
                        ),
                    );
                assert(is_tag_context(
                    self.store(),
                    prompt@,
                    limit as nat,
                    table,
                    order,
                    result_views(found@),
                ));
            }
            r
        } else if same_text(mode, "lite") || same_text(mode, "semantic") {
            let candidates = if limit <= usize::MAX / 2 {
                limit * 2
            } else {
                usize::MAX
            };
            assert(candidates as nat == doubled(limit as nat));
            let embedded = self.embedder.embed(prompt);
            proof {
                assert(is_embedded(&self.embedder, prompt@, embedded));
            }
            match self.recall_given(embedded, candidates) {
                Ok(found) => {
                    let out = filter_results(&found, threshold, limit);
                    let r: Result<Vec<SearchResult>, MemoryError> = Ok(out);
                    proof {
                        assert(r->Ok_0@ == out@);
                        assert(is_recall_for(
                            self.store(),
                            &self.math(),
                            embedded->Ok_0@,
                            doubled(limit as nat),
                            result_views(found@),
                        ));
                        assert(similar_context_outcome(
                            self.store(),
                            &self.math(),
                            embedded,
                            limit as nat,
                            threshold.bits,
                            r,
                        ));
                    }
                    r
                },
                Err(e) => {
                    let r: Result<Vec<SearchResult>, MemoryError> = Err(e);
                    assert(similar_context_outcome(
                        self.store(),
                        &self.math(),
                        embedded,
                        limit as nat,
                        threshold.bits,
                        r,
                    ));
                    r
                },
            }
        } else {
            let r: Result<Vec<SearchResult>, MemoryError> = Ok(Vec::new());
            assert(r->Ok_0@.len() == 0);
            r
        }
    }
}

} // verus!
