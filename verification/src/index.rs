//! The memory store: entries in the order they were added, each with its
//! tags and its vector, and a text index that mirrors their contents.

use crate::clock::current_time;
use crate::codec::{decode_embedding, deserialize_embedding, serialize_embedding};
use crate::store_spec::{
    accessed, added, given_at, removed, renewals, renewed, renewed_record, restorable, updated,
};
use crate::tags::{is_tag_table, table_view, tag_table};
use crate::order::{
    bytes_before, is_before, lemma_bytes_before_irreflexive, lemma_bytes_before_total,
    lemma_bytes_before_transitive,
};
use crate::ranking::{is_permutation, rank, RankKey};
use crate::scalar::Scalar;
use crate::text::{lowercase, lowercase_text};
use crate::types::{texts, Memory, MemoryError, MemoryView};
use vstd::prelude::*;
use vstd::utf8::encode_utf8;

verus! {

/// A stored memory with the bytes of its vector.
#[derive(Debug)]
pub struct Record {
    pub memory: Memory,
    pub embedding: Vec<u8>,
}

/// What a record holds.
pub struct RecordView {
    pub memory: MemoryView,
    pub embedding: Seq<u8>,
}

impl View for Record {
    type V = RecordView;

    open spec fn view(&self) -> RecordView {
        RecordView { memory: self.memory@, embedding: self.embedding@ }
    }
}

/// An entry of the text index.
#[derive(Debug)]
pub struct IndexEntry {
    pub id: i64,
    pub content: String,
}

/// The store.
#[derive(Debug)]
pub struct MemoryStore {
    pub(crate) records: Vec<Record>,
    pub(crate) index: Vec<IndexEntry>,
    next_id: i64,
    stored_model: Option<String>,
}

/// What a store holds: the records in stored order, the text index, the id
/// that the next memory gets, and the marker of the model whose vectors are
/// stored.
pub struct StoreView {
    pub records: Seq<RecordView>,
    pub index: Seq<(int, Seq<char>)>,
    pub next_id: int,
    pub stored_model: Option<Seq<char>>,
}

/// The views of a sequence of records.
pub open spec fn record_views(records: Seq<Record>) -> Seq<RecordView> {
    Seq::new(records.len(), |i: int| records[i]@)
}

/// The text index that belongs to `records`: for each record its id and
/// content, in the same order.
pub open spec fn mirror(records: Seq<RecordView>) -> Seq<(int, Seq<char>)> {
    Seq::new(records.len(), |i: int| (records[i].memory.id, records[i].memory.content))
}

/// Whether the record at position `p` has the id `id`.
pub open spec fn at_id(records: Seq<RecordView>, id: int, p: int) -> bool {
    0 <= p < records.len() && records[p].memory.id == id
}

/// Whether some record has the id `id`.
pub open spec fn has_id(records: Seq<RecordView>, id: int) -> bool {
    exists|p: int| at_id(records, id, p)
}

/// The invariant of a store: ids grow with the stored order and lie below
/// the next id, no memory carries a tag twice, and the text index mirrors
/// the records.
pub open spec fn well_formed(s: StoreView) -> bool {
    &&& forall|i: int, j: int|
        0 <= i < j < s.records.len() ==> (#[trigger] s.records[i]).memory.id < (
        #[trigger] s.records[j]).memory.id
    &&& forall|i: int| 0 <= i < s.records.len() ==> (#[trigger] s.records[i]).memory.id < s.next_id
    &&& forall|i: int|
        0 <= i < s.records.len() ==> (#[trigger] s.records[i]).memory.tags.no_duplicates()
    &&& s.next_id <= i64::MAX
    &&& s.index == mirror(s.records)
}

/// The tags as they are stored: each in lower case, a repeated one only
/// where it came first.
pub open spec fn fold_tags(tags: Seq<Seq<char>>) -> Seq<Seq<char>>
    decreases tags.len(),
{
    if tags.len() == 0 {
        Seq::empty()
    } else {
        let rest = fold_tags(tags.drop_last());
        let t = lowercase_text(tags.last());
        if rest.contains(t) {
            rest
        } else {
            rest.push(t)
        }
    }
}

/// The bit pattern of a confidence that may be given.
pub open spec fn given_bits(confidence: Option<Scalar>) -> Option<u64> {
    match confidence {
        Some(c) => Some(c.bits),
        None => None,
    }
}

/// The texts of tags that may be given.
pub open spec fn given_texts(tags: Option<&[String]>) -> Option<Seq<Seq<char>>> {
    match tags {
        Some(t) => Some(texts(t@)),
        None => None,
    }
}

/// Folded tags hold nothing twice.
pub proof fn lemma_fold_tags_distinct(tags: Seq<Seq<char>>)
    ensures
        fold_tags(tags).no_duplicates(),
    decreases tags.len(),
{
    if tags.len() > 0 {
        lemma_fold_tags_distinct(tags.drop_last());
    }
}

/// Whether `tag` is among `tags`.
pub fn contains_text(tags: &Vec<String>, tag: &String) -> (b: bool)
    ensures
        b == texts(tags@).contains(tag@),
{
    let n = tags.len();
    let mut i: usize = 0;
    while i < n
        invariant
            i <= n,
            n == tags@.len(),
            forall|k: int| 0 <= k < i ==> texts(tags@)[k] != tag@,
        decreases n - i,
    {
        if tags[i] == *tag {
            assert(texts(tags@)[i as int] == tag@);
            return true;
        }
        i += 1;
    }
    false
}

/// Folds tags for storing.
pub fn folded(tags: &[String]) -> (out: Vec<String>)
    ensures
        texts(out@) == fold_tags(texts(tags@)),
{
    let mut out: Vec<String> = Vec::new();
    let n = tags.len();
    let mut i: usize = 0;
    assert(texts(tags@).take(0) == Seq::<Seq<char>>::empty());
    assert(texts(out@) == Seq::<Seq<char>>::empty());
    while i < n
        invariant
            i <= n,
            n == tags@.len(),
            texts(out@) == fold_tags(texts(tags@).take(i as int)),
        decreases n - i,
    {
        let t = lowercase(tags[i].as_str());
        assert(texts(tags@).take(i + 1).drop_last() == texts(tags@).take(i as int));
        assert(texts(tags@).take(i + 1).last() == tags@[i as int]@);
        if !contains_text(&out, &t) {
            let ghost before = texts(out@);
            out.push(t);
            assert(texts(out@) == before.push(t@));
        }
        i += 1;
    }
    assert(texts(tags@).take(n as int) == texts(tags@));
    out
}

impl View for MemoryStore {
    type V = StoreView;

    closed spec fn view(&self) -> StoreView {
        StoreView {
            records: record_views(self.records@),
            index: Seq::new(self.index@.len(), |i: int| (self.index@[i].id as int, self.index@[i].content@)),
            next_id: self.next_id as int,
            stored_model: match self.stored_model {
                Some(m) => Some(m@),
                None => None,
            },
        }
    }
}

impl MemoryStore {
    /// Whether the invariant of the store holds.
    pub open spec fn wf(&self) -> bool {
        well_formed(self@)
    }

    /// An empty store, whose first memory gets the id 1.
    pub fn in_memory() -> (s: Self)
        ensures
            s.wf(),
            s@.records.len() == 0,
            s@.next_id == 1,
            s@.stored_model is None,
    {
        let s = MemoryStore { records: Vec::new(), index: Vec::new(), next_id: 1, stored_model: None };
        assert(s@.index =~= mirror(s@.records));
        s
    }

    /// The number of memories.
    pub fn count(&self) -> (n: usize)
        ensures
            n == self@.records.len(),
    {
        self.records.len()
    }

    /// The position of the record with the id `id`.
    fn find(&self, id: i64) -> (r: Option<usize>)
        ensures
            match r {
                Some(p) => at_id(self@.records, id as int, p as int),
                None => !has_id(self@.records, id as int),
            },
    {
        let n = self.records.len();
        let mut i: usize = 0;
        while i < n
            invariant
                i <= n,
                n == self.records@.len(),
                forall|k: int| 0 <= k < i ==> !at_id(self@.records, id as int, k),
            decreases n - i,
        {
            if self.records[i].memory.id == id {
                return Some(i);
            }
            i += 1;
        }
        None
    }

    /// The memory with the id `id`, if there is one.
    pub fn get(&self, id: i64) -> (r: Option<Memory>)
        ensures
            match r {
                Some(m) => exists|p: int| at_id(self@.records, id as int, p) && self@.records[p].memory == m@,
                None => !has_id(self@.records, id as int),
            },
    {
        match self.find(id) {
            Some(p) => Some(self.records[p].memory.duplicate()),
            None => None,
        }
    }
}

impl MemoryStore {
    /// Adds a memory at the time `now` and returns its id, which is the next
    /// id of the store. Fails, and changes nothing, only where the ids are
    /// used up.
    pub fn add_at(
        &mut self,
        content: &str,
        confidence: Scalar,
        embedding: &[u32],
        tags: &[String],
        now: &str,
    ) -> (r: Result<i64, MemoryError>)
        requires
            old(self).wf(),
        ensures
            final(self).wf(),
            r is Ok <==> old(self)@.next_id < i64::MAX,
            match r {
                Ok(id) => id == old(self)@.next_id && final(self)@ == added(
                    old(self)@,
                    content@,
                    confidence.bits,
                    embedding@,
                    texts(tags@),
                    now@,
                ),
                Err(e) => e is StorageFailure && final(self)@ == old(self)@,
            },
    {
        if self.next_id == i64::MAX {
            return Err(MemoryError::StorageFailure(String::from_str("no id is left")));
        }
        let id = self.next_id;
        let memory = Memory {
            id,
            content: String::from_str(content),
            confidence,
            tags: folded(tags),
            created_at: String::from_str(now),
            updated_at: String::from_str(now),
            last_accessed_at: None,
            access_count: 0,
        };
        proof {
            lemma_fold_tags_distinct(texts(tags@));
        }
        self.records.push(Record { memory, embedding: serialize_embedding(embedding) });
        self.index.push(IndexEntry { id, content: String::from_str(content) });
        self.next_id = id + 1;
        proof {
            let goal = added(
                old(self)@,
                content@,
                confidence.bits,
                embedding@,
                texts(tags@),
                now@,
            );
            assert(self@.records =~= goal.records);
            assert(self@.index =~= goal.index);
            assert(self@.index =~= mirror(self@.records));
        }
        Ok(id)
    }

    /// Adds a memory at the present time.
    pub fn add(
        &mut self,
        content: &str,
        confidence: Scalar,
        embedding: &[u32],
        tags: &[String],
    ) -> (r: Result<i64, MemoryError>)
        requires
            old(self).wf(),
        ensures
            final(self).wf(),
            r is Ok <==> old(self)@.next_id < i64::MAX,
            match r {
                Ok(id) => id == old(self)@.next_id && exists|now: Seq<char>|
                    final(self)@ == added(
                        old(self)@,
                        content@,
                        confidence.bits,
                        embedding@,
                        texts(tags@),
                        now,
                    ),
                Err(e) => e is StorageFailure && final(self)@ == old(self)@,
            },
    {
        let now = current_time();
        self.add_at(content, confidence, embedding, tags, now.as_str())
    }

    /// Removes the memory with the id `id`, with its tags and its entry in
    /// the text index, and says whether there was one.
    pub fn delete(&mut self, id: i64) -> (existed: bool)
        requires
            old(self).wf(),
        ensures
            final(self).wf(),
            existed == has_id(old(self)@.records, id as int),
            existed ==> exists|p: int|
                at_id(old(self)@.records, id as int, p) && final(self)@ == removed(old(self)@, p),
            !existed ==> final(self)@ == old(self)@,
            !has_id(final(self)@.records, id as int),
    {
        match self.find(id) {
            Some(p) => {
                self.records.remove(p);
                self.index.remove(p);
                proof {
                    let goal = removed(old(self)@, p as int);
                    assert(self@.records =~= goal.records);
                    assert(self@.index =~= goal.index);
                    assert(self@.index =~= mirror(self@.records));
                    assert forall|q: int| !at_id(self@.records, id as int, q) by {
                        if 0 <= q < self@.records.len() {
                            if q < p {
                                assert(self@.records[q] == old(self)@.records[q]);
                            } else {
                                assert(self@.records[q] == old(self)@.records[q + 1]);
                            }
                        }
                    }
                }
                true
            },
            None => false,
        }
    }

    /// Updates the memory with the id `id` at the time `now` and says
    /// whether there is one: a confidence that is given replaces the old
    /// one, tags that are given replace all old tags.
    pub fn update_at(
        &mut self,
        id: i64,
        confidence: Option<Scalar>,
        tags: Option<&[String]>,
        now: &str,
    ) -> (existed: bool)
        requires
            old(self).wf(),
        ensures
            final(self).wf(),
            existed == has_id(old(self)@.records, id as int),
            existed ==> exists|p: int|
                at_id(old(self)@.records, id as int, p) && final(self)@ == updated(
                    old(self)@,
                    p,
                    given_bits(confidence),
                    given_texts(tags),
                    now@,
                ),
            !existed ==> final(self)@ == old(self)@,
    {
        match self.find(id) {
            Some(p) => {
                if let Some(c) = confidence {
                    self.records[p].memory.confidence = c;
                    self.records[p].memory.updated_at = String::from_str(now);
                }
                if let Some(t) = tags {
                    proof {
                        lemma_fold_tags_distinct(texts(t@));
                    }
                    self.records[p].memory.tags = folded(t);
                    self.records[p].memory.updated_at = String::from_str(now);
                }
                proof {
                    let goal = updated(
                        old(self)@,
                        p as int,
                        given_bits(confidence),
                        given_texts(tags),
                        now@,
                    );
                    assert(self@.records[p as int].memory == goal.records[p as int].memory);
                    assert(self@.records =~= goal.records);
                    assert(self@.index =~= goal.index);
                    assert(self@.index =~= mirror(self@.records));
                }
                true
            },
            None => false,
        }
    }

    /// Updates the memory with the id `id` at the present time.
    pub fn update(&mut self, id: i64, confidence: Option<Scalar>, tags: Option<&[String]>) -> (existed:
        bool)
        requires
            old(self).wf(),
        ensures
            final(self).wf(),
            existed == has_id(old(self)@.records, id as int),
            existed ==> exists|p: int, now: Seq<char>|
                at_id(old(self)@.records, id as int, p) && final(self)@ == #[trigger] updated(
                    old(self)@,
                    p,
                    given_bits(confidence),
                    given_texts(tags),
                    now,
                ),
            !existed ==> final(self)@ == old(self)@,
    {
        let now = current_time();
        self.update_at(id, confidence, tags, now.as_str())
    }

    /// Records an access to the memory with the id `id` at the time `now`
    /// and says whether there is one.
    pub fn record_access_at(&mut self, id: i64, now: &str) -> (existed: bool)
        requires
            old(self).wf(),
        ensures
            final(self).wf(),
            existed == has_id(old(self)@.records, id as int),
            existed ==> exists|p: int|
                at_id(old(self)@.records, id as int, p) && final(self)@ == accessed(
                    old(self)@,
                    p,
                    now@,
                ),
            !existed ==> final(self)@ == old(self)@,
    {
        match self.find(id) {
            Some(p) => {
                self.records[p].memory.last_accessed_at = Some(String::from_str(now));
                let n = self.records[p].memory.access_count;
                if n < i64::MAX {
                    self.records[p].memory.access_count = n + 1;
                }
                proof {
                    let goal = accessed(old(self)@, p as int, now@);
                    assert(self@.records[p as int].memory == goal.records[p as int].memory);
                    assert(self@.records =~= goal.records);
                    assert(self@.index =~= goal.index);
                    assert(self@.index =~= mirror(self@.records));
                }
                true
            },
            None => false,
        }
    }

    /// Records an access to the memory with the id `id` at the present time.
    pub fn record_access(&mut self, id: i64) -> (existed: bool)
        requires
            old(self).wf(),
        ensures
            final(self).wf(),
            existed == has_id(old(self)@.records, id as int),
            existed ==> exists|p: int, now: Seq<char>|
                at_id(old(self)@.records, id as int, p) && final(self)@ == #[trigger] accessed(
                    old(self)@,
                    p,
                    now,
                ),
            !existed ==> final(self)@ == old(self)@,
    {
        let now = current_time();
        self.record_access_at(id, now.as_str())
    }
}

/// Whether the time `a` is later than the time `b`. Times are texts in one
/// fixed format, and the later one has the greater bytes.
pub open spec fn later(a: Seq<char>, b: Seq<char>) -> bool {
    bytes_before(encode_utf8(b), encode_utf8(a))
}

impl RankKey for Record {
    open spec fn outranks(&self, other: &Self) -> bool {
        later(self@.memory.updated_at, other@.memory.updated_at)
    }

    fn ranks_ahead(&self, other: &Self) -> (b: bool) {
        is_before(other.memory.updated_at.as_str().as_bytes(), self.memory.updated_at.as_str().as_bytes())
    }

    proof fn lemma_strict_weak_order(a: &Self, b: &Self, c: &Self) {
        let x = encode_utf8(a@.memory.updated_at);
        let y = encode_utf8(b@.memory.updated_at);
        let z = encode_utf8(c@.memory.updated_at);
        lemma_bytes_before_irreflexive(x);
        lemma_bytes_before_irreflexive(y);
        lemma_bytes_before_total(x, y);
        lemma_bytes_before_total(y, z);
        if bytes_before(z, y) && bytes_before(y, x) {
            lemma_bytes_before_transitive(z, y, x);
        }
        if bytes_before(x, y) && bytes_before(y, z) {
            lemma_bytes_before_transitive(x, y, z);
            if bytes_before(z, x) {
                lemma_bytes_before_transitive(x, z, x);
            }
        }
    }
}

/// Whether the record at position `i` comes before the one at position `j`
/// when the most recently updated goes first: it was updated later, or at
/// the same time and stored first.
pub open spec fn newer_first(records: Seq<RecordView>, i: int, j: int) -> bool {
    later(records[i].memory.updated_at, records[j].memory.updated_at) || (!later(
        records[j].memory.updated_at,
        records[i].memory.updated_at,
    ) && i < j)
}

/// Whether `order` lists the positions of `records`, the most recently
/// updated first.
pub open spec fn recency_order(records: Seq<RecordView>, order: Seq<usize>) -> bool {
    &&& is_permutation(order, records.len())
    &&& forall|a: int, b: int|
        0 <= a < b < order.len() ==> newer_first(
            records,
            #[trigger] order[a] as int,
            #[trigger] order[b] as int,
        )
}

/// The first `limit` of `s`, or all of it where it has fewer.
pub open spec fn first_of<A>(s: Seq<A>, limit: nat) -> Seq<A> {
    if limit < s.len() {
        s.take(limit as int)
    } else {
        s
    }
}

/// The memories at the given positions.
pub open spec fn picked(records: Seq<RecordView>, positions: Seq<usize>) -> Seq<MemoryView> {
    Seq::new(positions.len(), |k: int| records[positions[k] as int].memory)
}

/// The views of a sequence of memories.
pub open spec fn memory_views(memories: Seq<Memory>) -> Seq<MemoryView> {
    Seq::new(memories.len(), |k: int| memories[k]@)
}

/// Those of `positions`, in order, whose record carries the stored tag `tag`.
pub open spec fn carrying(records: Seq<RecordView>, positions: Seq<usize>, tag: Seq<char>) -> Seq<
    usize,
>
    decreases positions.len(),
{
    if positions.len() == 0 {
        Seq::empty()
    } else {
        let rest = carrying(records, positions.drop_last(), tag);
        if records[positions.last() as int].memory.tags.contains(tag) {
            rest.push(positions.last())
        } else {
            rest
        }
    }
}

impl MemoryStore {
    /// The positions of the records, the most recently updated first.
    fn by_recency(&self) -> (order: Vec<usize>)
        ensures
            recency_order(self@.records, order@),
    {
        let order = rank(&self.records);
        proof {
            assert forall|a: int, b: int| 0 <= a < b < order@.len() implies newer_first(
                self@.records,
                #[trigger] order@[a] as int,
                #[trigger] order@[b] as int,
            ) by {
                assert(crate::ranking::precedes(self.records@, order@[a] as int, order@[b] as int));
            }
        }
        order
    }

    /// Copies of the memories at the given positions.
    fn pick(&self, positions: &Vec<usize>) -> (out: Vec<Memory>)
        requires
            forall|k: int| 0 <= k < positions@.len() ==> positions@[k] < self@.records.len(),
        ensures
            memory_views(out@) == picked(self@.records, positions@),
    {
        let mut out: Vec<Memory> = Vec::new();
        let n = positions.len();
        let mut k: usize = 0;
        while k < n
            invariant
                k <= n,
                n == positions@.len(),
                out@.len() == k,
                forall|i: int| 0 <= i < positions@.len() ==> positions@[i] < self@.records.len(),
                forall|i: int| 0 <= i < k ==> out@[i]@ == self@.records[positions@[i] as int].memory,
            decreases n - k,
        {
            out.push(self.records[positions[k]].memory.duplicate());
            k += 1;
        }
        assert(memory_views(out@) =~= picked(self@.records, positions@));
        out
    }

    /// Those positions of `order`, in order, whose record carries the stored
    /// tag `wanted`.
    fn carriers(&self, order: &Vec<usize>, wanted: &String) -> (hits: Vec<usize>)
        requires
            recency_order(self@.records, order@),
        ensures
            hits@ == carrying(self@.records, order@, wanted@),
            forall|i: int| 0 <= i < hits@.len() ==> hits@[i] < self@.records.len(),
    {
        let mut hits: Vec<usize> = Vec::new();
        let n = order.len();
        let mut k: usize = 0;
        assert(order@.take(0) == Seq::<usize>::empty());
        while k < n
            invariant
                k <= n,
                n == order@.len(),
                recency_order(self@.records, order@),
                hits@ == carrying(self@.records, order@.take(k as int), wanted@),
                forall|i: int| 0 <= i < hits@.len() ==> hits@[i] < self@.records.len(),
            decreases n - k,
        {
            let p = order[k];
            assert(order@.take(k + 1).drop_last() == order@.take(k as int));
            if contains_text(&self.records[p].memory.tags, wanted) {
                hits.push(p);
            }
            k += 1;
        }
        assert(order@.take(n as int) == order@);
        hits
    }

    /// The memories, the most recently updated first, at most `limit` of them.
    pub fn list(&self, limit: usize) -> (out: Vec<Memory>)
        ensures
            exists|order: Seq<usize>|
                recency_order(self@.records, order) && memory_views(out@) == picked(
                    self@.records,
                    #[trigger] first_of(order, limit as nat),
                ),
    {
        let mut order = self.by_recency();
        let ghost full = order@;
        order.truncate(limit);
        assert(order@ == first_of(full, limit as nat));
        self.pick(&order)
    }

    /// The memories that carry `tag`, whatever its case, the most recently
    /// updated first, at most `limit` of them.
    pub fn get_by_tag(&self, tag: &str, limit: usize) -> (out: Vec<Memory>)
        ensures
            exists|order: Seq<usize>|
                recency_order(self@.records, order) && memory_views(out@) == picked(
                    self@.records,
                    first_of(#[trigger] carrying(self@.records, order, lowercase_text(tag@)), limit as nat),
                ),
    {
        let order = self.by_recency();
        let wanted = lowercase(tag);
        let mut hits = self.carriers(&order, &wanted);
        let ghost all = hits@;
        hits.truncate(limit);
        assert(hits@ == first_of(all, limit as nat));
        self.pick(&hits)
    }
}

/// A memory with its vector.
#[derive(Debug)]
pub struct Embedded {
    pub memory: Memory,
    pub embedding: Vec<u32>,
}

impl MemoryStore {
    /// Every memory with its vector, in stored order.
    pub fn get_all_with_embeddings(&self) -> (out: Vec<Embedded>)
        ensures
            out@.len() == self@.records.len(),
            forall|i: int|
                0 <= i < out@.len() ==> (#[trigger] out@[i]).memory@ == self@.records[i].memory
                    && out@[i].embedding@ == decode_embedding(self@.records[i].embedding),
    {
        let mut out: Vec<Embedded> = Vec::new();
        let n = self.records.len();
        let mut i: usize = 0;
        while i < n
            invariant
                i <= n,
                n == self.records@.len(),
                out@.len() == i,
                forall|k: int|
                    0 <= k < i ==> (#[trigger] out@[k]).memory@ == self@.records[k].memory
                        && out@[k].embedding@ == decode_embedding(self@.records[k].embedding),
            decreases n - i,
        {
            let memory = self.records[i].memory.duplicate();
            let embedding = deserialize_embedding(self.records[i].embedding.as_slice());
            out.push(Embedded { memory, embedding });
            i += 1;
        }
        out
    }

    /// The marker of the model whose vectors are stored, if one was set.
    pub fn stored_model(&self) -> (m: Option<String>)
        ensures
            match m {
                Some(name) => self@.stored_model == Some(name@),
                None => self@.stored_model is None,
            },
    {
        match &self.stored_model {
            Some(name) => Some(name.clone()),
            None => None,
        }
    }

    /// Sets the marker of the model whose vectors are stored.
    pub fn set_stored_model(&mut self, model: &str)
        requires
            old(self).wf(),
        ensures
            final(self).wf(),
            final(self)@ == (StoreView { stored_model: Some(model@), ..old(self)@ }),
    {
        self.stored_model = Some(String::from_str(model));
        proof {
            assert(self@.records =~= old(self)@.records);
            assert(self@.index =~= old(self)@.index);
        }
    }

    /// The content that the text index holds for the id `id`, if any.
    pub fn indexed_content(&self, id: i64) -> (r: Option<String>)
        ensures
            match r {
                Some(c) => exists|p: int|
                    0 <= p < self@.index.len() && #[trigger] self@.index[p] == (id as int, c@),
                None => forall|p: int|
                    0 <= p < self@.index.len() ==> (#[trigger] self@.index[p]).0 != id,
            },
    {
        let n = self.index.len();
        let mut i: usize = 0;
        while i < n
            invariant
                i <= n,
                n == self.index@.len(),
                forall|p: int| 0 <= p < i ==> (#[trigger] self@.index[p]).0 != id,
            decreases n - i,
        {
            if self.index[i].id == id {
                let c = self.index[i].content.clone();
                assert(self@.index[i as int] == (id as int, c@));
                return Some(c);
            }
            i += 1;
        }
        None
    }
}

/// The vectors that a rebuild is given, as mathematical values.
pub open spec fn vector_views(embeddings: Seq<Option<Vec<u32>>>) -> Seq<Option<Seq<u32>>> {
    Seq::new(
        embeddings.len(),
        |i: int|
            match embeddings[i] {
                Some(v) => Some(v@),
                None => None,
            },
    )
}

/// Whether `tags` holds nothing twice.
pub fn all_distinct(tags: &Vec<String>) -> (b: bool)
    ensures
        b == texts(tags@).no_duplicates(),
{
    let n = tags.len();
    let mut i: usize = 0;
    while i < n
        invariant
            i <= n,
            n == tags@.len(),
            forall|a: int, c: int| 0 <= a < c < i ==> texts(tags@)[a] != texts(tags@)[c],
        decreases n - i,
    {
        let mut j: usize = 0;
        while j < i
            invariant
                j <= i,
                i < n,
                n == tags@.len(),
                forall|a: int| 0 <= a < j ==> texts(tags@)[a] != texts(tags@)[i as int],
            decreases i - j,
        {
            if tags[j] == tags[i] {
                assert(texts(tags@)[j as int] == texts(tags@)[i as int]);
                return false;
            }
            j += 1;
        }
        i += 1;
    }
    true
}

impl MemoryStore {
    /// The tags in use with the number of memories that carry each, the
    /// greatest count first.
    pub fn get_all_tags(&self) -> (out: Vec<(String, usize)>)
        ensures
            is_tag_table(self@.records, table_view(out@)),
    {
        tag_table(&self.records)
    }

    /// Rebuilds the vectors at the time `now`: the memory at position `i`
    /// gets the vector given for `i`; where none is given it keeps the one
    /// it has. Marks the store with `model` and returns the number of
    /// vectors replaced.
    pub fn reindex_at(&mut self, embeddings: &Vec<Option<Vec<u32>>>, model: &str, now: &str) -> (count:
        usize)
        requires
            old(self).wf(),
        ensures
            final(self).wf(),
            final(self)@ == renewed(old(self)@, vector_views(embeddings@), model@, now@),
            count == renewals(vector_views(embeddings@), old(self)@.records.len()),
    {
        let ghost given = vector_views(embeddings@);
        let ghost start = self@;
        let n = self.records.len();
        let mut count: usize = 0;
        let mut i: usize = 0;
        while i < n
            invariant
                i <= n,
                n == start.records.len(),
                given == vector_views(embeddings@),
                well_formed(start),
                count == renewals(given, i as nat),
                count <= i,
                self@.records.len() == n,
                forall|k: int|
                    0 <= k < i ==> #[trigger] self@.records[k] == renewed_record(
                        start.records[k],
                        given_at(given, k),
                        now@,
                    ),
                forall|k: int| i <= k < n ==> #[trigger] self@.records[k] == start.records[k],
                self@.index == start.index,
                self@.next_id == start.next_id,
                self@.stored_model == start.stored_model,
            decreases n - i,
        {
            let ghost before = self@;
            if i < embeddings.len() {
                if let Some(v) = &embeddings[i] {
                    self.records[i].embedding = serialize_embedding(v.as_slice());
                    self.records[i].memory.updated_at = String::from_str(now);
                    count += 1;
                }
            }
            proof {
                assert(self@.index =~= before.index);
                assert forall|k: int| 0 <= k < n && k != i implies #[trigger] self@.records[k]
                    == before.records[k] by {}
                let goal = renewed_record(start.records[i as int], given_at(given, i as int), now@);
                assert(before.records[i as int] == start.records[i as int]);
                assert(self@.records[i as int].memory == goal.memory);
                assert(self@.records[i as int].embedding == goal.embedding);
            }
            i += 1;
        }
        self.stored_model = Some(String::from_str(model));
        proof {
            let goal = renewed(start, given, model@, now@);
            assert(self@.records =~= goal.records);
            assert(self@.index =~= goal.index);
            assert(self@.index =~= mirror(self@.records));
        }
        count
    }

    /// A store with the given records, next id and marker, where they can
    /// make one.
    pub fn restore(records: Vec<Record>, next_id: i64, stored_model: Option<String>) -> (r: Option<
        MemoryStore,
    >)
        ensures
            r is Some <==> restorable(record_views(records@), next_id as int),
            match r {
                Some(s) => s.wf() && s@.records == record_views(records@) && s@.next_id == next_id
                    && s@.stored_model == (match stored_model {
                    Some(m) => Some(m@),
                    None => None,
                }),
                None => true,
            },
    {
        let ghost views = record_views(records@);
        let n = records.len();
        let mut index: Vec<IndexEntry> = Vec::new();
        let mut i: usize = 0;
        while i < n
            invariant
                i <= n,
                n == records@.len(),
                views == record_views(records@),
                index@.len() == i,
                forall|k: int|
                    0 <= k < i ==> (#[trigger] index@[k]).id == views[k].memory.id && index@[k].content@
                        == views[k].memory.content,
                forall|a: int, b: int|
                    0 <= a < b < i ==> (#[trigger] views[a]).memory.id < (#[trigger] views[b]).memory.id,
                forall|k: int| 0 <= k < i ==> (#[trigger] views[k]).memory.id < next_id,
                forall|k: int| 0 <= k < i ==> (#[trigger] views[k]).memory.tags.no_duplicates(),
            decreases n - i,
        {
            let id = records[i].memory.id;
            assert(views[i as int].memory.id == id);
            if id >= next_id {
                return None;
            }
            if i > 0 && records[i - 1].memory.id >= id {
                assert(views[i - 1].memory.id >= views[i as int].memory.id);
                return None;
            }
            if !all_distinct(&records[i].memory.tags) {
                assert(views[i as int].memory.tags == texts(records@[i as int].memory.tags@));
                return None;
            }
            assert(views[i as int].memory.tags == texts(records@[i as int].memory.tags@));
            index.push(IndexEntry { id, content: records[i].memory.content.clone() });
            i += 1;
        }
        let s = MemoryStore { records, index, next_id, stored_model };
        assert(s@.index =~= mirror(s@.records));
        Some(s)
    }

    /// The records, in stored order, for a durable copy.
    pub fn records(&self) -> (out: &Vec<Record>)
        ensures
            record_views(out@) == self@.records,
    {
        &self.records
    }

    /// The id that the next memory gets.
    pub fn next_id(&self) -> (id: i64)
        ensures
            id == self@.next_id,
    {
        self.next_id
    }
}

/// `acc` followed by those of `more`, in order, that are not yet in it.
pub open spec fn append_new(acc: Seq<usize>, more: Seq<usize>) -> Seq<usize>
    decreases more.len(),
{
    if more.len() == 0 {
        acc
    } else {
        let a = append_new(acc, more.drop_last());
        if a.contains(more.last()) {
            a
        } else {
            a.push(more.last())
        }
    }
}

/// The positions of the records that carry one of `tags`, whatever its
/// case: for each tag in turn its first `limit` records by recency, a record
/// that is already listed being passed over.
pub open spec fn union_positions(
    records: Seq<RecordView>,
    order: Seq<usize>,
    tags: Seq<Seq<char>>,
    limit: nat,
) -> Seq<usize>
    decreases tags.len(),
{
    if tags.len() == 0 {
        Seq::empty()
    } else {
        append_new(
            union_positions(records, order, tags.drop_last(), limit),
            first_of(carrying(records, order, lowercase_text(tags.last())), limit),
        )
    }
}

/// Whether `x` is among `v`.
pub fn contains_position(v: &Vec<usize>, x: usize) -> (b: bool)
    ensures
        b == v@.contains(x),
{
    let n = v.len();
    let mut i: usize = 0;
    while i < n
        invariant
            i <= n,
            n == v@.len(),
            forall|k: int| 0 <= k < i ==> v@[k] != x,
        decreases n - i,
    {
        if v[i] == x {
            return true;
        }
        i += 1;
    }
    false
}

impl MemoryStore {
    /// The memories that carry one of `tags`, each once: for each tag in
    /// turn its first `limit` memories by recency; at most `limit` in all.
    pub fn get_by_tags(&self, tags: &Vec<String>, limit: usize) -> (out: Vec<Memory>)
        ensures
            exists|order: Seq<usize>|
                recency_order(self@.records, order) && memory_views(out@) == picked(
                    self@.records,
                    first_of(
                        #[trigger] union_positions(self@.records, order, texts(tags@), limit as nat),
                        limit as nat,
                    ),
                ),
    {
        let order = self.by_recency();
        let ghost names = texts(tags@);
        let mut found: Vec<usize> = Vec::new();
        let t = tags.len();
        let mut j: usize = 0;
        assert(names.take(0) == Seq::<Seq<char>>::empty());
        while j < t
            invariant
                j <= t,
                t == tags@.len(),
                names == texts(tags@),
                recency_order(self@.records, order@),
                found@ == union_positions(self@.records, order@, names.take(j as int), limit as nat),
                forall|i: int| 0 <= i < found@.len() ==> found@[i] < self@.records.len(),
            decreases t - j,
        {
            let wanted = lowercase(tags[j].as_str());
            assert(names.take(j + 1).drop_last() == names.take(j as int));
            assert(names.take(j + 1).last() == tags@[j as int]@);
            let mut hits = self.carriers(&order, &wanted);
            let ghost all_hits = hits@;
            hits.truncate(limit);
            assert(hits@ == first_of(all_hits, limit as nat));
            let ghost base = found@;
            let m = hits.len();
            let mut a: usize = 0;
            assert(hits@.take(0) == Seq::<usize>::empty());
            while a < m
                invariant
                    a <= m,
                    m == hits@.len(),
                    found@ == append_new(base, hits@.take(a as int)),
                    forall|i: int| 0 <= i < hits@.len() ==> hits@[i] < self@.records.len(),
                    forall|i: int| 0 <= i < found@.len() ==> found@[i] < self@.records.len(),
                decreases m - a,
            {
                assert(hits@.take(a + 1).drop_last() == hits@.take(a as int));
                if !contains_position(&found, hits[a]) {
                    found.push(hits[a]);
                }
                a += 1;
            }
            assert(hits@.take(m as int) == hits@);
            j += 1;
        }
        assert(names.take(t as int) == names);
        let ghost all = found@;
        found.truncate(limit);
        assert(found@ == first_of(all, limit as nat));
        self.pick(&found)
    }
}

} // verus!
