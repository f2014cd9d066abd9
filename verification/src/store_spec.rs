//! What each change of the store does to what it holds.

use crate::codec::encode_embedding;
use crate::index::{fold_tags, RecordView, StoreView};
use crate::types::MemoryView;
use vstd::prelude::*;

verus! {

/// The store after a memory was added at the time `now`.
pub open spec fn added(
    s: StoreView,
    content: Seq<char>,
    confidence: u64,
    embedding: Seq<u32>,
    tags: Seq<Seq<char>>,
    now: Seq<char>,
) -> StoreView {
    StoreView {
        records: s.records.push(
            RecordView {
                memory: MemoryView {
                    id: s.next_id,
                    content,
                    confidence,
                    tags: fold_tags(tags),
                    created_at: now,
                    updated_at: now,
                    last_accessed_at: None,
                    access_count: 0,
                },
                embedding: encode_embedding(embedding),
            },
        ),
        index: s.index.push((s.next_id, content)),
        next_id: s.next_id + 1,
        stored_model: s.stored_model,
    }
}

/// The store without the record at position `p`, its tags and its entry in
/// the text index.
pub open spec fn removed(s: StoreView, p: int) -> StoreView {
    StoreView {
        records: s.records.remove(p),
        index: s.index.remove(p),
        next_id: s.next_id,
        stored_model: s.stored_model,
    }
}

/// A memory after an update at the time `now`: a confidence that is given
/// replaces the old one, tags that are given replace all old tags, and the
/// time of the last update moves where either is given.
pub open spec fn updated_memory(
    m: MemoryView,
    confidence: Option<u64>,
    tags: Option<Seq<Seq<char>>>,
    now: Seq<char>,
) -> MemoryView {
    MemoryView {
        confidence: match confidence {
            Some(c) => c,
            None => m.confidence,
        },
        tags: match tags {
            Some(t) => fold_tags(t),
            None => m.tags,
        },
        updated_at: if confidence is Some || tags is Some {
            now
        } else {
            m.updated_at
        },
        ..m
    }
}

/// The store after the record at position `p` was updated.
pub open spec fn updated(
    s: StoreView,
    p: int,
    confidence: Option<u64>,
    tags: Option<Seq<Seq<char>>>,
    now: Seq<char>,
) -> StoreView {
    StoreView {
        records: s.records.update(
            p,
            RecordView {
                memory: updated_memory(s.records[p].memory, confidence, tags, now),
                embedding: s.records[p].embedding,
            },
        ),
        ..s
    }
}

/// A memory after one more access at the time `now`. The count stops at the
/// largest number that can be stored.
pub open spec fn accessed_memory(m: MemoryView, now: Seq<char>) -> MemoryView {
    MemoryView {
        last_accessed_at: Some(now),
        access_count: if m.access_count < i64::MAX {
            m.access_count + 1
        } else {
            m.access_count
        },
        ..m
    }
}

/// The store after an access to the record at position `p`.
pub open spec fn accessed(s: StoreView, p: int, now: Seq<char>) -> StoreView {
    StoreView {
        records: s.records.update(
            p,
            RecordView {
                memory: accessed_memory(s.records[p].memory, now),
                embedding: s.records[p].embedding,
            },
        ),
        ..s
    }
}

/// The vector given for position `i`, if one is.
pub open spec fn given_at(embeddings: Seq<Option<Seq<u32>>>, i: int) -> Option<Seq<u32>> {
    if 0 <= i < embeddings.len() {
        embeddings[i]
    } else {
        None
    }
}

/// A record after a rebuild at the time `now`: where a new vector is given it
/// replaces the old one and the time of the last update moves; where none is
/// given the record stays as it was.
pub open spec fn renewed_record(r: RecordView, e: Option<Seq<u32>>, now: Seq<char>) -> RecordView {
    match e {
        Some(v) => RecordView {
            memory: MemoryView { updated_at: now, ..r.memory },
            embedding: encode_embedding(v),
        },
        None => r,
    }
}

/// The store after a rebuild of its vectors under the model `model`.
pub open spec fn renewed(
    s: StoreView,
    embeddings: Seq<Option<Seq<u32>>>,
    model: Seq<char>,
    now: Seq<char>,
) -> StoreView {
    StoreView {
        records: Seq::new(
            s.records.len(),
            |i: int| renewed_record(s.records[i], given_at(embeddings, i), now),
        ),
        stored_model: Some(model),
        ..s
    }
}

/// How many of the first `n` positions are given a vector.
pub open spec fn renewals(embeddings: Seq<Option<Seq<u32>>>, n: nat) -> nat
    decreases n,
{
    if n == 0 {
        0
    } else {
        renewals(embeddings, (n - 1) as nat) + if given_at(embeddings, n - 1) is Some {
            1nat
        } else {
            0nat
        }
    }
}

/// What `restore` asks of records read back from a durable copy.
pub open spec fn restorable(records: Seq<RecordView>, next_id: int) -> bool {
    &&& forall|i: int, j: int|
        0 <= i < j < records.len() ==> (#[trigger] records[i]).memory.id < (
        #[trigger] records[j]).memory.id
    &&& forall|i: int| 0 <= i < records.len() ==> (#[trigger] records[i]).memory.id < next_id
    &&& forall|i: int| 0 <= i < records.len() ==> (#[trigger] records[i]).memory.tags.no_duplicates()
}

} // verus!
