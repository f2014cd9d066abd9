//! The values that the store keeps and hands out.

use crate::scalar::Scalar;
use vstd::prelude::*;

verus! {

/// The views of a sequence of strings.
pub open spec fn texts(strings: Seq<String>) -> Seq<Seq<char>> {
    Seq::new(strings.len(), |i: int| strings[i]@)
}

/// A memory entry.
#[derive(Debug)]
pub struct Memory {
    pub id: i64,
    pub content: String,
    pub confidence: Scalar,
    pub tags: Vec<String>,
    pub created_at: String,
    pub updated_at: String,
    pub last_accessed_at: Option<String>,
    pub access_count: i64,
}

/// What a memory holds, as mathematical values.
pub struct MemoryView {
    pub id: int,
    pub content: Seq<char>,
    pub confidence: u64,
    pub tags: Seq<Seq<char>>,
    pub created_at: Seq<char>,
    pub updated_at: Seq<char>,
    pub last_accessed_at: Option<Seq<char>>,
    pub access_count: int,
}

impl View for Memory {
    type V = MemoryView;

    open spec fn view(&self) -> MemoryView {
        MemoryView {
            id: self.id as int,
            content: self.content@,
            confidence: self.confidence.bits,
            tags: texts(self.tags@),
            created_at: self.created_at@,
            updated_at: self.updated_at@,
            last_accessed_at: match self.last_accessed_at {
                Some(s) => Some(s@),
                None => None,
            },
            access_count: self.access_count as int,
        }
    }
}

/// Copies a list of strings.
pub fn copy_strings(v: &Vec<String>) -> (out: Vec<String>)
    ensures
        texts(out@) == texts(v@),
{
    let mut out: Vec<String> = Vec::new();
    let n = v.len();
    let mut i: usize = 0;
    while i < n
        invariant
            i <= n,
            n == v@.len(),
            out@.len() == i,
            forall|k: int| 0 <= k < i ==> out@[k]@ == v@[k]@,
        decreases n - i,
    {
        out.push(v[i].clone());
        i += 1;
    }
    assert(texts(out@) =~= texts(v@));
    out
}

impl Memory {
    /// A copy of the memory.
    pub fn duplicate(&self) -> (m: Memory)
        ensures
            m@ == self@,
    {
        Memory {
            id: self.id,
            content: self.content.clone(),
            confidence: self.confidence,
            tags: copy_strings(&self.tags),
            created_at: self.created_at.clone(),
            updated_at: self.updated_at.clone(),
            last_accessed_at: match &self.last_accessed_at {
                Some(s) => Some(s.clone()),
                None => None,
            },
            access_count: self.access_count,
        }
    }
}

impl Clone for Memory {
    fn clone(&self) -> (m: Memory)
        ensures
            m@ == self@,
    {
        self.duplicate()
    }
}

/// A memory with the score a query gave it.
#[derive(Debug)]
pub struct SearchResult {
    pub memory: Memory,
    pub score: Scalar,
}

/// The kinds of failure that an operation can report.
#[derive(Debug)]
pub enum MemoryError {
    /// The id or tag is unknown.
    NotFound,
    /// An input is out of range or a configuration is malformed.
    Validation(String),
    /// The store could not take or give the data.
    StorageFailure(String),
    /// The embedding provider failed.
    EmbedFailure(String),
}

/// The message of a failure; an unknown id or tag has the message
/// `not found`.
pub open spec fn message_of(e: MemoryError) -> Seq<char> {
    match e {
        MemoryError::NotFound => "not found"@,
        MemoryError::Validation(msg) => msg@,
        MemoryError::StorageFailure(msg) => msg@,
        MemoryError::EmbedFailure(msg) => msg@,
    }
}

} // verus!
