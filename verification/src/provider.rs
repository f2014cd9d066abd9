//! What the library takes from outside: real arithmetic on vectors, and the
//! provider that embeds texts.

use crate::scalar::Scalar;
use crate::types::MemoryError;
use vstd::prelude::*;

verus! {

/// Real arithmetic on bit patterns, supplied by the program that uses the
/// library. Nothing is assumed of what it returns: the contracts of the
/// library say which call a result came from.
pub trait Numerics {
    /// The weights divided by their Euclidean norm, as single-precision
    /// patterns. It is handed only weights of which one is not zero.
    fn unit_vector(&self, weights: &[u128]) -> Vec<u32>
        requires
            exists|i: int| 0 <= i < weights@.len() && weights@[i] != 0,
    ;

    /// The dot product of two vectors divided by the product of their norms.
    /// It is handed only vectors of one length of which neither is all zero.
    fn cosine(&self, a: &[u32], b: &[u32]) -> Scalar
        requires
            !incomparable(a@, b@),
    ;

    /// The mean of the values. It is handed at least one value.
    fn mean(&self, values: &[Scalar]) -> Scalar
        requires
            values@.len() > 0,
    ;
}

/// A provider of vectors for texts.
pub trait Embedder {
    /// The vector of one text.
    fn embed(&self, text: &str) -> Result<Vec<u32>, MemoryError>;

    /// The vectors of several texts, in their order, from one request.
    fn embed_batch(&self, texts: &[String]) -> Result<Vec<Vec<u32>>, MemoryError>;
}

/// Whether every component is a zero, of either sign.
pub open spec fn is_zero_vector(v: Seq<u32>) -> bool {
    forall|i: int| 0 <= i < v.len() ==> (#[trigger] v[i]) % 0x8000_0000 == 0
}

/// Whether two vectors cannot be compared: their lengths differ or one of
/// them is all zero.
pub open spec fn incomparable(a: Seq<u32>, b: Seq<u32>) -> bool {
    a.len() != b.len() || is_zero_vector(a) || is_zero_vector(b)
}

/// Whether `unit` is what the arithmetic returned for the weights `weights`.
pub open spec fn is_unit_of<N: Numerics>(math: &N, weights: Seq<u128>, unit: Seq<u32>) -> bool {
    exists|w: &[u128], u: Vec<u32>|
        w@ == weights && u@ == unit && #[trigger] call_ensures(N::unit_vector, (math, w), u)
}

/// Whether `s` is what the arithmetic returned as the cosine of `a` and `b`.
pub open spec fn is_cosine_of<N: Numerics>(math: &N, a: Seq<u32>, b: Seq<u32>, s: Scalar) -> bool {
    exists|x: &[u32], y: &[u32]|
        x@ == a && y@ == b && #[trigger] call_ensures(N::cosine, (math, x, y), s)
}

/// Whether `m` is what the arithmetic returned as the mean of `values`.
pub open spec fn is_mean_of<N: Numerics>(math: &N, values: Seq<Scalar>, m: Scalar) -> bool {
    exists|v: &[Scalar]| v@ == values && #[trigger] call_ensures(N::mean, (math, v), m)
}

/// Whether `s` is the cosine similarity of `a` and `b` under the arithmetic
/// `math`: positive zero where they cannot be compared, else what the
/// arithmetic returned for the two.
pub open spec fn is_similarity<N: Numerics>(math: &N, a: Seq<u32>, b: Seq<u32>, s: Scalar) -> bool {
    if incomparable(a, b) {
        s.bits == 0
    } else {
        is_cosine_of(math, a, b, s)
    }
}

/// Decides `is_zero_vector`.
pub fn all_zero(v: &[u32]) -> (b: bool)
    ensures
        b == is_zero_vector(v@),
{
    let n = v.len();
    let mut i: usize = 0;
    while i < n
        invariant
            i <= n,
            n == v@.len(),
            forall|k: int| 0 <= k < i ==> (#[trigger] v@[k]) % 0x8000_0000 == 0,
        decreases n - i,
    {
        if v[i] % 0x8000_0000 != 0 {
            return false;
        }
        i += 1;
    }
    true
}

/// Whether two vectors can be compared: they have one length and neither is
/// all zero.
pub fn comparable(vec_a: &[u32], vec_b: &[u32]) -> (c: bool)
    ensures
        c == !incomparable(vec_a@, vec_b@),
{
    vec_a.len() == vec_b.len() && !all_zero(vec_a) && !all_zero(vec_b)
}

/// The cosine similarity of two vectors: positive zero where they cannot be
/// compared, else what the arithmetic gives for them.
pub fn cosine_similarity<N: Numerics>(math: &N, vec_a: &[u32], vec_b: &[u32]) -> (s: Scalar)
    ensures
        is_similarity(math, vec_a@, vec_b@, s),
{
    if comparable(vec_a, vec_b) {
        math.cosine(vec_a, vec_b)
    } else {
        Scalar::zero()
    }
}

} // verus!
