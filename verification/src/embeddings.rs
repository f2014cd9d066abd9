//! The local hashing strategy: a text becomes a vector of bucket weights,
//! one for each three-character window and two for each token.

use crate::digest::{bucket, bucket_of};
use crate::text::{chars_of, lowercase, lowercase_text, split_whitespace, tokens, trim, trimmed, views};
use crate::provider::{is_unit_of, Embedder, Numerics};
use crate::types::MemoryError;
use vstd::prelude::*;
use vstd::slice::slice_subrange;

verus! {

/// Number of buckets of the local hashing strategy.
pub const LITE_DIM: usize = 384;

/// The text that is hashed: lower-cased, then trimmed.
pub open spec fn normal_form(text: Seq<char>) -> Seq<char> {
    trimmed(lowercase_text(text))
}

/// The number of three-character windows of `t`.
pub open spec fn window_count(t: Seq<char>) -> nat {
    if t.len() >= 3 {
        (t.len() - 2) as nat
    } else {
        0
    }
}

/// How many of the first `n` windows of `t` hash to bucket `b`.
pub open spec fn window_hits(t: Seq<char>, n: nat, b: int, dim: nat) -> nat
    decreases n,
{
    if n == 0 {
        0
    } else {
        window_hits(t, (n - 1) as nat, b, dim) + if bucket_of(
            t.subrange(n - 1, (n + 2) as int),
            dim,
        ) == b {
            1nat
        } else {
            0nat
        }
    }
}

/// How many of `words` hash to bucket `b`.
pub open spec fn token_hits(words: Seq<Seq<char>>, b: int, dim: nat) -> nat
    decreases words.len(),
{
    if words.len() == 0 {
        0
    } else {
        token_hits(words.drop_last(), b, dim) + if bucket_of(words.last(), dim) == b {
            1nat
        } else {
            0nat
        }
    }
}

/// The weight of bucket `b` for a text: one for each window and two for
/// each token that hashes to it.
pub open spec fn bucket_weight(text: Seq<char>, b: int, dim: nat) -> nat {
    let t = normal_form(text);
    window_hits(t, window_count(t), b, dim) + 2 * token_hits(tokens(t), b, dim)
}

/// The weights of all `dim` buckets for a text.
pub open spec fn lite_weights(text: Seq<char>, dim: nat) -> Seq<nat> {
    Seq::new(dim, |b: int| bucket_weight(text, b, dim))
}

/// Whether a text gives rise to any window or token.
pub open spec fn has_features(text: Seq<char>) -> bool {
    let t = normal_form(text);
    window_count(t) > 0 || tokens(t).len() > 0
}

/// The values of a weight vector as natural numbers.
pub open spec fn as_nats(w: Seq<u128>) -> Seq<nat> {
    Seq::new(w.len(), |i: int| w[i] as nat)
}

/// Embedder by character n-gram hashing.
pub struct LiteEmbedder {
    dim: usize,
}

impl LiteEmbedder {
    /// The number of buckets.
    pub closed spec fn dim(&self) -> nat {
        self.dim as nat
    }

    /// An embedder with the standard number of buckets.
    pub fn new() -> (e: Self)
        ensures
            e.dim() == LITE_DIM,
    {
        LiteEmbedder { dim: LITE_DIM }
    }

    /// An embedder with `dim` buckets.
    pub fn with_dim(dim: usize) -> (e: Self)
        ensures
            e.dim() == dim,
    {
        LiteEmbedder { dim }
    }

    /// The number of buckets.
    pub fn dimension(&self) -> (d: usize)
        ensures
            d == self.dim(),
    {
        self.dim
    }

    /// The bucket weights of `text`, before normalisation; with no bucket
    /// there is no weight.
    pub fn weights(&self, text: &str) -> (w: Vec<u128>)
        ensures
            as_nats(w@) == lite_weights(text@, self.dim()),
    {
        let dim = self.dim;
        let mut w: Vec<u128> = Vec::new();
        if dim == 0 {
            assert(as_nats(w@) == lite_weights(text@, 0));
            return w;
        }
        let lowered = lowercase(text);
        let chars = chars_of(lowered.as_str());
        let t = trim(chars.as_slice());
        let ghost tv = normal_form(text@);
        assert(t@ == tv);
        let mut k: usize = 0;
        while k < dim
            invariant
                k <= dim,
                w@.len() == k,
                forall|b: int| 0 <= b < k ==> w@[b] == 0,
            decreases dim - k,
        {
            w.push(0);
            k += 1;
        }
        let n = t.len();
        let windows: usize = if n >= 3 { n - 2 } else { 0 };
        let mut i: usize = 0;
        while i < windows
            invariant
                i <= windows,
                windows == window_count(tv),
                n == t@.len(),
                t@ == tv,
                dim > 0,
                w@.len() == dim,
                forall|b: int| 0 <= b < dim ==> w@[b] == #[trigger] window_hits(tv, i as nat, b, dim as nat),
                forall|b: int| 0 <= b < dim ==> #[trigger] w@[b] <= i,
            decreases windows - i,
        {
            let idx = bucket(slice_subrange(t.as_slice(), i, i + 3), dim);
            let old_weight = w[idx];
            let ghost before = w@;
            w.set(idx, old_weight + 1);
            proof {
                assert(tv.subrange(i as int, i + 3) == t@.subrange(i as int, i + 3));
                assert forall|b: int| 0 <= b < dim implies w@[b] == #[trigger] window_hits(
                    tv,
                    (i + 1) as nat,
                    b,
                    dim as nat,
                ) by {
                    assert(before[b] == window_hits(tv, i as nat, b, dim as nat));
                    assert(((i + 1) as nat - 1) as nat == i as nat);
                }
            }
            i += 1;
        }
        let words = split_whitespace(t.as_slice());
        let ghost toks = tokens(tv);
        assert(views(words@) == toks);
        let m = words.len();
        let mut j: usize = 0;
        assert(toks.take(0) == Seq::<Seq<char>>::empty());
        while j < m
            invariant
                j <= m,
                m == words@.len(),
                views(words@) == toks,
                dim > 0,
                w@.len() == dim,
                forall|b: int| 0 <= b < dim ==> w@[b] == window_hits(tv, window_count(tv), b, dim as nat) + 2 * #[trigger] token_hits(toks.take(j as int), b, dim as nat),
                forall|b: int| 0 <= b < dim ==> #[trigger] w@[b] <= windows + 2 * j,
            decreases m - j,
        {
            let idx = bucket(words[j].as_slice(), dim);
            let old_weight = w[idx];
            let ghost before = w@;
            w.set(idx, old_weight + 2);
            proof {
                assert(toks.take(j + 1).drop_last() == toks.take(j as int));
                assert(toks[j as int] == words@[j as int]@);
                assert(toks.take(j + 1).last() == words@[j as int]@);
                assert forall|b: int| 0 <= b < dim implies w@[b] == window_hits(
                    tv,
                    window_count(tv),
                    b,
                    dim as nat,
                ) + 2 * #[trigger] token_hits(toks.take(j + 1), b, dim as nat) by {
                    assert(before[b] == window_hits(tv, window_count(tv), b, dim as nat) + 2
                        * token_hits(toks.take(j as int), b, dim as nat));
                }
            }
            j += 1;
        }
        proof {
            assert(toks.take(m as int) == toks);
            assert(as_nats(w@) =~= lite_weights(text@, dim as nat));
        }
        w
    }
}

/// A window counts for the bucket that it hashes to.
pub proof fn lemma_window_hit(t: Seq<char>, n: nat, i: int, dim: nat)
    requires
        0 <= i < n,
    ensures
        window_hits(t, n, bucket_of(t.subrange(i, i + 3), dim), dim) >= 1,
    decreases n,
{
    if i < n - 1 {
        lemma_window_hit(t, (n - 1) as nat, i, dim);
    }
}

/// A token counts for the bucket that it hashes to.
pub proof fn lemma_token_hit(words: Seq<Seq<char>>, k: int, dim: nat)
    requires
        0 <= k < words.len(),
    ensures
        token_hits(words, bucket_of(words[k], dim), dim) >= 1,
    decreases words.len(),
{
    if k < words.len() - 1 {
        lemma_token_hit(words.drop_last(), k, dim);
    }
}

/// The weights of a text have one entry for each bucket, and they are all
/// zero exactly where the text has neither a window nor a token.
pub proof fn lemma_weights_zero_iff_featureless(text: Seq<char>, dim: nat)
    requires
        dim > 0,
    ensures
        lite_weights(text, dim).len() == dim,
        (forall|b: int| 0 <= b < dim ==> #[trigger] lite_weights(text, dim)[b] == 0)
            <==> !has_features(text),
{
    let t = normal_form(text);
    let w = lite_weights(text, dim);
    if window_count(t) > 0 {
        let b = bucket_of(t.subrange(0, 3), dim);
        lemma_window_hit(t, window_count(t), 0, dim);
        assert(0 <= b < dim);
        assert(w[b] >= 1);
    } else if tokens(t).len() > 0 {
        let b = bucket_of(tokens(t)[0], dim);
        lemma_token_hit(tokens(t), 0, dim);
        assert(0 <= b < dim);
        assert(w[b] >= 1);
    } else {
        assert(tokens(t) =~= Seq::<Seq<char>>::empty());
        assert forall|b: int| 0 <= b < dim implies #[trigger] w[b] == 0 by {
            assert(token_hits(tokens(t), b, dim) == 0);
        }
    }
}

/// Whether every weight is zero.
pub fn no_weight(w: &Vec<u128>) -> (b: bool)
    ensures
        b == (forall|i: int| 0 <= i < w@.len() ==> #[trigger] as_nats(w@)[i] == 0),
{
    let n = w.len();
    let mut i: usize = 0;
    while i < n
        invariant
            i <= n,
            n == w@.len(),
            forall|k: int| 0 <= k < i ==> #[trigger] as_nats(w@)[k] == 0,
        decreases n - i,
    {
        if w[i] != 0 {
            assert(as_nats(w@)[i as int] != 0);
            return false;
        }
        i += 1;
    }
    true
}

/// A vector of `dim` positive zeros.
pub fn zero_vector(dim: usize) -> (v: Vec<u32>)
    ensures
        v@.len() == dim,
        forall|i: int| 0 <= i < dim ==> #[trigger] v@[i] == 0,
{
    let mut v: Vec<u32> = Vec::new();
    let mut k: usize = 0;
    while k < dim
        invariant
            k <= dim,
            v@.len() == k,
            forall|i: int| 0 <= i < k ==> #[trigger] v@[i] == 0,
        decreases dim - k,
    {
        v.push(0);
        k += 1;
    }
    v
}

/// The weights of a text as they are handed to the arithmetic.
pub open spec fn weight_values(text: Seq<char>, dim: nat) -> Seq<u128> {
    Seq::new(dim, |b: int| bucket_weight(text, b, dim) as u128)
}

/// The vector of `dim` positive zeros.
pub open spec fn zeros(dim: nat) -> Seq<u32> {
    Seq::new(dim, |i: int| 0u32)
}

/// Whether `v` is the vector of `text` among `dim` buckets under the
/// arithmetic `math`: for a text with a window or a token, what the
/// arithmetic returned for the weights of the text, or zeros where that has
/// another number of components than there are buckets; for a text with
/// neither, zeros.
pub open spec fn is_embedding<N: Numerics>(math: &N, text: Seq<char>, dim: nat, v: Seq<u32>) -> bool {
    if has_features(text) && dim > 0 {
        exists|u: Seq<u32>|
            #[trigger] is_unit_of(math, weight_values(text, dim), u) && v == if u.len() == dim {
                u
            } else {
                zeros(dim)
            }
    } else {
        v == zeros(dim)
    }
}

impl LiteEmbedder {
    /// The vector of `text`: its bucket weights divided by their norm, and
    /// the zero vector where the text has neither a window nor a token. The
    /// vector has one component for each bucket.
    pub fn embed<N: Numerics>(&self, math: &N, text: &str) -> (r: Result<Vec<u32>, MemoryError>)
        ensures
            r is Ok,
            r->Ok_0@.len() == self.dim(),
            is_embedding(math, text@, self.dim(), r->Ok_0@),
    {
        let w = self.weights(text);
        proof {
            assert(as_nats(w@).len() == w@.len());
            assert(lite_weights(text@, self.dim as nat).len() == self.dim);
            assert forall|b: int| 0 <= b < w@.len() implies w@[b] == #[trigger] weight_values(
                text@,
                self.dim as nat,
            )[b] by {
                assert(as_nats(w@)[b] == lite_weights(text@, self.dim as nat)[b]);
            }
            assert(w@ =~= weight_values(text@, self.dim as nat));
            if self.dim > 0 {
                lemma_weights_zero_iff_featureless(text@, self.dim as nat);
            }
        }
        if no_weight(&w) {
            let v = zero_vector(self.dim);
            assert(v@ =~= zeros(self.dim as nat));
            return Ok(v);
        }
        assert(exists|i: int| 0 <= i < w@.len() && w@[i] != 0) by {
            let i = choose|i: int| 0 <= i < w@.len() && #[trigger] as_nats(w@)[i] != 0;
            assert(w@[i] != 0);
        }
        let u = math.unit_vector(w.as_slice());
        proof {
            assert(is_unit_of(math, weight_values(text@, self.dim as nat), u@));
        }
        if u.len() != self.dim {
            let v = zero_vector(self.dim);
            assert(v@ =~= zeros(self.dim as nat));
            return Ok(v);
        }
        Ok(u)
    }
}

/// The local strategy with the arithmetic that it works with.
pub struct LiteProvider<N: Numerics> {
    embedder: LiteEmbedder,
    math: N,
}

impl<N: Numerics> LiteProvider<N> {
    /// The number of buckets.
    pub closed spec fn dim(&self) -> nat {
        self.embedder.dim()
    }

    /// The arithmetic.
    pub closed spec fn math(&self) -> N {
        self.math
    }

    /// The local strategy with the standard number of buckets.
    pub fn new(math: N) -> (p: Self)
        ensures
            p.dim() == LITE_DIM,
            p.math() == math,
    {
        LiteProvider { embedder: LiteEmbedder::new(), math }
    }
}

impl<N: Numerics> Embedder for LiteProvider<N> {
    fn embed(&self, text: &str) -> (r: Result<Vec<u32>, MemoryError>)
        ensures
            r is Ok,
            r->Ok_0@.len() == self.dim(),
            is_embedding(&self.math(), text@, self.dim(), r->Ok_0@),
    {
        self.embedder.embed(&self.math, text)
    }

    fn embed_batch(&self, texts: &[String]) -> (r: Result<Vec<Vec<u32>>, MemoryError>)
        ensures
            r is Ok,
            r->Ok_0@.len() == texts@.len(),
            forall|i: int|
                0 <= i < texts@.len() ==> (#[trigger] r->Ok_0@[i])@.len() == self.dim()
                    && is_embedding(&self.math(), texts@[i]@, self.dim(), r->Ok_0@[i]@),
    {
        let mut out: Vec<Vec<u32>> = Vec::new();
        let n = texts.len();
        let mut i: usize = 0;
        while i < n
            invariant
                i <= n,
                n == texts@.len(),
                out@.len() == i,
                forall|k: int|
                    0 <= k < i ==> (#[trigger] out@[k])@.len() == self.dim() && is_embedding(
                        &self.math(),
                        texts@[k]@,
                        self.dim(),
                        out@[k]@,
                    ),
            decreases n - i,
        {
            let v = self.embedder.embed(&self.math, texts[i].as_str()).unwrap();
            out.push(v);
            i += 1;
        }
        Ok(out)
    }
}

} // verus!
