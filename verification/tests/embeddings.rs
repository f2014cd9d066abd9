use roots::embeddings::{LiteEmbedder, LiteProvider, LITE_DIM};
use roots::provider::{comparable, cosine_similarity, Embedder, Numerics};
use roots::scalar::Scalar;

struct Floats;

fn to_floats(v: &[u32]) -> Vec<f32> {
    v.iter().map(|x| f32::from_bits(*x)).collect()
}

fn bits(v: &[f32]) -> Vec<u32> {
    v.iter().map(|x| x.to_bits()).collect()
}

impl Numerics for Floats {
    fn unit_vector(&self, weights: &[u128]) -> Vec<u32> {
        let v: Vec<f32> = weights.iter().map(|w| *w as f32).collect();
        let norm: f32 = v.iter().map(|x| x * x).sum::<f32>().sqrt();
        v.iter().map(|x| if norm > 0.0 { (x / norm).to_bits() } else { x.to_bits() }).collect()
    }

    fn cosine(&self, a: &[u32], b: &[u32]) -> Scalar {
        let a = to_floats(a);
        let b = to_floats(b);
        let dot: f32 = a.iter().zip(b.iter()).map(|(x, y)| x * y).sum();
        let norm_a: f32 = a.iter().map(|x| x * x).sum::<f32>().sqrt();
        let norm_b: f32 = b.iter().map(|x| x * x).sum::<f32>().sqrt();
        if norm_a == 0.0 || norm_b == 0.0 {
            Scalar::from_bits(0.0f64.to_bits())
        } else {
            Scalar::from_bits(((dot / (norm_a * norm_b)) as f64).to_bits())
        }
    }

    fn mean(&self, values: &[Scalar]) -> Scalar {
        let sum: f64 = values.iter().map(|v| f64::from_bits(v.bits)).sum();
        Scalar::from_bits((sum / values.len() as f64).to_bits())
    }
}

fn similarity(a: &[u32], b: &[u32]) -> f64 {
    f64::from_bits(cosine_similarity(&Floats, a, b).bits)
}

fn nonzero(w: &[u128]) -> Vec<(usize, u128)> {
    w.iter().enumerate().filter(|(_, x)| **x != 0).map(|(i, x)| (i, *x)).collect()
}

#[test]
fn test_lite_embedder() {
    let embedder = LiteEmbedder::new();
    let embedding = to_floats(&embedder.embed(&Floats, "hello world").unwrap());

    assert_eq!(embedding.len(), LITE_DIM);

    let norm: f32 = embedding.iter().map(|x| x * x).sum::<f32>().sqrt();
    assert!((norm - 1.0).abs() < 0.001);
}

#[test]
fn test_cosine_similarity() {
    let a = bits(&[1.0, 0.0, 0.0]);
    let b = bits(&[1.0, 0.0, 0.0]);
    assert!((similarity(&a, &b) - 1.0).abs() < 0.001);

    let c = bits(&[0.0, 1.0, 0.0]);
    assert!(similarity(&a, &c).abs() < 0.001);
}

#[test]
fn test_similar_texts_have_higher_similarity() {
    let embedder = LiteEmbedder::new();

    let a = embedder.embed(&Floats, "the quick brown fox").unwrap();
    let b = embedder.embed(&Floats, "the quick brown dog").unwrap();
    let c = embedder.embed(&Floats, "completely different text").unwrap();

    let sim_ab = similarity(&a, &b);
    let sim_ac = similarity(&a, &c);
    let sim_bc = similarity(&b, &c);

    assert!(sim_ab > sim_ac);
    assert!(sim_ab > sim_bc);
}

#[test]
fn weights_of_one_window_and_one_token() {
    let w = LiteEmbedder::new().weights("abc");
    assert_eq!(w.len(), 384);
    assert_eq!(nonzero(&w), vec![(370, 3)]);
}

#[test]
fn weights_of_a_token_without_window() {
    let w = LiteEmbedder::new().weights("ab");
    assert_eq!(nonzero(&w), vec![(288, 2)]);
}

#[test]
fn weights_fold_case_and_trim() {
    let w = LiteEmbedder::new().weights("  Hello World ");
    assert_eq!(
        nonzero(&w),
        vec![
            (54, 1),
            (71, 1),
            (87, 1),
            (220, 1),
            (225, 1),
            (274, 2),
            (286, 1),
            (337, 1),
            (359, 2),
            (373, 1),
            (377, 1)
        ]
    );
    assert_eq!(w, LiteEmbedder::new().weights("hello world"));
}

#[test]
fn weights_with_other_dimensions() {
    assert_eq!(nonzero(&LiteEmbedder::with_dim(7).weights("abc")), vec![(0, 3)]);
    assert_eq!(nonzero(&LiteEmbedder::with_dim(5).weights("a b")), vec![(2, 3), (3, 2)]);
    assert_eq!(LiteEmbedder::with_dim(5).dimension(), 5);
}

#[test]
fn featureless_text_gives_the_zero_vector() {
    let embedder = LiteEmbedder::new();
    for text in ["", "   ", "\n\t "] {
        let v = embedder.embed(&Floats, text).unwrap();
        assert_eq!(v.len(), 384);
        assert!(v.iter().all(|x| *x == 0));
        assert!(embedder.weights(text).iter().all(|x| *x == 0));
    }
    assert!(LiteEmbedder::with_dim(0).weights("").is_empty());
}

#[test]
fn embed_is_deterministic() {
    let embedder = LiteEmbedder::new();
    let a = embedder.embed(&Floats, "Rust ownership prevents data races").unwrap();
    let b = embedder.embed(&Floats, "Rust ownership prevents data races").unwrap();
    assert_eq!(a, b);
}

#[test]
fn similarity_of_a_vector_with_itself_is_one() {
    let v = LiteEmbedder::new().embed(&Floats, "some text to embed").unwrap();
    assert!((similarity(&v, &v) - 1.0).abs() < 0.001);
}

#[test]
fn similarity_is_zero_for_other_lengths_and_zero_vectors() {
    let a = bits(&[1.0, 2.0, 3.0]);
    let shorter = bits(&[1.0, 2.0]);
    let zero = bits(&[0.0, 0.0, 0.0]);
    let negative_zero = bits(&[-0.0, 0.0, -0.0]);
    assert_eq!(similarity(&a, &shorter), 0.0);
    assert_eq!(similarity(&shorter, &a), 0.0);
    assert_eq!(similarity(&a, &zero), 0.0);
    assert_eq!(similarity(&zero, &a), 0.0);
    assert_eq!(similarity(&negative_zero, &a), 0.0);
    assert_eq!(similarity(&[], &[]), 0.0);
    assert_eq!(cosine_similarity(&Floats, &a, &zero).bits, 0);
}

#[test]
fn provider_embeds_one_and_many() {
    let provider = LiteProvider::new(Floats);
    let one = provider.embed("hello world").unwrap();
    let many = provider
        .embed_batch(&["hello world".to_string(), "".to_string(), "other".to_string()])
        .unwrap();
    assert_eq!(many.len(), 3);
    assert_eq!(many[0], one);
    assert!(many[1].iter().all(|x| *x == 0));
    assert_eq!(many[2], provider.embed("other").unwrap());
}

#[test]
fn vectors_are_comparable_by_length_and_content() {
    let a = bits(&[1.0, 2.0]);
    assert!(comparable(&a, &a));
    assert!(comparable(&a, &bits(&[0.0, -3.0])));
    assert!(!comparable(&a, &bits(&[1.0])));
    assert!(!comparable(&a, &bits(&[0.0, -0.0])));
    assert!(!comparable(&bits(&[0.0, 0.0]), &a));
    assert!(!comparable(&[], &[]));
}

struct Short;

impl Numerics for Short {
    fn unit_vector(&self, _weights: &[u128]) -> Vec<u32> {
        vec![1.0f32.to_bits()]
    }

    fn cosine(&self, _a: &[u32], _b: &[u32]) -> Scalar {
        Scalar::from_bits(0.25f64.to_bits())
    }

    fn mean(&self, _values: &[Scalar]) -> Scalar {
        Scalar::from_bits(0)
    }
}

#[test]
fn arithmetic_of_another_dimension_gives_zeros() {
    let v = LiteEmbedder::new().embed(&Short, "hello world").unwrap();
    assert_eq!(v.len(), 384);
    assert!(v.iter().all(|x| *x == 0));
    assert_eq!(LiteEmbedder::with_dim(1).embed(&Short, "hello world").unwrap(), vec![1.0f32.to_bits()]);
    assert!(LiteEmbedder::with_dim(0).embed(&Short, "hello world").unwrap().is_empty());
}

#[test]
fn similarity_is_what_the_arithmetic_gives_for_comparable_vectors() {
    let a = bits(&[1.0, 2.0]);
    let b = bits(&[3.0, 4.0]);
    assert_eq!(f64::from_bits(cosine_similarity(&Short, &a, &b).bits), 0.25);
    assert_eq!(cosine_similarity(&Short, &a, &bits(&[0.0, 0.0])).bits, 0);
    assert_eq!(cosine_similarity(&Short, &a, &bits(&[3.0])).bits, 0);
}
