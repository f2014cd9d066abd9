use roots::codec::{deserialize_embedding, serialize_embedding};
use roots::order::is_before;
use roots::ranking::rank;
use roots::scalar::Scalar;
use roots::text::{
    char_is_whitespace, chars_of, contains, same_text, split_whitespace, string_of, trim,
};

fn s(x: f64) -> Scalar {
    Scalar::from_bits(x.to_bits())
}

fn chars(t: &str) -> Vec<char> {
    t.chars().collect()
}

#[test]
fn scalars_are_ordered_as_their_values() {
    let values = [f64::NEG_INFINITY, -2.5, -1.0, -1e-300, 0.0, 1e-300, 0.5, 1.0, 3.0, f64::INFINITY];
    for i in 0..values.len() {
        for j in 0..values.len() {
            assert_eq!(s(values[i]).rank() < s(values[j]).rank(), values[i] < values[j]);
            assert_eq!(s(values[i]).at_least(&s(values[j])), values[i] >= values[j]);
        }
    }
    assert_eq!(s(0.0).rank(), 0);
    assert_eq!(s(-0.0).rank(), 0);
    assert_eq!(s(1.0).rank(), 0x3FF0_0000_0000_0000);
    assert_eq!(s(f64::NAN).rank(), i64::MIN);
    assert!(s(f64::NAN).is_nan());
    assert!(!s(f64::INFINITY).is_nan());
    assert!(!s(f64::NAN).at_least(&s(0.0)));
    assert!(!s(0.0).at_least(&s(f64::NAN)));
    assert_eq!(Scalar::zero().bits, 0.0f64.to_bits());
    assert_eq!(Scalar::one().bits, 1.0f64.to_bits());
}

#[test]
fn the_unit_interval_has_both_ends() {
    for x in [0.0, -0.0, 0.5, 1.0, 1e-320] {
        assert!(s(x).in_unit_interval());
    }
    for x in [-0.1, 1.0000000000000002, 2.0, f64::NAN, f64::INFINITY, f64::NEG_INFINITY] {
        assert!(!s(x).in_unit_interval());
    }
}

#[test]
fn vectors_are_written_little_endian() {
    let v = vec![1.0f32.to_bits(), 0x0102_0304, 0];
    let bytes = serialize_embedding(&v);
    assert_eq!(bytes, vec![0, 0, 128, 63, 4, 3, 2, 1, 0, 0, 0, 0]);
    assert_eq!(deserialize_embedding(&bytes), v);
    assert_eq!(serialize_embedding(&[]), Vec::<u8>::new());
    assert_eq!(
        bytes,
        [1.0f32, f32::from_bits(0x0102_0304), 0.0f32].iter().flat_map(|f| f.to_le_bytes()).collect::<Vec<u8>>()
    );
}

#[test]
fn bytes_out_of_step_hold_no_vector() {
    assert_eq!(deserialize_embedding(&[0, 0, 128, 63, 9, 9]), Vec::<u32>::new());
    assert_eq!(deserialize_embedding(&[1, 2, 3]), Vec::<u32>::new());
    assert_eq!(deserialize_embedding(&[]), Vec::<u32>::new());
    assert_eq!(deserialize_embedding(&[0, 0, 128, 63, 1, 0, 0, 0]), vec![1.0f32.to_bits(), 1]);
}

#[test]
fn texts_are_ordered_by_bytes() {
    assert!(is_before(b"2024-01-01T00:00:00+00:00", b"2024-01-01T00:00:01+00:00"));
    assert!(is_before(b"2024-01-01T00:00:00+00:00", b"2024-01-01T00:00:00.5+00:00"));
    assert!(is_before(b"2024-01-01T00:00:00.500+00:00", b"2024-01-01T00:00:00.500001+00:00"));
    assert!(!is_before(b"b", b"a"));
    assert!(!is_before(b"a", b"a"));
    assert!(is_before(b"", b"a"));
    assert!(is_before(b"a", b"ab"));
    assert!(!is_before(b"ab", b"a"));
    assert!(!is_before(b"", b""));
}

#[test]
fn ranking_is_stable() {
    let keys: Vec<Scalar> = [0.5, 0.9, 0.5, 0.1, 0.9].iter().map(|x| s(*x)).collect();
    assert_eq!(rank(&keys), vec![1, 4, 0, 2, 3]);
    assert_eq!(rank(&Vec::<Scalar>::new()), Vec::<usize>::new());
}

#[test]
fn texts_are_trimmed_and_split() {
    assert_eq!(trim(&chars("  a b \n")), chars("a b"));
    assert_eq!(trim(&chars(" \t ")), chars(""));
    assert_eq!(trim(&chars("\u{a0}x\u{3000}")), chars("x"));
    assert_eq!(split_whitespace(&chars(" the  quick\tbrown\nfox ")), vec![chars("the"), chars("quick"), chars("brown"), chars("fox")]);
    assert!(split_whitespace(&chars("   ")).is_empty());
    assert_eq!(chars_of("héllo"), chars("héllo"));
    assert_eq!(string_of(&chars("héllo")), "héllo");
}

#[test]
fn runs_are_found_in_texts() {
    assert!(contains(&chars("rusty"), &chars("rust")));
    assert!(contains(&chars("trusty"), &chars("rust")));
    assert!(contains(&chars("rust"), &chars("rust")));
    assert!(contains(&chars("rust"), &chars("")));
    assert!(contains(&chars(""), &chars("")));
    assert!(!contains(&chars("rus"), &chars("rust")));
    assert!(!contains(&chars("r-u-s-t"), &chars("rust")));
}

#[test]
fn whitespace_is_what_the_standard_library_takes_for_it() {
    let mut count = 0;
    for u in 0..=0x10FFFFu32 {
        if let Some(c) = char::from_u32(u) {
            assert_eq!(char_is_whitespace(c), c.is_whitespace(), "U+{:04X}", u);
            if char_is_whitespace(c) {
                count += 1;
            }
        }
    }
    assert_eq!(count, 25);
}

#[test]
fn texts_are_the_same_character_by_character() {
    assert!(same_text("", ""));
    assert!(same_text("héllo", "héllo"));
    assert!(!same_text("hello", "Hello"));
    assert!(!same_text("hello", "hello "));
    assert!(!same_text("a", ""));
}
