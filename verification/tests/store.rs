use roots::index::{MemoryStore, Record};
use roots::scalar::Scalar;
use roots::types::{Memory, MemoryError};

fn conf(x: f64) -> Scalar {
    Scalar::from_bits(x.to_bits())
}

fn one() -> Vec<u32> {
    vec![1.0f32.to_bits()]
}

fn strings(v: &[&str]) -> Vec<String> {
    v.iter().map(|s| s.to_string()).collect()
}

fn ids(v: &[Memory]) -> Vec<i64> {
    v.iter().map(|m| m.id).collect()
}

#[test]
fn test_add_and_get() {
    let mut store = MemoryStore::in_memory();

    let id = store
        .add(
            "Test memory content",
            conf(0.8),
            &[1.0f32.to_bits(), 2.0f32.to_bits(), 3.0f32.to_bits()],
            &["test".to_string(), "example".to_string()],
        )
        .unwrap();

    let memory = store.get(id).unwrap();
    assert_eq!(memory.content, "Test memory content");
    assert_eq!(f64::from_bits(memory.confidence.bits), 0.8);
    assert_eq!(memory.tags, vec!["test", "example"]);
}

#[test]
fn test_get_by_tag() {
    let mut store = MemoryStore::in_memory();

    store.add("Memory 1", conf(0.5), &one(), &["rust".to_string()]).unwrap();
    store.add("Memory 2", conf(0.5), &one(), &["rust".to_string(), "cli".to_string()]).unwrap();
    store.add("Memory 3", conf(0.5), &one(), &["python".to_string()]).unwrap();

    let rust_memories = store.get_by_tag("rust", 10);
    assert_eq!(rust_memories.len(), 2);
}

#[test]
fn test_delete() {
    let mut store = MemoryStore::in_memory();

    let id = store.add("To delete", conf(0.5), &one(), &["test".to_string()]).unwrap();
    assert!(store.get(id).is_some());

    store.delete(id);
    assert!(store.get(id).is_none());
}

#[test]
fn ids_start_at_one_and_grow() {
    let mut store = MemoryStore::in_memory();
    assert_eq!(store.count(), 0);
    assert_eq!(store.next_id(), 1);
    let a = store.add_at("a", conf(0.1), &one(), &[], "2024-01-01T00:00:00+00:00").unwrap();
    let b = store.add_at("b", conf(0.2), &one(), &[], "2024-01-01T00:00:01+00:00").unwrap();
    assert_eq!((a, b), (1, 2));
    store.delete(b);
    let c = store.add_at("c", conf(0.3), &one(), &[], "2024-01-01T00:00:02+00:00").unwrap();
    assert_eq!(c, 3);
    assert_eq!(store.count(), 2);
    assert!(store.get(99).is_none());
}

#[test]
fn add_sets_the_fields_of_a_new_memory() {
    let mut store = MemoryStore::in_memory();
    let id = store
        .add_at("content", conf(0.25), &one(), &strings(&["A", "b", "a", "B ", "b"]), "2024-05-05T10:00:00+00:00")
        .unwrap();
    let m = store.get(id).unwrap();
    assert_eq!(m.tags, vec!["a", "b", "b "]);
    assert_eq!(m.created_at, "2024-05-05T10:00:00+00:00");
    assert_eq!(m.updated_at, "2024-05-05T10:00:00+00:00");
    assert_eq!(m.last_accessed_at, None);
    assert_eq!(m.access_count, 0);
    assert_eq!(m.confidence.bits, 0.25f64.to_bits());
}

#[test]
fn tags_are_found_whatever_their_case() {
    let mut store = MemoryStore::in_memory();
    let upper = store.add("one", conf(0.5), &one(), &strings(&["Test"])).unwrap();
    let lower = store.add("two", conf(0.5), &one(), &strings(&["test"])).unwrap();
    let mut found = ids(&store.get_by_tag("test", 10));
    found.sort();
    assert_eq!(found, vec![upper, lower]);
    let mut found = ids(&store.get_by_tag("TEST", 10));
    found.sort();
    assert_eq!(found, vec![upper, lower]);
    assert!(store.get_by_tag("tes", 10).is_empty());
}

#[test]
fn list_puts_the_most_recently_updated_first() {
    let mut store = MemoryStore::in_memory();
    let a = store.add_at("a", conf(0.5), &one(), &strings(&["x"]), "2024-01-01T00:00:03+00:00").unwrap();
    let b = store.add_at("b", conf(0.5), &one(), &strings(&["x"]), "2024-01-01T00:00:01+00:00").unwrap();
    let c = store.add_at("c", conf(0.5), &one(), &strings(&["y"]), "2024-01-01T00:00:02+00:00").unwrap();
    let d = store.add_at("d", conf(0.5), &one(), &strings(&["x"]), "2024-01-01T00:00:03+00:00").unwrap();
    assert_eq!(ids(&store.list(10)), vec![a, d, c, b]);
    assert_eq!(ids(&store.list(2)), vec![a, d]);
    assert_eq!(ids(&store.list(0)), Vec::<i64>::new());
    assert_eq!(ids(&store.get_by_tag("x", 10)), vec![a, d, b]);
    assert_eq!(ids(&store.get_by_tag("x", 1)), vec![a]);

    assert!(store.update_at(b, Some(conf(0.9)), None, "2024-01-01T00:00:09+00:00"));
    assert_eq!(ids(&store.list(10)), vec![b, a, d, c]);
    assert_eq!(ids(&store.get_by_tag("X", 2)), vec![b, a]);
}

#[test]
fn update_replaces_tags_and_says_whether_the_memory_exists() {
    let mut store = MemoryStore::in_memory();
    let id = store.add_at("a", conf(0.5), &one(), &strings(&["old", "both"]), "2024-01-01T00:00:00+00:00").unwrap();
    let new_tags = strings(&["Both", "new"]);
    assert!(store.update_at(id, None, Some(&new_tags), "2024-01-02T00:00:00+00:00"));
    let m = store.get(id).unwrap();
    assert_eq!(m.tags, vec!["both", "new"]);
    assert_eq!(m.confidence.bits, 0.5f64.to_bits());
    assert_eq!(m.updated_at, "2024-01-02T00:00:00+00:00");
    assert_eq!(m.created_at, "2024-01-01T00:00:00+00:00");
    assert_eq!(m.content, "a");

    assert!(store.update_at(id, None, None, "2024-01-03T00:00:00+00:00"));
    assert_eq!(store.get(id).unwrap().updated_at, "2024-01-02T00:00:00+00:00");

    assert!(!store.update_at(id + 1, Some(conf(1.0)), None, "2024-01-04T00:00:00+00:00"));
    assert!(!store.update(id + 1, Some(conf(1.0)), None));
    assert!(store.update(id, Some(conf(1.0)), None));
    assert_eq!(store.get(id).unwrap().confidence.bits, 1.0f64.to_bits());
}

#[test]
fn delete_is_idempotent_and_clears_the_text_index() {
    let mut store = MemoryStore::in_memory();
    let keep = store.add("kept content", conf(0.5), &one(), &strings(&["t"])).unwrap();
    let id = store.add("deleted content", conf(0.5), &one(), &strings(&["t"])).unwrap();
    assert_eq!(store.indexed_content(id), Some("deleted content".to_string()));
    assert!(store.delete(id));
    assert!(store.get(id).is_none());
    assert_eq!(store.indexed_content(id), None);
    assert!(!store.delete(id));
    assert!(store.get(id).is_none());
    assert_eq!(store.count(), 1);
    assert_eq!(store.indexed_content(keep), Some("kept content".to_string()));
    assert_eq!(ids(&store.get_by_tag("t", 10)), vec![keep]);
    assert_eq!(store.get_all_tags(), vec![("t".to_string(), 1)]);
}

#[test]
fn tags_are_counted_and_ranked() {
    let mut store = MemoryStore::in_memory();
    store.add("1", conf(0.5), &one(), &strings(&["rust", "cli"])).unwrap();
    store.add("2", conf(0.5), &one(), &strings(&["Rust", "zeta"])).unwrap();
    store.add("3", conf(0.5), &one(), &strings(&["python", "rust", "cli"])).unwrap();
    store.add("4", conf(0.5), &one(), &strings(&["alpha"])).unwrap();
    assert_eq!(
        store.get_all_tags(),
        vec![
            ("rust".to_string(), 3),
            ("cli".to_string(), 2),
            ("alpha".to_string(), 1),
            ("python".to_string(), 1),
            ("zeta".to_string(), 1)
        ]
    );
    assert!(MemoryStore::in_memory().get_all_tags().is_empty());
}

#[test]
fn vectors_round_trip_through_the_store() {
    let mut store = MemoryStore::in_memory();
    let v = vec![1.0f32.to_bits(), (-2.5f32).to_bits(), 0, u32::MAX];
    store.add("a", conf(0.5), &v, &[]).unwrap();
    store.add("b", conf(0.5), &[], &[]).unwrap();
    let all = store.get_all_with_embeddings();
    assert_eq!(all.len(), 2);
    assert_eq!(all[0].memory.content, "a");
    assert_eq!(all[0].embedding, v);
    assert_eq!(all[1].embedding, Vec::<u32>::new());
    assert_eq!(store.records()[0].embedding.len(), 16);
    assert_eq!(&store.records()[0].embedding[0..4], &[0, 0, 128, 63]);
}

#[test]
fn record_access_counts_and_stamps() {
    let mut store = MemoryStore::in_memory();
    let id = store.add("a", conf(0.5), &one(), &[]).unwrap();
    assert!(store.record_access_at(id, "2024-02-02T00:00:00+00:00"));
    assert!(store.record_access(id));
    assert!(!store.record_access(id + 5));
    let m = store.get(id).unwrap();
    assert_eq!(m.access_count, 2);
    assert!(m.last_accessed_at.is_some());
}

#[test]
fn reindex_replaces_given_vectors_and_sets_the_marker() {
    let mut store = MemoryStore::in_memory();
    let a = store.add_at("a", conf(0.5), &[1, 2], &[], "2024-01-01T00:00:00+00:00").unwrap();
    let b = store.add_at("b", conf(0.5), &[3, 4], &[], "2024-01-01T00:00:01+00:00").unwrap();
    let c = store.add_at("c", conf(0.5), &[5, 6], &[], "2024-01-01T00:00:02+00:00").unwrap();
    assert_eq!(store.stored_model(), None);
    let count = store.reindex_at(&vec![Some(vec![7, 8, 9]), None], "lite", "2024-03-03T00:00:00+00:00");
    assert_eq!(count, 1);
    assert_eq!(store.stored_model(), Some("lite".to_string()));
    let all = store.get_all_with_embeddings();
    assert_eq!(all[0].embedding, vec![7, 8, 9]);
    assert_eq!(all[1].embedding, vec![3, 4]);
    assert_eq!(all[2].embedding, vec![5, 6]);
    assert_eq!(store.get(a).unwrap().updated_at, "2024-03-03T00:00:00+00:00");
    assert_eq!(store.get(b).unwrap().updated_at, "2024-01-01T00:00:01+00:00");
    assert_eq!(store.get(c).unwrap().updated_at, "2024-01-01T00:00:02+00:00");
    store.set_stored_model("other");
    assert_eq!(store.stored_model(), Some("other".to_string()));
}

fn record(id: i64, tags: &[&str]) -> Record {
    Record {
        memory: Memory {
            id,
            content: format!("content {}", id),
            confidence: conf(0.5),
            tags: strings(tags),
            created_at: "2024-01-01T00:00:00+00:00".to_string(),
            updated_at: "2024-01-01T00:00:00+00:00".to_string(),
            last_accessed_at: None,
            access_count: 0,
        },
        embedding: vec![0, 0, 128, 63],
    }
}

#[test]
fn restore_takes_what_is_well_formed() {
    let store = MemoryStore::restore(vec![record(2, &["a"]), record(5, &["a", "b"])], 9, Some("m".to_string())).unwrap();
    assert_eq!(store.count(), 2);
    assert_eq!(store.next_id(), 9);
    assert_eq!(store.stored_model(), Some("m".to_string()));
    assert_eq!(store.indexed_content(5), Some("content 5".to_string()));
    assert_eq!(store.get_all_with_embeddings()[0].embedding, vec![1.0f32.to_bits()]);

    assert!(MemoryStore::restore(vec![record(5, &[]), record(2, &[])], 9, None).is_none());
    assert!(MemoryStore::restore(vec![record(2, &[]), record(2, &[])], 9, None).is_none());
    assert!(MemoryStore::restore(vec![record(2, &[])], 2, None).is_none());
    assert!(MemoryStore::restore(vec![record(2, &["a", "a"])], 3, None).is_none());
    assert!(MemoryStore::restore(vec![], 1, None).is_some());
}

#[test]
fn add_fails_when_no_id_is_left() {
    let mut store = MemoryStore::restore(vec![record(1, &[])], i64::MAX, None).unwrap();
    let r = store.add("x", conf(0.5), &one(), &[]);
    assert!(matches!(r, Err(MemoryError::StorageFailure(_))));
    assert_eq!(store.count(), 1);
    let mut store = MemoryStore::restore(vec![], i64::MAX - 1, None).unwrap();
    assert_eq!(store.add("x", conf(0.5), &one(), &[]).unwrap(), i64::MAX - 1);
    assert_eq!(store.count(), 1);
}

#[test]
fn tags_union_is_deduplicated() {
    let mut store = MemoryStore::in_memory();
    let a = store.add_at("a", conf(0.5), &one(), &strings(&["x", "y"]), "2024-01-01T00:00:01+00:00").unwrap();
    let b = store.add_at("b", conf(0.5), &one(), &strings(&["y"]), "2024-01-01T00:00:02+00:00").unwrap();
    let c = store.add_at("c", conf(0.5), &one(), &strings(&["x"]), "2024-01-01T00:00:03+00:00").unwrap();
    assert_eq!(ids(&store.get_by_tags(&strings(&["x", "Y"]), 10)), vec![c, a, b]);
    assert_eq!(ids(&store.get_by_tags(&strings(&["y", "x"]), 10)), vec![b, a, c]);
    assert_eq!(ids(&store.get_by_tags(&strings(&["x", "y"]), 1)), vec![c]);
    assert_eq!(ids(&store.get_by_tags(&strings(&["x", "y"]), 2)), vec![c, a]);
    assert!(store.get_by_tags(&strings(&[]), 10).is_empty());
}

#[test]
fn the_present_time_is_written_as_text() {
    let mut store = MemoryStore::in_memory();
    let id = store.add("now", conf(0.5), &one(), &[]).unwrap();
    let m = store.get(id).unwrap();
    assert_eq!(m.created_at, m.updated_at);
    assert!(m.created_at.len() >= 25);
    assert!(m.created_at.ends_with("+00:00"));
    assert_eq!(&m.created_at[4..5], "-");
    assert_eq!(&m.created_at[10..11], "T");
    assert!(m.created_at.as_str() > "2024-01-01T00:00:00+00:00");
    assert!(m.created_at.as_str() < "9999-12-31T23:59:59+00:00");
    assert!(store.update(id, Some(conf(0.6)), None));
    assert!(store.get(id).unwrap().updated_at >= m.updated_at);
}
