//! The vector index.

use context_engine::vector::{load_query, score_key, ChunkId, EmbeddingRow, VectorIndex};

fn id(file: &str, line: u32) -> ChunkId {
    ChunkId { file: file.to_owned(), line_start: line, line_end: line + 1 }
}

fn index(entries: &[(&str, u32, &[u8])]) -> VectorIndex<u8> {
    let mut index = VectorIndex::new();
    index.insert(entries.iter().map(|(f, l, e)| (id(f, *l), e.to_vec())).collect());
    index
}

/// The chunks of an index, best first for falling scores.
fn told(index: &VectorIndex<u8>) -> Vec<(String, u32)> {
    let scores: Vec<i64> = (0..index.len() as i64).map(|i| -i).collect();
    index
        .search(&[1], &scores, usize::MAX)
        .into_iter()
        .map(|r| (r.chunk_id.file, r.chunk_id.line_start))
        .collect()
}

#[test]
fn other_dimensions_are_skipped() {
    let index = index(&[("a", 1, &[1, 2]), ("a", 3, &[1]), ("b", 5, &[3, 4]), ("b", 7, &[1, 2, 3])]);
    assert_eq!(told(&index), vec![("a".to_owned(), 1), ("b".to_owned(), 5)]);
    assert_eq!(index.embedding(1), &vec![3, 4]);
}

#[test]
fn empty_embeddings_are_stored_as_they_are() {
    let index = index(&[("a", 1, &[]), ("b", 2, &[1, 2]), ("c", 3, &[1]), ("d", 4, &[])]);
    assert_eq!(
        told(&index),
        vec![("a".to_owned(), 1), ("b".to_owned(), 2), ("d".to_owned(), 4)]
    );
    assert!(index.embedding(0).is_empty());
}

#[test]
fn a_second_batch_must_fit_the_first() {
    let mut index = index(&[("a", 1, &[1, 2])]);
    index.insert(vec![
        (id("b", 2), vec![1]),
        (id("c", 3), vec![5, 6]),
        (id("d", 4), vec![1, 2, 3]),
        (id("e", 5), vec![7, 8]),
    ]);
    assert_eq!(
        told(&index),
        vec![("a".to_owned(), 1), ("c".to_owned(), 3), ("e".to_owned(), 5)]
    );
}

#[test]
fn a_file_is_removed_whole() {
    let mut index = index(&[
        ("a", 1, &[1]),
        ("b", 2, &[2]),
        ("a", 3, &[3]),
        ("c", 4, &[4]),
        ("a", 5, &[5]),
    ]);
    index.remove_file("a");
    assert_eq!(told(&index), vec![("c".to_owned(), 4), ("b".to_owned(), 2)]);
    assert_eq!(index.embedding(0), &vec![4]);
    index.remove_file("a");
    index.remove_file("absent");
    assert_eq!(index.len(), 2);
}

#[test]
fn search_ranks_by_score() {
    let index = index(&[("a", 1, &[1]), ("b", 2, &[2]), ("c", 3, &[3]), ("d", 4, &[4])]);
    let found = index.search(&[9], &[10, 40, -5, 30], 3);
    let told: Vec<(usize, i64, u32)> =
        found.iter().map(|r| (r.row, r.score, r.chunk_id.line_start)).collect();
    assert_eq!(told, vec![(1, 40, 2), (3, 30, 4), (0, 10, 1)]);
    assert_eq!(found[0].chunk_id.file, "b");
    assert_eq!(found[0].chunk_id.line_end, 3);
}

#[test]
fn search_takes_ties_once_each() {
    let index = index(&[("a", 1, &[1]), ("b", 2, &[2]), ("c", 3, &[3])]);
    let mut rows: Vec<usize> =
        index.search(&[9], &[7, 7, 7], 2).iter().map(|r| r.row).collect();
    rows.sort();
    rows.dedup();
    assert_eq!(rows.len(), 2);
}

#[test]
fn search_may_find_nothing() {
    let some = index(&[("a", 1, &[1])]);
    assert!(some.search(&[], &[], 5).is_empty());
    assert!(some.search(&[1], &[3], 0).is_empty());
    assert!(VectorIndex::<u8>::new().search(&[1], &[], 5).is_empty());
    assert_eq!(some.search(&[1], &[3], 5).len(), 1);
}

#[test]
fn clearing_forgets_the_dimension() {
    let mut index = index(&[("a", 1, &[1])]);
    assert!(!index.is_empty());
    index.clear();
    assert!(index.is_empty());
    index.insert(vec![(id("a", 1), vec![1, 2])]);
    assert_eq!(index.len(), 1);
    assert!(VectorIndex::<u8>::default().is_empty());
}

#[test]
fn stored_chunks_are_loaded() {
    let row = |file: &str, start: i64, embedding: &[u8]| EmbeddingRow {
        file: file.to_owned(),
        line_start: start,
        line_end: start + 9,
        embedding: embedding.to_vec(),
    };
    let index = VectorIndex::load_from_db(vec![
        row("a", 1, &[1, 2]),
        row("b", 5, &[]),
        row("c", 0x1_0000_0007, &[3, 4]),
        row("d", 9, &[1]),
    ]);
    assert_eq!(told(&index), vec![("a".to_owned(), 1), ("c".to_owned(), 7)]);
}

#[test]
fn stored_chunks_are_asked_for() {
    let query = load_query();
    assert_eq!(
        query.sql,
        "SELECT file, line_start, line_end, embedding FROM chunk WHERE embedding != []"
    );
    assert!(query.binds.is_empty());
    assert_eq!(query.context, "load embeddings from chunk table");
}

#[test]
fn score_keys_order_as_scores_do() {
    let scores: [f32; 9] = [
        f32::NEG_INFINITY,
        -1.5,
        -1.0,
        -f32::MIN_POSITIVE,
        0.0,
        1.0e-45,
        0.25,
        1.0,
        f32::INFINITY,
    ];
    for pair in scores.windows(2) {
        assert!(score_key(pair[0].to_bits()) < score_key(pair[1].to_bits()));
    }
    assert_eq!(score_key((-0.0f32).to_bits()), 0);
    assert_eq!(score_key(1.0f32.to_bits()), 0x3f80_0000);
    assert_eq!(score_key((-1.0f32).to_bits()), -0x3f80_0000);
}
