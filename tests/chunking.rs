use rag_core::chunker::{chunk_text, chunk_text_with_config};
use rag_core::config::RAGConfig;
use rag_core::error::RagError;

fn numbered_words(n: usize) -> String {
    (0..n).map(|i| format!("w{}", i)).collect::<Vec<_>>().join(" ")
}

fn words_of(s: &str) -> Vec<&str> {
    s.split_whitespace().collect()
}

#[test]
fn four_hundred_fifty_words_make_three_chunks() {
    let text = numbered_words(450);
    let chunks = chunk_text(&text, 200, 50).unwrap();
    assert_eq!(chunks.len(), 3);
    let c0 = words_of(&chunks[0]);
    let c1 = words_of(&chunks[1]);
    let c2 = words_of(&chunks[2]);
    assert_eq!(c0.len(), 200);
    assert_eq!(c1.len(), 200);
    assert_eq!(c2.len(), 150);
    assert_eq!(c0[0], "w0");
    assert_eq!(c1[0], "w150");
    assert_eq!(c2[0], "w300");
    assert_eq!(c2[149], "w449");
    assert_eq!(&c0[150..], &c1[..50]);
    assert_eq!(&c1[150..], &c2[..50]);
    let n = chunks.len();
    let batch = rag_core::store::build_chunks(
        &"doc".to_string(),
        chunks,
        vec![Vec::new(); n],
        (0..n).map(|i| i.to_string()).collect(),
        0,
    )
    .unwrap();
    let ordinals: Vec<usize> = batch.iter().map(|c| c.chunk_index).collect();
    assert_eq!(ordinals, vec![0, 1, 2]);
}

#[test]
fn adjacent_chunks_share_exactly_the_overlap() {
    let text = numbered_words(23);
    let chunks = chunk_text(&text, 5, 2).unwrap();
    // windows start at 0, 3, 6, ..., 18; the one at 18 reaches the end
    assert_eq!(chunks.len(), 7);
    for i in 0..chunks.len() - 1 {
        let a = words_of(&chunks[i]);
        let b = words_of(&chunks[i + 1]);
        assert_eq!(a.len(), 5);
        assert_eq!(&a[3..], &b[..2]);
    }
    assert_eq!(chunks[6], "w18 w19 w20 w21 w22");
}

#[test]
fn short_text_is_one_chunk_trimmed() {
    let text = "  hello   world \n";
    let chunks = chunk_text(text, 2, 1).unwrap();
    assert_eq!(chunks, vec!["hello   world".to_string()]);
    assert_eq!(chunk_text("\u{3000} x\t", 5, 0).unwrap(), vec!["x".to_string()]);
    assert_eq!(chunk_text(" \n ", 5, 0).unwrap(), vec![String::new()]);
}

#[test]
fn empty_text_is_one_empty_chunk() {
    assert_eq!(chunk_text("", 10, 3).unwrap(), vec![String::new()]);
}

#[test]
fn chunks_join_words_with_single_spaces() {
    let text = "a\tb\n\nc  d e";
    let chunks = chunk_text(text, 2, 0).unwrap();
    assert_eq!(chunks, vec!["a b".to_string(), "c d".to_string(), "e".to_string()]);
}

#[test]
fn unicode_whitespace_separates_words() {
    let text = "x\u{3000}y\u{a0}z";
    let chunks = chunk_text(text, 1, 0).unwrap();
    assert_eq!(chunks, vec!["x".to_string(), "y".to_string(), "z".to_string()]);
}

#[test]
fn overlap_not_below_size_is_rejected() {
    assert_eq!(chunk_text("a b c", 3, 3), Err(RagError::InvalidChunkConfig));
    assert_eq!(chunk_text("a b c", 2, 5), Err(RagError::InvalidChunkConfig));
    assert_eq!(chunk_text("a b c", 0, 0), Err(RagError::InvalidChunkConfig));
    assert!(!RagError::InvalidChunkConfig.message().is_empty());
}

#[test]
fn config_chunking_uses_its_size_and_overlap() {
    let mut config = RAGConfig::default();
    config.chunk_size = 3;
    config.chunk_overlap = 1;
    let chunks = chunk_text_with_config("a b c d e f g", &config).unwrap();
    assert_eq!(chunks, vec!["a b c".to_string(), "c d e".to_string(), "e f g".to_string()]);
}

#[test]
fn default_config_values() {
    let config = RAGConfig::default();
    assert_eq!(config.chunk_size, 200);
    assert_eq!(config.chunk_overlap, 50);
    assert_eq!(config.top_k, 5);
    assert_eq!(f32::from_bits(config.similarity_threshold), 0.3f32);
    assert_eq!(config.mode, rag_core::config::RAGMode::BaseWithRAG);
    match config.embedding_model {
        rag_core::config::EmbeddingModel::HuggingFace { model_name } => {
            assert_eq!(model_name, "sentence-transformers/all-MiniLM-L6-v2")
        }
        _ => panic!("default backend is the hosted one"),
    }
}

#[test]
fn largest_chunk_size_keeps_text_whole() {
    let text = numbered_words(5);
    assert_eq!(chunk_text(&text, usize::MAX, usize::MAX - 1).unwrap(), vec![text.clone()]);
    let chunks = chunk_text(&text, 2, 1).unwrap();
    assert_eq!(chunks, vec!["w0 w1", "w1 w2", "w2 w3", "w3 w4"]);
}
