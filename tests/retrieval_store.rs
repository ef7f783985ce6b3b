use rag_core::answer::{generate_answer_with_mode, needs_retrieval, query_rag_enhanced};
use rag_core::codec::{decode_embedding, encode_embedding};
use rag_core::config::{RAGConfig, RAGMode};
use rag_core::error::RagError;
use rag_core::retrieval::{order_key, rank_context, retrieve_context, RetrievalResult};
use rag_core::store::{build_chunks, Document, DocumentChunk, VectorStore};

fn doc(id: &str, title: &str, created_at: i64, path: Option<&str>) -> Document {
    Document {
        id: id.to_string(),
        title: title.to_string(),
        content: format!("content of {}", title),
        file_path: path.map(|p| p.to_string()),
        file_type: "txt".to_string(),
        content_hash: String::new(),
        created_at,
        updated_at: created_at,
    }
}

fn batch(doc_id: &str, texts: &[&str]) -> Vec<DocumentChunk> {
    let contents: Vec<String> = texts.iter().map(|t| t.to_string()).collect();
    let embeddings: Vec<Vec<u32>> = texts.iter().map(|_| vec![1.0f32.to_bits()]).collect();
    let ids: Vec<String> = (0..texts.len()).map(|i| format!("{}-c{}", doc_id, i)).collect();
    build_chunks(&doc_id.to_string(), contents, embeddings, ids, 7).unwrap()
}

fn result(id: &str, score: f32) -> RetrievalResult {
    RetrievalResult {
        chunk_id: id.to_string(),
        content: format!("text {}", id),
        document_title: format!("title {}", id),
        similarity_score: score.to_bits(),
        source_info: "unknown".to_string(),
    }
}

fn ids(v: &[RetrievalResult]) -> Vec<String> {
    v.iter().map(|r| r.chunk_id.clone()).collect()
}

fn store_with_two_documents() -> VectorStore {
    let mut store = VectorStore::new();
    store.insert_document(doc("a", "Alpha", 10, Some("/tmp/a.txt"))).unwrap();
    store.insert_document(doc("b", "Beta", 20, None)).unwrap();
    assert_eq!(store.insert_chunks(&"a".to_string(), batch("a", &["a0", "a1", "a2"])), Ok(3));
    assert_eq!(store.insert_chunks(&"b".to_string(), batch("b", &["b0", "b1"])), Ok(2));
    store
}

#[test]
fn embedding_bytes_round_trip_bit_exactly() {
    let v = vec![0.0f32, -0.0, 1.0, -2.5, f32::MIN_POSITIVE, f32::MAX, 0.1, f32::INFINITY];
    let bits: Vec<u32> = v.iter().map(|f| f.to_bits()).collect();
    let bytes = encode_embedding(&bits);
    assert_eq!(bytes.len(), 4 * v.len());
    let expected: Vec<u8> = v.iter().flat_map(|f| f.to_le_bytes()).collect();
    assert_eq!(bytes, expected);
    let back: Vec<f32> = decode_embedding(&bytes).into_iter().map(f32::from_bits).collect();
    for (a, b) in v.iter().zip(back.iter()) {
        assert_eq!(a.to_bits(), b.to_bits());
    }
    assert_eq!(back.len(), v.len());
}

#[test]
fn one_encodes_as_known_bytes_and_partial_groups_are_dropped() {
    assert_eq!(encode_embedding(&vec![1.0f32.to_bits()]), vec![0, 0, 128, 63]);
    assert_eq!(decode_embedding(&vec![0, 0, 128, 63, 9, 9]), vec![1.0f32.to_bits()]);
    assert_eq!(decode_embedding(&vec![1, 2, 3]), Vec::<u32>::new());
}

#[test]
fn order_key_follows_float_order() {
    let xs = [f32::NEG_INFINITY, -3.0, -1.0, -0.5, 0.0, 0.25, 0.3, 1.0, f32::INFINITY];
    for w in xs.windows(2) {
        assert!(order_key(w[0].to_bits()) < order_key(w[1].to_bits()));
    }
    assert_eq!(order_key((-0.0f32).to_bits()), order_key(0.0f32.to_bits()));
}

#[test]
fn ranking_respects_threshold_and_top_k() {
    let c = vec![
        result("low", 0.1),
        result("mid", 0.5),
        result("edge", 0.3),
        result("high", 0.9),
        result("mid2", 0.5),
        result("neg", -0.9),
    ];
    let r = rank_context(c, 0.3f32.to_bits(), 2);
    assert_eq!(ids(&r), vec!["high".to_string(), "mid".to_string()]);
    for x in &r {
        assert!(f32::from_bits(x.similarity_score) > 0.3);
    }
}

#[test]
fn ranking_keeps_candidate_order_on_ties() {
    let c = vec![result("x", 0.5), result("y", 0.7), result("z", 0.5), result("w", 0.7)];
    let r = rank_context(c, 0.0f32.to_bits(), 10);
    assert_eq!(ids(&r), vec!["y", "w", "x", "z"]);
}

#[test]
fn ranking_with_top_k_zero_is_empty() {
    let r = rank_context(vec![result("x", 0.9)], 0.0f32.to_bits(), 0);
    assert!(r.is_empty());
}

#[test]
fn delete_document_cascades_to_its_chunks_only() {
    let mut store = store_with_two_documents();
    store.delete_document(&"a".to_string());
    let docs: Vec<String> = store.documents().iter().map(|d| d.id.clone()).collect();
    assert_eq!(docs, vec!["b".to_string()]);
    let chunks: Vec<(String, usize)> =
        store.chunks().iter().map(|c| (c.document_id.clone(), c.chunk_index)).collect();
    assert_eq!(chunks, vec![("b".to_string(), 0), ("b".to_string(), 1)]);
    store.delete_document(&"missing".to_string());
    assert_eq!(store.chunks().len(), 2);
}

#[test]
fn store_rejects_bad_inserts() {
    let mut store = store_with_two_documents();
    assert_eq!(store.insert_document(doc("a", "Again", 30, None)), Err(RagError::DuplicateDocument));
    assert_eq!(store.insert_chunks(&"a".to_string(), batch("a", &["x"])), Err(RagError::ChunksExist));
    assert_eq!(store.insert_chunks(&"zz".to_string(), batch("zz", &["x"])), Err(RagError::UnknownDocument));
    assert_eq!(store.insert_chunks(&"b".to_string(), batch("a", &["x"])), Err(RagError::BatchMismatch));
    let mut wrong = batch("b", &["x", "y"]);
    wrong[1].chunk_index = 5;
    assert_eq!(store.insert_chunks(&"b".to_string(), wrong), Err(RagError::BatchMismatch));
    assert_eq!(store.documents().len(), 2);
    assert_eq!(store.chunks().len(), 5);
}

#[test]
fn build_chunks_numbers_from_zero_and_checks_lengths() {
    let b = batch("d", &["p", "q"]);
    assert_eq!(b.len(), 2);
    assert_eq!((b[0].chunk_index, b[1].chunk_index), (0, 1));
    assert_eq!(b[1].content, "q");
    assert_eq!(b[1].id, "d-c1");
    assert_eq!(b[0].created_at, 7);
    let r = build_chunks(&"d".to_string(), vec!["x".to_string()], vec![], vec!["i".to_string()], 0);
    assert!(matches!(r, Err(RagError::BatchMismatch)));
}

#[test]
fn documents_are_listed_most_recent_first() {
    let mut store = VectorStore::new();
    store.insert_document(doc("old", "Old", 1, None)).unwrap();
    store.insert_document(doc("new", "New", 9, None)).unwrap();
    store.insert_document(doc("mid", "Mid", 5, None)).unwrap();
    store.insert_document(doc("new2", "New2", 9, None)).unwrap();
    let listed: Vec<String> = store.list_documents().iter().map(|d| d.id.clone()).collect();
    assert_eq!(listed, vec!["new", "new2", "mid", "old"]);
}

#[test]
fn retrieval_joins_chunks_with_their_documents() {
    let store = store_with_two_documents();
    let scores: Vec<u32> = [0.2f32, 0.8, 0.4, 0.9, 0.1].iter().map(|f| f.to_bits()).collect();
    let r = retrieve_context(&store, &scores, 0.3f32.to_bits(), 5);
    assert_eq!(ids(&r), vec!["b-c0", "a-c1", "a-c2"]);
    assert_eq!(r[0].document_title, "Beta");
    assert_eq!(r[0].source_info, "unknown");
    assert_eq!(r[1].document_title, "Alpha");
    assert_eq!(r[1].source_info, "/tmp/a.txt");
    assert_eq!(r[1].content, "a1");
    assert_eq!(f32::from_bits(r[1].similarity_score), 0.8);
}

#[test]
fn fine_tuned_only_never_retrieves() {
    let store = store_with_two_documents();
    assert!(!needs_retrieval(RAGMode::FineTunedOnly));
    assert!(needs_retrieval(RAGMode::BaseWithRAG));
    let config = RAGConfig::default();
    let r = query_rag_enhanced("why?", RAGMode::FineTunedOnly, &config, &store, &Vec::new(), 3).unwrap();
    assert!(r.retrieved_context.is_empty());
    assert_eq!(r.mode_used, RAGMode::FineTunedOnly);
    assert_eq!(r.processing_time_ms, 3);
    assert_eq!(
        r.answer,
        "Fine-tuned model response to: why?\n\n[This would be the output from your fine-tuned model]"
    );
}

#[test]
fn empty_corpus_base_mode_says_nothing_relevant() {
    let store = VectorStore::new();
    let config = RAGConfig::default();
    let r = query_rag_enhanced("what is rust", RAGMode::BaseWithRAG, &config, &store, &Vec::new(), 0).unwrap();
    assert!(r.retrieved_context.is_empty());
    assert_eq!(
        r.answer,
        "I don't have relevant information to answer: what is rust\n\nPlease upload relevant documents to help me provide a better response."
    );
}

#[test]
fn base_mode_lists_contents_and_sources() {
    let store = store_with_two_documents();
    let mut config = RAGConfig::default();
    config.top_k = 2;
    let scores: Vec<u32> = [0.2f32, 0.8, 0.4, 0.9, 0.1].iter().map(|f| f.to_bits()).collect();
    let r = query_rag_enhanced("q", RAGMode::BaseWithRAG, &config, &store, &scores, 0).unwrap();
    assert_eq!(ids(&r.retrieved_context), vec!["b-c0", "a-c1"]);
    assert_eq!(
        r.answer,
        "Based on the documents in your knowledge base:\n\nQuery: q\n\nAnswer: Based on the retrieved information, here's what I found:\n\nb0\n\na1\n\nSources: Beta, Alpha"
    );
}

#[test]
fn fine_tuned_with_context_attributes_each_result() {
    let ctx = vec![result("1", 0.9), result("2", 0.8)];
    let a = generate_answer_with_mode("q", &ctx, &RAGMode::FineTunedWithRAG);
    assert_eq!(
        a,
        "Fine-tuned model response based on context:\n\nQuery: q\n\nRelevant context:\nFrom title 1: text 1\n\nFrom title 2: text 2\n\n[This would be the enhanced fine-tuned model response using the retrieved context]"
    );
    let none = generate_answer_with_mode("q", &Vec::new(), &RAGMode::FineTunedWithRAG);
    assert_eq!(none, "Fine-tuned model response (no relevant context found): q");
}

#[test]
fn empty_queries_are_rejected() {
    let store = VectorStore::new();
    let config = RAGConfig::default();
    for q in ["", "   \n\t"] {
        let r = query_rag_enhanced(q, RAGMode::FineTunedOnly, &config, &store, &Vec::new(), 0);
        assert_eq!(r.err(), Some(RagError::EmptyQuery));
    }
    assert_eq!(RagError::EmptyQuery.message(), "the query is empty");
}
