use rag_core::chat::{chat_hybrid_mode, chat_reply, chat_with_documents, document_references, search_documents, SearchResult};
use rag_core::monitor::{total_tokens, LogEntry};
use rag_core::store::{build_chunks, Document, VectorStore};

fn doc(id: &str) -> Document {
    Document {
        id: id.to_string(),
        title: id.to_uppercase(),
        content: String::new(),
        file_path: None,
        file_type: "md".to_string(),
        content_hash: String::new(),
        created_at: 0,
        updated_at: 0,
    }
}

fn store(docs: &[(&str, &[&str])]) -> VectorStore {
    let mut s = VectorStore::new();
    for (id, texts) in docs {
        s.insert_document(doc(id)).unwrap();
        let n = texts.len();
        let b = build_chunks(
            &id.to_string(),
            texts.iter().map(|t| t.to_string()).collect(),
            vec![Vec::new(); n],
            (0..n).map(|i| format!("{}{}", id, i)).collect(),
            0,
        )
        .unwrap();
        s.insert_chunks(&id.to_string(), b).unwrap();
    }
    s
}

fn bits(xs: &[f32]) -> Vec<u32> {
    xs.iter().map(|x| x.to_bits()).collect()
}

fn summary(r: &[SearchResult]) -> Vec<(String, Vec<String>, f32)> {
    r.iter()
        .map(|x| (x.document.id.clone(), x.relevant_chunks.clone(), f32::from_bits(x.similarity_score)))
        .collect()
}

#[test]
fn search_groups_chunks_by_document_with_best_score() {
    let s = store(&[("a", &["a0", "a1", "a2"]), ("b", &["b0", "b1"])]);
    let r = search_documents(&s, &bits(&[0.4, 0.2, 0.6, 0.9, 0.31]));
    assert_eq!(
        summary(&r),
        vec![
            ("b".to_string(), vec!["b0".to_string(), "b1".to_string()], 0.9),
            ("a".to_string(), vec!["a0".to_string(), "a2".to_string()], 0.6),
        ]
    );
    assert_eq!(r[0].document.title, "B");
}

#[test]
fn search_ignores_scores_at_or_below_threshold() {
    let s = store(&[("a", &["a0"]), ("b", &["b0"])]);
    let r = search_documents(&s, &bits(&[0.3, 0.1]));
    assert!(r.is_empty());
}

#[test]
fn search_returns_at_most_ten_documents() {
    let ids: Vec<String> = (0..12).map(|i| format!("d{:02}", i)).collect();
    let entries: Vec<(&str, &[&str])> = ids.iter().map(|i| (i.as_str(), &["x"][..])).collect();
    let s = store(&entries);
    let scores: Vec<f32> = (0..12).map(|i| 0.4 + i as f32 * 0.01).collect();
    let r = search_documents(&s, &bits(&scores));
    assert_eq!(r.len(), 10);
    assert_eq!(r[0].document.id, "d11");
    assert_eq!(r[9].document.id, "d02");
}

#[test]
fn chat_reply_quotes_chunks_and_counts_documents() {
    let s = store(&[("a", &["alpha one", "alpha two"]), ("b", &["beta"])]);
    let r = search_documents(&s, &bits(&[0.5, 0.7, 0.6]));
    assert_eq!(
        chat_reply(&r),
        "Based on the uploaded documents, here's what I found:\n\nalpha one\n\nalpha two\n\nbeta\n\nThis information comes from 2 document(s) in your knowledge base."
    );
    assert_eq!(document_references(&r), vec!["a".to_string(), "b".to_string()]);
}

#[test]
fn chat_without_results_asks_for_documents() {
    let (user, response) = chat_with_documents("hi".to_string(), Vec::new(), "u1".to_string(), "a1".to_string(), 5);
    assert_eq!(user.role, "user");
    assert_eq!(user.content, "hi");
    assert_eq!(response.message.role, "assistant");
    assert_eq!(response.message.id, "a1");
    assert_eq!(response.message.created_at, 5);
    assert_eq!(
        response.message.content,
        "I don't have any relevant documents to answer your question. Please upload some documents first."
    );
    assert!(response.sources.is_empty());
}

#[test]
fn hybrid_chat_replies_by_combination() {
    assert_eq!(chat_hybrid_mode("q", true, true), "Hybrid (Fine-tuned + RAG) response to: q");
    assert_eq!(chat_hybrid_mode("q", true, false), "Fine-tuned model response to: q");
    assert_eq!(chat_hybrid_mode("q", false, true), "RAG-enhanced response to: q");
    assert_eq!(chat_hybrid_mode("q", false, false), "Base model response to: q");
}

#[test]
fn base_and_fine_tuned_replies() {
    assert_eq!(rag_core::chat::chat_base_model("hello"), "Base model response to: hello");
    assert_eq!(rag_core::chat::chat_fine_tuned("hello"), "Fine-tuned model response to: hello");
}

#[test]
fn token_totals_saturate() {
    assert_eq!(total_tokens(3, 4), 7);
    assert_eq!(total_tokens(u32::MAX, 1), u32::MAX);
    let e = LogEntry {
        id: "1".to_string(),
        timestamp: "t".to_string(),
        level: "info".to_string(),
        component: "rag".to_string(),
        message: "m".to_string(),
    };
    assert_eq!(e.clone().level, "info");
}
