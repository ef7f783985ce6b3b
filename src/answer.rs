use vstd::prelude::*;

use crate::config::{RAGConfig, RAGMode};
use crate::ranking::ranked;
use crate::retrieval::{RetrievalResult, above, candidates_for, retrieve_context, select_context};
use crate::error::RagError;
use crate::store::{Document, VectorStore};
use crate::text::{append_joined, joined, split_words, words};

verus! {

/// A result's text with its document named: "From <title>: <content>".
pub open spec fn attributed(r: RetrievalResult) -> Seq<char> {
    "From "@ + r.document_title@ + ": "@ + r.content@
}

pub open spec fn attributed_all(c: Seq<RetrievalResult>) -> Seq<Seq<char>> {
    Seq::new(c.len(), |i: int| attributed(c[i]))
}

pub open spec fn contents_of(c: Seq<RetrievalResult>) -> Seq<Seq<char>> {
    Seq::new(c.len(), |i: int| c[i].content@)
}

pub open spec fn titles_of(c: Seq<RetrievalResult>) -> Seq<Seq<char>> {
    Seq::new(c.len(), |i: int| c[i].document_title@)
}

/// The answer to `query` in `mode` from the retrieved `context`.
pub open spec fn answer_text(query: Seq<char>, context: Seq<RetrievalResult>, mode: RAGMode) -> Seq<
    char,
> {
    match mode {
        RAGMode::FineTunedOnly => "Fine-tuned model response to: "@ + query
            + "\n\n[This would be the output from your fine-tuned model]"@,
        RAGMode::FineTunedWithRAG => if context.len() == 0 {
            "Fine-tuned model response (no relevant context found): "@ + query
        } else {
            "Fine-tuned model response based on context:\n\nQuery: "@ + query
                + "\n\nRelevant context:\n"@ + joined(attributed_all(context), "\n\n"@)
                + "\n\n[This would be the enhanced fine-tuned model response using the retrieved context]"@
        },
        RAGMode::BaseWithRAG => if context.len() == 0 {
            "I don't have relevant information to answer: "@ + query
                + "\n\nPlease upload relevant documents to help me provide a better response."@
        } else {
            "Based on the documents in your knowledge base:\n\nQuery: "@ + query
                + "\n\nAnswer: Based on the retrieved information, here's what I found:\n\n"@
                + joined(contents_of(context), "\n\n"@) + "\n\nSources: "@ + joined(
                titles_of(context),
                ", "@,
            )
        },
    }
}

/// Composes the answer to `query` in `mode` from the retrieved `context`.
///
/// Fine-tuned only: a placeholder echoing the query. Fine-tuned with retrieval:
/// each result as "From <title>: <content>", separated by blank lines. Base model
/// with retrieval: the contents separated by blank lines and a closing line naming
/// the sources. Without context, the two retrieval modes say that nothing
/// relevant was found.
pub fn generate_answer_with_mode(query: &str, context: &Vec<RetrievalResult>, mode: &RAGMode) -> (r:
    String)
    ensures
        r@ == answer_text(query@, context@, *mode),
{
    match mode {
        RAGMode::FineTunedOnly => {
            let mut s = String::from_str("Fine-tuned model response to: ");
            s.append(query);
            s.append("\n\n[This would be the output from your fine-tuned model]");
            s
        },
        RAGMode::FineTunedWithRAG => {
            if context.len() == 0 {
                let mut s = String::from_str(
                    "Fine-tuned model response (no relevant context found): ",
                );
                s.append(query);
                s
            } else {
                let mut parts: Vec<String> = Vec::new();
                for i in 0..context.len()
                    invariant
                        parts@.len() == i,
                        forall|j: int|
                            0 <= j < i ==> (#[trigger] parts@[j])@ == attributed(context@[j]),
                {
                    let mut p = String::from_str("From ");
                    p.append(context[i].document_title.as_str());
                    p.append(": ");
                    p.append(context[i].content.as_str());
                    parts.push(p);
                }
                assert(Seq::new(parts@.len(), |i: int| parts@[i]@) =~= attributed_all(context@));
                let mut s = String::from_str("Fine-tuned model response based on context:\n\nQuery: ");
                s.append(query);
                s.append("\n\nRelevant context:\n");
                append_joined(&mut s, &parts, "\n\n");
                s.append(
                    "\n\n[This would be the enhanced fine-tuned model response using the retrieved context]",
                );
                s
            }
        },
        RAGMode::BaseWithRAG => {
            if context.len() == 0 {
                let mut s = String::from_str("I don't have relevant information to answer: ");
                s.append(query);
                s.append(
                    "\n\nPlease upload relevant documents to help me provide a better response.",
                );
                s
            } else {
                let mut contents: Vec<String> = Vec::new();
                let mut titles: Vec<String> = Vec::new();
                for i in 0..context.len()
                    invariant
                        contents@.len() == i,
                        titles@.len() == i,
                        forall|j: int|
                            0 <= j < i ==> (#[trigger] contents@[j])@ == context@[j].content@,
                        forall|j: int|
                            0 <= j < i ==> (#[trigger] titles@[j])@ == context@[j].document_title@,
                {
                    contents.push(context[i].content.clone());
                    titles.push(context[i].document_title.clone());
                }
                assert(Seq::new(contents@.len(), |i: int| contents@[i]@) =~= contents_of(
                    context@,
                ));
                assert(Seq::new(titles@.len(), |i: int| titles@[i]@) =~= titles_of(context@));
                let mut s = String::from_str(
                    "Based on the documents in your knowledge base:\n\nQuery: ",
                );
                s.append(query);
                s.append(
                    "\n\nAnswer: Based on the retrieved information, here's what I found:\n\n",
                );
                append_joined(&mut s, &contents, "\n\n");
                s.append("\n\nSources: ");
                append_joined(&mut s, &titles, ", ");
                s
            }
        },
    }
}

/// The answer to a query, with the context it was composed from.
#[derive(Debug)]
pub struct RAGResponse {
    pub answer: String,
    pub retrieved_context: Vec<RetrievalResult>,
    pub mode_used: RAGMode,
    pub processing_time_ms: u64,
}

/// Whether answering in `mode` retrieves context.
pub fn needs_retrieval(mode: RAGMode) -> (r: bool)
    ensures
        r == (mode != RAGMode::FineTunedOnly),
{
    match mode {
        RAGMode::FineTunedOnly => false,
        _ => true,
    }
}

/// Whether the answer `r` to `query` in `mode` is the one composed from the
/// store's chunks and their `scores`, with the threshold and `top_k` of `config`.
pub open spec fn answers(
    r: RAGResponse,
    query: Seq<char>,
    mode: RAGMode,
    config: RAGConfig,
    store: VectorStore,
    scores: Seq<u32>,
    processing_time_ms: u64,
) -> bool {
    &&& r.mode_used == mode
    &&& r.processing_time_ms == processing_time_ms
    &&& r.answer@ == answer_text(query, r.retrieved_context@, mode)
    &&& mode == RAGMode::FineTunedOnly ==> r.retrieved_context@.len() == 0
    &&& mode != RAGMode::FineTunedOnly ==> exists|c: Seq<RetrievalResult>|
        candidates_for(c, store.documents_view(), store.chunks_view(), scores)
            && r.retrieved_context@ == select_context(
            c,
            config.similarity_threshold,
            config.top_k as nat,
        )
}

/// Answers `query` in `mode`. The retrieval modes take the context from the
/// stored chunks, whose similarities to the query `scores` gives in store order,
/// with the threshold and `top_k` of `config`; fine-tuned only retrieves nothing.
/// Fails when the query holds no word.
pub fn query_rag_enhanced(
    query: &str,
    mode: RAGMode,
    config: &RAGConfig,
    store: &VectorStore,
    scores: &Vec<u32>,
    processing_time_ms: u64,
) -> (r: Result<RAGResponse, RagError>)
    requires
        store.wf(),
        mode != RAGMode::FineTunedOnly ==> scores@.len() == store.chunks_view().len(),
    ensures
        r is Err <==> words(query@).len() == 0,
        r is Err ==> r == Err::<RAGResponse, RagError>(RagError::EmptyQuery),
        r is Ok ==> answers(r->Ok_0, query@, mode, *config, *store, scores@, processing_time_ms),
{
    if split_words(query).len() == 0 {
        return Err(RagError::EmptyQuery);
    }
    Ok(respond(query, mode, config, store, scores, processing_time_ms))
}

fn respond(
    query: &str,
    mode: RAGMode,
    config: &RAGConfig,
    store: &VectorStore,
    scores: &Vec<u32>,
    processing_time_ms: u64,
) -> (r: RAGResponse)
    requires
        store.wf(),
        mode != RAGMode::FineTunedOnly ==> scores@.len() == store.chunks_view().len(),
    ensures
        answers(r, query@, mode, *config, *store, scores@, processing_time_ms),
{
    let context = if needs_retrieval(mode) {
        retrieve_context(store, scores, config.similarity_threshold, config.top_k)
    } else {
        Vec::new()
    };
    let answer = generate_answer_with_mode(query, &context, &mode);
    RAGResponse { answer, retrieved_context: context, mode_used: mode, processing_time_ms }
}

/// With no stored chunks there is no context, whatever the threshold and
/// `top_k`, and the base model with retrieval answers that it has no relevant
/// information.
pub proof fn lemma_empty_corpus(
    query: Seq<char>,
    c: Seq<RetrievalResult>,
    docs: Seq<Document>,
    scores: Seq<u32>,
    threshold: u32,
    top_k: nat,
)
    requires
        candidates_for(c, docs, Seq::empty(), scores),
    ensures
        select_context(c, threshold, top_k).len() == 0,
        answer_text(query, select_context(c, threshold, top_k), RAGMode::BaseWithRAG) == "I don't have relevant information to answer: "@
            + query + "\n\nPlease upload relevant documents to help me provide a better response."@,
{
    assert(c.len() == 0);
    assert(above(c, threshold) =~= Seq::<RetrievalResult>::empty());
    assert(ranked(above(c, threshold)) =~= Seq::<RetrievalResult>::empty());
}

} // verus!
