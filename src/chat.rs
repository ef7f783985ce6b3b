use vstd::prelude::*;

use crate::config::DEFAULT_THRESHOLD_BITS;
use crate::ranking::{Ranked, ranked, sort_ranked};
use crate::retrieval::{above_threshold, order_key, score_key};
use crate::store::{Document, DocumentChunk, VectorStore, has_document, store_invariant};
use crate::text::{append_joined, decimal, joined, push_decimal, views};

verus! {

/// Most documents a search returns.
pub const SEARCH_LIMIT: usize = 10;

/// A document found by a search, with its chunks that matched and the best
/// score among them (the bit pattern of an `f32` similarity).
#[derive(Debug)]
pub struct SearchResult {
    pub document: Document,
    pub relevant_chunks: Vec<String>,
    pub similarity_score: u32,
}

impl Ranked for SearchResult {
    open spec fn rank(&self) -> int {
        score_key(self.similarity_score) as int
    }

    fn outranks(&self, other: &Self) -> (r: bool) {
        order_key(self.similarity_score) > order_key(other.similarity_score)
    }
}

/// What a search gathers for one document.
pub struct Group {
    pub document: Document,
    pub chunks: Seq<Seq<char>>,
    pub best: u32,
}

/// Position of the first group of document `id`, or the number of groups.
pub open spec fn group_position(g: Seq<Group>, id: Seq<char>) -> nat
    decreases g.len(),
{
    if g.len() == 0 || g[0].document.id@ == id {
        0
    } else {
        1 + group_position(g.drop_first(), id)
    }
}

/// Position of the first document `id`, or the number of documents.
pub open spec fn doc_position(docs: Seq<Document>, id: Seq<char>) -> nat
    decreases docs.len(),
{
    if docs.len() == 0 || docs[0].id@ == id {
        0
    } else {
        1 + doc_position(docs.drop_first(), id)
    }
}

/// The groups that the first `n` chunks give: each chunk scoring above the
/// search threshold joins the group of its document, made when its first chunk
/// comes, and raises the group's best score when it scores higher.
pub open spec fn groups(docs: Seq<Document>, cs: Seq<DocumentChunk>, scores: Seq<u32>, n: nat) -> Seq<
    Group,
>
    decreases n,
{
    if n == 0 || n > cs.len() {
        seq![]
    } else {
        let g = groups(docs, cs, scores, (n - 1) as nat);
        let c = cs[n - 1];
        let s = scores[n - 1];
        if !above_threshold(s, DEFAULT_THRESHOLD_BITS) {
            g
        } else {
            let p = group_position(g, c.document_id@);
            if p < g.len() {
                g.update(
                    p as int,
                    Group {
                        document: g[p as int].document,
                        chunks: g[p as int].chunks.push(c.content@),
                        best: if score_key(s) > score_key(g[p as int].best) {
                            s
                        } else {
                            g[p as int].best
                        },
                    },
                )
            } else {
                g.push(
                    Group {
                        document: docs[doc_position(docs, c.document_id@) as int],
                        chunks: seq![c.content@],
                        best: s,
                    },
                )
            }
        }
    }
}

/// Whether the results `r` hold the groups `g`, in order.
pub open spec fn holds_groups(r: Seq<SearchResult>, g: Seq<Group>) -> bool {
    &&& r.len() == g.len()
    &&& forall|i: int|
        0 <= i < r.len() ==> (#[trigger] r[i]).document == g[i].document && views(
            r[i].relevant_chunks@,
        ) == g[i].chunks && r[i].similarity_score == g[i].best
}

proof fn lemma_group_position(g: Seq<Group>, id: Seq<char>, p: int)
    requires
        0 <= p <= g.len(),
        forall|j: int| 0 <= j < p ==> (#[trigger] g[j]).document.id@ != id,
        p < g.len() ==> g[p].document.id@ == id,
    ensures
        group_position(g, id) == p,
    decreases p,
{
    if p > 0 {
        assert forall|j: int| 0 <= j < p - 1 implies (#[trigger] g.drop_first()[j]).document.id@
            != id by {
            assert(g.drop_first()[j] == g[j + 1]);
        }
        if p < g.len() {
            assert(g.drop_first()[p - 1] == g[p]);
        }
        lemma_group_position(g.drop_first(), id, p - 1);
    }
}

proof fn lemma_doc_position(docs: Seq<Document>, id: Seq<char>, p: int)
    requires
        0 <= p < docs.len(),
        forall|j: int| 0 <= j < p ==> (#[trigger] docs[j]).id@ != id,
        docs[p].id@ == id,
    ensures
        doc_position(docs, id) == p,
    decreases p,
{
    if p > 0 {
        assert forall|j: int| 0 <= j < p - 1 implies (#[trigger] docs.drop_first()[j]).id@
            != id by {
            assert(docs.drop_first()[j] == docs[j + 1]);
        }
        assert(docs.drop_first()[p - 1] == docs[p]);
        lemma_doc_position(docs.drop_first(), id, p - 1);
    }
}

/// The search's result: the groups in descending order of best score (equal
/// scores in order of their first chunk), at most `SEARCH_LIMIT` of them.
pub open spec fn top_groups(r: Seq<SearchResult>) -> Seq<SearchResult> {
    let s = ranked(r);
    if s.len() <= SEARCH_LIMIT {
        s
    } else {
        s.take(SEARCH_LIMIT as int)
    }
}

/// Searches the corpus given each stored chunk's similarity to the query, in
/// store order: gathers, per document, its chunks scoring above 0.3 and their
/// best score, and returns the ten documents with the best scores.
pub fn search_documents(store: &VectorStore, scores: &Vec<u32>) -> (r: Vec<SearchResult>)
    requires
        store.wf(),
        scores@.len() == store.chunks_view().len(),
    ensures
        exists|g: Seq<SearchResult>|
            holds_groups(
                g,
                groups(
                    store.documents_view(),
                    store.chunks_view(),
                    scores@,
                    store.chunks_view().len(),
                ),
            ) && r@ == top_groups(g),
{
    let docs = store.documents();
    let cs = store.chunks();
    let ghost d = docs@;
    let ghost c = cs@;
    let t = order_key(DEFAULT_THRESHOLD_BITS);
    let mut acc: Vec<SearchResult> = Vec::new();
    proof {
        assert(store_invariant(d, c));
    }
    let mut k: usize = 0;
    while k < cs.len()
        invariant
            k <= c.len(),
            d == docs@,
            c == cs@,
            d == store.documents_view(),
            c == store.chunks_view(),
            store_invariant(d, c),
            scores@.len() == c.len(),
            t == score_key(DEFAULT_THRESHOLD_BITS),
            holds_groups(acc@, groups(d, c, scores@, k as nat)),
        decreases c.len() - k,
    {
        let ghost g = groups(d, c, scores@, k as nat);
        let s = scores[k];
        let chunk = &cs[k];
        if order_key(s) > t {
            let mut p: usize = 0;
            while p < acc.len() && !(acc[p].document.id == chunk.document_id)
                invariant
                    p <= acc@.len(),
                    holds_groups(acc@, g),
                    forall|j: int| 0 <= j < p ==> (#[trigger] g[j]).document.id@ != chunk.document_id@,
                decreases acc@.len() - p,
            {
                assert(acc@[p as int].document == g[p as int].document);
                p = p + 1;
            }
            proof {
                if p < acc@.len() {
                    assert(acc@[p as int].document == g[p as int].document);
                }
                lemma_group_position(g, chunk.document_id@, p as int);
            }
            if p < acc.len() {
                let ghost prev = acc@;
                let mut item = acc.remove(p);
                let ghost old_chunks = item.relevant_chunks@;
                item.relevant_chunks.push(chunk.content.clone());
                assert(views(item.relevant_chunks@) =~= views(old_chunks).push(
                    chunk.content@,
                ));
                if order_key(s) > order_key(item.similarity_score) {
                    item.similarity_score = s;
                }
                acc.insert(p, item);
                proof {
                    let ng = groups(d, c, scores@, (k + 1) as nat);
                    assert forall|i: int| 0 <= i < acc@.len() implies (#[trigger] acc@[i]).document
                        == ng[i].document && views(acc@[i].relevant_chunks@) == ng[i].chunks
                        && acc@[i].similarity_score == ng[i].best by {
                        if i != p {
                            assert(acc@[i] == prev[i]);
                        }
                    }
                }
            } else {
                assert(has_document(d, c[k as int].document_id@));
                let i = match store.find_document(&chunk.document_id) {
                    Some(i) => i,
                    None => {
                        assert(false);
                        0
                    },
                };
                proof {
                    lemma_doc_position(d, chunk.document_id@, i as int);
                }
                let mut found: Vec<String> = Vec::new();
                found.push(chunk.content.clone());
                assert(views(found@) =~= seq![chunk.content@]);
                let ghost prev = acc@;
                acc.push(
                    SearchResult {
                        document: docs[i].copy(),
                        relevant_chunks: found,
                        similarity_score: s,
                    },
                );
                proof {
                    let ng = groups(d, c, scores@, (k + 1) as nat);
                    assert forall|j: int| 0 <= j < acc@.len() implies (#[trigger] acc@[j]).document
                        == ng[j].document && views(acc@[j].relevant_chunks@) == ng[j].chunks
                        && acc@[j].similarity_score == ng[j].best by {
                        if j < prev.len() {
                            assert(acc@[j] == prev[j]);
                        }
                    }
                }
            }
        }
        k = k + 1;
    }
    let ghost all = acc@;
    let mut sorted = sort_ranked(acc);
    sorted.truncate(SEARCH_LIMIT);
    proof {
        crate::ranking::lemma_ranked_facts(all);
        assert(sorted@ =~= top_groups(all));
        assert(holds_groups(all, groups(d, c, scores@, c.len())));
    }
    sorted
}

/// The chunks of all results, in order.
pub open spec fn all_chunks(r: Seq<SearchResult>) -> Seq<Seq<char>>
    decreases r.len(),
{
    if r.len() == 0 {
        seq![]
    } else {
        all_chunks(r.drop_last()) + views(r.last().relevant_chunks@)
    }
}

/// The reply to a chat message from the search results for it.
pub open spec fn chat_reply_text(r: Seq<SearchResult>) -> Seq<char> {
    let context = joined(all_chunks(r), "\n\n"@);
    if context.len() == 0 {
        "I don't have any relevant documents to answer your question. Please upload some documents first."@
    } else {
        "Based on the uploaded documents, here's what I found:\n\n"@ + context
            + "\n\nThis information comes from "@ + decimal(r.len())
            + " document(s) in your knowledge base."@
    }
}

/// Composes the reply to a chat message: the matching chunks of the results,
/// separated by blank lines, and the number of documents they come from; or a
/// request for documents when nothing matched.
pub fn chat_reply(results: &Vec<SearchResult>) -> (r: String)
    ensures
        r@ == chat_reply_text(results@),
{
    let mut chunks: Vec<String> = Vec::new();
    for i in 0..results.len()
        invariant
            views(chunks@) == all_chunks(results@.take(i as int)),
    {
        let rc = &results[i].relevant_chunks;
        let ghost before = chunks@;
        for j in 0..rc.len()
            invariant
                chunks@ == before + rc@.take(j as int),
        {
            chunks.push(rc[j].clone());
            assert(chunks@ =~= before + rc@.take(j as int + 1));
        }
        proof {
            let next = results@.take(i as int + 1);
            assert(next.drop_last() =~= results@.take(i as int));
            assert(rc@.take(rc@.len() as int) =~= rc@);
            assert(views(chunks@) =~= views(before) + views(rc@));
        }
    }
    assert(results@.take(results@.len() as int) =~= results@);
    let mut context = String::new();
    append_joined(&mut context, &chunks, "\n\n");
    assert(Seq::new(chunks@.len(), |i: int| chunks@[i]@) =~= views(chunks@));
    if context.as_str().is_empty() {
        String::from_str(
            "I don't have any relevant documents to answer your question. Please upload some documents first.",
        )
    } else {
        let mut s = String::from_str("Based on the uploaded documents, here's what I found:\n\n");
        s.append(context.as_str());
        s.append("\n\nThis information comes from ");
        push_decimal(&mut s, results.len() as u64);
        s.append(" document(s) in your knowledge base.");
        s
    }
}

/// A message of a chat. Its time is in milliseconds since the Unix epoch.
#[derive(Debug)]
pub struct ChatMessage {
    pub id: String,
    pub content: String,
    pub role: String,
    pub document_references: Vec<String>,
    pub created_at: i64,
}

/// The assistant's message and the search results it was composed from.
#[derive(Debug)]
pub struct ChatResponse {
    pub message: ChatMessage,
    pub sources: Vec<SearchResult>,
}

/// The ids of the documents of the results, in order.
pub fn document_references(results: &Vec<SearchResult>) -> (r: Vec<String>)
    ensures
        r@.len() == results@.len(),
        forall|i: int| 0 <= i < r@.len() ==> (#[trigger] r@[i])@ == results@[i].document.id@,
{
    let mut out: Vec<String> = Vec::new();
    for i in 0..results.len()
        invariant
            out@.len() == i,
            forall|j: int| 0 <= j < i ==> (#[trigger] out@[j])@ == results@[j].document.id@,
    {
        out.push(results[i].document.id.clone());
    }
    out
}

/// The exchange for a chat message: the user's message and the assistant's
/// reply, both referring to the documents found, with the results as sources.
pub fn chat_with_documents(
    message: String,
    results: Vec<SearchResult>,
    user_id: String,
    assistant_id: String,
    now: i64,
) -> (r: (ChatMessage, ChatResponse))
    ensures
        r.0.id == user_id,
        r.0.content == message,
        r.0.role@ == "user"@,
        r.0.created_at == now,
        r.1.message.id == assistant_id,
        r.1.message.content@ == chat_reply_text(results@),
        r.1.message.role@ == "assistant"@,
        r.1.message.created_at == now,
        r.1.sources@ == results@,
        r.0.document_references@.len() == results@.len(),
        r.1.message.document_references@.len() == results@.len(),
        forall|i: int|
            0 <= i < results@.len() ==> (#[trigger] r.0.document_references@[i])@
                == results@[i].document.id@ && r.1.message.document_references@[i]@
                == results@[i].document.id@,
{
    let refs_user = document_references(&results);
    let refs_assistant = document_references(&results);
    let reply = chat_reply(&results);
    let user = ChatMessage {
        id: user_id,
        content: message,
        role: String::from_str("user"),
        document_references: refs_user,
        created_at: now,
    };
    let assistant = ChatMessage {
        id: assistant_id,
        content: reply,
        role: String::from_str("assistant"),
        document_references: refs_assistant,
        created_at: now,
    };
    (user, ChatResponse { message: assistant, sources: results })
}

/// The reply of a model without retrieval or with it, fine-tuned or not.
pub open spec fn hybrid_text(query: Seq<char>, use_fine_tuned: bool, use_rag: bool) -> Seq<char> {
    if use_fine_tuned && use_rag {
        "Hybrid (Fine-tuned + RAG) response to: "@ + query
    } else if use_fine_tuned {
        "Fine-tuned model response to: "@ + query
    } else if use_rag {
        "RAG-enhanced response to: "@ + query
    } else {
        "Base model response to: "@ + query
    }
}

/// Composes the reply to `query` for the chosen combination of fine-tuned model
/// and retrieval.
pub fn chat_hybrid_mode(query: &str, use_fine_tuned: bool, use_rag: bool) -> (r: String)
    ensures
        r@ == hybrid_text(query@, use_fine_tuned, use_rag),
{
    let mut s = if use_fine_tuned && use_rag {
        String::from_str("Hybrid (Fine-tuned + RAG) response to: ")
    } else if use_fine_tuned {
        String::from_str("Fine-tuned model response to: ")
    } else if use_rag {
        String::from_str("RAG-enhanced response to: ")
    } else {
        String::from_str("Base model response to: ")
    };
    s.append(query);
    s
}

/// The reply of the base model to `query`.
pub fn chat_base_model(query: &str) -> (r: String)
    ensures
        r@ == hybrid_text(query@, false, false),
{
    chat_hybrid_mode(query, false, false)
}

/// The reply of the fine-tuned model to `query`.
pub fn chat_fine_tuned(query: &str) -> (r: String)
    ensures
        r@ == hybrid_text(query@, true, false),
{
    chat_hybrid_mode(query, true, false)
}

} // verus!
