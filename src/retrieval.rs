use vstd::prelude::*;

use crate::ranking::{Ranked, descending, lemma_ranked_facts, ranked, sort_ranked};
use crate::store::{Document, DocumentChunk, VectorStore, has_document, store_invariant};

verus! {

/// Position of an `f32`, given by its bit pattern, in the order of `f32` values:
/// values with the sign bit set come first, in reverse order of their bits, then
/// the others in order of their bits; the two zeros share one position.
pub open spec fn score_key(bits: u32) -> u32 {
    if bits == 0x8000_0000 {
        0x8000_0000
    } else if bits > 0x8000_0000 {
        (0xffff_ffff - bits) as u32
    } else {
        (bits + 0x8000_0000) as u32
    }
}

/// The order key of the `f32` whose bit pattern is `bits`.
pub fn order_key(bits: u32) -> (r: u32)
    ensures
        r == score_key(bits),
{
    if bits == 0x8000_0000 {
        0x8000_0000
    } else if bits > 0x8000_0000 {
        0xffff_ffff - bits
    } else {
        bits + 0x8000_0000
    }
}

/// A retrieved chunk. `similarity_score` is the bit pattern of the `f32`
/// cosine similarity between the query and the chunk.
#[derive(Debug)]
pub struct RetrievalResult {
    pub chunk_id: String,
    pub content: String,
    pub document_title: String,
    pub similarity_score: u32,
    pub source_info: String,
}

impl Ranked for RetrievalResult {
    open spec fn rank(&self) -> int {
        score_key(self.similarity_score) as int
    }

    fn outranks(&self, other: &Self) -> (r: bool) {
        order_key(self.similarity_score) > order_key(other.similarity_score)
    }
}

/// Whether a score lies strictly above the threshold.
pub open spec fn above_threshold(score: u32, threshold: u32) -> bool {
    score_key(score) > score_key(threshold)
}

/// The results of `s` whose score lies strictly above `threshold`, in order.
pub open spec fn above(s: Seq<RetrievalResult>, threshold: u32) -> Seq<RetrievalResult>
    decreases s.len(),
{
    if s.len() == 0 {
        seq![]
    } else if above_threshold(s[0].similarity_score, threshold) {
        seq![s[0]] + above(s.drop_first(), threshold)
    } else {
        above(s.drop_first(), threshold)
    }
}

/// The context chosen from `candidates`: those scoring above `threshold`, best
/// first (equal scores in candidate order), at most `top_k` of them.
pub open spec fn select_context(
    candidates: Seq<RetrievalResult>,
    threshold: u32,
    top_k: nat,
) -> Seq<RetrievalResult> {
    let r = ranked(above(candidates, threshold));
    if r.len() <= top_k {
        r
    } else {
        r.take(top_k as int)
    }
}

proof fn lemma_above_facts(s: Seq<RetrievalResult>, threshold: u32)
    ensures
        above(s, threshold).len() <= s.len(),
        forall|j: int|
            0 <= j < above(s, threshold).len() ==> above_threshold(
                (#[trigger] above(s, threshold)[j]).similarity_score,
                threshold,
            ),
    decreases s.len(),
{
    if s.len() > 0 {
        let t = s.drop_first();
        lemma_above_facts(t, threshold);
        let a = above(s, threshold);
        assert forall|j: int| 0 <= j < a.len() implies above_threshold(
            (#[trigger] a[j]).similarity_score,
            threshold,
        ) by {
            if above_threshold(s[0].similarity_score, threshold) && j > 0 {
                assert(a[j] == above(t, threshold)[j - 1]);
            }
        }
    }
}

/// Retrieval respects its bounds: at most `top_k` results, each scoring strictly
/// above `threshold`, in descending order of score.
pub proof fn lemma_selection_bounds(candidates: Seq<RetrievalResult>, threshold: u32, top_k: nat)
    ensures
        select_context(candidates, threshold, top_k).len() <= top_k,
        forall|j: int|
            0 <= j < select_context(candidates, threshold, top_k).len() ==> above_threshold(
                (#[trigger] select_context(candidates, threshold, top_k)[j]).similarity_score,
                threshold,
            ),
        descending(select_context(candidates, threshold, top_k)),
{
    let a = above(candidates, threshold);
    lemma_above_facts(candidates, threshold);
    lemma_ranked_facts(a);
    let r = ranked(a);
    let sel = select_context(candidates, threshold, top_k);
    assert forall|j: int| 0 <= j < sel.len() implies above_threshold(
        (#[trigger] sel[j]).similarity_score,
        threshold,
    ) by {
        assert(sel[j] == r[j]);
        let i = choose|i: int| 0 <= i < a.len() && a[i] == r[j];
    }
    assert forall|i: int, j: int| 0 <= i < j < sel.len() implies sel[i].rank() >= sel[j].rank() by {
        assert(sel[i] == r[i] && sel[j] == r[j]);
    }
}

/// Chooses the context from `candidates`: keeps those scoring strictly above
/// `threshold`, orders them by descending score (equal scores in candidate
/// order) and keeps the first `top_k`.
pub fn rank_context(candidates: Vec<RetrievalResult>, threshold: u32, top_k: usize) -> (r: Vec<
    RetrievalResult,
>)
    ensures
        r@ == select_context(candidates@, threshold, top_k as nat),
{
    let ghost orig = candidates@;
    let mut rest = candidates;
    let mut kept: Vec<RetrievalResult> = Vec::new();
    let t = order_key(threshold);
    assert(orig.skip(orig.len() as int) =~= Seq::<RetrievalResult>::empty());
    assert(orig.take(orig.len() as int) =~= orig);
    while rest.len() > 0
        invariant
            rest@.len() <= orig.len(),
            rest@ == orig.take(rest@.len() as int),
            kept@ == above(orig.skip(rest@.len() as int), threshold),
            t == score_key(threshold),
        decreases rest@.len(),
    {
        let ghost k = rest@.len() as int;
        let x = rest.pop().unwrap();
        assert(rest@ =~= orig.take(k - 1));
        assert(orig.skip(k - 1).drop_first() =~= orig.skip(k));
        assert(orig.skip(k - 1)[0] == x);
        if order_key(x.similarity_score) > t {
            kept.insert(0, x);
            assert(kept@ =~= seq![x] + above(orig.skip(k), threshold));
        }
    }
    assert(orig.skip(0) =~= orig);
    let mut sorted = sort_ranked(kept);
    sorted.truncate(top_k);
    proof {
        lemma_ranked_facts(above(orig, threshold));
    }
    sorted
}

/// `path` when present, else "unknown".
pub open spec fn source_of(path: Option<String>) -> Seq<char> {
    match path {
        Some(p) => p@,
        None => "unknown"@,
    }
}

/// Whether `r` is the result for chunk `c` of document `d` with score `score`.
pub open spec fn result_for(r: RetrievalResult, c: DocumentChunk, d: Document, score: u32) -> bool {
    &&& r.chunk_id@ == c.id@
    &&& r.content@ == c.content@
    &&& r.document_title@ == d.title@
    &&& r.similarity_score == score
    &&& r.source_info@ == source_of(d.file_path)
}

/// Whether `r` holds, for each chunk of `cs` in order, its result with its
/// score from `scores`, taking the title and path of its document in `docs`.
pub open spec fn candidates_for(
    r: Seq<RetrievalResult>,
    docs: Seq<Document>,
    cs: Seq<DocumentChunk>,
    scores: Seq<u32>,
) -> bool {
    &&& r.len() == cs.len()
    &&& forall|k: int| 0 <= k < cs.len() ==> from_parent(#[trigger] r[k], docs, cs[k], scores[k])
}

/// Whether `r` is the result for chunk `c`, with score `score`, of the document
/// of `docs` that `c` belongs to.
pub open spec fn from_parent(r: RetrievalResult, docs: Seq<Document>, c: DocumentChunk, score: u32) -> bool {
    exists|i: int| 0 <= i < docs.len() && docs[i].id@ == c.document_id@ && result_for(r, c, docs[i], score)
}

/// The parent document of every chunk, with its similarity score: one candidate
/// per stored chunk, in store order.
pub fn candidates(store: &VectorStore, scores: &Vec<u32>) -> (r: Vec<RetrievalResult>)
    requires
        store.wf(),
        scores@.len() == store.chunks_view().len(),
    ensures
        candidates_for(r@, store.documents_view(), store.chunks_view(), scores@),
{
    let docs = store.documents();
    let cs = store.chunks();
    let mut out: Vec<RetrievalResult> = Vec::new();
    proof {
        assert(store_invariant(docs@, cs@));
    }
    let mut k: usize = 0;
    while k < cs.len()
        invariant
            k <= cs@.len(),
            docs@ == store.documents_view(),
            cs@ == store.chunks_view(),
            store_invariant(docs@, cs@),
            scores@.len() == cs@.len(),
            out@.len() == k,
            forall|j: int| 0 <= j < k ==> from_parent(#[trigger] out@[j], docs@, cs@[j], scores@[j]),
        decreases cs@.len() - k,
    {
        let c = &cs[k];
        assert(has_document(docs@, cs@[k as int].document_id@));
        let i = match store.find_document(&c.document_id) {
            Some(i) => i,
            None => {
                assert(false);
                0
            },
        };
        let d = &docs[i];
        let source = match &d.file_path {
            Some(p) => p.clone(),
            None => String::from_str("unknown"),
        };
        let item = RetrievalResult {
            chunk_id: c.id.clone(),
            content: c.content.clone(),
            document_title: d.title.clone(),
            similarity_score: scores[k],
            source_info: source,
        };
        let ghost prev = out@;
        out.push(item);
        assert forall|j: int| 0 <= j < k + 1 implies from_parent(
            #[trigger] out@[j],
            docs@,
            cs@[j],
            scores@[j],
        ) by {
            if j < k {
                assert(out@[j] == prev[j]);
            } else {
                assert(result_for(out@[j], cs@[j], docs@[i as int], scores@[j]));
            }
        }
        k = k + 1;
    }
    out
}

/// Retrieves the context for a query from the chunks' scores against it: builds
/// the candidates and ranks them with the threshold and `top_k` given.
pub fn retrieve_context(store: &VectorStore, scores: &Vec<u32>, threshold: u32, top_k: usize) -> (r:
    Vec<RetrievalResult>)
    requires
        store.wf(),
        scores@.len() == store.chunks_view().len(),
    ensures
        exists|c: Seq<RetrievalResult>|
            candidates_for(c, store.documents_view(), store.chunks_view(), scores@) && r@
                == select_context(c, threshold, top_k as nat),
{
    let c = candidates(store, scores);
    let r = rank_context(c, threshold, top_k);
    r
}

} // verus!
