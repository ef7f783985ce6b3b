use vstd::prelude::*;

use crate::error::RagError;
use crate::ranking::{Ranked, ranked, sort_ranked};

verus! {

/// A stored document. Times are milliseconds since the Unix epoch.
#[derive(Debug)]
pub struct Document {
    pub id: String,
    pub title: String,
    pub content: String,
    pub file_path: Option<String>,
    pub file_type: String,
    pub content_hash: String,
    pub created_at: i64,
    pub updated_at: i64,
}

/// A chunk of a document with its embedding, held as the bit patterns of the
/// `f32` values. `chunk_index` is its position within its document.
#[derive(Debug)]
pub struct DocumentChunk {
    pub id: String,
    pub document_id: String,
    pub chunk_index: usize,
    pub content: String,
    pub embedding: Vec<u32>,
    pub created_at: i64,
}

fn copy_opt(s: &Option<String>) -> (r: Option<String>)
    ensures
        r == *s,
{
    match s {
        Some(x) => Some(x.clone()),
        None => None,
    }
}

impl Document {
    /// An equal copy.
    pub fn copy(&self) -> (r: Document)
        ensures
            r == *self,
    {
        Document {
            id: self.id.clone(),
            title: self.title.clone(),
            content: self.content.clone(),
            file_path: copy_opt(&self.file_path),
            file_type: self.file_type.clone(),
            content_hash: self.content_hash.clone(),
            created_at: self.created_at,
            updated_at: self.updated_at,
        }
    }
}

impl Ranked for Document {
    open spec fn rank(&self) -> int {
        self.created_at as int
    }

    fn outranks(&self, other: &Self) -> (r: bool) {
        self.created_at > other.created_at
    }
}

/// Whether some document of `docs` has the id `id`.
pub open spec fn has_document(docs: Seq<Document>, id: Seq<char>) -> bool {
    exists|i: int| 0 <= i < docs.len() && (#[trigger] docs[i]).id@ == id
}

/// The chunks of `cs` that belong to the document `id`, in order.
pub open spec fn chunks_for(cs: Seq<DocumentChunk>, id: Seq<char>) -> Seq<DocumentChunk>
    decreases cs.len(),
{
    if cs.len() == 0 {
        seq![]
    } else if cs.last().document_id@ == id {
        chunks_for(cs.drop_last(), id).push(cs.last())
    } else {
        chunks_for(cs.drop_last(), id)
    }
}

/// The chunks of `cs` that do not belong to the document `id`, in order.
pub open spec fn chunks_without(cs: Seq<DocumentChunk>, id: Seq<char>) -> Seq<DocumentChunk>
    decreases cs.len(),
{
    if cs.len() == 0 {
        seq![]
    } else if cs.last().document_id@ != id {
        chunks_without(cs.drop_last(), id).push(cs.last())
    } else {
        chunks_without(cs.drop_last(), id)
    }
}

/// `docs` without the document `id`.
pub open spec fn documents_without(docs: Seq<Document>, id: Seq<char>) -> Seq<Document>
    decreases docs.len(),
{
    if docs.len() == 0 {
        seq![]
    } else if docs.last().id@ != id {
        documents_without(docs.drop_last(), id).push(docs.last())
    } else {
        documents_without(docs.drop_last(), id)
    }
}

/// The chunks of a batch for document `id`, the `k`-th at position `k`.
pub open spec fn is_batch_for(batch: Seq<DocumentChunk>, id: Seq<char>) -> bool {
    forall|k: int|
        0 <= k < batch.len() ==> (#[trigger] batch[k]).document_id@ == id && batch[k].chunk_index
            == k
}

proof fn lemma_chunks_for_append(a: Seq<DocumentChunk>, b: Seq<DocumentChunk>, id: Seq<char>)
    ensures
        chunks_for(a + b, id) == chunks_for(a, id) + chunks_for(b, id),
    decreases b.len(),
{
    if b.len() == 0 {
        assert(a + b =~= a);
        assert(chunks_for(a, id) + chunks_for(b, id) =~= chunks_for(a, id));
    } else {
        assert((a + b).drop_last() =~= a + b.drop_last());
        assert((a + b).last() == b.last());
        lemma_chunks_for_append(a, b.drop_last(), id);
        if b.last().document_id@ == id {
            assert(chunks_for(a, id) + chunks_for(b.drop_last(), id).push(b.last()) =~= (
            chunks_for(a, id) + chunks_for(b.drop_last(), id)).push(b.last()));
        }
    }
}

proof fn lemma_chunks_for_batch(b: Seq<DocumentChunk>, id: Seq<char>, other: Seq<char>)
    requires
        forall|k: int| 0 <= k < b.len() ==> (#[trigger] b[k]).document_id@ == id,
    ensures
        other == id ==> chunks_for(b, other) == b,
        other != id ==> chunks_for(b, other).len() == 0,
    decreases b.len(),
{
    if b.len() > 0 {
        lemma_chunks_for_batch(b.drop_last(), id, other);
        assert(b.drop_last().push(b.last()) =~= b);
    }
}

/// Deleting the chunks of document `id` removes every one of them and leaves the
/// chunks of every other document as they were, in their order.
pub proof fn lemma_chunks_for_without(cs: Seq<DocumentChunk>, id: Seq<char>, other: Seq<char>)
    ensures
        other != id ==> chunks_for(chunks_without(cs, id), other) == chunks_for(cs, other),
        chunks_for(chunks_without(cs, id), id).len() == 0,
    decreases cs.len(),
{
    if cs.len() > 0 {
        let t = cs.drop_last();
        lemma_chunks_for_without(t, id, other);
        let w = chunks_without(t, id);
        assert(w.push(cs.last()).drop_last() =~= w);
        assert(chunks_for(t, other).push(cs.last()).drop_last() =~= chunks_for(t, other));
    }
}

proof fn lemma_chunks_for_members(cs: Seq<DocumentChunk>, id: Seq<char>)
    ensures
        forall|k: int|
            0 <= k < chunks_for(cs, id).len() ==> (#[trigger] chunks_for(cs, id)[k]).document_id@
                == id,
        chunks_for(cs, id).len() == 0 <==> forall|k: int|
            0 <= k < cs.len() ==> (#[trigger] cs[k]).document_id@ != id,
    decreases cs.len(),
{
    if cs.len() > 0 {
        lemma_chunks_for_members(cs.drop_last(), id);
        let t = cs.drop_last();
        if chunks_for(cs, id).len() == 0 {
            assert forall|k: int| 0 <= k < cs.len() implies (#[trigger] cs[k]).document_id@
                != id by {
                if k < cs.len() - 1 {
                    assert(cs[k] == t[k]);
                }
            }
        } else {
            if chunks_for(t, id).len() != 0 {
                let k = choose|k: int| 0 <= k < t.len() && (#[trigger] t[k]).document_id@ == id;
                assert(cs[k] == t[k]);
            }
        }
    }
}

proof fn lemma_chunks_without_members(cs: Seq<DocumentChunk>, id: Seq<char>)
    ensures
        forall|k: int|
            0 <= k < chunks_without(cs, id).len() ==> exists|j: int|
                0 <= j < cs.len() && cs[j] == #[trigger] chunks_without(cs, id)[k],
        forall|k: int|
            0 <= k < chunks_without(cs, id).len() ==> (#[trigger] chunks_without(
                cs,
                id,
            )[k]).document_id@ != id,
    decreases cs.len(),
{
    if cs.len() > 0 {
        let t = cs.drop_last();
        lemma_chunks_without_members(t, id);
        let w = chunks_without(cs, id);
        assert forall|k: int| 0 <= k < w.len() implies exists|j: int|
            0 <= j < cs.len() && cs[j] == #[trigger] w[k] by {
            if k < chunks_without(t, id).len() {
                let j = choose|j: int| 0 <= j < t.len() && t[j] == chunks_without(t, id)[k];
                assert(cs[j] == t[j]);
            } else {
                assert(cs[cs.len() - 1] == w[k]);
            }
        }
    }
}

proof fn lemma_documents_without(docs: Seq<Document>, id: Seq<char>)
    ensures
        forall|k: int|
            0 <= k < documents_without(docs, id).len() ==> exists|j: int|
                0 <= j < docs.len() && docs[j] == #[trigger] documents_without(docs, id)[k],
        !has_document(documents_without(docs, id), id),
    decreases docs.len(),
{
    if docs.len() > 0 {
        let t = docs.drop_last();
        lemma_documents_without(t, id);
        let w = documents_without(docs, id);
        let wt = documents_without(t, id);
        assert forall|k: int| 0 <= k < w.len() implies exists|j: int|
            0 <= j < docs.len() && docs[j] == #[trigger] w[k] by {
            if k < wt.len() {
                let j = choose|j: int| 0 <= j < t.len() && t[j] == wt[k];
                assert(docs[j] == t[j]);
            } else {
                assert(docs[docs.len() - 1] == w[k]);
            }
        }
        assert forall|k: int| 0 <= k < w.len() implies (#[trigger] w[k]).id@ != id by {
            if k < wt.len() {
                assert(w[k] == wt[k]);
            }
        }
    }
}

proof fn lemma_documents_without_keeps(docs: Seq<Document>, id: Seq<char>, other: Seq<char>)
    requires
        other != id,
        has_document(docs, other),
    ensures
        has_document(documents_without(docs, id), other),
    decreases docs.len(),
{
    let t = docs.drop_last();
    let w = documents_without(docs, id);
    let wt = documents_without(t, id);
    let i = choose|i: int| 0 <= i < docs.len() && (#[trigger] docs[i]).id@ == other;
    if i < docs.len() - 1 {
        assert(t[i] == docs[i]);
        lemma_documents_without_keeps(t, id, other);
        let m = choose|m: int| 0 <= m < wt.len() && (#[trigger] wt[m]).id@ == other;
        if docs.last().id@ != id {
            assert(w[m] == wt[m]);
        }
    } else {
        assert(w[w.len() - 1] == docs[i]);
    }
}

proof fn lemma_documents_without_absent(docs: Seq<Document>, id: Seq<char>)
    requires
        !has_document(docs, id),
    ensures
        documents_without(docs, id) == docs,
    decreases docs.len(),
{
    if docs.len() > 0 {
        let t = docs.drop_last();
        assert(!has_document(t, id)) by {
            if has_document(t, id) {
                let i = choose|i: int| 0 <= i < t.len() && (#[trigger] t[i]).id@ == id;
                assert(docs[i] == t[i]);
            }
        }
        lemma_documents_without_absent(t, id);
        assert(docs[docs.len() - 1].id@ != id);
        assert(t.push(docs.last()) =~= docs);
    }
}

proof fn lemma_documents_without_unique(docs: Seq<Document>, id: Seq<char>, p: int)
    requires
        0 <= p < docs.len(),
        docs[p].id@ == id,
        forall|i: int, j: int|
            0 <= i < j < docs.len() ==> (#[trigger] docs[i]).id@ != (#[trigger] docs[j]).id@,
    ensures
        documents_without(docs, id) == docs.remove(p),
    decreases docs.len(),
{
    let t = docs.drop_last();
    if p == docs.len() - 1 {
        assert(!has_document(t, id)) by {
            if has_document(t, id) {
                let i = choose|i: int| 0 <= i < t.len() && (#[trigger] t[i]).id@ == id;
                assert(docs[i] == t[i]);
            }
        }
        lemma_documents_without_absent(t, id);
        assert(docs.remove(p) =~= t);
    } else {
        assert(t[p] == docs[p]);
        assert forall|i: int, j: int|
            0 <= i < j < t.len() implies (#[trigger] t[i]).id@ != (#[trigger] t[j]).id@ by {
            assert(t[i] == docs[i] && t[j] == docs[j]);
        }
        lemma_documents_without_unique(t, id, p);
        assert(docs[docs.len() - 1].id@ != docs[p].id@);
        assert(t.remove(p).push(docs.last()) =~= docs.remove(p));
    }
}

/// Document ids are unique, every chunk belongs to a document of `docs`, and
/// the chunks of each document are numbered from 0 in order.
pub open spec fn store_invariant(docs: Seq<Document>, cs: Seq<DocumentChunk>) -> bool {
    &&& forall|i: int, j: int|
        0 <= i < j < docs.len() ==> (#[trigger] docs[i]).id@ != (#[trigger] docs[j]).id@
    &&& forall|k: int| 0 <= k < cs.len() ==> has_document(docs, (#[trigger] cs[k]).document_id@)
    &&& forall|id: Seq<char>, k: int|
        0 <= k < chunks_for(cs, id).len() ==> (#[trigger] chunks_for(cs, id)[k]).chunk_index == k
}

/// Whether `batch` is a chunk batch for the document `id`.
fn is_batch(id: &String, batch: &Vec<DocumentChunk>) -> (r: bool)
    ensures
        r == is_batch_for(batch@, id@),
{
    let mut k: usize = 0;
    while k < batch.len()
        invariant
            k <= batch@.len(),
            forall|j: int|
                0 <= j < k ==> (#[trigger] batch@[j]).document_id@ == id@ && batch@[j].chunk_index
                    == j,
        decreases batch@.len() - k,
    {
        if !(batch[k].document_id == *id) || batch[k].chunk_index != k {
            return false;
        }
        k = k + 1;
    }
    true
}

/// The documents and chunks of the corpus.
///
/// Document ids are unique, every chunk belongs to a stored document, and the
/// chunks of each document are numbered from 0 in the order in which they are stored.
pub struct VectorStore {
    documents: Vec<Document>,
    chunks: Vec<DocumentChunk>,
}

impl VectorStore {
    pub closed spec fn documents_view(&self) -> Seq<Document> {
        self.documents@
    }

    pub closed spec fn chunks_view(&self) -> Seq<DocumentChunk> {
        self.chunks@
    }

    pub open spec fn wf(&self) -> bool {
        store_invariant(self.documents_view(), self.chunks_view())
    }

    /// An empty store.
    pub fn new() -> (r: VectorStore)
        ensures
            r.wf(),
            r.documents_view().len() == 0,
            r.chunks_view().len() == 0,
    {
        VectorStore { documents: Vec::new(), chunks: Vec::new() }
    }

    /// The stored documents, in order of insertion.
    pub fn documents(&self) -> (r: &Vec<Document>)
        ensures
            r@ == self.documents_view(),
    {
        &self.documents
    }

    /// The stored chunks, in order of insertion.
    pub fn chunks(&self) -> (r: &Vec<DocumentChunk>)
        ensures
            r@ == self.chunks_view(),
    {
        &self.chunks
    }

    /// Position of the document `id`, if stored.
    pub fn find_document(&self, id: &String) -> (r: Option<usize>)
        ensures
            r is None <==> !has_document(self.documents_view(), id@),
            r is Some ==> r->0 < self.documents_view().len() && self.documents_view()[r->0 as int].id@
                == id@,
    {
        let mut i: usize = 0;
        while i < self.documents.len()
            invariant
                i <= self.documents@.len(),
                forall|j: int| 0 <= j < i ==> (#[trigger] self.documents@[j]).id@ != id@,
            decreases self.documents@.len() - i,
        {
            if self.documents[i].id == *id {
                return Some(i);
            }
            i = i + 1;
        }
        None
    }

    /// Whether the document `id` has stored chunks.
    fn has_chunks(&self, id: &String) -> (r: bool)
        ensures
            r == (chunks_for(self.chunks_view(), id@).len() > 0),
    {
        proof {
            lemma_chunks_for_members(self.chunks@, id@);
            assert(self.chunks_view() == self.chunks@);
        }
        let mut i: usize = 0;
        while i < self.chunks.len()
            invariant
                i <= self.chunks@.len(),
                forall|j: int| 0 <= j < i ==> (#[trigger] self.chunks@[j]).document_id@ != id@,
            decreases self.chunks@.len() - i,
        {
            if self.chunks[i].document_id == *id {
                proof {
                    lemma_chunks_for_members(self.chunks@, id@);
                    assert(self.chunks_view() == self.chunks@);
                    assert(self.chunks@[i as int].document_id@ == id@);
                }
                return true;
            }
            i = i + 1;
        }
        false
    }

    /// Stores `doc`; fails when a document with its id is already stored.
    /// Documents with equal content (and so equal content hash) are all kept.
    pub fn insert_document(&mut self, doc: Document) -> (r: Result<(), RagError>)
        requires
            old(self).wf(),
        ensures
            final(self).wf(),
            r is Err <==> has_document(old(self).documents_view(), doc.id@),
            r is Err ==> r == Err::<(), RagError>(RagError::DuplicateDocument) && *final(self)
                == *old(self),
            r is Ok ==> final(self).documents_view() == old(self).documents_view().push(doc)
                && final(self).chunks_view() == old(self).chunks_view(),
    {
        if self.find_document(&doc.id).is_some() {
            return Err(RagError::DuplicateDocument);
        }
        let ghost old_docs = self.documents@;
        assert(store_invariant(old_docs, self.chunks@));
        self.documents.push(doc);
        proof {
            let docs = self.documents@;
            assert forall|k: int| 0 <= k < self.chunks@.len() implies has_document(
                docs,
                (#[trigger] self.chunks@[k]).document_id@,
            ) by {
                let i = choose|i: int|
                    0 <= i < old_docs.len() && (#[trigger] old_docs[i]).id@
                        == self.chunks@[k].document_id@;
                assert(docs[i] == old_docs[i]);
            }
            assert forall|i: int, j: int|
                0 <= i < j < docs.len() implies (#[trigger] docs[i]).id@ != (
            #[trigger] docs[j]).id@ by {
                if j == docs.len() - 1 {
                    assert(docs[i] == old_docs[i]);
                } else {
                    assert(docs[i] == old_docs[i] && docs[j] == old_docs[j]);
                }
            }
        }
        Ok(())
    }

    /// Stores the chunk batch of a document that has none yet. Fails when the
    /// batch is not one of the stored document's chunks numbered from 0, or when
    /// that document already has chunks. Returns the number of chunks stored.
    pub fn insert_chunks(&mut self, document_id: &String, batch: Vec<DocumentChunk>) -> (r: Result<
        usize,
        RagError,
    >)
        requires
            old(self).wf(),
        ensures
            final(self).wf(),
            r == Err::<usize, RagError>(RagError::BatchMismatch) <==> !is_batch_for(
                batch@,
                document_id@,
            ),
            r == Err::<usize, RagError>(RagError::UnknownDocument) <==> is_batch_for(
                batch@,
                document_id@,
            ) && !has_document(old(self).documents_view(), document_id@),
            r == Err::<usize, RagError>(RagError::ChunksExist) <==> is_batch_for(
                batch@,
                document_id@,
            ) && has_document(old(self).documents_view(), document_id@) && chunks_for(
                old(self).chunks_view(),
                document_id@,
            ).len() > 0,
            r is Ok <==> is_batch_for(batch@, document_id@) && has_document(
                old(self).documents_view(),
                document_id@,
            ) && chunks_for(old(self).chunks_view(), document_id@).len() == 0,
            r is Err ==> *final(self) == *old(self),
            r is Ok ==> r->Ok_0 == batch@.len() && final(self).documents_view() == old(
                self,
            ).documents_view() && final(self).chunks_view() == old(self).chunks_view() + batch@,
    {
        if !is_batch(document_id, &batch) {
            return Err(RagError::BatchMismatch);
        }
        if self.find_document(document_id).is_none() {
            return Err(RagError::UnknownDocument);
        }
        if self.has_chunks(document_id) {
            return Err(RagError::ChunksExist);
        }
        let n = batch.len();
        let ghost old_cs = self.chunks@;
        assert(store_invariant(self.documents@, old_cs));
        let ghost b = batch@;
        let mut batch = batch;
        self.chunks.append(&mut batch);
        proof {
            let cs = self.chunks@;
            let docs = self.documents@;
            assert(cs == old_cs + b);
            assert forall|k: int| 0 <= k < cs.len() implies has_document(
                docs,
                (#[trigger] cs[k]).document_id@,
            ) by {
                if k < old_cs.len() {
                    assert(cs[k] == old_cs[k]);
                } else {
                    assert(cs[k] == b[k - old_cs.len()]);
                }
            }
            assert forall|id: Seq<char>, k: int|
                0 <= k < chunks_for(cs, id).len() implies (#[trigger] chunks_for(
                cs,
                id,
            )[k]).chunk_index == k by {
                lemma_chunks_for_append(old_cs, b, id);
                lemma_chunks_for_batch(b, document_id@, id);
                if id == document_id@ {
                    assert(chunks_for(cs, id) =~= b);
                } else {
                    assert(chunks_for(cs, id) =~= chunks_for(old_cs, id));
                }
            }
        }
        Ok(n)
    }

    /// Removes the document `id` and all its chunks; the other documents and
    /// chunks stay, in their order.
    pub fn delete_document(&mut self, id: &String)
        requires
            old(self).wf(),
        ensures
            final(self).wf(),
            final(self).documents_view() == documents_without(old(self).documents_view(), id@),
            final(self).chunks_view() == chunks_without(old(self).chunks_view(), id@),
    {
        let ghost old_docs = self.documents@;
        let ghost old_cs = self.chunks@;
        assert(store_invariant(old_docs, old_cs));
        let mut i: usize = 0;
        let ghost mut j: int = 0;
        assert(old_cs.take(0) =~= Seq::<DocumentChunk>::empty());
        assert(old_cs.skip(0) =~= old_cs);
        while i < self.chunks.len()
            invariant
                0 <= j <= old_cs.len(),
                self.documents@ == old_docs,
                self.chunks@ == chunks_without(old_cs.take(j), id@) + old_cs.skip(j),
                i == chunks_without(old_cs.take(j), id@).len(),
            decreases self.chunks@.len() - i,
        {
            let ghost w = chunks_without(old_cs.take(j), id@);
            assert(self.chunks@[i as int] == old_cs[j]);
            assert(old_cs.take(j + 1).drop_last() =~= old_cs.take(j));
            assert(old_cs.take(j + 1).last() == old_cs[j]);
            if self.chunks[i].document_id == *id {
                self.chunks.remove(i);
                assert(self.chunks@ =~= w + old_cs.skip(j + 1));
            } else {
                assert(self.chunks@ =~= w.push(old_cs[j]) + old_cs.skip(j + 1));
                i = i + 1;
            }
            proof {
                j = j + 1;
            }
        }
        proof {
            if j < old_cs.len() {
                assert(self.chunks@.len() > i);
            }
            assert(old_cs.take(j) =~= old_cs);
            assert(self.chunks@ =~= chunks_without(old_cs, id@));
        }
        match self.find_document(id) {
            Some(p) => {
                self.documents.remove(p);
                proof {
                    lemma_documents_without_unique(old_docs, id@, p as int);
                    let docs = self.documents@;
                    assert forall|a: int, b: int|
                        0 <= a < b < docs.len() implies (#[trigger] docs[a]).id@ != (
                    #[trigger] docs[b]).id@ by {
                        let ia = if a < p {
                            a
                        } else {
                            a + 1
                        };
                        let ib = if b < p {
                            b
                        } else {
                            b + 1
                        };
                        assert(docs[a] == old_docs[ia] && docs[b] == old_docs[ib]);
                    }
                }
            },
            None => {
                proof {
                    lemma_documents_without_absent(old_docs, id@);
                }
            },
        }
        proof {
            let docs = self.documents@;
            let cs = self.chunks@;
            lemma_documents_without(old_docs, id@);
            lemma_chunks_without_members(old_cs, id@);
            assert forall|k: int| 0 <= k < cs.len() implies has_document(
                docs,
                (#[trigger] cs[k]).document_id@,
            ) by {
                let x = choose|x: int| 0 <= x < old_cs.len() && old_cs[x] == cs[k];
                assert(has_document(old_docs, old_cs[x].document_id@));
                lemma_documents_without_keeps(old_docs, id@, cs[k].document_id@);
            }
            assert forall|other: Seq<char>, k: int|
                0 <= k < chunks_for(cs, other).len() implies (#[trigger] chunks_for(
                cs,
                other,
            )[k]).chunk_index == k by {
                lemma_chunks_for_without(old_cs, id@, other);
            }
        }
    }

    /// The stored documents, most recently created first; documents created at
    /// the same time keep their order of insertion.
    pub fn list_documents(&self) -> (r: Vec<Document>)
        ensures
            r@ == ranked(self.documents_view()),
    {
        let mut out: Vec<Document> = Vec::new();
        for i in 0..self.documents.len()
            invariant
                out@ == self.documents@.take(i as int),
        {
            out.push(self.documents[i].copy());
            assert(out@ =~= self.documents@.take(i as int + 1));
        }
        assert(out@ =~= self.documents@);
        sort_ranked(out)
    }
}

/// The chunk record that batch position `k` of document `document_id` gets.
pub open spec fn chunk_record(
    document_id: String,
    k: int,
    id: String,
    content: String,
    embedding: Vec<u32>,
    created_at: i64,
) -> DocumentChunk {
    DocumentChunk { id, document_id, chunk_index: k as usize, content, embedding, created_at }
}

/// Builds the chunk batch of document `document_id`: the `k`-th chunk has id
/// `ids[k]`, text `contents[k]`, embedding `embeddings[k]` and index `k`. Fails
/// when the three lists differ in length.
pub fn build_chunks(
    document_id: &String,
    contents: Vec<String>,
    embeddings: Vec<Vec<u32>>,
    ids: Vec<String>,
    created_at: i64,
) -> (r: Result<Vec<DocumentChunk>, RagError>)
    ensures
        r is Err <==> !(contents@.len() == embeddings@.len() && embeddings@.len() == ids@.len()),
        r is Err ==> r == Err::<Vec<DocumentChunk>, RagError>(RagError::BatchMismatch),
        r is Ok ==> r->Ok_0@.len() == contents@.len() && forall|k: int|
            0 <= k < contents@.len() ==> #[trigger] r->Ok_0@[k] == chunk_record(
                *document_id,
                k,
                ids@[k],
                contents@[k],
                embeddings@[k],
                created_at,
            ),
        r is Ok ==> is_batch_for(r->Ok_0@, document_id@),
{
    if contents.len() != embeddings.len() || embeddings.len() != ids.len() {
        return Err(RagError::BatchMismatch);
    }
    let n = contents.len();
    let ghost c0 = contents@;
    let ghost e0 = embeddings@;
    let ghost i0 = ids@;
    let mut contents = contents;
    let mut embeddings = embeddings;
    let mut ids = ids;
    let mut out: Vec<DocumentChunk> = Vec::new();
    while contents.len() > 0
        invariant
            n == c0.len() && n == e0.len() && n == i0.len(),
            contents@.len() == embeddings@.len() && embeddings@.len() == ids@.len(),
            contents@.len() <= n,
            contents@ == c0.take(contents@.len() as int),
            embeddings@ == e0.take(contents@.len() as int),
            ids@ == i0.take(contents@.len() as int),
            out@.len() == n - contents@.len(),
            forall|j: int|
                0 <= j < out@.len() ==> #[trigger] out@[j] == chunk_record(
                    *document_id,
                    j + contents@.len(),
                    i0[j + contents@.len()],
                    c0[j + contents@.len()],
                    e0[j + contents@.len()],
                    created_at,
                ),
        decreases contents@.len(),
    {
        let k = contents.len() - 1;
        let content = contents.pop().unwrap();
        let embedding = embeddings.pop().unwrap();
        let id = ids.pop().unwrap();
        let chunk = DocumentChunk {
            id,
            document_id: document_id.clone(),
            chunk_index: k,
            content,
            embedding,
            created_at,
        };
        let ghost prev = out@;
        out.insert(0, chunk);
        assert(contents@ =~= c0.take(k as int));
        assert(embeddings@ =~= e0.take(k as int));
        assert(ids@ =~= i0.take(k as int));
        assert forall|j: int| 0 <= j < out@.len() implies #[trigger] out@[j] == chunk_record(
            *document_id,
            j + k,
            i0[j + k],
            c0[j + k],
            e0[j + k],
            created_at,
        ) by {
            if j > 0 {
                assert(out@[j] == prev[j - 1]);
            }
        }
    }
    Ok(out)
}

} // verus!
