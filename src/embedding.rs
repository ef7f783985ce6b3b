use vstd::prelude::*;

use crate::config::EmbeddingModel;
use crate::text::{chars_of, split_words, words};
use vstd::utf8::encode_utf8;

verus! {

/// Number of dimensions of the two built-in backends.
pub const EMBEDDING_DIM: usize = 384;

/// Number of digest bytes that the hashed backend cycles through.
pub const DIGEST_PREFIX: usize = 24;

/// The SHA-256 digest of `data`.
pub uninterp spec fn sha256_of(data: Seq<u8>) -> Seq<u8>;

/// Relies on `sha2::Sha256::digest`: the 32-byte SHA-256 digest of the data,
/// which depends on the data alone.
#[verifier::external_body]
fn sha256_digest(data: &[u8]) -> (r: Vec<u8>)
    ensures
        r@ == sha256_of(data@),
        r@.len() == 32,
{
    <sha2::Sha256 as sha2::Digest>::digest(data).to_vec()
}

/// The lowercase hexadecimal digit for `d` below 16.
pub open spec fn hex_digit(d: int) -> char {
    "0123456789abcdef"@[d]
}

/// Two lowercase hexadecimal digits for each byte of `b`, high digit first.
pub open spec fn hex_of(b: Seq<u8>) -> Seq<char> {
    Seq::new(
        2 * b.len(),
        |i: int|
            if i % 2 == 0 {
                hex_digit(b[i / 2] as int / 16)
            } else {
                hex_digit(b[i / 2] as int % 16)
            },
    )
}

/// Relies on `hex::encode`: two lowercase hexadecimal digits per byte, in order.
#[verifier::external_body]
fn hex_encode(b: &[u8]) -> (r: String)
    ensures
        r@ == hex_of(b@),
{
    hex::encode(b)
}

/// The content hash of a document: the SHA-256 digest of its UTF-8 text, in
/// lowercase hexadecimal.
pub fn calculate_content_hash(content: &str) -> (r: String)
    ensures
        r@ == hex_of(sha256_of(encode_utf8(content@))),
        r@.len() == 64,
{
    let digest = sha256_digest(content.as_bytes());
    hex_encode(digest.as_slice())
}

/// `d`'s first 24 bytes (all of them, if fewer) repeated to fill 384 places;
/// empty when `d` is.
pub open spec fn expanded(d: Seq<u8>) -> Seq<u8> {
    let m = if d.len() < DIGEST_PREFIX {
        d.len()
    } else {
        DIGEST_PREFIX as nat
    };
    if m == 0 {
        seq![]
    } else {
        Seq::new(EMBEDDING_DIM as nat, |i: int| d[i % (m as int)])
    }
}

/// Expands a digest into the 384 bytes that the hashed backend turns into
/// vector components: its first 24 bytes, cycled.
pub fn expand_digest(d: &Vec<u8>) -> (r: Vec<u8>)
    ensures
        r@ == expanded(d@),
{
    let m = if d.len() < DIGEST_PREFIX {
        d.len()
    } else {
        DIGEST_PREFIX
    };
    let mut out: Vec<u8> = Vec::new();
    if m == 0 {
        return out;
    }
    for i in 0..EMBEDDING_DIM
        invariant
            0 < m <= d@.len(),
            m == if d@.len() < DIGEST_PREFIX {
                d@.len()
            } else {
                DIGEST_PREFIX as nat
            },
            out@ == expanded(d@).take(i as int),
    {
        out.push(d[i % m]);
        assert(out@ =~= expanded(d@).take(i as int + 1));
    }
    assert(expanded(d@).take(EMBEDDING_DIM as int) =~= expanded(d@));
    out
}

/// The 384 bytes of the hashed backend for `text`: its digest's first 24 bytes, cycled.
pub open spec fn hash_seed_of(text: Seq<char>) -> Seq<u8> {
    expanded(sha256_of(encode_utf8(text)))
}

/// The bytes from which the hashed backend builds the embedding of `text`.
pub fn hash_embedding_seed(text: &str) -> (r: Vec<u8>)
    ensures
        r@ == hash_seed_of(text@),
        r@.len() == EMBEDDING_DIM,
        sha256_of(encode_utf8(text@)).len() == 32,
{
    let d = sha256_digest(text.as_bytes());
    expand_digest(&d)
}

/// Number of characters of `s` whose code has `b` as its low byte.
pub open spec fn low_byte_count(s: Seq<char>, b: int) -> nat
    decreases s.len(),
{
    if s.len() == 0 {
        0
    } else {
        low_byte_count(s.drop_last(), b) + if (s.last() as u32) % 256 == b {
            1nat
        } else {
            0nat
        }
    }
}

/// What the local backend reads of a text: its length in UTF-8 bytes, its
/// number of words, and for each byte value the number of characters whose code
/// has it as its low byte.
#[derive(Debug)]
pub struct LocalFeatures {
    pub byte_len: usize,
    pub word_count: usize,
    pub char_counts: Vec<usize>,
}

/// Whether `f` holds the features of `text`.
pub open spec fn features_of(f: LocalFeatures, text: Seq<char>) -> bool {
    &&& f.byte_len == encode_utf8(text).len() as usize
    &&& f.word_count == words(text).len()
    &&& f.char_counts@.len() == 256
    &&& forall|b: int| 0 <= b < 256 ==> #[trigger] f.char_counts@[b] == low_byte_count(text, b)
}

/// The features from which the local backend builds the embedding of `text`.
pub fn local_features(text: &str) -> (r: LocalFeatures)
    ensures
        features_of(r, text@),
{
    let mut counts: Vec<usize> = Vec::new();
    for b in 0..256usize
        invariant
            counts@.len() == b,
            forall|j: int| 0 <= j < b ==> #[trigger] counts@[j] == 0,
    {
        counts.push(0);
    }
    let cs = chars_of(text);
    let ghost s = text@;
    assert(s.take(0) =~= Seq::<char>::empty());
    for k in 0..cs.len()
        invariant
            cs@ == s,
            counts@.len() == 256,
            forall|j: int|
                0 <= j < 256 ==> #[trigger] counts@[j] == low_byte_count(s.take(k as int), j),
            forall|j: int| 0 <= j < 256 ==> #[trigger] counts@[j] <= k,
    {
        let c = cs[k];
        let slot = (c as u32 % 256) as usize;
        assert(s.take(k + 1).drop_last() =~= s.take(k as int));
        assert(s.take(k + 1).last() == c);
        counts.set(slot, counts[slot] + 1);
    }
    assert(s.take(s.len() as int) =~= s);
    let ws = split_words(text);
    LocalFeatures { byte_len: text.len(), word_count: ws.len(), char_counts: counts }
}

/// What a backend needs to embed a text: the bytes of the hashed backend, the
/// request of the remote backend, or the features of the local backend.
#[derive(Debug)]
pub enum EmbeddingInput {
    Hashed { seed: Vec<u8> },
    Remote { text: String, api_key: String, model: String },
    Local { features: LocalFeatures },
}

/// Dispatches `text` to the backend that `model` selects and computes what that
/// backend needs from it.
pub fn prepare_embedding(text: &str, model: &EmbeddingModel) -> (r: EmbeddingInput)
    ensures
        model is HuggingFace <==> r is Hashed,
        model is OpenAI <==> r is Remote,
        model is Local <==> r is Local,
        r is Hashed ==> r->Hashed_seed@ == hash_seed_of(text@),
        r is Remote ==> r->Remote_text@ == text@ && r->Remote_api_key@ == model->OpenAI_api_key@
            && r->Remote_model@ == model->OpenAI_model@,
        r is Local ==> features_of(r->Local_features, text@),
{
    match model {
        EmbeddingModel::HuggingFace { .. } => EmbeddingInput::Hashed {
            seed: hash_embedding_seed(text),
        },
        EmbeddingModel::OpenAI { api_key, model } => EmbeddingInput::Remote {
            text: text.to_owned(),
            api_key: api_key.clone(),
            model: model.clone(),
        },
        EmbeddingModel::Local { .. } => EmbeddingInput::Local { features: local_features(text) },
    }
}

/// The built-in backends are deterministic: equal texts get equal bytes from the
/// hashed backend and equal features from the local backend.
pub proof fn lemma_embedding_deterministic(
    a: Seq<char>,
    b: Seq<char>,
    fa: LocalFeatures,
    fb: LocalFeatures,
)
    requires
        a == b,
        features_of(fa, a),
        features_of(fb, b),
    ensures
        hash_seed_of(a) == hash_seed_of(b),
        fa.byte_len == fb.byte_len,
        fa.word_count == fb.word_count,
        fa.char_counts@ == fb.char_counts@,
{
    assert(fa.char_counts@ =~= fb.char_counts@);
}

} // verus!
