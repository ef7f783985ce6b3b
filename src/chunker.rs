use vstd::prelude::*;

use crate::config::RAGConfig;
use crate::error::RagError;
use crate::text::{
    is_word, join_words, lemma_words_are_words, lemma_words_of_join, split_words, trim_text,
    trimmed, words,
};

verus! {

/// Number of windows of `size` words, advancing by `step`, needed to cover `n` words.
pub open spec fn chunk_count(n: nat, size: nat, step: nat) -> nat
    decreases n,
{
    if n <= size || step == 0 || step > n {
        1
    } else {
        1 + chunk_count((n - step) as nat, size, step)
    }
}

/// First word of window `k`.
pub open spec fn window_start(size: nat, overlap: nat, k: nat) -> int {
    k * (size - overlap)
}

/// One past the last word of window `k`: the window is clipped to the `n` words.
pub open spec fn window_end(n: nat, size: nat, overlap: nat, k: nat) -> int {
    let e = window_start(size, overlap, k) + size;
    if e < n {
        e
    } else {
        n as int
    }
}

/// The words of window `k` over the words `ws`.
pub open spec fn window(ws: Seq<Seq<char>>, size: nat, overlap: nat, k: nat) -> Seq<Seq<char>> {
    ws.subrange(window_start(size, overlap, k), window_end(ws.len(), size, overlap, k))
}

/// The chunks of `text`: the whole text without its leading and trailing
/// whitespace when it has at most `size` words, else each window of words joined
/// by single spaces.
pub open spec fn chunks_of(text: Seq<char>, size: nat, overlap: nat) -> Seq<Seq<char>> {
    let ws = words(text);
    if ws.len() <= size {
        seq![trimmed(text)]
    } else {
        Seq::new(
            chunk_count(ws.len(), size, (size - overlap) as nat),
            |k: int| join_words(window(ws, size, overlap, k as nat)),
        )
    }
}

/// What chunking `text` with `size` and `overlap` yields: an error exactly when
/// `overlap` is not smaller than `size`, else the strings of `chunks_of`.
pub open spec fn chunked(
    text: Seq<char>,
    size: usize,
    overlap: usize,
    r: Result<Vec<String>, RagError>,
) -> bool {
    &&& (r is Ok <==> overlap < size)
    &&& (r is Err ==> r == Err::<Vec<String>, RagError>(RagError::InvalidChunkConfig))
    &&& r is Ok ==> {
        let v = r->Ok_0@;
        let c = chunks_of(text, size as nat, overlap as nat);
        &&& v.len() == c.len()
        &&& forall|i: int| 0 <= i < v.len() ==> (#[trigger] v[i])@ == c[i]
    }
}

/// `cs[lo..hi]` joined by single spaces.
fn join_range(cs: &Vec<String>, lo: usize, hi: usize) -> (r: String)
    requires
        lo < hi <= cs.len(),
    ensures
        r@ == join_words(Seq::new(cs@.len(), |i: int| cs@[i]@).subrange(lo as int, hi as int)),
{
    let ghost ws = Seq::new(cs@.len(), |i: int| cs@[i]@);
    let mut out = cs[lo].clone();
    assert(ws.subrange(lo as int, lo as int + 1) =~= seq![ws[lo as int]]);
    let mut i: usize = lo + 1;
    while i < hi
        invariant
            lo < i <= hi <= cs.len(),
            ws == Seq::new(cs@.len(), |i: int| cs@[i]@),
            out@ == join_words(ws.subrange(lo as int, i as int)),
        decreases hi - i,
    {
        let ghost before = out@;
        out.append(" ");
        out.append(cs[i].as_str());
        proof {
            reveal_strlit(" ");
            let sub = ws.subrange(lo as int, i as int + 1);
            assert(sub.drop_last() =~= ws.subrange(lo as int, i as int));
            assert(sub.last() == cs@[i as int]@);
            assert(out@ =~= before + seq![' '] + sub.last());
        }
        i = i + 1;
    }
    out
}

/// Splits `text` into overlapping chunks of whitespace-delimited words.
///
/// A text of at most `chunk_size` words is one chunk, the text without its
/// leading and trailing whitespace. A longer text is covered by windows of
/// `chunk_size` words that start `chunk_size - overlap` words apart, the last one clipped at the end of the text; each chunk is the
/// words of its window joined by single spaces. Fails when `overlap` is not
/// smaller than `chunk_size`.
pub fn chunk_text(text: &str, chunk_size: usize, overlap: usize) -> (r: Result<
    Vec<String>,
    RagError,
>)
    ensures
        chunked(text@, chunk_size, overlap, r),
{
    if overlap >= chunk_size {
        return Err(RagError::InvalidChunkConfig);
    }
    let ws = split_words(text);
    let n = ws.len();
    let ghost w = words(text@);
    assert(Seq::new(ws@.len(), |i: int| ws@[i]@) =~= w);
    if n <= chunk_size {
        let mut one: Vec<String> = Vec::new();
        one.push(trim_text(text));
        return Ok(one);
    }
    let step = chunk_size - overlap;
    let ghost size = chunk_size as nat;
    let ghost total = chunk_count(n as nat, size, step as nat);
    let ghost target = chunks_of(text@, size, overlap as nat);
    let mut out: Vec<String> = Vec::new();
    let mut start: usize = 0;
    loop
        invariant_except_break
            start < n,
            start == window_start(size, overlap as nat, out@.len()),
            out@.len() + chunk_count((n - start) as nat, size, step as nat) == total,
        invariant
            size == chunk_size as nat,
            w == words(text@),
            ws@.len() == n,
            w.len() == n,
            n > chunk_size,
            step == chunk_size - overlap,
            0 < step <= chunk_size,
            Seq::new(ws@.len(), |i: int| ws@[i]@) == w,
            total == chunk_count(n as nat, size, step as nat),
            target == chunks_of(text@, size, overlap as nat),
            target.len() == total,
            forall|k: int| 0 <= k < out@.len() ==> (#[trigger] out@[k])@ == target[k],
        ensures
            out@.len() == total,
        decreases n - start,
    {
        let end = if chunk_size < n - start {
            start + chunk_size
        } else {
            n
        };
        let piece = join_range(&ws, start, end);
        let ghost k = out@.len();
        assert(end == window_end(n as nat, size, overlap as nat, k as nat));
        assert(Seq::new(ws@.len(), |i: int| ws@[i]@).subrange(start as int, end as int) == window(
            w,
            size,
            overlap as nat,
            k as nat,
        ));
        assert(piece@ == target[k as int]);
        let ghost prev = out@;
        out.push(piece);
        assert forall|j: int| 0 <= j < out@.len() implies (#[trigger] out@[j])@ == target[j] by {
            if j < k {
                assert(out@[j] == prev[j]);
            }
        }
        if end == n {
            assert(chunk_count((n - start) as nat, size, step as nat) == 1);
            break ;
        }
        assert(chunk_count((n - start) as nat, size, step as nat) == 1 + chunk_count(
            (n - start - step) as nat,
            size,
            step as nat,
        ));
        assert((k + 1) * step == k * step + step) by (nonlinear_arith);
        start = start + step;
    }
    Ok(out)
}

/// A window that is followed by another one reaches no further than the words.
proof fn lemma_window_before_last(n: nat, size: nat, step: nat, i: int)
    requires
        0 < step <= size,
        0 <= i,
        i + 1 < chunk_count(n, size, step),
    ensures
        i * step + size < n,
    decreases i,
{
    if i > 0 {
        assert(chunk_count(n, size, step) == 1 + chunk_count((n - step) as nat, size, step));
        lemma_window_before_last((n - step) as nat, size, step, i - 1);
        assert((i - 1) * step + step == i * step) by (nonlinear_arith);
    } else {
        assert(0 * step == 0);
    }
}

/// Adjacent chunks overlap by exactly `overlap` words: chunk `i`, when chunk `i + 1`
/// follows it, holds `size` words, and its last `overlap` words are the first
/// `overlap` words of chunk `i + 1`.
pub proof fn lemma_adjacent_chunks_overlap(text: Seq<char>, size: nat, overlap: nat, i: int)
    requires
        overlap < size,
        0 <= i,
        i + 1 < chunks_of(text, size, overlap).len(),
    ensures
        words(chunks_of(text, size, overlap)[i]).len() == size,
        words(chunks_of(text, size, overlap)[i + 1]).len() >= overlap,
        words(chunks_of(text, size, overlap)[i]).skip(size - overlap) == words(
            chunks_of(text, size, overlap)[i + 1],
        ).take(overlap as int),
{
    let w = words(text);
    let n = w.len();
    let step = (size - overlap) as nat;
    lemma_window_before_last(n, size, step, i);
    lemma_words_are_words(text);
    let a = window(w, size, overlap, i as nat);
    let b = window(w, size, overlap, (i + 1) as nat);
    assert((i + 1) * step == i * step + step) by (nonlinear_arith);
    assert forall|j: int| 0 <= j < a.len() implies is_word(#[trigger] a[j]) by {
        assert(a[j] == w[i * step + j]);
    }
    assert forall|j: int| 0 <= j < b.len() implies is_word(#[trigger] b[j]) by {
        assert(b[j] == w[(i + 1) * step + j]);
    }
    lemma_words_of_join(a);
    lemma_words_of_join(b);
    assert(a.skip(step as int) =~= b.take(overlap as int));
}

/// Chunks `text` with the size and overlap of `config`.
pub fn chunk_text_with_config(text: &str, config: &RAGConfig) -> (r: Result<
    Vec<String>,
    RagError,
>)
    ensures
        chunked(text@, config.chunk_size, config.chunk_overlap, r),
{
    chunk_text(text, config.chunk_size, config.chunk_overlap)
}

} // verus!
