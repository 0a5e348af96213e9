//! Chunking of whole documents for the catalog's `chunks` table, by the same
//! token rule as the mirror.
use vstd::prelude::*;

use crate::chunking::{chunk_spans, page_spans};
use crate::identity::{catalog_chunk_id, catalog_chunk_id_of};
use crate::text::{chars_of, count_words, string_of, word_count};

verus! {

/// One row of the `chunks` table; offsets count Unicode scalars.
#[derive(Clone, Debug)]
pub struct CatalogChunk {
    pub chunk_id: String,
    pub start: usize,
    pub end: usize,
    pub token_count: usize,
    pub text: String,
}

/// `c` is the chunk `(s, e)` of the document at `path` with characters `cs`.
pub open spec fn catalog_chunk_is(c: CatalogChunk, path: Seq<char>, cs: Seq<char>, span: (int, int)) -> bool {
    &&& c.start == span.0
    &&& c.end == span.1
    &&& c.text@ == cs.subrange(span.0, span.1)
    &&& c.token_count == word_count(cs.subrange(span.0, span.1))
    &&& c.chunk_id@ == catalog_chunk_id_of(path, span.0 as u64, span.1 as u64)
}

/// The catalog chunks of a document, in order.
pub fn chunk_document(path: &str, content: &str) -> (cs: Vec<CatalogChunk>)
    ensures
        cs@.len() == page_spans(content@).len(),
        forall|k: int|
            0 <= k < cs@.len() ==> catalog_chunk_is(#[trigger] cs@[k], path@, content@, page_spans(content@)[k]),
{
    let chars = chars_of(content);
    let spans = chunk_spans(&chars);
    proof {
        crate::mirror::lemma_spans_in_bounds(chars@);
    }
    let mut out: Vec<CatalogChunk> = Vec::new();
    let mut k: usize = 0;
    while k < spans.len()
        invariant
            chars@ == content@,
            spans@.len() == page_spans(chars@).len(),
            forall|q: int|
                0 <= q < spans@.len() ==> (#[trigger] spans@[q]).0 == page_spans(chars@)[q].0
                    && spans@[q].1 == page_spans(chars@)[q].1,
            forall|q: int|
                0 <= q < page_spans(chars@).len() ==> 0 <= (#[trigger] page_spans(chars@)[q]).0
                    < page_spans(chars@)[q].1 <= chars@.len(),
            k <= spans@.len(),
            out@.len() == k,
            forall|q: int| 0 <= q < k ==> catalog_chunk_is(#[trigger] out@[q], path@, content@, page_spans(content@)[q]),
        decreases spans.len() - k,
    {
        let (s, e) = spans[k];
        assert(spans@[k as int].0 == page_spans(chars@)[k as int].0);
        let text = string_of(&chars, s, e);
        let tokens = count_words(&chars, s, e);
        let id = catalog_chunk_id(path, s as u64, e as u64);
        out.push(CatalogChunk { chunk_id: id, start: s, end: e, token_count: tokens, text });
        k = k + 1;
    }
    out
}

} // verus!
