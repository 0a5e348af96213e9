//! Token-bounded chunking of one page: chunks are grown character by
//! character until the page ends or 200 white-space runs have been counted.
use vstd::prelude::*;

use crate::text::{is_space, is_whitespace};

verus! {

/// How many white-space runs end one chunk.
pub const TOKENS_PER_CHUNK: usize = 200;

/// Where a chunk that has reached `end` with `tokens` runs counted stops.
pub open spec fn scan_end(cs: Seq<char>, end: int, tokens: nat) -> int
    decreases cs.len() - end, 0int,
{
    if end < 0 || end >= cs.len() || tokens >= TOKENS_PER_CHUNK {
        end
    } else if is_space(cs[end]) {
        skip_then_scan(cs, end + 1, tokens + 1)
    } else {
        scan_end(cs, end + 1, tokens)
    }
}

/// Skips the rest of a white-space run from `i`, then goes on scanning.
pub open spec fn skip_then_scan(cs: Seq<char>, i: int, tokens: nat) -> int
    decreases cs.len() - i, 1int,
{
    if 0 <= i < cs.len() && is_space(cs[i]) {
        skip_then_scan(cs, i + 1, tokens)
    } else {
        scan_end(cs, i, tokens)
    }
}

/// The end of the chunk that starts at `idx`.
pub open spec fn chunk_end(cs: Seq<char>, idx: int) -> int {
    scan_end(cs, idx, 0)
}

/// The chunk spans `(start, end)` of a page from `idx` on, in order.
pub open spec fn spans_from(cs: Seq<char>, idx: int) -> Seq<(int, int)>
    decreases cs.len() - idx,
{
    if idx < 0 || idx >= cs.len() {
        Seq::empty()
    } else {
        let e = chunk_end(cs, idx);
        if e <= idx || e > cs.len() {
            Seq::empty()
        } else {
            seq![(idx, e)] + spans_from(cs, e)
        }
    }
}

/// The chunk spans of a page's characters.
pub open spec fn page_spans(cs: Seq<char>) -> Seq<(int, int)> {
    spans_from(cs, 0)
}

proof fn lemma_scan_end(cs: Seq<char>, end: int, tokens: nat)
    requires
        0 <= end <= cs.len(),
    ensures
        end <= scan_end(cs, end, tokens) <= cs.len(),
        end < cs.len() && tokens < TOKENS_PER_CHUNK ==> end < scan_end(cs, end, tokens),
    decreases cs.len() - end, 0int,
{
    if end < cs.len() && tokens < TOKENS_PER_CHUNK {
        if is_space(cs[end]) {
            lemma_skip_then_scan(cs, end + 1, tokens + 1);
        } else {
            lemma_scan_end(cs, end + 1, tokens);
        }
    }
}

proof fn lemma_skip_then_scan(cs: Seq<char>, i: int, tokens: nat)
    requires
        0 <= i <= cs.len(),
    ensures
        i <= skip_then_scan(cs, i, tokens) <= cs.len(),
    decreases cs.len() - i, 1int,
{
    if i < cs.len() && is_space(cs[i]) {
        lemma_skip_then_scan(cs, i + 1, tokens);
    } else {
        lemma_scan_end(cs, i, tokens);
    }
}

/// Each chunk is non-empty and the chunks of a page tile it from `idx`.
pub proof fn lemma_chunk_end(cs: Seq<char>, idx: int)
    requires
        0 <= idx < cs.len(),
    ensures
        idx < chunk_end(cs, idx) <= cs.len(),
{
    lemma_scan_end(cs, idx, 0);
}

/// The end of the chunk of `cs` that starts at `idx`.
pub fn find_chunk_end(cs: &Vec<char>, idx: usize) -> (end: usize)
    requires
        idx < cs@.len(),
    ensures
        end == chunk_end(cs@, idx as int),
        idx < end <= cs@.len(),
{
    proof {
        lemma_chunk_end(cs@, idx as int);
    }
    let mut end = idx;
    let mut tokens: usize = 0;
    while end < cs.len() && tokens < TOKENS_PER_CHUNK
        invariant
            idx <= end <= cs@.len(),
            tokens <= TOKENS_PER_CHUNK,
            scan_end(cs@, end as int, tokens as nat) == chunk_end(cs@, idx as int),
        decreases cs.len() - end,
    {
        if is_whitespace(cs[end]) {
            let ghost t = (tokens + 1) as nat;
            let ghost e0 = end;
            end = end + 1;
            while end < cs.len() && is_whitespace(cs[end])
                invariant
                    idx < end <= cs@.len(),
                    e0 < end,
                    skip_then_scan(cs@, end as int, t) == chunk_end(cs@, idx as int),
                decreases cs.len() - end,
            {
                end = end + 1;
            }
            tokens = tokens + 1;
        } else {
            end = end + 1;
        }
    }
    end
}

/// The chunk spans of a page's characters, in order.
pub fn chunk_spans(cs: &Vec<char>) -> (spans: Vec<(usize, usize)>)
    ensures
        spans@.len() == page_spans(cs@).len(),
        forall|k: int|
            0 <= k < spans@.len() ==> (#[trigger] spans@[k]).0 == page_spans(cs@)[k].0
                && spans@[k].1 == page_spans(cs@)[k].1,
{
    let mut spans: Vec<(usize, usize)> = Vec::new();
    let mut idx: usize = 0;
    while idx < cs.len()
        invariant
            idx <= cs@.len(),
            spans@.len() + spans_from(cs@, idx as int).len() == page_spans(cs@).len(),
            forall|k: int|
                0 <= k < spans@.len() ==> (#[trigger] spans@[k]).0 == page_spans(cs@)[k].0
                    && spans@[k].1 == page_spans(cs@)[k].1,
            forall|k: int|
                0 <= k < spans_from(cs@, idx as int).len() ==> #[trigger] spans_from(cs@, idx as int)[k]
                    == page_spans(cs@)[spans@.len() + k],
        decreases cs.len() - idx,
    {
        let end = find_chunk_end(cs, idx);
        let ghost rest = spans_from(cs@, end as int);
        assert(spans_from(cs@, idx as int) == seq![(idx as int, end as int)] + rest);
        assert(spans_from(cs@, idx as int)[0] == (idx as int, end as int));
        assert forall|k: int| 0 <= k < rest.len() implies #[trigger] rest[k] == page_spans(cs@)[spans@.len() + 1 + k] by {
            assert(spans_from(cs@, idx as int)[k + 1] == rest[k]);
        }
        spans.push((idx, end));
        idx = end;
    }
    spans
}

} // verus!
