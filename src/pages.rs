//! Splitting extracted text into pages at form feeds, with offsets counted in
//! Unicode scalars.
use vstd::prelude::*;

use crate::text::{chars_of, push_char};

verus! {

/// The page delimiter of extracted text.
pub const FORM_FEED: char = '\x0c';

/// One page of extracted text. `start` and `end` are scalar offsets into the
/// whole text; `page_no` counts from 1.
#[derive(Clone, Debug)]
pub struct PageBlock {
    pub page_no: u32,
    pub text: String,
    pub start: usize,
    pub end: usize,
}

/// The maximal runs of `s` between form feeds, in order. A text with `n` form
/// feeds has `n + 1` pieces; an empty text has one empty piece.
pub open spec fn pieces(s: Seq<char>) -> Seq<Seq<char>>
    decreases s.len(),
{
    if s.len() == 0 {
        seq![Seq::<char>::empty()]
    } else {
        let rest = pieces(s.drop_last());
        if s.last() == FORM_FEED {
            rest.push(Seq::<char>::empty())
        } else {
            rest.update(rest.len() - 1, rest.last().push(s.last()))
        }
    }
}

/// Where page `k` (counted from 0) starts: the lengths of the earlier pages
/// plus one delimiter after each of them.
pub open spec fn page_start(ps: Seq<Seq<char>>, k: int) -> int
    decreases k,
{
    if k <= 0 {
        0
    } else {
        page_start(ps, k - 1) + ps[k - 1].len() + 1
    }
}

/// `pages` is the page list of a text whose pieces are `ps`.
pub open spec fn pages_of(pages: Seq<PageBlock>, ps: Seq<Seq<char>>) -> bool {
    &&& pages.len() == ps.len()
    &&& forall|k: int|
        0 <= k < pages.len() ==> {
            &&& #[trigger] pages[k].page_no == k + 1
            &&& pages[k].text@ == ps[k]
            &&& pages[k].start == page_start(ps, k)
            &&& pages[k].end == page_start(ps, k) + ps[k].len()
        }
}

proof fn lemma_page_start_prefix(a: Seq<Seq<char>>, b: Seq<Seq<char>>, j: int)
    requires
        0 <= j,
        j <= a.len(),
        j <= b.len(),
        forall|i: int| 0 <= i < j ==> #[trigger] a[i].len() == b[i].len(),
    ensures
        page_start(a, j) == page_start(b, j),
    decreases j,
{
    if j > 0 {
        lemma_page_start_prefix(a, b, j - 1);
    }
}

proof fn lemma_extend_pages(pages: Seq<PageBlock>, ps: Seq<Seq<char>>, page: PageBlock)
    requires
        pages_of(pages, ps.drop_last()),
        ps.len() == pages.len() + 1,
        page.page_no == pages.len() + 1,
        page.text@ == ps.last(),
        page.start == page_start(ps, pages.len() as int),
        page.end == page.start + ps.last().len(),
    ensures
        pages_of(pages.push(page), ps),
{
    let n = pages.len() as int;
    assert forall|k: int| 0 <= k < n + 1 implies {
        &&& #[trigger] pages.push(page)[k].page_no == k + 1
        &&& pages.push(page)[k].text@ == ps[k]
        &&& pages.push(page)[k].start == page_start(ps, k)
        &&& pages.push(page)[k].end == page_start(ps, k) + ps[k].len()
    } by {
        if k < n {
            assert(pages[k].page_no == k + 1);
            lemma_page_start_prefix(ps.drop_last(), ps, k);
        }
    }
}

/// Splits `text` at each form feed into pages. Page `k` (from 1) keeps its
/// text exactly; the next page starts one past the previous end, for the
/// delimiter.
pub fn split_pages(text: &str) -> (pages: Vec<PageBlock>)
    requires
        text@.len() < u32::MAX,
    ensures
        pages_of(pages@, pieces(text@)),
{
    let chars = chars_of(text);
    let mut pages: Vec<PageBlock> = Vec::new();
    let mut cur = String::new();
    let mut start: usize = 0;
    let mut len: usize = 0;
    let mut i: usize = 0;
    while i < chars.len()
        invariant
            chars@ == text@,
            text@.len() < u32::MAX,
            0 <= i <= chars.len(),
            pages@.len() <= i,
            pieces(chars@.take(i as int)).len() == pages@.len() + 1,
            pages_of(pages@, pieces(chars@.take(i as int)).drop_last()),
            cur@ == pieces(chars@.take(i as int)).last(),
            len == cur@.len(),
            start == page_start(pieces(chars@.take(i as int)), pages@.len() as int),
            start + len == i,
        decreases chars.len() - i,
    {
        let c = chars[i];
        let ghost before = pieces(chars@.take(i as int));
        let ghost n = pages@.len() as int;
        assert(chars@.take(i + 1).drop_last() == chars@.take(i as int));
        assert(chars@.take(i + 1).last() == c);
        if c == FORM_FEED {
            let page = PageBlock { page_no: (pages.len() + 1) as u32, text: cur, start, end: start + len };
            proof {
                lemma_extend_pages(pages@, before, page);
            }
            pages.push(page);
            cur = String::new();
            start = start + len + 1;
            len = 0;
            proof {
                let after = pieces(chars@.take(i + 1));
                assert(after == before.push(Seq::<char>::empty()));
                assert(after.drop_last() == before);
                lemma_page_start_prefix(after, before, n);
            }
        } else {
            push_char(&mut cur, c);
            len = len + 1;
            proof {
                let after = pieces(chars@.take(i + 1));
                assert(after == before.update(before.len() - 1, before.last().push(c)));
                assert(after.drop_last() == before.drop_last());
                lemma_page_start_prefix(after, before, n);
            }
        }
        i = i + 1;
    }
    assert(chars@.take(chars@.len() as int) == text@);
    let page = PageBlock { page_no: (pages.len() + 1) as u32, text: cur, start, end: start + len };
    proof {
        lemma_extend_pages(pages@, pieces(text@), page);
    }
    pages.push(page);
    pages
}

} // verus!
