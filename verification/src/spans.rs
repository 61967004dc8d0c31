//! Run-length style spans and the forward-only cursor that resolves the
//! style active at each item index.

use vstd::prelude::*;

use crate::style::{Style, StyleView};

verus! {

/// A style run-length record: `style` covers every item index up to and
/// including `last_item`.
pub struct Span {
    pub last_item: usize,
    pub style: Style,
}

/// The mathematical view of a [`Span`].
pub struct SpanView {
    pub last_item: usize,
    pub style: StyleView,
}

impl View for Span {
    type V = SpanView;

    open spec fn view(&self) -> SpanView {
        SpanView { last_item: self.last_item, style: self.style@ }
    }
}

impl Clone for Span {
    fn clone(&self) -> (r: Self)
        ensures
            r@ == self@,
    {
        Span { last_item: self.last_item, style: self.style.clone() }
    }
}

/// The views of a span list.
pub open spec fn spans_view(spans: Seq<Span>) -> Seq<SpanView> {
    Seq::new(spans.len(), |i: int| spans[i]@)
}

/// The least cursor position `>= c` whose span still covers item index
/// `i`, or the number of spans if none is left. Out-of-range cursors
/// stay put.
pub open spec fn advance(spans: Seq<SpanView>, c: int, i: int) -> int
    decreases spans.len() - c,
{
    if 0 <= c < spans.len() {
        if i <= spans[c].last_item as int {
            c
        } else {
            advance(spans, c + 1, i)
        }
    } else {
        c
    }
}

/// `advance` never regresses, stays within the list, skips only spans
/// that end before `i`, and lands on a covering span when it lands at
/// all.
pub proof fn lemma_advance_bounds(spans: Seq<SpanView>, c: int, i: int)
    requires
        0 <= c <= spans.len(),
    ensures
        c <= advance(spans, c, i) <= spans.len(),
        advance(spans, c, i) < spans.len() ==> i <= spans[advance(spans, c, i)].last_item as int,
        forall|j: int| c <= j < advance(spans, c, i) ==> (spans[j].last_item as int) < i,
    decreases spans.len() - c,
{
    if c < spans.len() && i > spans[c].last_item as int {
        lemma_advance_bounds(spans, c + 1, i);
    }
}

/// The coverage law of the span walk: over a span list whose `last_item`
/// fields are strictly increasing and whose last span reaches at least
/// item index `n - 1`, resolving any index `i < n` from a cursor that
/// has only passed spans ending before `i` lands on a span covering `i`,
/// without regressing; and every span it newly passes also ends before
/// `i`, so queries at non-decreasing indices resolve a style at every
/// index, with no gaps.
pub proof fn lemma_span_coverage(spans: Seq<SpanView>, c: int, i: int, n: int)
    requires
        0 <= c <= spans.len(),
        spans.len() > 0,
        forall|j: int, k: int|
            0 <= j < k < spans.len() ==> (spans[j].last_item as int) < (spans[k].last_item as int),
        0 <= i < n,
        n <= spans[spans.len() - 1].last_item as int + 1,
        forall|j: int| 0 <= j < c ==> (spans[j].last_item as int) < i,
    ensures
        c <= advance(spans, c, i) < spans.len(),
        i <= spans[advance(spans, c, i)].last_item as int,
        forall|j: int| 0 <= j < advance(spans, c, i) ==> (spans[j].last_item as int) < i,
    decreases spans.len() - c,
{
    lemma_advance_bounds(spans, c, i);
    if c == spans.len() {
        assert((spans[spans.len() - 1].last_item as int) < i);
    } else if i > spans[c].last_item as int {
        lemma_span_coverage(spans, c + 1, i, n);
    }
}

/// A forward-only cursor over the ordered span list of one element.
pub struct SpanWalker {
    pub spans: Vec<Span>,
    pub cursor: usize,
}

impl SpanWalker {
    /// The cursor lies within the span list.
    pub open spec fn wf(&self) -> bool {
        self.cursor <= self.spans@.len()
    }

    /// A walker at the start of `spans`.
    pub fn new(spans: Vec<Span>) -> (r: SpanWalker)
        ensures
            r.wf(),
            r.spans@ == spans@,
            r.cursor == 0,
    {
        SpanWalker { spans, cursor: 0 }
    }

    /// The style active at item index `i`: the cursor moves forward over
    /// the spans that end before `i`; the span it lands on (if any)
    /// supplies the style. Once the spans are exhausted the result stays
    /// `None`; the cursor never regresses.
    pub fn resolve(&mut self, i: usize) -> (r: Option<Style>)
        requires
            old(self).wf(),
        ensures
            final(self).wf(),
            final(self).spans@ == old(self).spans@,
            old(self).cursor <= final(self).cursor,
            final(self).cursor as int == advance(
                spans_view(old(self).spans@),
                old(self).cursor as int,
                i as int,
            ),
            match r {
                Some(st) => final(self).cursor < final(self).spans@.len() && st@ == spans_view(
                    final(self).spans@,
                )[final(self).cursor as int].style,
                None => final(self).cursor == final(self).spans@.len(),
            },
    {
        let n = self.spans.len();
        let ghost sv = spans_view(self.spans@);
        let ghost c0 = self.cursor as int;
        while self.cursor < n && i > self.spans[self.cursor].last_item
            invariant
                c0 <= self.cursor as int <= n as int,
                n == self.spans@.len(),
                sv == spans_view(self.spans@),
                self.spans@ == old(self).spans@,
                advance(sv, c0, i as int) == advance(sv, self.cursor as int, i as int),
            decreases n - self.cursor,
        {
            proof {
                assert(sv[self.cursor as int].last_item == self.spans@[self.cursor as int]@.last_item);
            }
            self.cursor = self.cursor + 1;
        }
        proof {
            if self.cursor < n {
                assert(sv[self.cursor as int].last_item == self.spans@[self.cursor as int]@.last_item);
            }
            assert(advance(sv, self.cursor as int, i as int) == self.cursor as int);
        }
        if self.cursor < n {
            Some(self.spans[self.cursor].style.clone())
        } else {
            None
        }
    }
}

} // verus!
