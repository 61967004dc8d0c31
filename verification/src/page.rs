//! The element tree of one page and its assembly into an ordered list of
//! drawables.

use vstd::prelude::*;

use crate::spans::{advance, Span, SpanView, spans_view};
use crate::stroke::{
    build_line, build_stroke, line_spec, opt_style_view, stroke_spec, StrokeDrawable,
    StrokeDrawableView,
};
use crate::config::DocConfig;
use crate::style::{PipelineError, Style, StyleView};
use crate::text::str_eq;

verus! {

/// One drawable primitive inside a content group.
pub enum Item {
    /// A freehand stroke: parallel X/Y coordinate arrays and a pressure
    /// array, as opaque IEEE-754 bit patterns.
    Stroke { x: Vec<u64>, y: Vec<u64>, f: Vec<u64> },
    /// A straight line between two endpoints.
    Line { x1: u64, y1: u64, x2: u64, y2: u64 },
    /// A recognized glyph; not drawable, skipped without error.
    Glyph,
    /// An arc; not drawable, skipped without error.
    Arc,
    /// Any other item type tag; fatal for the whole page.
    Other,
}

/// The mathematical view of an [`Item`].
pub enum ItemView {
    Stroke { x: Seq<u64>, y: Seq<u64>, f: Seq<u64> },
    Line { x1: u64, y1: u64, x2: u64, y2: u64 },
    Glyph,
    Arc,
    Other,
}

impl View for Item {
    type V = ItemView;

    open spec fn view(&self) -> ItemView {
        match self {
            Item::Stroke { x, y, f } => ItemView::Stroke { x: x@, y: y@, f: f@ },
            Item::Line { x1, y1, x2, y2 } => ItemView::Line {
                x1: *x1,
                y1: *y1,
                x2: *x2,
                y2: *y2,
            },
            Item::Glyph => ItemView::Glyph,
            Item::Arc => ItemView::Arc,
            Item::Other => ItemView::Other,
        }
    }
}

/// One top-level entry of a page's ink description.
pub enum Element {
    /// A content group: drawable items, style spans covering them by
    /// index, and an optional element-level style for line items.
    Group { items: Vec<Item>, spans: Vec<Span>, style: Option<Style> },
    /// An image element placed by position and size (opaque IEEE-754 bit
    /// patterns) and backed by a named asset.
    Image { url: String, x: u64, y: u64, width: u64, height: u64 },
    /// Any other element type tag; skipped without error.
    Other,
}

/// The mathematical view of an [`Element`].
pub enum ElementView {
    Group { items: Seq<ItemView>, spans: Seq<SpanView>, style: Option<StyleView> },
    Image { url: Seq<char>, x: u64, y: u64, width: u64, height: u64 },
    Other,
}

/// The views of an item list.
pub open spec fn items_view(items: Seq<Item>) -> Seq<ItemView> {
    Seq::new(items.len(), |i: int| items[i]@)
}

impl View for Element {
    type V = ElementView;

    open spec fn view(&self) -> ElementView {
        match self {
            Element::Group { items, spans, style } => ElementView::Group {
                items: items_view(items@),
                spans: spans_view(spans@),
                style: match style {
                    Some(s) => Some(s@),
                    None => None,
                },
            },
            Element::Image { url, x, y, width, height } => ElementView::Image {
                url: url@,
                x: *x,
                y: *y,
                width: *width,
                height: *height,
            },
            Element::Other => ElementView::Other,
        }
    }
}

/// An image placement: the asset name and the position and size that
/// give its placement rectangle.
pub struct ImageDrawable {
    pub url: String,
    pub x: u64,
    pub y: u64,
    pub width: u64,
    pub height: u64,
}

/// The mathematical view of an [`ImageDrawable`].
pub struct ImageDrawableView {
    pub url: Seq<char>,
    pub x: u64,
    pub y: u64,
    pub width: u64,
    pub height: u64,
}

impl View for ImageDrawable {
    type V = ImageDrawableView;

    open spec fn view(&self) -> ImageDrawableView {
        ImageDrawableView {
            url: self.url@,
            x: self.x,
            y: self.y,
            width: self.width,
            height: self.height,
        }
    }
}

/// One output unit of the pipeline, in page order. A `Stroke` width is
/// pre-scale (the sink multiplies it by the coordinate scale factor); a
/// `Line` width is used as-is — the two variants keep that distinction.
pub enum Drawable {
    /// A freehand stroke rebuilt from coordinate arrays.
    Stroke(StrokeDrawable),
    /// A straight line rebuilt as a two-point stroke.
    Line(StrokeDrawable),
    /// An image placement.
    Image(ImageDrawable),
}

/// The mathematical view of a [`Drawable`].
pub enum DrawableView {
    Stroke(StrokeDrawableView),
    Line(StrokeDrawableView),
    Image(ImageDrawableView),
}

impl View for Drawable {
    type V = DrawableView;

    open spec fn view(&self) -> DrawableView {
        match self {
            Drawable::Stroke(d) => DrawableView::Stroke(d@),
            Drawable::Line(d) => DrawableView::Line(d@),
            Drawable::Image(d) => DrawableView::Image(d@),
        }
    }
}

/// The views of a drawable list.
pub open spec fn drawables_view(ds: Seq<Drawable>) -> Seq<DrawableView> {
    Seq::new(ds.len(), |i: int| ds[i]@)
}

/// The views of an element list.
pub open spec fn elements_view(els: Seq<Element>) -> Seq<ElementView> {
    Seq::new(els.len(), |i: int| els[i]@)
}

/// The views of an asset-name list.
pub open spec fn strings_view(ss: Seq<String>) -> Seq<Seq<char>> {
    Seq::new(ss.len(), |i: int| ss[i]@)
}

/// Concatenation of two drawable-list results; the first error wins.
pub open spec fn cat_results(
    a: Result<Seq<DrawableView>, PipelineError>,
    b: Result<Seq<DrawableView>, PipelineError>,
) -> Result<Seq<DrawableView>, PipelineError> {
    match a {
        Ok(xs) => match b {
            Ok(ys) => Ok(xs + ys),
            Err(e) => Err(e),
        },
        Err(e) => Err(e),
    }
}

/// The drawables of a content group from item index `i` on, with the
/// span cursor at `c`: strokes resolve their style through the advancing
/// cursor, lines use the element's single style, glyphs and arcs are
/// skipped, and any other item type is fatal.
pub open spec fn group_items_spec(
    items: Seq<ItemView>,
    spans: Seq<SpanView>,
    style: Option<StyleView>,
    i: int,
    c: int,
) -> Result<Seq<DrawableView>, PipelineError>
    decreases items.len() - i,
{
    if !(0 <= i < items.len()) {
        Ok(Seq::empty())
    } else {
        match items[i] {
            ItemView::Stroke { x, y, f } => {
                let c2 = advance(spans, c, i);
                let st = if 0 <= c2 < spans.len() {
                    Some(spans[c2].style)
                } else {
                    None
                };
                match stroke_spec(x, y, f, st) {
                    Ok(d) => match group_items_spec(items, spans, style, i + 1, c2) {
                        Ok(rest) => Ok(seq![DrawableView::Stroke(d)] + rest),
                        Err(e) => Err(e),
                    },
                    Err(e) => Err(e),
                }
            },
            ItemView::Line { x1, y1, x2, y2 } => match line_spec(x1, y1, x2, y2, style) {
                Ok(d) => match group_items_spec(items, spans, style, i + 1, c) {
                    Ok(rest) => Ok(seq![DrawableView::Line(d)] + rest),
                    Err(e) => Err(e),
                },
                Err(e) => Err(e),
            },
            ItemView::Glyph => group_items_spec(items, spans, style, i + 1, c),
            ItemView::Arc => group_items_spec(items, spans, style, i + 1, c),
            ItemView::Other => Err(PipelineError::UnsupportedItemType),
        }
    }
}

/// The drawables of one element: a content group walks its items from
/// the start; an image element requires its asset name to be present in
/// the asset directory and yields one placement; any other element is
/// skipped without error.
pub open spec fn element_spec(el: ElementView, assets: Seq<Seq<char>>) -> Result<
    Seq<DrawableView>,
    PipelineError,
> {
    match el {
        ElementView::Group { items, spans, style } => group_items_spec(items, spans, style, 0, 0),
        ElementView::Image { url, x, y, width, height } => {
            if assets.contains(url) {
                Ok(seq![DrawableView::Image(ImageDrawableView { url, x, y, width, height })])
            } else {
                Err(PipelineError::AssetNotFound)
            }
        },
        ElementView::Other => Ok(Seq::empty()),
    }
}

/// The drawables of the elements from index `k` on, concatenated in
/// source order; the first failing element aborts the page.
pub open spec fn page_from(els: Seq<ElementView>, assets: Seq<Seq<char>>, k: int) -> Result<
    Seq<DrawableView>,
    PipelineError,
>
    decreases els.len() - k,
{
    if !(0 <= k < els.len()) {
        Ok(Seq::empty())
    } else {
        cat_results(element_spec(els[k], assets), page_from(els, assets, k + 1))
    }
}

/// The ordered drawables of a whole page.
pub open spec fn page_spec(els: Seq<ElementView>, assets: Seq<Seq<char>>) -> Result<
    Seq<DrawableView>,
    PipelineError,
> {
    page_from(els, assets, 0)
}

/// The view of a page-assembly result.
pub open spec fn page_result_view(r: Result<Vec<Drawable>, PipelineError>) -> Result<
    Seq<DrawableView>,
    PipelineError,
> {
    match r {
        Ok(ds) => Ok(drawables_view(ds@)),
        Err(e) => Err(e),
    }
}

/// Moves the span cursor forward over the spans that end before item
/// index `i`.
fn advance_cursor(spans: &Vec<Span>, c: usize, i: usize) -> (r: usize)
    requires
        c <= spans@.len(),
    ensures
        c <= r <= spans@.len(),
        r as int == advance(spans_view(spans@), c as int, i as int),
{
    let ghost sv = spans_view(spans@);
    let n = spans.len();
    let mut r = c;
    while r < n && i > spans[r].last_item
        invariant
            c <= r <= n,
            n == spans@.len(),
            sv == spans_view(spans@),
            advance(sv, c as int, i as int) == advance(sv, r as int, i as int),
        decreases n - r,
    {
        proof {
            assert(sv[r as int].last_item == spans@[r as int]@.last_item);
        }
        r = r + 1;
    }
    proof {
        if r < n {
            assert(sv[r as int].last_item == spans@[r as int]@.last_item);
        }
        assert(advance(sv, r as int, i as int) == r as int);
    }
    r
}

/// Whether `url` names one of the assets.
fn asset_present(assets: &Vec<String>, url: &String) -> (r: bool)
    ensures
        r == strings_view(assets@).contains(url@),
{
    let ghost av = strings_view(assets@);
    let n = assets.len();
    let mut i: usize = 0;
    while i < n
        invariant
            0 <= i <= n,
            n == assets@.len(),
            av == strings_view(assets@),
            forall|j: int| 0 <= j < i ==> av[j] != url@,
        decreases n - i,
    {
        if str_eq(assets[i].as_str(), url.as_str()) {
            proof {
                assert(av[i as int] == url@);
            }
            return true;
        }
        i = i + 1;
    }
    proof {
        assert(forall|j: int| 0 <= j < av.len() ==> av[j] != url@);
    }
    false
}

/// Assembles the ordered drawable list of one page from its elements and
/// the names of the assets available to it. Elements contribute in
/// source order; any pipeline error aborts the page, and no partial list
/// is returned.
pub fn assemble_page(elements: &Vec<Element>, assets: &Vec<String>) -> (r: Result<
    Vec<Drawable>,
    PipelineError,
>)
    ensures
        page_result_view(r) == page_spec(elements_view(elements@), strings_view(assets@)),
{
    let ghost ev = elements_view(elements@);
    let ghost av = strings_view(assets@);
    let mut out: Vec<Drawable> = Vec::new();
    let nk = elements.len();
    let mut k: usize = 0;
    while k < nk
        invariant
            0 <= k <= nk,
            nk == elements@.len(),
            ev == elements_view(elements@),
            av == strings_view(assets@),
            page_spec(ev, av) == cat_results(
                Ok::<Seq<DrawableView>, PipelineError>(drawables_view(out@)),
                page_from(ev, av, k as int),
            ),
        decreases nk - k,
    {
        proof {
            assert(ev[k as int] == elements@[k as int]@);
        }
        match &elements[k] {
            Element::Group { items, spans, style } => {
                let ghost iv = items_view(items@);
                let ghost sv = spans_view(spans@);
                let ghost stv: Option<StyleView> = match style {
                    Some(s) => Some(s@),
                    None => None,
                };
                let ni = items.len();
                let mut i: usize = 0;
                let mut c: usize = 0;
                while i < ni
                    invariant
                        0 <= i <= ni,
                        ni == items@.len(),
                        c <= spans@.len(),
                        ev == elements_view(elements@),
                        av == strings_view(assets@),
                        iv == items_view(items@),
                        sv == spans_view(spans@),
                        stv == (match style {
                            Some(s) => Some(s@),
                            None => None,
                        }),
                        page_spec(ev, av) == cat_results(
                            Ok::<Seq<DrawableView>, PipelineError>(drawables_view(out@)),
                            cat_results(
                                group_items_spec(iv, sv, stv, i as int, c as int),
                                page_from(ev, av, k as int + 1),
                            ),
                        ),
                    decreases ni - i,
                {
                    proof {
                        assert(iv[i as int] == items@[i as int]@);
                    }
                    match &items[i] {
                        Item::Stroke { x, y, f } => {
                            let c2 = advance_cursor(spans, c, i);
                            let st: Option<&Style> = if c2 < spans.len() {
                                Some(&spans[c2].style)
                            } else {
                                None
                            };
                            proof {
                                if c2 < spans@.len() {
                                    assert(sv[c2 as int].style == spans@[c2 as int]@.style);
                                }
                            }
                            match build_stroke(x, y, f, st) {
                                Ok(d) => {
                                    let ghost out0 = drawables_view(out@);
                                    let ghost dv = d@;
                                    out.push(Drawable::Stroke(d));
                                    proof {
                                        assert(drawables_view(out@) =~= out0 + seq![
                                            DrawableView::Stroke(dv),
                                        ]);
                                        lemma_cat_shift(
                                            out0,
                                            seq![DrawableView::Stroke(dv)],
                                            group_items_spec(iv, sv, stv, i as int + 1, c2 as int),
                                            page_from(ev, av, k as int + 1),
                                        );
                                    }
                                    c = c2;
                                },
                                Err(e) => {
                                    return Err(e);
                                },
                            }
                        },
                        Item::Line { x1, y1, x2, y2 } => {
                            let st: Option<&Style> = match style {
                                Some(s) => Some(s),
                                None => None,
                            };
                            match build_line(*x1, *y1, *x2, *y2, st) {
                                Ok(d) => {
                                    let ghost out0 = drawables_view(out@);
                                    let ghost dv = d@;
                                    out.push(Drawable::Line(d));
                                    proof {
                                        assert(drawables_view(out@) =~= out0 + seq![
                                            DrawableView::Line(dv),
                                        ]);
                                        lemma_cat_shift(
                                            out0,
                                            seq![DrawableView::Line(dv)],
                                            group_items_spec(iv, sv, stv, i as int + 1, c as int),
                                            page_from(ev, av, k as int + 1),
                                        );
                                    }
                                },
                                Err(e) => {
                                    return Err(e);
                                },
                            }
                        },
                        Item::Glyph => {},
                        Item::Arc => {},
                        Item::Other => {
                            return Err(PipelineError::UnsupportedItemType);
                        },
                    }
                    i = i + 1;
                }
                proof {
                    assert(group_items_spec(iv, sv, stv, i as int, c as int) == Ok::<
                        Seq<DrawableView>,
                        PipelineError,
                    >(Seq::empty()));
                    lemma_cat_empty(drawables_view(out@), page_from(ev, av, k as int + 1));
                }
            },
            Element::Image { url, x, y, width, height } => {
                if asset_present(assets, url) {
                    let ghost out0 = drawables_view(out@);
                    let d = ImageDrawable {
                        url: url.clone(),
                        x: *x,
                        y: *y,
                        width: *width,
                        height: *height,
                    };
                    let ghost dv = d@;
                    out.push(Drawable::Image(d));
                    proof {
                        assert(drawables_view(out@) =~= out0 + seq![DrawableView::Image(dv)]);
                        lemma_cat_shift(
                            out0,
                            seq![DrawableView::Image(dv)],
                            Ok::<Seq<DrawableView>, PipelineError>(Seq::empty()),
                            page_from(ev, av, k as int + 1),
                        );
                        lemma_cat_empty(drawables_view(out@), page_from(ev, av, k as int + 1));
                    }
                } else {
                    return Err(PipelineError::AssetNotFound);
                }
            },
            Element::Other => {},
        }
        k = k + 1;
    }
    proof {
        assert(page_from(ev, av, k as int) == Ok::<Seq<DrawableView>, PipelineError>(Seq::empty()));
        assert(drawables_view(out@) + Seq::<DrawableView>::empty() =~= drawables_view(out@));
    }
    Ok(out)
}

/// One capture page: its display title, the document configuration
/// derived from its metadata, and its ordered elements. Immutable once
/// built; consumed once by assembly.
pub struct Page {
    pub title: String,
    pub config: DocConfig,
    pub elements: Vec<Element>,
}

impl Page {
    /// Assembles the page's ordered drawable list against the assets
    /// available to it.
    pub fn assemble(&self, assets: &Vec<String>) -> (r: Result<Vec<Drawable>, PipelineError>)
        ensures
            page_result_view(r) == page_spec(elements_view(self.elements@), strings_view(assets@)),
    {
        assemble_page(&self.elements, assets)
    }
}

/// Prepending `d` inside the group result equals appending `d` to the
/// accumulator.
proof fn lemma_cat_shift(
    acc: Seq<DrawableView>,
    d: Seq<DrawableView>,
    rest: Result<Seq<DrawableView>, PipelineError>,
    tail: Result<Seq<DrawableView>, PipelineError>,
)
    ensures
        cat_results(
            Ok::<Seq<DrawableView>, PipelineError>(acc),
            cat_results(
                match rest {
                    Ok(rs) => Ok::<Seq<DrawableView>, PipelineError>(d + rs),
                    Err(e) => Err(e),
                },
                tail,
            ),
        ) == cat_results(
            Ok::<Seq<DrawableView>, PipelineError>(acc + d),
            cat_results(rest, tail),
        ),
{
    match rest {
        Ok(rs) => {
            match tail {
                Ok(ts) => {
                    assert(acc + (d + rs + ts) =~= (acc + d) + (rs + ts));
                },
                Err(_) => {},
            }
        },
        Err(_) => {},
    }
}

/// An empty group result contributes nothing.
proof fn lemma_cat_empty(acc: Seq<DrawableView>, tail: Result<Seq<DrawableView>, PipelineError>)
    ensures
        cat_results(
            Ok::<Seq<DrawableView>, PipelineError>(acc),
            cat_results(Ok::<Seq<DrawableView>, PipelineError>(Seq::empty()), tail),
        ) == cat_results(Ok::<Seq<DrawableView>, PipelineError>(acc), tail),
{
    match tail {
        Ok(ts) => {
            assert(Seq::<DrawableView>::empty() + ts =~= ts);
        },
        Err(_) => {},
    }
}

} // verus!
