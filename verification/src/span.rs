//! Styled text, areas of the screen, and how they are measured.

use vstd::prelude::*;

verus! {

/// A colour of a step, or the theme's foreground.
#[derive(Debug, Clone, Copy, PartialEq, Eq, Structural)]
pub enum Color {
    Green,
    Yellow,
    Red,
    Gray,
    Foreground,
}

/// How a piece of text looks: plainly, as the theme has it for a purpose, as the mode has it, or
/// in a colour.
#[derive(Debug, Clone, Copy, PartialEq, Eq, Structural)]
pub enum Style {
    Plain,
    Spinner,
    Notice,
    Mode,
    Dim,
    RetryError,
    RetryInfo,
    Error,
    Tinted(Color),
    Italic(Color),
}

/// A piece of text in one style.
#[derive(Debug)]
pub struct Span {
    pub text: String,
    pub style: Style,
}

/// What a piece of text holds.
pub struct SpanView {
    pub text: Seq<char>,
    pub style: Style,
}

impl View for Span {
    type V = SpanView;

    open spec fn view(&self) -> SpanView {
        SpanView { text: self.text@, style: self.style }
    }
}

/// What the pieces of a list hold.
pub open spec fn span_views(spans: Seq<Span>) -> Seq<SpanView> {
    spans.map_values(|s: Span| s@)
}

/// A piece of text.
pub open spec fn span(text: Seq<char>, style: Style) -> SpanView {
    SpanView { text, style }
}

/// Adds a piece of text at the end.
pub fn add_span(spans: &mut Vec<Span>, text: String, style: Style)
    ensures
        span_views(final(spans)@) == span_views(old(spans)@).push(span(text@, style)),
{
    let ghost before = spans@;
    spans.push(Span { text, style });
    assert(span_views(spans@) =~= span_views(before).push(span(text@, style)));
}

/// A copy of some pieces of text.
pub fn copy_spans(spans: &Vec<Span>, from: usize, to: usize) -> (copy: Vec<Span>)
    requires
        from <= to <= spans@.len(),
    ensures
        span_views(copy@) == span_views(spans@).subrange(from as int, to as int),
{
    let ghost views = span_views(spans@);
    let mut copy: Vec<Span> = Vec::new();
    let mut i: usize = from;
    assert(span_views(copy@) =~= views.subrange(from as int, from as int));
    while i < to
        invariant
            from <= i <= to <= spans@.len(),
            views == span_views(spans@),
            span_views(copy@) == views.subrange(from as int, i as int),
        decreases to - i,
    {
        add_span(&mut copy, spans[i].text.clone(), spans[i].style);
        assert(views.subrange(from as int, i + 1) =~= views.subrange(from as int, i as int).push(
            views[i as int],
        ));
        i += 1;
    }
    copy
}

/// A rectangle on the screen.
#[derive(Debug, Clone, Copy, PartialEq, Eq, Structural)]
pub struct Area {
    pub x: u16,
    pub y: u16,
    pub width: u16,
    pub height: u16,
}

impl Area {
    /// Whether nothing can be drawn on the area.
    pub open spec fn is_flat(self) -> bool {
        self.width == 0 || self.height == 0
    }

    /// Whether nothing can be drawn on the area.
    pub fn is_empty(&self) -> (empty: bool)
        ensures
            empty == self.is_flat(),
    {
        self.width == 0 || self.height == 0
    }
}

/// How many columns a text takes on the screen.
pub uninterp spec fn shown_width(text: Seq<char>) -> usize;

/// How many columns a text takes, by `unicode_width::UnicodeWidthStr::width`. The contract gives
/// that number a name and says nothing of its size.
#[verifier::external_body]
pub(crate) fn display_width(text: &str) -> (width: usize)
    ensures
        width == shown_width(text@),
{
    unicode_width::UnicodeWidthStr::width(text)
}

/// How wide a part of a row is to be.
#[derive(Debug, Clone, Copy, PartialEq, Eq, Structural)]
pub enum Extent {
    Min(u16),
    Length(u16),
}

/// Whether `part` lies on the row `area`: as high as it, within what a screen can have and, where
/// the area is so, within the area.
pub open spec fn on_row(part: Area, area: Area) -> bool {
    &&& part.y == area.y
    &&& part.height == area.height
    &&& part.x + part.width <= u16::MAX
    &&& area.x + area.width <= u16::MAX ==> area.x <= part.x && part.x + part.width <= area.x
        + area.width
}

/// The sum of the fixed lengths among some extents.
pub open spec fn fixed_lengths(extents: Seq<Extent>) -> nat
    decreases extents.len(),
{
    if extents.len() == 0 {
        0
    } else {
        fixed_lengths(extents.drop_last()) + (match extents.last() {
            Extent::Length(n) => n as nat,
            Extent::Min(_) => 0,
        })
    }
}

/// How many of some extents have a fixed length.
pub open spec fn fixed_count(extents: Seq<Extent>) -> nat
    decreases extents.len(),
{
    if extents.len() == 0 {
        0
    } else {
        fixed_count(extents.drop_last()) + (match extents.last() {
            Extent::Length(_) => 1,
            Extent::Min(_) => 0nat,
        })
    }
}

/// Whether there is one way only to meet some extents on a row: the fixed lengths fit, or there is
/// a single one; of the others, which may be of any width, there is one at most.
pub open spec fn is_settled(area: Area, extents: Seq<Extent>) -> bool {
    &&& area.x + area.width <= u16::MAX
    &&& fixed_lengths(extents) <= area.width || fixed_count(extents) == 1
    &&& extents.len() <= fixed_count(extents) + 1
    &&& forall|i: int| 0 <= i < extents.len() && !((#[trigger] extents[i]) is Length) ==> extents[i]
        == Extent::Min(0)
}

/// The width of a part where the extents settle it: its length, as far as the row goes, or what the
/// fixed lengths leave.
pub open spec fn settled_width(area: Area, extents: Seq<Extent>, i: int) -> int {
    match extents[i] {
        Extent::Length(n) => if n <= area.width {
            n as int
        } else {
            area.width as int
        },
        Extent::Min(_) => if fixed_lengths(extents) <= area.width {
            area.width - fixed_lengths(extents)
        } else {
            0
        },
    }
}

/// Where a part begins where the extents settle it: behind the parts before it.
pub open spec fn settled_start(area: Area, extents: Seq<Extent>, i: int) -> int
    decreases i,
{
    if i <= 0 {
        area.x as int
    } else {
        settled_start(area, extents, i - 1) + settled_width(area, extents, i - 1)
    }
}

/// Whether a few fixed lengths do not fit on a row within the screen.
pub open spec fn is_crowded(area: Area, extents: Seq<Extent>) -> bool {
    &&& area.x + area.width <= u16::MAX
    &&& extents.len() <= 3
    &&& fixed_count(extents) == extents.len()
    &&& fixed_lengths(extents) > area.width
}

/// Whether parts fill a row one behind the other, none of them wider than its extent says.
pub open spec fn fills_row(parts: Seq<Area>, area: Area, extents: Seq<Extent>) -> bool {
    &&& parts.first().x == area.x
    &&& parts.last().x + parts.last().width == area.x + area.width
    &&& forall|i: int|
        0 < i < parts.len() ==> (#[trigger] parts[i]).x == parts[i - 1].x + parts[i - 1].width
    &&& forall|i: int|
        0 <= i < parts.len() ==> (extents[i] matches Extent::Length(n) ==> (#[trigger] parts[i]).width
            <= n)
}

/// Parts of a row from left to right, by `split` of a horizontal `ratatui::layout::Layout`, on
/// which its `areas` rests. There is a part for each extent, and each lies on the row. Where the
/// extents can be met in one way only, a part of a fixed length is as wide as that says, up to the
/// whole row, a part of any width takes what is left, and the parts stand one behind the other from
/// the beginning of the row. Where up to three fixed lengths do not fit, the parts fill the row one
/// behind the other and none is wider than its length. Which of them give way the contract leaves
/// open: a constraint solver finds it, in an order that changes from process to process.
#[verifier::external_body]
pub(crate) fn split_row(area: Area, extents: &Vec<Extent>) -> (parts: Vec<Area>)
    ensures
        parts@.len() == extents@.len(),
        forall|i: int| 0 <= i < parts@.len() ==> on_row(#[trigger] parts@[i], area),
        is_settled(area, extents@) ==> forall|i: int|
            0 <= i < parts@.len() ==> (#[trigger] parts@[i]).x == settled_start(area, extents@, i)
                && parts@[i].width == settled_width(area, extents@, i),
        is_crowded(area, extents@) ==> fills_row(parts@, area, extents@),
{
    let constraints = extents.iter().map(|e| match e {
        Extent::Min(n) => ratatui::layout::Constraint::Min(*n),
        Extent::Length(n) => ratatui::layout::Constraint::Length(*n),
    });
    let Area { x, y, width, height } = area;
    let row = ratatui::layout::Rect { x, y, width, height };
    let parts = ratatui::layout::Layout::horizontal(constraints).split(row);
    parts.iter().map(|r| Area { x: r.x, y: r.y, width: r.width, height: r.height }).collect()
}

/// The sum of the widths of some pieces of text, each of them as an integer of 16 bits.
pub open spec fn width_sum(spans: Seq<SpanView>) -> nat
    decreases spans.len(),
{
    if spans.len() == 0 {
        0
    } else {
        width_sum(spans.drop_last()) + (shown_width(spans.last().text) as nat) % 65536
    }
}

/// Widths add up: nothing takes no column, and pieces that follow one another take what they take
/// apart. A piece takes what its text takes, whatever its style.
pub proof fn law_widths_add_up(
    spans: Seq<SpanView>,
    more: Seq<SpanView>,
    text: Seq<char>,
    style: Style,
)
    ensures
        width_sum(Seq::empty()) == 0,
        width_sum(seq![SpanView { text, style }]) == (shown_width(text) as nat) % 65536,
        width_sum(spans + more) == width_sum(spans) + width_sum(more),
    decreases more.len(),
{
    let one = seq![SpanView { text, style }];
    assert(one.drop_last() =~= Seq::<SpanView>::empty());
    reveal_with_fuel(width_sum, 2);
    if more.len() == 0 {
        assert(spans + more =~= spans);
    } else {
        assert((spans + more).drop_last() =~= spans + more.drop_last());
        law_widths_add_up(spans, more.drop_last(), text, style);
    }
}

/// The width of a piece of text, as an integer of 16 bits.
pub fn span_width(span: &Span) -> (width: u16)
    ensures
        width == (shown_width(span.text@) as nat) % 65536,
{
    (display_width(span.text.as_str()) % 65536) as u16
}

proof fn lemma_width_sum_prefix(spans: Seq<SpanView>, n: int)
    requires
        0 <= n <= spans.len(),
    ensures
        width_sum(spans.take(n)) <= width_sum(spans),
    decreases spans.len(),
{
    if n < spans.len() {
        lemma_width_sum_prefix(spans.drop_last(), n);
        assert(spans.drop_last().take(n) =~= spans.take(n));
    } else {
        assert(spans.take(n) =~= spans);
    }
}

/// The sum of the widths of the first `count` pieces of text, unless it does not fit in 16 bits.
pub fn spans_width(spans: &Vec<Span>, count: usize) -> (width: Option<u16>)
    requires
        count <= spans@.len(),
    ensures
        ({
            let sum = width_sum(span_views(spans@).take(count as int));
            width == (if sum <= u16::MAX {
                Some(sum as u16)
            } else {
                None
            })
        }),
{
    let ghost views = span_views(spans@).take(count as int);
    let mut sum: u16 = 0;
    let mut i: usize = 0;
    while i < count
        invariant
            i <= count <= spans@.len(),
            views == span_views(spans@).take(count as int),
            sum == width_sum(views.take(i as int)),
        decreases count - i,
    {
        let w: u16 = span_width(&spans[i]);
        proof {
            assert(views.take(i + 1).drop_last() =~= views.take(i as int));
            assert(views.take(i + 1).last() == spans@[i as int]@);
            lemma_width_sum_prefix(views, i + 1);
        }
        sum = match sum.checked_add(w) {
            Some(s) => s,
            None => {
                return None;
            },
        };
        i += 1;
    }
    assert(views.take(i as int) =~= views);
    Some(sum)
}

} // verus!
