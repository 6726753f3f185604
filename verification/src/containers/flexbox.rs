//! The flexbox container: the two-phase sizing algorithm that collects the
//! children's intrinsic sizes, forms wrap lines, resolves horizontal and
//! vertical overflow by shrinking, and places every child according to the
//! configured alignment policies.
//!
//! The specification functions in this module state the algorithm over
//! mathematical sequences; the container's measurement is proved equal to
//! them. Divisions round down; subtractions that would go below zero stop at
//! zero.

use vstd::prelude::*;
use crate::MAX_DIM;
use crate::containers::{AlignContent, AlignItems, FlexWrap, JustifyContent};
use crate::rect::Rect;
use crate::widget::{clamp_spec, AreaAllocator, RenderError, Widget, WidgetSize};

verus! {

/// A container that owns an ordered sequence of child widgets and lays them
/// out along wrap lines, honouring its wrap, justify-content, align-items
/// and align-content policies.
///
/// Each measurement pass recomputes one placement rectangle per child
/// (`widget_subareas`), which the immediately following render pass
/// consumes; rendering with stale placement data is rejected explicitly.
pub struct Flexbox<W, A> {
    pub widgets: Vec<W>,
    pub widget_subareas: Vec<Rect>,
    pub align_content: AlignContent,
    pub align_items: AlignItems,
    pub flex_wrap: FlexWrap,
    pub justify_content: JustifyContent,
    pub area_allocator: Option<A>,
}

impl<W, A> Flexbox<W, A> {
    /// An empty flexbox with the default policies: wrapping lines packed to
    /// the left and the top.
    pub fn new() -> (fb: Flexbox<W, A>)
        ensures
            fb.widgets@.len() == 0,
            fb.widget_subareas@.len() == 0,
            fb.align_content is Top,
            fb.align_items is Top,
            fb.flex_wrap is Wrap,
            fb.justify_content is Left,
            fb.area_allocator is None,
    {
        Flexbox {
            widgets: Vec::new(),
            widget_subareas: Vec::new(),
            align_content: AlignContent::Top,
            align_items: AlignItems::Top,
            flex_wrap: FlexWrap::Wrap,
            justify_content: JustifyContent::Left,
            area_allocator: None,
        }
    }

    /// Append a child after the already-added children.
    pub fn add(&mut self, widget: W)
        ensures
            final(self).widgets@ == old(self).widgets@.push(widget),
            final(self).widget_subareas == old(self).widget_subareas,
            final(self).align_content == old(self).align_content,
            final(self).align_items == old(self).align_items,
            final(self).flex_wrap == old(self).flex_wrap,
            final(self).justify_content == old(self).justify_content,
            final(self).area_allocator == old(self).area_allocator,
    {
        self.widgets.push(widget);
    }

    pub fn set_flex_wrap(&mut self, flex_wrap: FlexWrap)
        ensures
            *final(self) == (Flexbox { flex_wrap, ..*old(self) }),
    {
        self.flex_wrap = flex_wrap;
    }

    pub fn set_justify_content(&mut self, justify_content: JustifyContent)
        ensures
            *final(self) == (Flexbox { justify_content, ..*old(self) }),
    {
        self.justify_content = justify_content;
    }

    pub fn set_align_content(&mut self, align_content: AlignContent)
        ensures
            *final(self) == (Flexbox { align_content, ..*old(self) }),
    {
        self.align_content = align_content;
    }

    pub fn set_align_items(&mut self, align_items: AlignItems)
        ensures
            *final(self) == (Flexbox { align_items, ..*old(self) }),
    {
        self.align_items = align_items;
    }

    /// By default the flexbox infers its size envelope from its container;
    /// a custom allocator overrides that resolution.
    pub fn set_area_allocator(&mut self, area_allocator: Option<A>)
        ensures
            *final(self) == (Flexbox { area_allocator, ..*old(self) }),
    {
        self.area_allocator = area_allocator;
    }
}

/// The size envelope a container resolves for itself: the allocator's
/// answer when one is configured, else the unconstrained envelope bounded
/// by the container's extent.
pub open spec fn envelope_spec<A: AreaAllocator>(
    alloc: Option<A>,
    screen: (u64, u64),
    container: (u64, u64),
) -> WidgetSize {
    match alloc {
        Option::Some(a) => a.envelope_spec(screen, container),
        Option::None => WidgetSize {
            min_width: 0,
            width: 0,
            max_width: container.0,
            min_height: 0,
            height: 0,
            max_height: container.1,
        },
    }
}

/// The sizes the children report when measured against the inner
/// constraint `inner` (the envelope's maxima).
pub open spec fn child_sizes_spec<B, W: Widget<B>>(
    ws: Seq<W>,
    screen: (u64, u64),
    inner: (u64, u64),
) -> Seq<WidgetSize> {
    Seq::new(ws.len(), |i: int| ws[i].size_spec(screen, inner))
}

/// Most children one flexbox measures in a single pass; the bound keeps the
/// sums of their extents far below `u64` overflow.
pub const MAX_CHILDREN: usize = 0x1000_0000;

/// The smaller of two integers.
pub open spec fn imin(a: int, b: int) -> int {
    if a <= b {
        a
    } else {
        b
    }
}

/// The larger of two integers.
pub open spec fn imax(a: int, b: int) -> int {
    if a >= b {
        a
    } else {
        b
    }
}

/// `a - b`, stopped at zero: leftover space is never negative.
pub open spec fn sub0(a: int, b: int) -> int {
    if a >= b {
        a - b
    } else {
        0
    }
}

/// Every size in the sequence is well formed.
pub open spec fn sizes_valid(s: Seq<WidgetSize>) -> bool {
    forall|i: int| 0 <= i < s.len() ==> s[i].valid()
}

/// The total width of a line: the sum of its items' proposed widths.
pub open spec fn row_width_of(row: Seq<WidgetSize>) -> int
    decreases row.len(),
{
    if row.len() == 0 {
        0
    } else {
        row_width_of(row.drop_last()) + row.last().width
    }
}

/// The height of a line: the largest proposed height among its items.
pub open spec fn row_height_of(row: Seq<WidgetSize>) -> int
    decreases row.len(),
{
    if row.len() == 0 {
        0
    } else {
        imax(row_height_of(row.drop_last()), row.last().height as int)
    }
}

/// The largest minimum height among a line's items: the floor below which
/// the line cannot be shrunk.
pub open spec fn row_min_height_of(row: Seq<WidgetSize>) -> int
    decreases row.len(),
{
    if row.len() == 0 {
        0
    } else {
        imax(row_min_height_of(row.drop_last()), row.last().min_height as int)
    }
}

/// A line's total shrink capacity: the sum of `width - min_width` over its
/// items.
pub open spec fn row_capacity_of(row: Seq<WidgetSize>) -> int
    decreases row.len(),
{
    if row.len() == 0 {
        0
    } else {
        row_capacity_of(row.drop_last()) + (row.last().width - row.last().min_width)
    }
}

/// Whether `next` joins the line `row` instead of starting a new one: it
/// always does when the line is still empty or under `NoWrap`; under `Wrap`
/// only while the line stays within the container's maximum width.
pub open spec fn row_accepts(
    row: Seq<WidgetSize>,
    next: WidgetSize,
    wrap: FlexWrap,
    max_w: int,
) -> bool {
    ||| row.len() == 0
    ||| match wrap {
        FlexWrap::NoWrap => true,
        FlexWrap::Wrap => row_width_of(row) + next.width <= max_w,
        FlexWrap::WrapReverse => true,
    }
}

/// Greedy wrap-line formation: each size joins the current line while
/// [`row_accepts`] allows it and opens a new line otherwise. No empty line
/// is ever emitted.
pub open spec fn wrap_rows(sizes: Seq<WidgetSize>, wrap: FlexWrap, max_w: int) -> Seq<
    Seq<WidgetSize>,
>
    decreases sizes.len(),
{
    if sizes.len() == 0 {
        Seq::empty()
    } else {
        let rest = wrap_rows(sizes.drop_last(), wrap, max_w);
        let x = sizes.last();
        if rest.len() == 0 {
            seq![seq![x]]
        } else if row_accepts(rest.last(), x, wrap, max_w) {
            rest.update(rest.len() - 1, rest.last().push(x))
        } else {
            rest.push(seq![x])
        }
    }
}

/// How much of its shrink capacity `cap` one item gives up when `over`
/// overflow remains against `total` remaining capacity: its proportional
/// share, rounded down, and all of it once the overflow covers the
/// remaining capacity. A line without capacity gives nothing (the residual
/// overflow is accepted, not an error).
pub open spec fn shrink_amount(cap: int, over: int, total: int) -> int {
    if total <= 0 {
        0
    } else if over >= total {
        cap
    } else {
        cap * over / total
    }
}

/// One line's widths after distributing `over` overflow against `total`
/// remaining shrink capacity, item by item from the left.
pub open spec fn shrink_row_rec(row: Seq<WidgetSize>, over: int, total: int) -> Seq<WidgetSize>
    decreases row.len(),
{
    if row.len() == 0 {
        Seq::empty()
    } else {
        let x = row.first();
        let cap = x.width - x.min_width;
        let t = shrink_amount(cap, over, total);
        seq![WidgetSize { width: (x.width - t) as u64, ..x }] + shrink_row_rec(
            row.drop_first(),
            over - t,
            total - cap,
        )
    }
}

/// A line after horizontal overflow resolution: untouched while it fits,
/// otherwise shrunk by [`shrink_row_rec`].
pub open spec fn shrink_row(row: Seq<WidgetSize>, max_w: int) -> Seq<WidgetSize> {
    if row_width_of(row) > max_w {
        shrink_row_rec(row, row_width_of(row) - max_w, row_capacity_of(row))
    } else {
        row
    }
}

/// All lines after horizontal overflow resolution, each independently.
pub open spec fn shrunk_rows(rows: Seq<Seq<WidgetSize>>, max_w: int) -> Seq<Seq<WidgetSize>> {
    rows.map_values(|row: Seq<WidgetSize>| shrink_row(row, max_w))
}

/// How much a line may shrink vertically: its height above the tallest
/// minimum height among its items.
pub open spec fn row_shrinkable(row: Seq<WidgetSize>) -> int {
    row_height_of(row) - row_min_height_of(row)
}

/// The sum of the lines' heights: the flexbox's unresolved total height.
pub open spec fn total_height_of(rows: Seq<Seq<WidgetSize>>) -> int
    decreases rows.len(),
{
    if rows.len() == 0 {
        0
    } else {
        total_height_of(rows.drop_last()) + row_height_of(rows.last())
    }
}

/// Each line's shrinkable amount paired with its position.
pub open spec fn shrink_pairs(rows: Seq<Seq<WidgetSize>>) -> Seq<(u64, usize)> {
    Seq::new(rows.len(), |i: int| (row_shrinkable(rows[i]) as u64, i as usize))
}

/// `x` inserted behind the last element of `s` that does not exceed it:
/// one step of a stable insertion sort on the first component.
pub open spec fn insert_sorted(s: Seq<(u64, usize)>, x: (u64, usize)) -> Seq<(u64, usize)>
    decreases s.len(),
{
    if s.len() == 0 {
        seq![x]
    } else if s.last().0 <= x.0 {
        s.push(x)
    } else {
        insert_sorted(s.drop_last(), x).push(s.last())
    }
}

/// The pairs sorted by ascending first component, stably: equal amounts
/// keep their original order.
pub open spec fn sort_pairs(s: Seq<(u64, usize)>) -> Seq<(u64, usize)>
    decreases s.len(),
{
    if s.len() == 0 {
        Seq::empty()
    } else {
        insert_sorted(sort_pairs(s.drop_last()), s.last())
    }
}

/// Walking the lines from least to most shrinkable, each line gives up an
/// even share of the remaining overflow, capped at its own shrinkable
/// amount: the result pairs each line's position with its height reduction.
pub open spec fn vshrink_give(sorted: Seq<(u64, usize)>, over: int) -> Seq<(usize, u64)>
    decreases sorted.len(),
{
    if sorted.len() == 0 {
        Seq::empty()
    } else {
        let quota = over / sorted.len() as int;
        let amt = imin(sorted.first().0 as int, quota);
        seq![(sorted.first().1, amt as u64)] + vshrink_give(sorted.drop_first(), over - amt)
    }
}

/// The reduction recorded for line `i` (zero when none is recorded).
pub open spec fn lookup_reduction(gives: Seq<(usize, u64)>, i: usize) -> u64
    decreases gives.len(),
{
    if gives.len() == 0 {
        0u64
    } else if gives.first().0 == i {
        gives.first().1
    } else {
        lookup_reduction(gives.drop_first(), i)
    }
}

/// Every item of the line with its height lowered by `r`, stopped at zero.
pub open spec fn reduce_row_heights(row: Seq<WidgetSize>, r: u64) -> Seq<WidgetSize> {
    row.map_values(
        |w: WidgetSize| WidgetSize { height: sub0(w.height as int, r as int) as u64, ..w },
    )
}

/// The height reductions that resolve vertical overflow: none while the
/// total height fits `max_h`, else the per-line reductions of
/// [`vshrink_give`] over the stably sorted shrinkable amounts.
pub open spec fn vshrink_reductions(rows: Seq<Seq<WidgetSize>>, max_h: int) -> Seq<(usize, u64)> {
    if total_height_of(rows) > max_h {
        vshrink_give(sort_pairs(shrink_pairs(rows)), total_height_of(rows) - max_h)
    } else {
        Seq::empty()
    }
}

/// All lines after vertical overflow resolution.
pub open spec fn vshrunk_rows(rows: Seq<Seq<WidgetSize>>, max_h: int) -> Seq<Seq<WidgetSize>> {
    let gives = vshrink_reductions(rows, max_h);
    Seq::new(rows.len(), |i: int| reduce_row_heights(rows[i], lookup_reduction(gives, i as usize)))
}

/// The lines' heights after vertical overflow resolution.
pub open spec fn vshrunk_heights(rows: Seq<Seq<WidgetSize>>, max_h: int) -> Seq<int> {
    let gives = vshrink_reductions(rows, max_h);
    Seq::new(rows.len(), |i: int| row_height_of(rows[i]) - lookup_reduction(gives, i as usize))
}

/// The widest line's width: the flexbox's resolved content width.
pub open spec fn max_row_width(rows: Seq<Seq<WidgetSize>>) -> int
    decreases rows.len(),
{
    if rows.len() == 0 {
        0
    } else {
        imax(max_row_width(rows.drop_last()), row_width_of(rows.last()))
    }
}

/// The sum of the resolved line heights.
pub open spec fn sum_heights(hs: Seq<int>) -> int
    decreases hs.len(),
{
    if hs.len() == 0 {
        0
    } else {
        sum_heights(hs.drop_last()) + hs.last()
    }
}

/// The envelope grown to the content where the content exceeds it, each
/// axis clamped into the envelope's own range.
pub open spec fn fitted_envelope(env: WidgetSize, fw: int, fh: int) -> WidgetSize {
    let e1 = if fw > env.width {
        env.with_width(fw)
    } else {
        env
    };
    if fh > e1.height {
        e1.with_height(fh)
    } else {
        e1
    }
}

/// Every item of the line with its height set to `h`, clamped into the
/// item's own limits.
pub open spec fn stretch_row(row: Seq<WidgetSize>, h: int) -> Seq<WidgetSize> {
    row.map_values(|w: WidgetSize| w.with_height(h))
}

/// The starting offset and the gap that a justify-content policy derives
/// from `left` leftover space for a line of `len` items (`len >= 1`).
pub open spec fn justify_offsets(jc: JustifyContent, left: int, len: int) -> (int, int) {
    match jc {
        JustifyContent::Left => (0, 0),
        JustifyContent::Right => (left, 0),
        JustifyContent::Center => (left / 2, 0),
        JustifyContent::SpaceBetween => if len <= 1 {
            (left / 2, 0)
        } else {
            (0, left / (len - 1))
        },
        JustifyContent::SpaceAround => (left / len / 2, left / len),
        JustifyContent::SpaceEvenly => (left / (len + 1), left / (len + 1)),
    }
}

/// The starting offset and the gap that an align-content policy derives
/// from `left` leftover space for `n` lines (`n >= 1`); `Stretch` places
/// like `Top` and is resolved by [`content_rows`] and [`content_heights`].
pub open spec fn align_offsets(ac: AlignContent, left: int, n: int) -> (int, int) {
    match ac {
        AlignContent::Top => (0, 0),
        AlignContent::Bottom => (left, 0),
        AlignContent::Center => (left / 2, 0),
        AlignContent::SpaceBetween => if n <= 1 {
            (left / 2, 0)
        } else {
            (0, left / (n - 1))
        },
        AlignContent::SpaceAround => (left / n / 2, left / n),
        AlignContent::SpaceEvenly => (left / (n + 1), left / (n + 1)),
        AlignContent::Stretch => (0, 0),
    }
}

/// The lines as placement sees them: under `Stretch` every item is
/// re-stretched to its line's grown height, otherwise unchanged.
pub open spec fn content_rows(
    ac: AlignContent,
    rows: Seq<Seq<WidgetSize>>,
    heights: Seq<int>,
    left: int,
) -> Seq<Seq<WidgetSize>> {
    if ac is Stretch && rows.len() > 0 {
        let add = left / rows.len() as int;
        Seq::new(rows.len(), |i: int| stretch_row(rows[i], heights[i] + add))
    } else {
        rows
    }
}

/// The line heights as placement sees them: under `Stretch` every line
/// grows by an even share of the leftover space, otherwise unchanged.
pub open spec fn content_heights(
    ac: AlignContent,
    heights: Seq<int>,
    n: int,
    left: int,
) -> Seq<int> {
    if ac is Stretch && n > 0 {
        let add = left / n;
        heights.map_values(|h: int| h + add)
    } else {
        heights
    }
}

/// The rectangle one item occupies: `x` is its left edge, `y` the top of
/// its line of height `rh`, and the align-items policy chooses its vertical
/// offset within the line and its final height.
pub open spec fn item_rect(w: WidgetSize, x: int, y: int, rh: int, ai: AlignItems) -> Rect {
    let yoff = match ai {
        AlignItems::Top => 0,
        AlignItems::Bottom => sub0(rh, w.height as int),
        AlignItems::Center => sub0(rh, w.height as int) / 2,
        AlignItems::Stretch => 0,
    };
    let h = match ai {
        AlignItems::Top => w.height as int,
        AlignItems::Bottom => w.height as int,
        AlignItems::Center => w.height as int,
        AlignItems::Stretch => clamp_spec(rh, w.min_height as int, w.max_height as int),
    };
    Rect {
        min: ((x as u64), ((y + yoff) as u64)),
        max: (((x + w.width) as u64), ((y + yoff + h) as u64)),
    }
}

/// The rectangles of one line's items, left to right from `x` with `x_gap`
/// between them.
pub open spec fn place_row(
    row: Seq<WidgetSize>,
    x: int,
    y: int,
    rh: int,
    x_gap: int,
    ai: AlignItems,
) -> Seq<Rect>
    decreases row.len(),
{
    if row.len() == 0 {
        Seq::empty()
    } else {
        seq![item_rect(row.first(), x, y, rh, ai)] + place_row(
            row.drop_first(),
            x + row.first().width + x_gap,
            y,
            rh,
            x_gap,
            ai,
        )
    }
}

/// The rectangles of all lines, top to bottom from `y` with `y_gap` between
/// them; each line starts at the offset its justify-content policy derives
/// from the leftover of `avail_w`.
pub open spec fn place_rows(
    rows: Seq<Seq<WidgetSize>>,
    heights: Seq<int>,
    y: int,
    y_gap: int,
    avail_w: int,
    jc: JustifyContent,
    ai: AlignItems,
) -> Seq<Rect>
    decreases rows.len(),
{
    if rows.len() == 0 {
        Seq::empty()
    } else {
        let row = rows.first();
        let offs = justify_offsets(jc, sub0(avail_w, row_width_of(row)), row.len() as int);
        place_row(row, offs.0, y, heights.first(), offs.1, ai) + place_rows(
            rows.drop_first(),
            heights.drop_first(),
            y + heights.first() + y_gap,
            y_gap,
            avail_w,
            jc,
            ai,
        )
    }
}

/// The number of items over all lines.
pub open spec fn sum_lens(rows: Seq<Seq<WidgetSize>>) -> int
    decreases rows.len(),
{
    if rows.len() == 0 {
        0
    } else {
        sum_lens(rows.drop_last()) + rows.last().len()
    }
}

/// A nonempty line's shrink capacity decomposes at its first item.
proof fn lemma_row_capacity_first(row: Seq<WidgetSize>)
    requires
        row.len() > 0,
    ensures
        row_capacity_of(row) == (row.first().width - row.first().min_width) + row_capacity_of(
            row.drop_first(),
        ),
    decreases row.len(),
{
    if row.len() == 1 {
        assert(row.drop_first() =~= Seq::empty());
        assert(row.drop_last() =~= Seq::empty());
    } else {
        lemma_row_capacity_first(row.drop_last());
        assert(row.drop_last().drop_first() =~= row.drop_first().drop_last());
        assert(row.drop_last().first() == row.first());
        assert(row.drop_first().last() == row.last());
    }
}

/// The item count over all lines decomposes at the first line.
pub(crate) proof fn lemma_sum_lens_first(rows: Seq<Seq<WidgetSize>>)
    requires
        rows.len() > 0,
    ensures
        sum_lens(rows) == rows.first().len() + sum_lens(rows.drop_first()),
    decreases rows.len(),
{
    if rows.len() == 1 {
        assert(rows.drop_first() =~= Seq::<Seq<WidgetSize>>::empty());
        assert(rows.drop_last() =~= Seq::<Seq<WidgetSize>>::empty());
    } else {
        lemma_sum_lens_first(rows.drop_last());
        assert(rows.drop_last().drop_first() =~= rows.drop_first().drop_last());
        assert(rows.drop_last().first() == rows.first());
        assert(rows.drop_first().last() == rows.last());
    }
}

/// Lines with itemwise equal widths have equal total width.
pub(crate) proof fn lemma_row_width_congruence(a: Seq<WidgetSize>, b: Seq<WidgetSize>)
    requires
        a.len() == b.len(),
        forall|j: int| 0 <= j < a.len() ==> a[j].width == b[j].width,
    ensures
        row_width_of(a) == row_width_of(b),
    decreases a.len(),
{
    if a.len() > 0 {
        lemma_row_width_congruence(a.drop_last(), b.drop_last());
    }
}

/// Lines with itemwise equal heights have equal height.
proof fn lemma_row_height_congruence(a: Seq<WidgetSize>, b: Seq<WidgetSize>)
    requires
        a.len() == b.len(),
        forall|j: int| 0 <= j < a.len() ==> a[j].height == b[j].height,
    ensures
        row_height_of(a) == row_height_of(b),
    decreases a.len(),
{
    if a.len() > 0 {
        lemma_row_height_congruence(a.drop_last(), b.drop_last());
    }
}

/// Lines with itemwise equal minimum heights have equal shrink floor.
proof fn lemma_row_min_height_congruence(a: Seq<WidgetSize>, b: Seq<WidgetSize>)
    requires
        a.len() == b.len(),
        forall|j: int| 0 <= j < a.len() ==> a[j].min_height == b[j].min_height,
    ensures
        row_min_height_of(a) == row_min_height_of(b),
    decreases a.len(),
{
    if a.len() > 0 {
        lemma_row_min_height_congruence(a.drop_last(), b.drop_last());
    }
}

/// A well-formed line's width is nonnegative and bounded by its length
/// times [`MAX_DIM`].
pub(crate) proof fn lemma_row_width_bound(row: Seq<WidgetSize>)
    requires
        sizes_valid(row),
    ensures
        0 <= row_width_of(row) <= row.len() * MAX_DIM,
    decreases row.len(),
{
    if row.len() > 0 {
        assert(sizes_valid(row.drop_last()));
        lemma_row_width_bound(row.drop_last());
        assert(row.len() * MAX_DIM == (row.len() - 1) * MAX_DIM + MAX_DIM) by (nonlinear_arith);
    }
}

/// A well-formed line's shrink floor and height are ordered and bounded.
pub(crate) proof fn lemma_row_height_bounds(row: Seq<WidgetSize>)
    requires
        sizes_valid(row),
    ensures
        0 <= row_min_height_of(row),
        row_min_height_of(row) <= row_height_of(row),
        row_height_of(row) <= MAX_DIM,
    decreases row.len(),
{
    if row.len() > 0 {
        assert(sizes_valid(row.drop_last()));
        lemma_row_height_bounds(row.drop_last());
    }
}

/// A well-formed line's shrink capacity lies between zero and its width.
proof fn lemma_row_capacity_bounds(row: Seq<WidgetSize>)
    requires
        sizes_valid(row),
    ensures
        0 <= row_capacity_of(row) <= row_width_of(row),
    decreases row.len(),
{
    if row.len() > 0 {
        assert(sizes_valid(row.drop_last()));
        lemma_row_capacity_bounds(row.drop_last());
    }
}

/// Wrap formation partitions the sizes: no line is empty, every line is
/// made of well-formed sizes, and the item counts add back up.
proof fn lemma_wrap_rows_props(sizes: Seq<WidgetSize>, wrap: FlexWrap, max_w: int)
    requires
        sizes_valid(sizes),
    ensures
        wrap_rows(sizes, wrap, max_w).len() <= sizes.len(),
        sum_lens(wrap_rows(sizes, wrap, max_w)) == sizes.len(),
        forall|i: int|
            0 <= i < wrap_rows(sizes, wrap, max_w).len() ==> {
                &&& wrap_rows(sizes, wrap, max_w)[i].len() >= 1
                &&& wrap_rows(sizes, wrap, max_w)[i].len() <= sizes.len()
                &&& sizes_valid(wrap_rows(sizes, wrap, max_w)[i])
            },
    decreases sizes.len(),
{
    if sizes.len() > 0 {
        let prev = sizes.drop_last();
        assert(sizes_valid(prev));
        lemma_wrap_rows_props(prev, wrap, max_w);
        let rest = wrap_rows(prev, wrap, max_w);
        let x = sizes.last();
        let rows = wrap_rows(sizes, wrap, max_w);
        assert(x.valid());
        if rest.len() == 0 {
            assert(rows =~= seq![seq![x]]);
            assert(rows.drop_last() =~= Seq::<Seq<WidgetSize>>::empty());
            assert(sizes_valid(rows[0])) by {
                assert(rows[0] =~= seq![x]);
            }
        } else if row_accepts(rest.last(), x, wrap, max_w) {
            let grown = rest.last().push(x);
            assert(rows == rest.update(rest.len() - 1, grown));
            assert(rows.drop_last() =~= rest.drop_last());
            assert(rows.last() == grown);
            assert(sum_lens(rows) == sum_lens(rest.drop_last()) + grown.len());
            assert(sizes_valid(grown)) by {
                assert(forall|j: int|
                    0 <= j < grown.len() ==> grown[j] == (if j < rest.last().len() {
                        rest.last()[j]
                    } else {
                        x
                    }));
            }
            assert(forall|i: int| 0 <= i < rows.len() - 1 ==> rows[i] == rest[i]);
        } else {
            assert(rows == rest.push(seq![x]));
            assert(rows.drop_last() =~= rest);
            assert(rows.last() =~= seq![x]);
            assert(sizes_valid(rows[rows.len() - 1]));
            assert(forall|i: int| 0 <= i < rows.len() - 1 ==> rows[i] == rest[i]);
        }
    }
}

/// Distributing overflow never widens an item, never squeezes it below its
/// minimum width, and touches nothing but widths.
proof fn lemma_shrink_row_rec_props(row: Seq<WidgetSize>, over: int, total: int)
    requires
        sizes_valid(row),
        over >= 0,
        total == row_capacity_of(row),
    ensures
        shrink_row_rec(row, over, total).len() == row.len(),
        forall|j: int|
            0 <= j < row.len() ==> {
                &&& shrink_row_rec(row, over, total)[j] == (WidgetSize {
                    width: shrink_row_rec(row, over, total)[j].width,
                    ..row[j]
                })
                &&& row[j].min_width <= shrink_row_rec(row, over, total)[j].width <= row[j].width
            },
    decreases row.len(),
{
    if row.len() > 0 {
        let x = row.first();
        let cap = x.width - x.min_width;
        let t = shrink_amount(cap, over, total);
        lemma_row_capacity_first(row);
        assert(sizes_valid(row.drop_first()));
        lemma_row_capacity_bounds(row.drop_first());
        assert(0 <= cap);
        assert(total - cap == row_capacity_of(row.drop_first()));
        assert(0 <= t <= cap) by {
            if total > 0 && over < total {
                assert(cap * over / total <= cap && cap * over / total >= 0) by (nonlinear_arith)
                    requires
                        cap >= 0,
                        0 <= over < total,
                ;
            }
        }
        assert(t <= over) by {
            if total > 0 {
                if over >= total {
                    assert(cap <= total);
                } else {
                    assert(cap * over / total <= over) by (nonlinear_arith)
                        requires
                            0 <= cap <= total,
                            0 <= over,
                            0 < total,
                    ;
                }
            }
        }
        lemma_shrink_row_rec_props(row.drop_first(), over - t, total - cap);
        let shrunk = shrink_row_rec(row, over, total);
        let rest = shrink_row_rec(row.drop_first(), over - t, total - cap);
        assert(shrunk =~= seq![WidgetSize { width: (x.width - t) as u64, ..x }] + rest);
        assert(forall|j: int| 1 <= j < row.len() ==> shrunk[j] == rest[j - 1]);
        assert(forall|j: int| 1 <= j < row.len() ==> row[j] == row.drop_first()[j - 1]);
    }
}

/// Stable insertion keeps the length and introduces no new elements.
proof fn lemma_insert_sorted_props(s: Seq<(u64, usize)>, x: (u64, usize))
    ensures
        insert_sorted(s, x).len() == s.len() + 1,
        forall|k: int|
            0 <= k < s.len() + 1 ==> (insert_sorted(s, x)[k] == x || s.contains(
                #[trigger] insert_sorted(s, x)[k],
            )),
    decreases s.len(),
{
    if s.len() > 0 && !(s.last().0 <= x.0) {
        lemma_insert_sorted_props(s.drop_last(), x);
        let r = insert_sorted(s.drop_last(), x).push(s.last());
        assert(forall|k: int|
            0 <= k < s.len() - 1 ==> s.drop_last().contains(#[trigger] s.drop_last()[k])
                && s.drop_last()[k] == s[k]);
        assert(forall|e: (u64, usize)| s.drop_last().contains(e) ==> s.contains(e));
        assert(s.contains(s.last()));
    }
}

/// Sorting keeps the length and permutes: every element of the result is
/// an element of the input.
proof fn lemma_sort_pairs_props(s: Seq<(u64, usize)>)
    ensures
        sort_pairs(s).len() == s.len(),
        forall|k: int| 0 <= k < s.len() ==> s.contains(#[trigger] sort_pairs(s)[k]),
    decreases s.len(),
{
    if s.len() > 0 {
        lemma_sort_pairs_props(s.drop_last());
        lemma_insert_sorted_props(sort_pairs(s.drop_last()), s.last());
        assert(forall|e: (u64, usize)| s.drop_last().contains(e) ==> s.contains(e));
        assert(s.contains(s.last()));
    }
}

/// Giving out the overflow covers each sorted line once, never beyond its
/// shrinkable amount.
proof fn lemma_vshrink_give_props(sorted: Seq<(u64, usize)>, over: int)
    requires
        over >= 0,
    ensures
        vshrink_give(sorted, over).len() == sorted.len(),
        forall|k: int|
            0 <= k < sorted.len() ==> {
                &&& (#[trigger] vshrink_give(sorted, over)[k]).0 == sorted[k].1
                &&& vshrink_give(sorted, over)[k].1 <= sorted[k].0
            },
    decreases sorted.len(),
{
    if sorted.len() > 0 {
        let quota = over / sorted.len() as int;
        let amt = imin(sorted.first().0 as int, quota);
        assert(0 <= quota <= over) by {
            vstd::arithmetic::div_mod::lemma_div_is_ordered_by_denominator(
                over,
                1,
                sorted.len() as int,
            );
            vstd::arithmetic::div_mod::lemma_div_pos_is_pos(over, sorted.len() as int);
            assert(over / 1 == over) by {
                vstd::arithmetic::div_mod::lemma_div_basics(over);
            }
        }
        lemma_vshrink_give_props(sorted.drop_first(), over - amt);
        let g = vshrink_give(sorted, over);
        let rest = vshrink_give(sorted.drop_first(), over - amt);
        assert(g =~= seq![(sorted.first().1, amt as u64)] + rest);
        assert(forall|k: int| 1 <= k < sorted.len() ==> g[k] == rest[k - 1]);
        assert(forall|k: int| 1 <= k < sorted.len() ==> sorted[k] == sorted.drop_first()[k - 1]);
    }
}

/// A recorded reduction never exceeds the shrinkable amount the same pair
/// carries.
proof fn lemma_lookup_reduction_le(gives: Seq<(usize, u64)>, sorted: Seq<(u64, usize)>, i: usize)
    requires
        gives.len() == sorted.len(),
        forall|k: int|
            0 <= k < sorted.len() ==> (#[trigger] gives[k]).0 == sorted[k].1 && gives[k].1
                <= sorted[k].0,
    ensures
        lookup_reduction(gives, i) == 0 || exists|k: int|
            0 <= k < sorted.len() && sorted[k].1 == i && (#[trigger] sorted[k]).0
                >= lookup_reduction(gives, i),
    decreases gives.len(),
{
    if gives.len() > 0 {
        if gives.first().0 == i {
            assert(sorted[0].1 == i && sorted[0].0 >= lookup_reduction(gives, i));
        } else {
            lemma_lookup_reduction_le(gives.drop_first(), sorted.drop_first(), i);
            assert(forall|k: int|
                0 <= k < sorted.len() - 1 ==> (#[trigger] gives.drop_first()[k]) == gives[k + 1]
                    && sorted.drop_first()[k] == sorted[k + 1]);
        }
    }
}

/// Placement emits one rectangle per item of the line.
proof fn lemma_place_row_len(
    row: Seq<WidgetSize>,
    x: int,
    y: int,
    rh: int,
    x_gap: int,
    ai: AlignItems,
)
    ensures
        place_row(row, x, y, rh, x_gap, ai).len() == row.len(),
    decreases row.len(),
{
    if row.len() > 0 {
        lemma_place_row_len(row.drop_first(), x + row.first().width + x_gap, y, rh, x_gap, ai);
    }
}

/// Placement emits one rectangle per item over all lines.
proof fn lemma_place_rows_len(
    rows: Seq<Seq<WidgetSize>>,
    heights: Seq<int>,
    y: int,
    y_gap: int,
    avail_w: int,
    jc: JustifyContent,
    ai: AlignItems,
)
    ensures
        place_rows(rows, heights, y, y_gap, avail_w, jc, ai).len() == sum_lens(rows),
    decreases rows.len(),
{
    if rows.len() > 0 {
        let row = rows.first();
        let offs = justify_offsets(jc, sub0(avail_w, row_width_of(row)), row.len() as int);
        lemma_place_row_len(row, offs.0, y, heights.first(), offs.1, ai);
        lemma_place_rows_len(
            rows.drop_first(),
            heights.drop_first(),
            y + heights.first() + y_gap,
            y_gap,
            avail_w,
            jc,
            ai,
        );
        lemma_sum_lens_first(rows);
    }
}

/// One wrap line while measurement resolves it: the items placed on it,
/// its cumulative width and its height.
pub(crate) struct Row {
    pub(crate) items: Vec<WidgetSize>,
    pub(crate) width: u64,
    pub(crate) height: u64,
}

impl Row {
    /// The cached extents agree with the items, every item is well formed,
    /// and the line is not empty.
    pub(crate) open spec fn ok(self) -> bool {
        &&& self.width == row_width_of(self.items@)
        &&& self.height == row_height_of(self.items@)
        &&& sizes_valid(self.items@)
        &&& 1 <= self.items@.len() <= MAX_CHILDREN
    }
}

/// The lines of a row vector, as the specification sees them.
pub(crate) open spec fn rows_view(rows: Seq<Row>) -> Seq<Seq<WidgetSize>> {
    rows.map_values(|r: Row| r.items@)
}

/// Wrap-line formation: partition the sizes into lines under the wrap
/// policy, caching each line's width and height.
fn build_rows(sizes: &Vec<WidgetSize>, wrap: FlexWrap, max_w: u64) -> (rows: Vec<Row>)
    requires
        sizes_valid(sizes@),
        sizes@.len() <= MAX_CHILDREN,
        !(wrap is WrapReverse),
        max_w <= MAX_DIM,
    ensures
        rows_view(rows@) == wrap_rows(sizes@, wrap, max_w as int),
        forall|i: int| 0 <= i < rows@.len() ==> (#[trigger] rows@[i]).ok(),
{
    let n = sizes.len();
    let mut rows: Vec<Row> = Vec::new();
    let mut cur: Vec<WidgetSize> = Vec::new();
    let mut cur_w: u64 = 0;
    let mut cur_h: u64 = 0;
    let mut i: usize = 0;
    while i < n
        invariant
            n == sizes@.len() <= MAX_CHILDREN,
            sizes_valid(sizes@),
            max_w <= MAX_DIM,
            !(wrap is WrapReverse),
            i <= n,
            cur_w == row_width_of(cur@),
            cur_h == row_height_of(cur@),
            sizes_valid(cur@),
            cur@.len() <= i,
            i > 0 ==> cur@.len() >= 1,
            i == 0 ==> cur@.len() == 0 && rows@.len() == 0,
            forall|k: int| 0 <= k < rows@.len() ==> (#[trigger] rows@[k]).ok(),
            i == 0 ==> wrap_rows(sizes@.take(i as int), wrap, max_w as int) =~= Seq::<
                Seq<WidgetSize>,
            >::empty(),
            i > 0 ==> wrap_rows(sizes@.take(i as int), wrap, max_w as int) =~= rows_view(
                rows@,
            ).push(cur@),
        decreases n - i,
    {
        let w = sizes[i];
        proof {
            assert(sizes@.take(i + 1).drop_last() =~= sizes@.take(i as int));
            assert(sizes@.take(i + 1).last() == sizes@[i as int]);
            lemma_row_width_bound(cur@);
        }
        let close = match wrap {
            FlexWrap::NoWrap => false,
            FlexWrap::Wrap => cur.len() > 0 && cur_w + w.width > max_w,
            FlexWrap::WrapReverse => false,
        };
        let ghost prev_rows = rows@;
        let ghost prev_cur = cur@;
        if close {
            rows.push(Row { items: cur, width: cur_w, height: cur_h });
            cur = Vec::new();
            cur_w = 0;
            cur_h = 0;
        }
        cur.push(w);
        proof {
            assert(cur@.drop_last() =~= (if close {
                Seq::<WidgetSize>::empty()
            } else {
                prev_cur
            }));
        }
        cur_w = cur_w + w.width;
        cur_h = if w.height > cur_h {
            w.height
        } else {
            cur_h
        };
        proof {
            assert(cur@.last() == w);
            assert(cur@.len() > 0);
            assert(row_width_of(cur@) == row_width_of(cur@.drop_last()) + w.width);
            assert(cur_w == row_width_of(cur@));
            assert(row_height_of(cur@) == imax(
                row_height_of(cur@.drop_last()),
                w.height as int,
            ));
            if close {
                assert(row_height_of(cur@.drop_last()) == 0);
            } else {
                assert(row_height_of(cur@.drop_last()) == row_height_of(prev_cur));
            }
            assert(cur_h == row_height_of(cur@));
        }
        proof {
            let full = wrap_rows(sizes@.take(i + 1), wrap, max_w as int);
            let rest = wrap_rows(sizes@.take(i as int), wrap, max_w as int);
            if i == 0 {
                assert(cur@ =~= seq![w]);
                assert(full =~= rows_view(rows@).push(cur@));
            } else if close {
                assert(cur@ =~= seq![w]);
                assert(!row_accepts(prev_cur, w, wrap, max_w as int));
                assert(full =~= rest.push(seq![w]));
                assert(rows_view(rows@) =~= rows_view(prev_rows).push(prev_cur));
                assert(full =~= rows_view(rows@).push(cur@));
            } else {
                assert(row_accepts(prev_cur, w, wrap, max_w as int));
                assert(rest.last() == prev_cur);
                assert(full =~= rest.update(rest.len() - 1, prev_cur.push(w)));
                assert(full =~= rows_view(rows@).push(cur@));
            }
        }
        i = i + 1;
    }
    proof {
        assert(sizes@.take(n as int) =~= sizes@);
    }
    if cur.len() > 0 {
        rows.push(Row { items: cur, width: cur_w, height: cur_h });
    }
    proof {
        if n == 0 {
            assert(rows_view(rows@) =~= wrap_rows(sizes@, wrap, max_w as int));
        } else {
            assert(rows_view(rows@) =~= wrap_rows(sizes@, wrap, max_w as int));
        }
    }
    rows
}

/// Resolve one line's horizontal overflow: when the line is wider than
/// `max_w`, distribute the overflow over the items in proportion to their
/// shrink capacity.
fn shrink_row_exec(row: Row, max_w: u64) -> (out: Row)
    requires
        row.ok(),
        max_w <= MAX_DIM,
    ensures
        out.items@ == shrink_row(row.items@, max_w as int),
        out.ok(),
        out.height == row.height,
        out.items@.len() == row.items@.len(),
        row_height_of(out.items@) == row_height_of(row.items@),
        row_min_height_of(out.items@) == row_min_height_of(row.items@),
{
    if row.width <= max_w {
        return row;
    }
    let items = row.items;
    let n = items.len();
    let over0 = row.width - max_w;
    proof {
        lemma_row_width_bound(items@);
    }
    // Total shrink capacity of the line.
    let mut total0: u64 = 0;
    let mut j: usize = 0;
    while j < n
        invariant
            n == items@.len() <= MAX_CHILDREN,
            sizes_valid(items@),
            j <= n,
            total0 == row_capacity_of(items@.take(j as int)),
            total0 <= j * MAX_DIM,
        decreases n - j,
    {
        proof {
            assert(items@.take(j + 1).drop_last() =~= items@.take(j as int));
            assert(items@.take(j + 1).last() == items@[j as int]);
            assert((j + 1) * MAX_DIM == j * MAX_DIM + MAX_DIM) by (nonlinear_arith);
        }
        let w = items[j];
        total0 = total0 + (w.width - w.min_width);
        j = j + 1;
    }
    proof {
        assert(items@.take(n as int) =~= items@);
    }
    // Walk the line, giving each item its proportional share of the
    // overflow against the remaining capacity.
    let ghost spec_out = shrink_row_rec(items@, over0 as int, total0 as int);
    proof {
        lemma_shrink_row_rec_props(items@, over0 as int, total0 as int);
    }
    let mut new_items: Vec<WidgetSize> = Vec::new();
    let mut new_width: u64 = 0;
    let mut over: u64 = over0;
    let mut total: u64 = total0;
    j = 0;
    while j < n
        invariant
            n == items@.len() <= MAX_CHILDREN,
            sizes_valid(items@),
            j <= n,
            spec_out == shrink_row_rec(items@, over0 as int, total0 as int),
            spec_out.len() == n,
            new_items@ =~= spec_out.take(j as int),
            new_width == row_width_of(new_items@),
            new_width <= j * MAX_DIM,
            total == row_capacity_of(items@.skip(j as int)),
            spec_out =~= new_items@ + shrink_row_rec(
                items@.skip(j as int),
                over as int,
                total as int,
            ),
        decreases n - j,
    {
        let w = items[j];
        let cap = w.width - w.min_width;
        proof {
            assert(items@.skip(j as int).first() == items@[j as int]);
            assert(items@.skip(j as int).drop_first() =~= items@.skip(j + 1));
            assert(sizes_valid(items@.skip(j as int)));
            lemma_row_capacity_first(items@.skip(j as int));
            assert(sizes_valid(items@.skip(j + 1)));
            lemma_row_capacity_bounds(items@.skip(j + 1));
            assert(cap <= total);
        }
        let t: u64 = if total == 0 {
            0
        } else if over >= total {
            cap
        } else {
            proof {
                assert(cap * (over as int) / (total as int) <= cap && cap * (over as int) / (
                total as int) >= 0) by (nonlinear_arith)
                    requires
                        cap >= 0,
                        0 <= (over as int) < (total as int),
                ;
                assert(cap * (over as int) / (total as int) <= over) by (nonlinear_arith)
                    requires
                        0 <= cap <= (total as int),
                        0 <= (over as int),
                        0 < (total as int),
                ;
                assert((cap as int) * (over as int) < 0x100000000000000000000000000000000)
                    by (nonlinear_arith)
                    requires
                        0 <= cap <= 0x10000000,
                        0 <= (over as int) < 0x10000000000000000,
                ;
            }
            (((cap as u128) * (over as u128)) / (total as u128)) as u64
        };
        proof {
            assert(t == shrink_amount(cap as int, over as int, total as int));
            assert(t <= cap && t <= over);
        }
        let shrunk = WidgetSize { width: w.width - t, ..w };
        new_items.push(shrunk);
        proof {
            assert(new_items@.drop_last() =~= spec_out.take(j as int));
            assert(new_items@ =~= spec_out.take(j + 1)) by {
                assert(shrink_row_rec(items@.skip(j as int), over as int, total as int)
                    =~= seq![shrunk] + shrink_row_rec(items@.skip(j + 1), (over - t) as int, (
                total - cap) as int));
                assert(spec_out[j as int] == shrunk);
            }
            assert((j + 1) * MAX_DIM == j * MAX_DIM + MAX_DIM) by (nonlinear_arith);
        }
        new_width = new_width + shrunk.width;
        over = over - t;
        total = total - cap;
        j = j + 1;
        proof {
            assert(new_items@.last() == shrunk);
            assert(new_width == row_width_of(new_items@));
        }
    }
    proof {
        assert(new_items@ =~= spec_out);
        assert(forall|k: int|
            0 <= k < n ==> (#[trigger] new_items@[k]).height == items@[k].height
                && new_items@[k].min_height == items@[k].min_height);
        lemma_row_height_congruence(new_items@, items@);
        lemma_row_min_height_congruence(new_items@, items@);
    }
    Row { items: new_items, width: new_width, height: row.height }
}

/// Resolve every line's horizontal overflow independently.
fn hshrink_rows(rows: Vec<Row>, max_w: u64) -> (out: Vec<Row>)
    requires
        forall|i: int| 0 <= i < rows@.len() ==> (#[trigger] rows@[i]).ok(),
        max_w <= MAX_DIM,
    ensures
        out@.len() == rows@.len(),
        rows_view(out@) == shrunk_rows(rows_view(rows@), max_w as int),
        forall|i: int| 0 <= i < out@.len() ==> (#[trigger] out@[i]).ok(),
        forall|i: int|
            0 <= i < out@.len() ==> (#[trigger] out@[i]).items@.len() == rows@[i].items@.len()
                && out@[i].height == rows@[i].height && row_min_height_of(out@[i].items@)
                == row_min_height_of(rows@[i].items@),
{
    let n = rows.len();
    let mut out: Vec<Row> = Vec::new();
    let mut rest = rows;
    let ghost orig = rest@;
    let mut i: usize = 0;
    // Consume the rows front to back, shrinking each.
    while i < n
        invariant
            n == orig.len(),
            i <= n,
            rest@ =~= orig.skip(i as int),
            forall|k: int| 0 <= k < n ==> (#[trigger] orig[k]).ok(),
            max_w <= MAX_DIM,
            out@.len() == i,
            forall|k: int|
                0 <= k < i ==> {
                    &&& (#[trigger] out@[k]).ok()
                    &&& out@[k].items@ == shrink_row(orig[k].items@, max_w as int)
                    &&& out@[k].items@.len() == orig[k].items@.len()
                    &&& out@[k].height == orig[k].height
                    &&& row_min_height_of(out@[k].items@) == row_min_height_of(orig[k].items@)
                },
        decreases n - i,
    {
        let row = rest.remove(0);
        proof {
            assert(row == orig[i as int]);
            assert(rest@ =~= orig.skip(i + 1));
        }
        let shrunk = shrink_row_exec(row, max_w);
        out.push(shrunk);
        i = i + 1;
    }
    proof {
        let sv = shrunk_rows(rows_view(orig), max_w as int);
        assert(out@.len() == n);
        assert(rows_view(orig).len() == n);
        assert(sv.len() == n);
        assert(rows_view(out@).len() == n);
        assert forall|k: int| 0 <= k < n implies rows_view(out@)[k] == sv[k] by {
            assert(rows_view(orig)[k] == orig[k].items@);
            assert(sv[k] == shrink_row(orig[k].items@, max_w as int));
            assert(rows_view(out@)[k] == out@[k].items@);
        }
        assert(rows_view(out@) =~= sv);
    }
    out
}

/// Inserting at the position the exec scan finds is what [`insert_sorted`]
/// does: everything from `j` on exceeds `x`, and the element before `j`, if
/// any, does not.
proof fn lemma_insert_sorted_at(s: Seq<(u64, usize)>, x: (u64, usize), j: int)
    requires
        0 <= j <= s.len(),
        forall|k: int| j <= k < s.len() ==> (#[trigger] s[k]).0 > x.0,
        j > 0 ==> s[j - 1].0 <= x.0,
    ensures
        insert_sorted(s, x) =~= s.subrange(0, j).push(x) + s.subrange(j, s.len() as int),
    decreases s.len(),
{
    if j == s.len() {
        if s.len() == 0 {
            assert(s.subrange(0, 0) =~= Seq::<(u64, usize)>::empty());
        } else {
            assert(s.last().0 <= x.0);
            assert(s.subrange(0, j) =~= s);
            assert(s.subrange(j, s.len() as int) =~= Seq::<(u64, usize)>::empty());
        }
    } else {
        assert(s[s.len() - 1].0 > x.0);
        assert(forall|k: int|
            j <= k < s.len() - 1 ==> (#[trigger] s.drop_last()[k]).0 == s[k].0);
        lemma_insert_sorted_at(s.drop_last(), x, j);
        assert(s.drop_last().subrange(0, j) =~= s.subrange(0, j));
        assert(s.drop_last().subrange(j, s.len() - 1) =~= s.subrange(j, s.len() - 1));
        assert(insert_sorted(s, x) == insert_sorted(s.drop_last(), x).push(s.last()));
        assert(insert_sorted(s, x) =~= s.subrange(0, j).push(x) + s.subrange(j, s.len() as int));
    }
}

/// The reduction recorded for a line never exceeds what the line can
/// shrink, which in turn never exceeds its height.
proof fn lemma_reduction_le(s: Seq<Seq<WidgetSize>>, max_h: int, i: int)
    requires
        forall|k: int| 0 <= k < s.len() ==> sizes_valid(#[trigger] s[k]),
        s.len() <= MAX_CHILDREN,
        0 <= i < s.len(),
    ensures
        0 <= lookup_reduction(vshrink_reductions(s, max_h), i as usize) <= row_shrinkable(s[i]),
        0 <= row_shrinkable(s[i]) <= row_height_of(s[i]) <= MAX_DIM,
{
    lemma_row_height_bounds(s[i]);
    let r = lookup_reduction(vshrink_reductions(s, max_h), i as usize);
    if total_height_of(s) > max_h {
        let pairs = shrink_pairs(s);
        let sorted = sort_pairs(pairs);
        let over = total_height_of(s) - max_h;
        let gives = vshrink_give(sorted, over);
        lemma_sort_pairs_props(pairs);
        lemma_vshrink_give_props(sorted, over);
        lemma_lookup_reduction_le(gives, sorted, i as usize);
        if r != 0 {
            let k = choose|k: int|
                0 <= k < sorted.len() && sorted[k].1 == i as usize && (#[trigger] sorted[k]).0
                    >= lookup_reduction(gives, i as usize);
            assert(pairs.contains(sorted[k]));
            let m = choose|m: int| 0 <= m < pairs.len() && pairs[m] == sorted[k];
            assert(pairs[m] == (row_shrinkable(s[m]) as u64, m as usize));
            lemma_row_height_bounds(s[m]);
            assert(m as usize == i as usize);
            assert(m == i);
            assert(sorted[k].0 == row_shrinkable(s[i]) as u64);
        }
    }
}

/// Resolve vertical overflow: when the lines' total height exceeds
/// `max_h`, walk them from least to most shrinkable and lower each by an
/// even share of the remaining overflow, capped at its own shrinkable
/// amount. Each returned line's cached height is its reduced height.
fn vshrink_exec(rows: Vec<Row>, max_h: u64) -> (out: Vec<Row>)
    requires
        forall|i: int| 0 <= i < rows@.len() ==> (#[trigger] rows@[i]).ok(),
        rows@.len() <= MAX_CHILDREN,
        max_h <= MAX_DIM,
    ensures
        out@.len() == rows@.len(),
        rows_view(out@) == vshrunk_rows(rows_view(rows@), max_h as int),
        forall|i: int|
            0 <= i < out@.len() ==> (#[trigger] out@[i]).height == vshrunk_heights(
                rows_view(rows@),
                max_h as int,
            )[i],
        forall|i: int|
            0 <= i < out@.len() ==> {
                &&& (#[trigger] out@[i]).width == rows@[i].width
                &&& out@[i].items@.len() == rows@[i].items@.len()
                &&& out@[i].width == row_width_of(out@[i].items@)
                &&& 0 <= out@[i].height <= MAX_DIM
                &&& sizes_bounded(out@[i].items@)
            },
{
    let ghost v = rows_view(rows@);
    let n = rows.len();
    // Total height of all lines.
    let mut th: u64 = 0;
    let mut i: usize = 0;
    while i < n
        invariant
            n == rows@.len() <= MAX_CHILDREN,
            forall|k: int| 0 <= k < n ==> (#[trigger] rows@[k]).ok(),
            v == rows_view(rows@),
            i <= n,
            th == total_height_of(v.take(i as int)),
            th <= i * MAX_DIM,
        decreases n - i,
    {
        proof {
            assert(v.take(i + 1).drop_last() =~= v.take(i as int));
            assert(v.take(i + 1).last() == v[i as int]);
            assert(v[i as int] == rows@[i as int].items@);
            lemma_row_height_bounds(rows@[i as int].items@);
            assert((i + 1) * MAX_DIM == i * MAX_DIM + MAX_DIM) by (nonlinear_arith);
        }
        let h = rows[i].height;
        th = th + h;
        i = i + 1;
    }
    proof {
        assert(v.take(n as int) =~= v);
    }
    let ghost gives_spec = vshrink_reductions(v, max_h as int);
    let mut gives: Vec<(usize, u64)> = Vec::new();
    if th > max_h {
        let over0 = th - max_h;
        // Pair each line's shrinkable amount with its position.
        let mut pairs: Vec<(u64, usize)> = Vec::new();
        i = 0;
        while i < n
            invariant
                n == rows@.len() <= MAX_CHILDREN,
                forall|k: int| 0 <= k < n ==> (#[trigger] rows@[k]).ok(),
                v == rows_view(rows@),
                i <= n,
                pairs@.len() == i,
                forall|k: int| 0 <= k < i ==> pairs@[k] == shrink_pairs(v)[k],
            decreases n - i,
        {
            let items = &rows[i].items;
            let m = items.len();
            let mut maxmin: u64 = 0;
            let mut j: usize = 0;
            while j < m
                invariant
                    m == items@.len(),
                    sizes_valid(items@),
                    j <= m,
                    maxmin == row_min_height_of(items@.take(j as int)),
                    maxmin <= MAX_DIM,
                decreases m - j,
            {
                proof {
                    assert(items@.take(j + 1).drop_last() =~= items@.take(j as int));
                    assert(items@.take(j + 1).last() == items@[j as int]);
                }
                let mh = items[j].min_height;
                maxmin = if mh > maxmin {
                    mh
                } else {
                    maxmin
                };
                j = j + 1;
            }
            proof {
                assert(items@.take(m as int) =~= items@);
                lemma_row_height_bounds(items@);
                assert(v[i as int] == rows@[i as int].items@);
            }
            let shrinkable = rows[i].height - maxmin;
            pairs.push((shrinkable, i));
            i = i + 1;
        }
        proof {
            assert(pairs@ =~= shrink_pairs(v));
        }
        // Stable insertion sort by ascending shrinkable amount.
        let mut sorted: Vec<(u64, usize)> = Vec::new();
        i = 0;
        while i < n
            invariant
                n == pairs@.len(),
                i <= n,
                sorted@ == sort_pairs(pairs@.take(i as int)),
                sorted@.len() == i,
            decreases n - i,
        {
            let p = pairs[i];
            let mut j: usize = sorted.len();
            while j > 0 && sorted[j - 1].0 > p.0
                invariant
                    j <= sorted@.len(),
                    forall|k: int| j <= k < sorted@.len() ==> (#[trigger] sorted@[k]).0 > p.0,
                decreases j,
            {
                j = j - 1;
            }
            proof {
                assert(pairs@.take(i + 1).drop_last() =~= pairs@.take(i as int));
                assert(pairs@.take(i + 1).last() == pairs@[i as int]);
                lemma_insert_sorted_at(sorted@, p, j as int);
            }
            let ghost before = sorted@;
            sorted.insert(j, p);
            proof {
                assert(sorted@ =~= before.subrange(0, j as int).push(p) + before.subrange(
                    j as int,
                    before.len() as int,
                ));
                assert(sorted@ == sort_pairs(pairs@.take(i + 1)));
            }
            i = i + 1;
        }
        proof {
            assert(pairs@.take(n as int) =~= pairs@);
            lemma_sort_pairs_props(pairs@);
        }
        // Give each line, least shrinkable first, its share of the overflow.
        let ghost gs = vshrink_give(sorted@, over0 as int);
        let mut over: u64 = over0;
        i = 0;
        proof {
            assert(sorted@.skip(0) =~= sorted@);
            assert(gives@ + gs =~= gs);
        }
        while i < n
            invariant
                n == sorted@.len(),
                i <= n,
                gives@.len() == i,
                gs == vshrink_give(sorted@, over0 as int),
                gs =~= gives@ + vshrink_give(sorted@.skip(i as int), over as int),
            decreases n - i,
        {
            let rem = (n - i) as u64;
            let quota = over / rem;
            proof {
                vstd::arithmetic::div_mod::lemma_div_is_ordered_by_denominator(
                    over as int,
                    1,
                    rem as int,
                );
                vstd::arithmetic::div_mod::lemma_div_pos_is_pos(over as int, rem as int);
                vstd::arithmetic::div_mod::lemma_div_basics(over as int);
                assert(quota <= over);
            }
            let p = sorted[i];
            let amt = if p.0 < quota {
                p.0
            } else {
                quota
            };
            gives.push((p.1, amt));
            over = over - amt;
            proof {
                assert(sorted@.skip(i as int).first() == sorted@[i as int]);
                assert(sorted@.skip(i as int).drop_first() =~= sorted@.skip(i + 1));
                assert(vshrink_give(sorted@.skip(i as int), (over + amt) as int) =~= seq![
                    (p.1, amt),
                ] + vshrink_give(sorted@.skip(i + 1), over as int));
                assert(gs =~= gives@ + vshrink_give(sorted@.skip(i + 1), over as int));
            }
            i = i + 1;
        }
        proof {
            assert(sorted@.skip(n as int) =~= Seq::<(u64, usize)>::empty());
            assert(gs =~= gives@ + Seq::<(usize, u64)>::empty());
            assert(gives@ =~= gs);
            assert(gives@ == gives_spec);
        }
    } else {
        proof {
            assert(gives@ =~= gives_spec);
        }
    }
    // Apply each line's reduction to its items and its height.
    let mut out: Vec<Row> = Vec::new();
    let mut rest = rows;
    let ghost orig = rest@;
    i = 0;
    while i < n
        invariant
            n == orig.len() <= MAX_CHILDREN,
            i <= n,
            rest@ =~= orig.skip(i as int),
            forall|k: int| 0 <= k < n ==> (#[trigger] orig[k]).ok(),
            v == rows_view(orig),
            max_h <= MAX_DIM,
            gives@ == gives_spec,
            gives_spec == vshrink_reductions(v, max_h as int),
            out@.len() == i,
            forall|k: int|
                0 <= k < i ==> {
                    &&& (#[trigger] out@[k]).items@ == vshrunk_rows(v, max_h as int)[k]
                    &&& out@[k].height == vshrunk_heights(v, max_h as int)[k]
                    &&& out@[k].width == orig[k].width
                    &&& out@[k].items@.len() == orig[k].items@.len()
                    &&& out@[k].width == row_width_of(out@[k].items@)
                    &&& 0 <= out@[k].height <= MAX_DIM
                    &&& sizes_bounded(out@[k].items@)
                },
        decreases n - i,
    {
        let row = rest.remove(0);
        proof {
            assert(row == orig[i as int]);
            assert(rest@ =~= orig.skip(i + 1));
            assert(v[i as int] == row.items@);
            lemma_reduction_le(v, max_h as int, i as int);
        }
        // The reduction recorded for this line, if any.
        let mut r: u64 = 0;
        let mut k: usize = 0;
        let gn = gives.len();
        let mut found = false;
        proof {
            assert(gives@.skip(0) =~= gives@);
        }
        while k < gn
            invariant
                gn == gives@.len(),
                k <= gn,
                !found ==> lookup_reduction(gives@, i) == lookup_reduction(
                    gives@.skip(k as int),
                    i,
                ),
                found ==> r == lookup_reduction(gives@, i),
                !found ==> r == 0,
            decreases gn - k,
        {
            proof {
                assert(gives@.skip(k as int).first() == gives@[k as int]);
                assert(gives@.skip(k as int).drop_first() =~= gives@.skip(k + 1));
            }
            if !found && gives[k].0 == i {
                r = gives[k].1;
                found = true;
            }
            k = k + 1;
        }
        proof {
            assert(gives@.skip(gn as int) =~= Seq::<(usize, u64)>::empty());
            assert(r == lookup_reduction(gives@, i));
            assert(r <= row_shrinkable(v[i as int]));
        }
        // Lower every item's height by the reduction, stopping at zero.
        let items = row.items;
        let m = items.len();
        let ghost reduced = reduce_row_heights(items@, r);
        let mut new_items: Vec<WidgetSize> = Vec::new();
        let mut j: usize = 0;
        while j < m
            invariant
                m == items@.len(),
                sizes_valid(items@),
                j <= m,
                reduced == reduce_row_heights(items@, r),
                new_items@.len() == j,
                forall|k2: int| 0 <= k2 < j ==> new_items@[k2] == reduced[k2],
            decreases m - j,
        {
            let w = items[j];
            let nh = if r > w.height {
                0
            } else {
                w.height - r
            };
            new_items.push(WidgetSize { height: nh, ..w });
            j = j + 1;
        }
        proof {
            assert(new_items@ =~= reduced);
            assert(forall|k2: int|
                0 <= k2 < m ==> (#[trigger] new_items@[k2]).width == items@[k2].width);
            lemma_row_width_congruence(new_items@, items@);
            lemma_row_height_bounds(items@);
            assert(vshrunk_rows(v, max_h as int)[i as int] == reduced);
            assert(vshrunk_heights(v, max_h as int)[i as int] == row_height_of(v[i as int])
                - r);
        }
        let new_height = row.height - r;
        out.push(Row { items: new_items, width: row.width, height: new_height });
        i = i + 1;
    }
    proof {
        assert(rows_view(out@) =~= vshrunk_rows(v, max_h as int));
    }
    out
}

/// Every size has ordered, bounded ranges and bounded extents; unlike
/// [`WidgetSize::valid`], the proposed height may sit below its minimum,
/// as vertical shrinking can push it there.
pub open spec fn sizes_bounded(s: Seq<WidgetSize>) -> bool {
    forall|i: int|
        0 <= i < s.len() ==> {
            &&& (#[trigger] s[i]).ranges_wf()
            &&& s[i].width <= MAX_DIM
            &&& s[i].height <= MAX_DIM
        }
}

/// The cached line heights, as the specification sees them.
spec fn heights_view(rows: Seq<Row>) -> Seq<int> {
    rows.map_values(|r: Row| r.height as int)
}

/// Division rounding down, with the bound placement needs: a share of some
/// leftover space never exceeds the leftover itself.
fn udiv(a: u64, b: u64) -> (q: u64)
    requires
        b >= 1,
    ensures
        q == a as int / b as int,
        q <= a,
{
    proof {
        vstd::arithmetic::div_mod::lemma_div_is_ordered_by_denominator(a as int, 1, b as int);
        vstd::arithmetic::div_mod::lemma_div_pos_is_pos(a as int, b as int);
        vstd::arithmetic::div_mod::lemma_div_basics(a as int);
    }
    a / b
}

/// `a - b`, stopped at zero.
fn usub0(a: u64, b: u64) -> (r: u64)
    ensures
        r == sub0(a as int, b as int),
{
    if a > b {
        a - b
    } else {
        0
    }
}

/// A line as placement consumes it: extents cached and bounded, no item
/// missing, every item's ranges ordered.
spec fn row_placeable(r: Row) -> bool {
    &&& r.width == row_width_of(r.items@)
    &&& 1 <= r.items@.len() <= MAX_CHILDREN
    &&& r.height <= 2 * MAX_DIM
    &&& sizes_bounded(r.items@)
}

/// Compute every item's placement rectangle: resolve the align-content
/// offsets (stretching the lines first under `Stretch`), then walk the
/// lines top to bottom and each line left to right under its
/// justify-content offsets, aligning each item within its line.
fn place_all(
    rows: Vec<Row>,
    env2_h: u64,
    fh: u64,
    avail_w: u64,
    jc: JustifyContent,
    ai: AlignItems,
    ac: AlignContent,
) -> (rects: Vec<Rect>)
    requires
        forall|i: int|
            0 <= i < rows@.len() ==> row_placeable(#[trigger] rows@[i]) && rows@[i].height
                <= MAX_DIM,
        rows@.len() <= MAX_CHILDREN,
        env2_h <= MAX_DIM,
        avail_w <= MAX_DIM,
        fh == sum_heights(heights_view(rows@)),
    ensures
        rows@.len() == 0 ==> rects@ == Seq::<Rect>::empty(),
        rows@.len() > 0 ==> rects@ == place_rows(
            content_rows(
                ac,
                rows_view(rows@),
                heights_view(rows@),
                sub0(env2_h as int, fh as int),
            ),
            content_heights(
                ac,
                heights_view(rows@),
                rows@.len() as int,
                sub0(env2_h as int, fh as int),
            ),
            align_offsets(ac, sub0(env2_h as int, fh as int), rows@.len() as int).0,
            align_offsets(ac, sub0(env2_h as int, fh as int), rows@.len() as int).1,
            avail_w as int,
            jc,
            ai,
        ),
{
    let n = rows.len();
    if n == 0 {
        let rects: Vec<Rect> = Vec::new();
        return rects;
    }
    let ghost rv0 = rows_view(rows@);
    let ghost hv0 = heights_view(rows@);
    let nu = n as u64;
    let left = usub0(env2_h, fh);
    proof {
        assert(left <= MAX_DIM);
    }
    // Align-content offsets; `Stretch` instead grows the lines in place.
    let y0: u64;
    let y_gap: u64;
    match ac {
        AlignContent::Top => {
            y0 = 0;
            y_gap = 0;
        },
        AlignContent::Bottom => {
            y0 = left;
            y_gap = 0;
        },
        AlignContent::Center => {
            y0 = left / 2;
            y_gap = 0;
        },
        AlignContent::SpaceBetween => {
            if n <= 1 {
                y0 = left / 2;
                y_gap = 0;
            } else {
                y0 = 0;
                y_gap = udiv(left, nu - 1);
            }
        },
        AlignContent::SpaceAround => {
            let g = udiv(left, nu);
            y0 = g / 2;
            y_gap = g;
        },
        AlignContent::SpaceEvenly => {
            let g = udiv(left, nu + 1);
            y0 = g;
            y_gap = g;
        },
        AlignContent::Stretch => {
            y0 = 0;
            y_gap = 0;
        },
    }
    proof {
        assert(y0 == align_offsets(ac, left as int, n as int).0);
        assert(y_gap == align_offsets(ac, left as int, n as int).1);
        assert(y_gap <= MAX_DIM && y0 <= MAX_DIM);
    }
    let mut rows = rows;
    if matches!(ac, AlignContent::Stretch) {
        let add = udiv(left, nu);
        let mut stretched: Vec<Row> = Vec::new();
        let mut i: usize = 0;
        let ghost orig = rows@;
        while i < n
            invariant
                n == orig.len(),
                i <= n,
                rows@ =~= orig.skip(i as int),
                forall|k: int|
                    0 <= k < n ==> row_placeable(#[trigger] orig[k]) && orig[k].height <= MAX_DIM,
                add <= MAX_DIM,
                ac is Stretch,
                1 <= n <= MAX_CHILDREN,
                left <= MAX_DIM,
                add == (left as int) / (n as int),
                rv0 == rows_view(orig),
                hv0 == heights_view(orig),
                stretched@.len() == i,
                forall|k: int|
                    0 <= k < i ==> {
                        &&& (#[trigger] stretched@[k]).items@ == content_rows(
                            ac,
                            rv0,
                            hv0,
                            left as int,
                        )[k]
                        &&& stretched@[k].height == content_heights(
                            ac,
                            hv0,
                            n as int,
                            left as int,
                        )[k]
                        &&& row_placeable(stretched@[k])
                    },
            decreases n - i,
        {
            let row = rows.remove(0);
            proof {
                assert(row == orig[i as int]);
                assert(rows@ =~= orig.skip(i + 1));
                assert(rv0[i as int] == row.items@);
                assert(hv0[i as int] == row.height as int);
            }
            let nh = row.height + add;
            let items = row.items;
            let m = items.len();
            let ghost target = stretch_row(items@, nh as int);
            let mut new_items: Vec<WidgetSize> = Vec::new();
            let mut j: usize = 0;
            while j < m
                invariant
                    m == items@.len(),
                    sizes_bounded(items@),
                    j <= m,
                    target == stretch_row(items@, nh as int),
                    new_items@.len() == j,
                    forall|k2: int| 0 <= k2 < j ==> new_items@[k2] == target[k2],
                decreases m - j,
            {
                let w = items[j];
                let h = if nh < w.min_height {
                    w.min_height
                } else if nh > w.max_height {
                    w.max_height
                } else {
                    nh
                };
                new_items.push(WidgetSize { height: h, ..w });
                j = j + 1;
            }
            proof {
                assert(new_items@ =~= target);
                assert(forall|k2: int|
                    0 <= k2 < m ==> (#[trigger] new_items@[k2]).width == items@[k2].width);
                lemma_row_width_congruence(new_items@, items@);
                assert(sizes_bounded(new_items@));
                assert(rv0.len() == n as int);
                assert(content_rows(ac, rv0, hv0, left as int)[i as int] == stretch_row(
                    rv0[i as int],
                    hv0[i as int] + (left as int) / (n as int),
                ));
                assert(nh as int == hv0[i as int] + add);
                assert(add == (left as int) / (n as int));
                assert(new_items@ == content_rows(ac, rv0, hv0, left as int)[i as int]);
                assert(content_heights(ac, hv0, n as int, left as int)[i as int] == hv0[i as int]
                    + (left as int) / (n as int));
            }
            stretched.push(Row { items: new_items, width: row.width, height: nh });
            i = i + 1;
        }
        rows = stretched;
        proof {
            assert(rows_view(rows@) =~= content_rows(ac, rv0, hv0, left as int));
            assert(heights_view(rows@) =~= content_heights(ac, hv0, n as int, left as int));
        }
    } else {
        proof {
            assert(rows_view(rows@) =~= content_rows(ac, rv0, hv0, left as int));
            assert(heights_view(rows@) =~= content_heights(ac, hv0, n as int, left as int));
        }
    }
    // Walk the lines top to bottom, and each line's items left to right.
    let ghost rv = rows_view(rows@);
    let ghost hv = heights_view(rows@);
    let ghost whole = place_rows(rv, hv, y0 as int, y_gap as int, avail_w as int, jc, ai);
    let mut rects: Vec<Rect> = Vec::new();
    let mut y: u64 = y0;
    let mut i: usize = 0;
    proof {
        assert(rv.skip(0) =~= rv);
        assert(hv.skip(0) =~= hv);
        assert(rects@ + place_rows(rv, hv, y0 as int, y_gap as int, avail_w as int, jc, ai)
            =~= whole);
    }
    while i < n
        invariant
            n == rows@.len() <= MAX_CHILDREN,
            i <= n,
            rv == rows_view(rows@),
            hv == heights_view(rows@),
            forall|k: int| 0 <= k < n ==> row_placeable(#[trigger] rows@[k]),
            avail_w <= MAX_DIM,
            y_gap <= MAX_DIM,
            y <= MAX_DIM + i * (3 * MAX_DIM),
            whole =~= rects@ + place_rows(
                rv.skip(i as int),
                hv.skip(i as int),
                y as int,
                y_gap as int,
                avail_w as int,
                jc,
                ai,
            ),
        decreases n - i,
    {
        proof {
            assert(rv.skip(i as int).first() == rv[i as int]);
            assert(rv.skip(i as int).drop_first() =~= rv.skip(i + 1));
            assert(hv.skip(i as int).first() == hv[i as int]);
            assert(hv.skip(i as int).drop_first() =~= hv.skip(i + 1));
            assert(rv[i as int] == rows@[i as int].items@);
            assert(hv[i as int] == rows@[i as int].height as int);
            assert(i * (3 * MAX_DIM) <= n * (3 * MAX_DIM) && 0 <= n * (3 * MAX_DIM) && n * (3
                * MAX_DIM) <= 0x1000_0000 * (3 * MAX_DIM)) by (nonlinear_arith)
                requires
                    0 <= i <= n <= 0x1000_0000,
            ;
        }
        let row = &rows[i];
        let rh = row.height;
        let m = row.items.len();
        let mu = m as u64;
        let row_left = usub0(avail_w, row.width);
        let x0: u64;
        let x_gap: u64;
        match jc {
            JustifyContent::Left => {
                x0 = 0;
                x_gap = 0;
            },
            JustifyContent::Right => {
                x0 = row_left;
                x_gap = 0;
            },
            JustifyContent::Center => {
                x0 = row_left / 2;
                x_gap = 0;
            },
            JustifyContent::SpaceBetween => {
                if m <= 1 {
                    x0 = row_left / 2;
                    x_gap = 0;
                } else {
                    x0 = 0;
                    x_gap = udiv(row_left, mu - 1);
                }
            },
            JustifyContent::SpaceAround => {
                let g = udiv(row_left, mu);
                x0 = g / 2;
                x_gap = g;
            },
            JustifyContent::SpaceEvenly => {
                let g = udiv(row_left, mu + 1);
                x0 = g;
                x_gap = g;
            },
        }
        proof {
            let offs = justify_offsets(jc, row_left as int, m as int);
            assert(x0 == offs.0 && x_gap == offs.1);
            assert(x0 <= MAX_DIM && x_gap <= MAX_DIM);
        }
        let mut x: u64 = x0;
        let mut j: usize = 0;
        proof {
            assert(row.items@.skip(0) =~= row.items@);
            assert(rects@ + (place_row(
                row.items@,
                x0 as int,
                y as int,
                rh as int,
                x_gap as int,
                ai,
            ) + place_rows(
                rv.skip(i + 1),
                hv.skip(i + 1),
                y + rh + y_gap,
                y_gap as int,
                avail_w as int,
                jc,
                ai,
            )) =~= whole);
        }
        while j < m
            invariant
                m == row.items@.len() <= MAX_CHILDREN,
                j <= m,
                sizes_bounded(row.items@),
                rh <= 2 * MAX_DIM,
                x_gap <= MAX_DIM,
                y <= MAX_DIM + n * (3 * MAX_DIM),
                n * (3 * MAX_DIM) <= 0x1000_0000 * (3 * MAX_DIM),
                x <= MAX_DIM + j * (2 * MAX_DIM),
                rects@ + (place_row(
                    row.items@.skip(j as int),
                    x as int,
                    y as int,
                    rh as int,
                    x_gap as int,
                    ai,
                ) + place_rows(
                    rv.skip(i + 1),
                    hv.skip(i + 1),
                    y + rh + y_gap,
                    y_gap as int,
                    avail_w as int,
                    jc,
                    ai,
                )) =~= whole,
            decreases m - j,
        {
            proof {
                assert(row.items@.skip(j as int).first() == row.items@[j as int]);
                assert(row.items@.skip(j as int).drop_first() =~= row.items@.skip(j + 1));
                assert((j + 1) * (2 * MAX_DIM) == j * (2 * MAX_DIM) + 2 * MAX_DIM)
                    by (nonlinear_arith);
                assert(j * (2 * MAX_DIM) <= 0x1000_0000 * (2 * MAX_DIM)) by (nonlinear_arith)
                    requires
                        0 <= j <= 0x1000_0000,
                ;
            }
            let w = row.items[j];
            let yoff: u64;
            let h: u64;
            match ai {
                AlignItems::Top => {
                    yoff = 0;
                    h = w.height;
                },
                AlignItems::Bottom => {
                    yoff = usub0(rh, w.height);
                    h = w.height;
                },
                AlignItems::Center => {
                    yoff = usub0(rh, w.height) / 2;
                    h = w.height;
                },
                AlignItems::Stretch => {
                    yoff = 0;
                    h = if rh < w.min_height {
                        w.min_height
                    } else if rh > w.max_height {
                        w.max_height
                    } else {
                        rh
                    };
                },
            }
            let rect = Rect { min: (x, y + yoff), max: (x + w.width, y + yoff + h) };
            proof {
                assert(rect == item_rect(w, x as int, y as int, rh as int, ai));
            }
            let ghost old_rects = rects@;
            let ghost old_x = x as int;
            rects.push(rect);
            x = x + w.width + x_gap;
            j = j + 1;
            proof {
                let rest_rows = place_rows(
                    rv.skip(i + 1),
                    hv.skip(i + 1),
                    y + rh + y_gap,
                    y_gap as int,
                    avail_w as int,
                    jc,
                    ai,
                );
                assert(place_row(
                    row.items@.skip(j - 1),
                    old_x,
                    y as int,
                    rh as int,
                    x_gap as int,
                    ai,
                ) =~= seq![rect] + place_row(
                    row.items@.skip(j as int),
                    x as int,
                    y as int,
                    rh as int,
                    x_gap as int,
                    ai,
                ));
                assert(rects@ + (place_row(
                    row.items@.skip(j as int),
                    x as int,
                    y as int,
                    rh as int,
                    x_gap as int,
                    ai,
                ) + rest_rows) =~= old_rects + (place_row(
                    row.items@.skip(j - 1),
                    old_x,
                    y as int,
                    rh as int,
                    x_gap as int,
                    ai,
                ) + rest_rows));
            }
        }
        proof {
            assert(row.items@.skip(m as int) =~= Seq::<WidgetSize>::empty());
            assert((n - (i + 1)) >= 0);
            assert((i + 1) * (3 * MAX_DIM) == i * (3 * MAX_DIM) + 3 * MAX_DIM)
                by (nonlinear_arith);
            assert(i * (3 * MAX_DIM) <= n * (3 * MAX_DIM)) by (nonlinear_arith)
                requires
                    0 <= i <= n,
            ;
        }
        y = y + rh + y_gap;
        i = i + 1;
    }
    proof {
        assert(rv.skip(n as int) =~= Seq::<Seq<WidgetSize>>::empty());
        assert(hv.skip(n as int) =~= Seq::<int>::empty());
        assert(rects@ =~= whole);
    }
    rects
}

/// The lines a measurement resolves, after wrap formation and both
/// overflow passes, against envelope `env`.
pub open spec fn final_rows(sizes: Seq<WidgetSize>, env: WidgetSize, wrap: FlexWrap) -> Seq<
    Seq<WidgetSize>,
> {
    vshrunk_rows(
        shrunk_rows(wrap_rows(sizes, wrap, env.max_width as int), env.max_width as int),
        env.max_height as int,
    )
}

/// The line heights a measurement resolves alongside [`final_rows`].
pub open spec fn final_heights(sizes: Seq<WidgetSize>, env: WidgetSize, wrap: FlexWrap) -> Seq<
    int,
> {
    vshrunk_heights(
        shrunk_rows(wrap_rows(sizes, wrap, env.max_width as int), env.max_width as int),
        env.max_height as int,
    )
}

/// The size a flexbox measurement returns for children of the given sizes:
/// the envelope grown to the resolved content extents, clamped into its own
/// ranges.
pub open spec fn flexbox_size(sizes: Seq<WidgetSize>, env: WidgetSize, wrap: FlexWrap)
    -> WidgetSize {
    let rows = final_rows(sizes, env, wrap);
    let heights = final_heights(sizes, env, wrap);
    fitted_envelope(env, max_row_width(rows), sum_heights(heights))
}

/// The placement rectangles a flexbox measurement stores for children of
/// the given sizes, one per child in order; `avail_w` is the width offered
/// by the container argument, against which the lines are justified.
pub open spec fn flexbox_rects(
    sizes: Seq<WidgetSize>,
    env: WidgetSize,
    avail_w: int,
    wrap: FlexWrap,
    jc: JustifyContent,
    ai: AlignItems,
    ac: AlignContent,
) -> Seq<Rect> {
    let rows = final_rows(sizes, env, wrap);
    let heights = final_heights(sizes, env, wrap);
    if rows.len() == 0 {
        Seq::empty()
    } else {
        let env2 = flexbox_size(sizes, env, wrap);
        let fh = sum_heights(heights);
        let left = sub0(env2.height as int, fh);
        let offs = align_offsets(ac, left, rows.len() as int);
        place_rows(
            content_rows(ac, rows, heights, left),
            content_heights(ac, heights, rows.len() as int, left),
            offs.0,
            offs.1,
            avail_w,
            jc,
            ai,
        )
    }
}

/// Width distribution keeps the number of items on a line.
proof fn lemma_shrink_row_rec_len(row: Seq<WidgetSize>, over: int, total: int)
    ensures
        shrink_row_rec(row, over, total).len() == row.len(),
    decreases row.len(),
{
    if row.len() > 0 {
        let x = row.first();
        let cap = x.width - x.min_width;
        let t = shrink_amount(cap, over, total);
        lemma_shrink_row_rec_len(row.drop_first(), over - t, total - cap);
    }
}

/// Line sequences with pairwise equal line lengths hold equally many items.
proof fn lemma_sum_lens_congruence(a: Seq<Seq<WidgetSize>>, b: Seq<Seq<WidgetSize>>)
    requires
        a.len() == b.len(),
        forall|i: int| 0 <= i < a.len() ==> (#[trigger] a[i]).len() == b[i].len(),
    ensures
        sum_lens(a) == sum_lens(b),
    decreases a.len(),
{
    if a.len() > 0 {
        lemma_sum_lens_congruence(a.drop_last(), b.drop_last());
    }
}

/// Wrap formation emits no empty line and loses no item, whatever the
/// sizes are.
proof fn lemma_wrap_rows_count(sizes: Seq<WidgetSize>, wrap: FlexWrap, max_w: int)
    ensures
        wrap_rows(sizes, wrap, max_w).len() <= sizes.len(),
        sum_lens(wrap_rows(sizes, wrap, max_w)) == sizes.len(),
        forall|i: int|
            0 <= i < wrap_rows(sizes, wrap, max_w).len() ==> (#[trigger] wrap_rows(
                sizes,
                wrap,
                max_w,
            )[i]).len() >= 1,
    decreases sizes.len(),
{
    if sizes.len() > 0 {
        let prev = sizes.drop_last();
        lemma_wrap_rows_count(prev, wrap, max_w);
        let rest = wrap_rows(prev, wrap, max_w);
        let x = sizes.last();
        let rows = wrap_rows(sizes, wrap, max_w);
        if rest.len() == 0 {
            assert(rows =~= seq![seq![x]]);
            assert(rows.drop_last() =~= Seq::<Seq<WidgetSize>>::empty());
        } else if row_accepts(rest.last(), x, wrap, max_w) {
            let grown = rest.last().push(x);
            assert(rows == rest.update(rest.len() - 1, grown));
            assert(rows.drop_last() =~= rest.drop_last());
            assert(rows.last() == grown);
            assert(forall|i: int| 0 <= i < rows.len() - 1 ==> rows[i] == rest[i]);
        } else {
            assert(rows == rest.push(seq![x]));
            assert(rows.drop_last() =~= rest);
            assert(forall|i: int| 0 <= i < rows.len() - 1 ==> rows[i] == rest[i]);
        }
    }
}

/// A measurement stores exactly one placement rectangle per child, whatever
/// the children asked for.
proof fn lemma_flexbox_rects_len(
    sizes: Seq<WidgetSize>,
    env: WidgetSize,
    avail_w: int,
    wrap: FlexWrap,
    jc: JustifyContent,
    ai: AlignItems,
    ac: AlignContent,
)
    ensures
        flexbox_rects(sizes, env, avail_w, wrap, jc, ai, ac).len() == sizes.len(),
{
    let rows0 = wrap_rows(sizes, wrap, env.max_width as int);
    let rows1 = shrunk_rows(rows0, env.max_width as int);
    let rows2 = final_rows(sizes, env, wrap);
    let heights = final_heights(sizes, env, wrap);
    lemma_wrap_rows_count(sizes, wrap, env.max_width as int);
    assert(forall|i: int|
        0 <= i < rows0.len() ==> (#[trigger] rows1[i]).len() == rows0[i].len()) by {
        assert(forall|i: int|
            0 <= i < rows0.len() ==> #[trigger] rows1[i] == shrink_row(
                rows0[i],
                env.max_width as int,
            ));
        assert forall|i: int| 0 <= i < rows0.len() implies (#[trigger] rows1[i]).len()
            == rows0[i].len() by {
            if row_width_of(rows0[i]) > env.max_width as int {
                lemma_shrink_row_rec_len(
                    rows0[i],
                    row_width_of(rows0[i]) - env.max_width as int,
                    row_capacity_of(rows0[i]),
                );
            }
        }
    }
    lemma_sum_lens_congruence(rows1, rows0);
    assert(forall|i: int|
        0 <= i < rows1.len() ==> (#[trigger] rows2[i]).len() == rows1[i].len());
    lemma_sum_lens_congruence(rows2, rows1);
    if rows2.len() == 0 {
        assert(sum_lens(rows0) == 0);
        assert(flexbox_rects(sizes, env, avail_w, wrap, jc, ai, ac).len() == 0);
    } else {
        let env2 = flexbox_size(sizes, env, wrap);
        let fh = sum_heights(heights);
        let left = sub0(env2.height as int, fh);
        let offs = align_offsets(ac, left, rows2.len() as int);
        let rows3 = content_rows(ac, rows2, heights, left);
        let heights3 = content_heights(ac, heights, rows2.len() as int, left);
        assert(forall|i: int|
            0 <= i < rows2.len() ==> (#[trigger] rows3[i]).len() == rows2[i].len());
        lemma_sum_lens_congruence(rows3, rows2);
        lemma_place_rows_len(rows3, heights3, offs.0, offs.1, avail_w, jc, ai);
    }
}

impl<B, W: Widget<B>, A: AreaAllocator> Widget<B> for Flexbox<W, A> {
    /// The envelope grown to the resolved content extents: the size the
    /// whole layout pipeline gives the children's reported sizes.
    open spec fn size_spec(&self, screen: (u64, u64), container: (u64, u64)) -> WidgetSize {
        let env = envelope_spec(self.area_allocator, screen, container);
        let sizes = child_sizes_spec::<B, W>(
            self.widgets@,
            screen,
            (env.max_width, env.max_height),
        );
        flexbox_size(sizes, env, self.flex_wrap)
    }

    /// Measurement measures every child against the envelope's maxima,
    /// stores one placement rectangle per child, and leaves the
    /// configuration alone.
    open spec fn measured_rel(&self, post: Self, screen: (u64, u64), container: (u64, u64)) -> bool {
        let env = envelope_spec(self.area_allocator, screen, container);
        let inner = (env.max_width, env.max_height);
        let sizes = child_sizes_spec::<B, W>(self.widgets@, screen, inner);
        &&& post.widgets@.len() == self.widgets@.len()
        &&& forall|i: int|
            0 <= i < self.widgets@.len() ==> self.widgets@[i].measured_rel(
                #[trigger] post.widgets@[i],
                screen,
                inner,
            )
        &&& post.widget_subareas@ == flexbox_rects(
            sizes,
            env,
            container.0 as int,
            self.flex_wrap,
            self.justify_content,
            self.align_items,
            self.align_content,
        )
        &&& post.align_content == self.align_content
        &&& post.align_items == self.align_items
        &&& post.flex_wrap == self.flex_wrap
        &&& post.justify_content == self.justify_content
        &&& post.area_allocator == self.area_allocator
    }

    /// Measurement implements every wrap policy but `WrapReverse`, and the
    /// child count must stay within the arithmetic bound.
    open spec fn measure_allowed(&self) -> bool {
        &&& !(self.flex_wrap is WrapReverse)
        &&& self.widgets@.len() <= MAX_CHILDREN
        &&& forall|i: int|
            0 <= i < self.widgets@.len() ==> (#[trigger] self.widgets@[i]).measure_allowed()
    }

    /// The stored placement rectangles cover the current children one for
    /// one, and every child is itself ready.
    open spec fn render_ready(&self) -> bool {
        &&& self.widgets@.len() == self.widget_subareas@.len()
        &&& forall|i: int|
            0 <= i < self.widgets@.len() ==> (#[trigger] self.widgets@[i]).render_ready()
    }

    /// Every stored rectangle translates into `area` without leaving the
    /// coordinate range, recursively through the children.
    open spec fn render_fits(&self, area: Rect) -> bool {
        forall|i: int|
            0 <= i < self.widget_subareas@.len() ==> {
                &&& (#[trigger] self.widget_subareas@[i]).wf()
                &&& area.can_hold(self.widget_subareas@[i])
                &&& i < self.widgets@.len() ==> self.widgets@[i].render_fits(
                    area.subarea_spec(self.widget_subareas@[i]),
                )
            }
    }

    proof fn lemma_measure_stable(&self, post: Self, screen: (u64, u64), container: (u64, u64)) {
        let env = envelope_spec(self.area_allocator, screen, container);
        let inner = (env.max_width, env.max_height);
        let sizes = child_sizes_spec::<B, W>(self.widgets@, screen, inner);
        let post_sizes = child_sizes_spec::<B, W>(post.widgets@, screen, inner);
        assert forall|i: int| 0 <= i < self.widgets@.len() implies post_sizes[i] == sizes[i]
            && (self.widgets@[i].measure_allowed() ==> (#[trigger] post.widgets@[i]).measure_allowed()
            && post.widgets@[i].render_ready()) by {
            self.widgets@[i].lemma_measure_stable(post.widgets@[i], screen, inner);
        }
        assert(post_sizes =~= sizes);
        lemma_flexbox_rects_len(
            sizes,
            env,
            container.0 as int,
            self.flex_wrap,
            self.justify_content,
            self.align_items,
            self.align_content,
        );
    }

    /// Measure every child against the envelope's maxima, form and shrink
    /// the wrap lines, record the placement rectangles and return the
    /// resolved size.
    fn allocate_area(&mut self, screen: (u64, u64), container: (u64, u64)) -> (s: WidgetSize) {
        let env = match &self.area_allocator {
            Option::Some(a) => a.allocate_area(screen, container),
            Option::None => WidgetSize {
                min_width: 0,
                width: 0,
                max_width: container.0,
                min_height: 0,
                height: 0,
                max_height: container.1,
            },
        };
        proof {
            assert(env == envelope_spec(old(self).area_allocator, screen, container));
            assert(env.valid());
        }
        let inner = (env.max_width, env.max_height);
        let n = self.widgets.len();
        let mut sizes: Vec<WidgetSize> = Vec::new();
        let mut i: usize = 0;
        while i < n
            invariant
                n == self.widgets@.len() == old(self).widgets@.len() <= MAX_CHILDREN,
                i <= n,
                old(self).measure_allowed(),
                env == envelope_spec(old(self).area_allocator, screen, container),
                env.valid(),
                inner == (env.max_width, env.max_height),
                screen.0 <= MAX_DIM && screen.1 <= MAX_DIM,
                forall|j: int| i <= j < n ==> self.widgets@[j] == old(self).widgets@[j],
                forall|j: int|
                    0 <= j < i ==> old(self).widgets@[j].measured_rel(
                        #[trigger] self.widgets@[j],
                        screen,
                        inner,
                    ),
                sizes@.len() == i,
                forall|j: int|
                    0 <= j < i ==> (#[trigger] sizes@[j]) == old(self).widgets@[j].size_spec(
                        screen,
                        inner,
                    ) && sizes@[j].valid(),
                self.widget_subareas == old(self).widget_subareas,
                self.align_content == old(self).align_content,
                self.align_items == old(self).align_items,
                self.flex_wrap == old(self).flex_wrap,
                self.justify_content == old(self).justify_content,
                self.area_allocator == old(self).area_allocator,
            decreases n - i,
        {
            proof {
                assert(self.widgets@[i as int] == old(self).widgets@[i as int]);
                assert(self.widgets@[i as int].measure_allowed());
            }
            let s = self.widgets[i].allocate_area(screen, inner);
            sizes.push(s);
            i = i + 1;
        }
        proof {
            assert(sizes@ =~= child_sizes_spec::<B, W>(old(self).widgets@, screen, inner));
            assert(sizes_valid(sizes@));
        }
        let ghost spec_sizes = sizes@;
        // Wrap lines, then resolve horizontal and vertical overflow.
        let rows0 = build_rows(&sizes, self.flex_wrap, env.max_width);
        proof {
            lemma_wrap_rows_props(spec_sizes, self.flex_wrap, env.max_width as int);
        }
        let rows1 = hshrink_rows(rows0, env.max_width);
        let rows2 = vshrink_exec(rows1, env.max_height);
        let ghost frows = final_rows(spec_sizes, env, old(self).flex_wrap);
        let ghost fheights = final_heights(spec_sizes, env, old(self).flex_wrap);
        proof {
            assert(rows_view(rows2@) == frows);
            assert(heights_view(rows2@) =~= fheights);
        }
        // Resolved content extents.
        let rn = rows2.len();
        let mut fw: u64 = 0;
        let mut fh: u64 = 0;
        i = 0;
        while i < rn
            invariant
                rn == rows2@.len() <= MAX_CHILDREN,
                i <= rn,
                frows == rows_view(rows2@),
                fheights == heights_view(rows2@),
                forall|k: int|
                    0 <= k < rn ==> (#[trigger] rows2@[k]).width == row_width_of(rows2@[k].items@)
                        && 0 <= rows2@[k].height <= MAX_DIM,
                fw == max_row_width(frows.take(i as int)),
                fh == sum_heights(fheights.take(i as int)),
                fh <= i * MAX_DIM,
            decreases rn - i,
        {
            proof {
                assert(frows.take(i + 1).drop_last() =~= frows.take(i as int));
                assert(frows.take(i + 1).last() == frows[i as int]);
                assert(fheights.take(i + 1).drop_last() =~= fheights.take(i as int));
                assert(fheights.take(i + 1).last() == fheights[i as int]);
                assert(frows[i as int] == rows2@[i as int].items@);
                assert(fheights[i as int] == rows2@[i as int].height as int);
                assert((i + 1) * MAX_DIM == i * MAX_DIM + MAX_DIM) by (nonlinear_arith);
                assert(i * MAX_DIM <= 0x1000_0000 * MAX_DIM) by (nonlinear_arith)
                    requires
                        0 <= i <= 0x1000_0000,
                ;
            }
            let rw = rows2[i].width;
            if rw > fw {
                fw = rw;
            }
            fh = fh + rows2[i].height;
            i = i + 1;
        }
        proof {
            assert(frows.take(rn as int) =~= frows);
            assert(fheights.take(rn as int) =~= fheights);
        }
        // Grow the envelope to the content where the content exceeds it.
        let mut out = env;
        if fw > out.width {
            out.set_width(fw);
        }
        if fh > out.height {
            out.set_height(fh);
        }
        proof {
            assert(out == fitted_envelope(env, fw as int, fh as int));
            assert(out == flexbox_size(spec_sizes, env, old(self).flex_wrap));
            assert(out.valid());
        }
        // Record the placement rectangles.
        let rects = place_all(
            rows2,
            out.height,
            fh,
            container.0,
            self.justify_content,
            self.align_items,
            self.align_content,
        );
        proof {
            let want = flexbox_rects(
                spec_sizes,
                env,
                container.0 as int,
                old(self).flex_wrap,
                old(self).justify_content,
                old(self).align_items,
                old(self).align_content,
            );
            assert(rects@ == want);
        }
        self.widget_subareas = rects;
        out
    }

    /// Hand each child the sub-rectangle its stored placement resolves
    /// within `area`, in order; reject stale placement data explicitly.
    fn render(&self, area: Rect, backend: &mut B) -> (r: Result<(), RenderError>) {
        let n = self.widgets.len();
        if n != self.widget_subareas.len() {
            return Err(RenderError::StaleLayout);
        }
        let mut i: usize = 0;
        while i < n
            invariant
                n == self.widgets@.len() == self.widget_subareas@.len(),
                i <= n,
                area.wf(),
                self.render_fits(area),
                forall|j: int| 0 <= j < i ==> (#[trigger] self.widgets@[j]).render_ready(),
            decreases n - i,
        {
            let sub = area.subarea(self.widget_subareas[i]);
            match self.widgets[i].render(sub, backend) {
                Ok(()) => {},
                Err(e) => {
                    proof {
                        assert(!self.widgets@[i as int].render_ready());
                    }
                    return Err(e);
                },
            }
            i = i + 1;
        }
        Ok(())
    }
}

impl<W, A> Default for Flexbox<W, A> {
    fn default() -> (fb: Flexbox<W, A>)
        ensures
            fb.widgets@.len() == 0,
            fb.widget_subareas@.len() == 0,
            fb.align_content is Top,
            fb.align_items is Top,
            fb.flex_wrap is Wrap,
            fb.justify_content is Left,
            fb.area_allocator is None,
    {
        Flexbox::new()
    }
}

/// Measuring twice under the same constraints, with no intervening change
/// to the children or the configuration, resolves the same size and the
/// same placement rectangles: measurement is idempotent.
pub proof fn lemma_measure_idempotent<B, W: Widget<B>, A: AreaAllocator>(
    pre: Flexbox<W, A>,
    post: Flexbox<W, A>,
    twice: Flexbox<W, A>,
    screen: (u64, u64),
    container: (u64, u64),
)
    requires
        Widget::<B>::measured_rel(&pre, post, screen, container),
        Widget::<B>::measured_rel(&post, twice, screen, container),
    ensures
        Widget::<B>::size_spec(&post, screen, container) == Widget::<B>::size_spec(
            &pre,
            screen,
            container,
        ),
        Widget::<B>::size_spec(&twice, screen, container) == Widget::<B>::size_spec(
            &pre,
            screen,
            container,
        ),
        twice.widget_subareas@ == post.widget_subareas@,
{
    let env = envelope_spec(pre.area_allocator, screen, container);
    let inner = (env.max_width, env.max_height);
    let sizes = child_sizes_spec::<B, W>(pre.widgets@, screen, inner);
    let post_sizes = child_sizes_spec::<B, W>(post.widgets@, screen, inner);
    assert forall|i: int| 0 <= i < pre.widgets@.len() implies post_sizes[i] == sizes[i] by {
        pre.widgets@[i].lemma_measure_stable(post.widgets@[i], screen, inner);
    }
    assert(post_sizes =~= sizes);
    pre.lemma_measure_stable(post, screen, container);
    post.lemma_measure_stable(twice, screen, container);
}

} // verus!
