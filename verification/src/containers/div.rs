//! A simple block/inline line-flow container: each child either starts a
//! new line (block) or joins the current line while it fits (inline).
//! Unlike the flexbox, a line's items are never shrunk or stretched; a
//! line's height is simply its tallest item.

use vstd::prelude::*;
use crate::MAX_DIM;
use crate::containers::flexbox::{
    envelope_spec, imax, imin, lemma_row_height_bounds, lemma_row_width_bound,
    lemma_sum_lens_first, max_row_width, row_height_of, row_width_of, rows_view, sizes_valid,
    sum_lens, total_height_of, Row, MAX_CHILDREN,
};
use crate::rect::Rect;
use crate::widget::{AreaAllocator, RenderError, Widget, WidgetSize};

verus! {

/// A container that flows its children into lines: a block child always
/// opens a new line, an inline child joins the current line while the line
/// stays within the container's maximum width.
///
/// Each measurement pass recomputes one placement rectangle per child
/// (`widget_subareas`), consumed by the immediately following render pass;
/// rendering with stale placement data is rejected explicitly.
pub struct Div<W, A> {
    pub widgets: Vec<(W, bool)>,
    pub widget_subareas: Vec<Rect>,
    pub area_allocator: Option<A>,
}

impl<W, A> Div<W, A> {
    /// An empty container.
    pub fn new() -> (d: Div<W, A>)
        ensures
            d.widgets@.len() == 0,
            d.widget_subareas@.len() == 0,
            d.area_allocator is None,
    {
        Div { widgets: Vec::new(), widget_subareas: Vec::new(), area_allocator: None }
    }

    /// Append a child on a line of its own: a line break precedes it.
    pub fn push_block(&mut self, widget: W)
        ensures
            final(self).widgets@ == old(self).widgets@.push((widget, false)),
            final(self).widget_subareas == old(self).widget_subareas,
            final(self).area_allocator == old(self).area_allocator,
    {
        self.widgets.push((widget, false));
    }

    /// Append a child directly to the right of the previous one; the line
    /// wraps when the child does not fit.
    pub fn push_inline(&mut self, widget: W)
        ensures
            final(self).widgets@ == old(self).widgets@.push((widget, true)),
            final(self).widget_subareas == old(self).widget_subareas,
            final(self).area_allocator == old(self).area_allocator,
    {
        self.widgets.push((widget, true));
    }

    /// Alias for [`Div::push_block`].
    pub fn add_block(&mut self, widget: W)
        ensures
            final(self).widgets@ == old(self).widgets@.push((widget, false)),
            final(self).widget_subareas == old(self).widget_subareas,
            final(self).area_allocator == old(self).area_allocator,
    {
        self.push_block(widget);
    }

    /// Alias for [`Div::push_inline`].
    pub fn add_inline(&mut self, widget: W)
        ensures
            final(self).widgets@ == old(self).widgets@.push((widget, true)),
            final(self).widget_subareas == old(self).widget_subareas,
            final(self).area_allocator == old(self).area_allocator,
    {
        self.push_inline(widget);
    }

    /// By default the container infers its size envelope from its
    /// container; a custom allocator overrides that resolution.
    pub fn set_area_allocator(&mut self, area_allocator: Option<A>)
        ensures
            final(self).area_allocator == area_allocator,
            final(self).widgets == old(self).widgets,
            final(self).widget_subareas == old(self).widget_subareas,
    {
        self.area_allocator = area_allocator;
    }
}

/// A size squeezed onto a line of its own: capped at what the container
/// allows on each axis, then clamped back into its own limits.
pub open spec fn div_fit(ws: WidgetSize, env: WidgetSize) -> WidgetSize {
    ws.with_width(imin(ws.width as int, env.max_width as int)).with_height(
        imin(ws.height as int, env.max_height as int),
    )
}

/// The measured sizes paired with their inline flags, in child order.
pub open spec fn div_items_spec<B, W: Widget<B>>(
    ws: Seq<(W, bool)>,
    screen: (u64, u64),
    container: (u64, u64),
) -> Seq<(WidgetSize, bool)> {
    Seq::new(ws.len(), |i: int| (ws[i].0.size_spec(screen, container), ws[i].1))
}

/// Line-flow formation: an inline child following an inline child joins
/// the current line while the line stays within the container's maximum
/// width; any other child opens a new line, squeezed into the container's
/// restriction. A leading inline child that fits opens the first line
/// unsqueezed.
pub open spec fn div_rows(items: Seq<(WidgetSize, bool)>, env: WidgetSize) -> Seq<
    Seq<WidgetSize>,
>
    decreases items.len(),
{
    if items.len() == 0 {
        Seq::empty()
    } else {
        let rest = div_rows(items.drop_last(), env);
        let ws = items.last().0;
        let inline = items.last().1;
        let prev_inline = if items.len() >= 2 {
            items[items.len() - 2].1
        } else {
            true
        };
        let last_width = if rest.len() == 0 {
            0
        } else {
            row_width_of(rest.last())
        };
        if inline && prev_inline && last_width + ws.width <= env.max_width {
            if rest.len() == 0 {
                seq![seq![ws]]
            } else {
                rest.update(rest.len() - 1, rest.last().push(ws))
            }
        } else {
            rest.push(seq![div_fit(ws, env)])
        }
    }
}

/// The size a measurement returns: the envelope with its proposed extents
/// set to the widest line and the lines' total height, clamped into the
/// envelope's own ranges.
pub open spec fn div_size(items: Seq<(WidgetSize, bool)>, env: WidgetSize) -> WidgetSize {
    let rows = div_rows(items, env);
    env.with_width(max_row_width(rows)).with_height(total_height_of(rows))
}

/// The rectangles of one line's items, left to right from `x`.
pub open spec fn div_place_row(row: Seq<WidgetSize>, x: int, y: int) -> Seq<Rect>
    decreases row.len(),
{
    if row.len() == 0 {
        Seq::empty()
    } else {
        let w = row.first();
        seq![
            Rect {
                min: ((x as u64), (y as u64)),
                max: (((x + w.width) as u64), ((y + w.height) as u64)),
            },
        ] + div_place_row(row.drop_first(), x + w.width, y)
    }
}

/// The rectangles of all lines, top to bottom from `y`; every line starts
/// at the left edge.
pub open spec fn div_place(rows: Seq<Seq<WidgetSize>>, y: int) -> Seq<Rect>
    decreases rows.len(),
{
    if rows.len() == 0 {
        Seq::empty()
    } else {
        div_place_row(rows.first(), 0, y) + div_place(
            rows.drop_first(),
            y + row_height_of(rows.first()),
        )
    }
}

/// The placement rectangles a measurement stores, one per child in order.
pub open spec fn div_rects(items: Seq<(WidgetSize, bool)>, env: WidgetSize) -> Seq<Rect> {
    div_place(div_rows(items, env), 0)
}

/// Placement emits one rectangle per item of the line.
proof fn lemma_div_place_row_len(row: Seq<WidgetSize>, x: int, y: int)
    ensures
        div_place_row(row, x, y).len() == row.len(),
    decreases row.len(),
{
    if row.len() > 0 {
        lemma_div_place_row_len(row.drop_first(), x + row.first().width, y);
    }
}

/// Placement emits one rectangle per item over all lines.
proof fn lemma_div_place_len(rows: Seq<Seq<WidgetSize>>, y: int)
    ensures
        div_place(rows, y).len() == sum_lens(rows),
    decreases rows.len(),
{
    if rows.len() > 0 {
        lemma_div_place_row_len(rows.first(), 0, y);
        lemma_div_place_len(rows.drop_first(), y + row_height_of(rows.first()));
        lemma_sum_lens_first(rows);
    }
}

impl<B, W: Widget<B>, A: AreaAllocator> Widget<B> for Div<W, A> {
    /// The envelope with its proposed extents set to the resolved content.
    open spec fn size_spec(&self, screen: (u64, u64), container: (u64, u64)) -> WidgetSize {
        let env = envelope_spec(self.area_allocator, screen, container);
        div_size(div_items_spec::<B, W>(self.widgets@, screen, container), env)
    }

    /// Measurement measures every child against the container's extent,
    /// stores one placement rectangle per child, and leaves the
    /// configuration alone.
    open spec fn measured_rel(&self, post: Self, screen: (u64, u64), container: (u64, u64)) -> bool {
        let env = envelope_spec(self.area_allocator, screen, container);
        let items = div_items_spec::<B, W>(self.widgets@, screen, container);
        &&& post.widgets@.len() == self.widgets@.len()
        &&& forall|i: int|
            0 <= i < self.widgets@.len() ==> self.widgets@[i].0.measured_rel(
                (#[trigger] post.widgets@[i]).0,
                screen,
                container,
            ) && post.widgets@[i].1 == self.widgets@[i].1
        &&& post.widget_subareas@ == div_rects(items, env)
        &&& post.area_allocator == self.area_allocator
    }

    /// The child count must stay within the arithmetic bound, and every
    /// child must itself be measurable.
    open spec fn measure_allowed(&self) -> bool {
        &&& self.widgets@.len() <= MAX_CHILDREN
        &&& forall|i: int|
            0 <= i < self.widgets@.len() ==> (#[trigger] self.widgets@[i]).0.measure_allowed()
    }

    /// The stored placement rectangles cover the current children one for
    /// one, and every child is itself ready.
    open spec fn render_ready(&self) -> bool {
        &&& self.widgets@.len() == self.widget_subareas@.len()
        &&& forall|i: int|
            0 <= i < self.widgets@.len() ==> (#[trigger] self.widgets@[i]).0.render_ready()
    }

    /// Every stored rectangle translates into `area` without leaving the
    /// coordinate range, recursively through the children.
    open spec fn render_fits(&self, area: Rect) -> bool {
        forall|i: int|
            0 <= i < self.widget_subareas@.len() ==> {
                &&& (#[trigger] self.widget_subareas@[i]).wf()
                &&& area.can_hold(self.widget_subareas@[i])
                &&& i < self.widgets@.len() ==> self.widgets@[i].0.render_fits(
                    area.subarea_spec(self.widget_subareas@[i]),
                )
            }
    }

    proof fn lemma_measure_stable(&self, post: Self, screen: (u64, u64), container: (u64, u64)) {
        let env = envelope_spec(self.area_allocator, screen, container);
        let items = div_items_spec::<B, W>(self.widgets@, screen, container);
        let post_items = div_items_spec::<B, W>(post.widgets@, screen, container);
        assert forall|i: int| 0 <= i < self.widgets@.len() implies post_items[i] == items[i] && (
        self.widgets@[i].0.measure_allowed() ==> (#[trigger] post.widgets@[i]).0.measure_allowed()
            && post.widgets@[i].0.render_ready()) by {
            self.widgets@[i].0.lemma_measure_stable(post.widgets@[i].0, screen, container);
        }
        assert(post_items =~= items);
        if self.measure_allowed() {
            lemma_div_rows_count(items, env);
            lemma_div_place_len(div_rows(items, env), 0);
        }
    }

    /// Measure every child, flow the children into lines, record the
    /// placement rectangles and return the resolved size.
    fn allocate_area(&mut self, screen: (u64, u64), container: (u64, u64)) -> (s: WidgetSize) {
        let env = match &self.area_allocator {
            Option::Some(a) => a.allocate_area(screen, container),
            Option::None => WidgetSize {
                min_width: 0,
                width: 0,
                max_width: container.0,
                min_height: 0,
                height: 0,
                max_height: container.1,
            },
        };
        proof {
            assert(env == envelope_spec(old(self).area_allocator, screen, container));
            assert(env.valid());
        }
        let ghost items = div_items_spec::<B, W>(old(self).widgets@, screen, container);
        let n = self.widgets.len();
        // Measure the children and flow them into lines as they come.
        let mut rows: Vec<Row> = Vec::new();
        let mut cur: Vec<WidgetSize> = Vec::new();
        let mut cur_w: u64 = 0;
        let mut cur_h: u64 = 0;
        let mut prev_inline = true;
        let mut i: usize = 0;
        while i < n
            invariant
                n == self.widgets@.len() == old(self).widgets@.len() <= MAX_CHILDREN,
                i <= n,
                old(self).measure_allowed(),
                env == envelope_spec(old(self).area_allocator, screen, container),
                env.valid(),
                screen.0 <= MAX_DIM && screen.1 <= MAX_DIM,
                container.0 <= MAX_DIM && container.1 <= MAX_DIM,
                items == div_items_spec::<B, W>(old(self).widgets@, screen, container),
                forall|j: int| i <= j < n ==> self.widgets@[j] == old(self).widgets@[j],
                forall|j: int|
                    0 <= j < i ==> old(self).widgets@[j].0.measured_rel(
                        (#[trigger] self.widgets@[j]).0,
                        screen,
                        container,
                    ) && self.widgets@[j].1 == old(self).widgets@[j].1,
                forall|j: int| 0 <= j < i ==> (#[trigger] items[j]).0.valid(),
                self.widget_subareas == old(self).widget_subareas,
                self.area_allocator == old(self).area_allocator,
                cur_w == row_width_of(cur@),
                cur_h == row_height_of(cur@),
                sizes_valid(cur@),
                cur@.len() <= i,
                i > 0 ==> cur@.len() >= 1,
                i == 0 ==> cur@.len() == 0 && rows@.len() == 0,
                i == 0 ==> prev_inline,
                i > 0 ==> prev_inline == items[i - 1].1,
                forall|k: int| 0 <= k < rows@.len() ==> (#[trigger] rows@[k]).ok(),
                i == 0 ==> div_rows(items.take(i as int), env) =~= Seq::<Seq<WidgetSize>>::empty(),
                i > 0 ==> div_rows(items.take(i as int), env) =~= rows_view(rows@).push(cur@),
            decreases n - i,
        {
            proof {
                assert(self.widgets@[i as int] == old(self).widgets@[i as int]);
                assert(self.widgets@[i as int].0.measure_allowed());
                assert(items.take(i + 1).drop_last() =~= items.take(i as int));
                assert(items.take(i + 1).last() == items[i as int]);
                assert(forall|k: int|
                    0 <= k < i ==> #[trigger] items.take(i + 1)[k] == items[k]);
                lemma_row_width_bound(cur@);
            }
            let inline = self.widgets[i].1;
            let s = self.widgets[i].0.allocate_area(screen, container);
            let ghost prev_rows = rows@;
            let ghost prev_cur = cur@;
            if inline && prev_inline && cur_w + s.width <= env.max_width {
                cur.push(s);
                proof {
                    assert(cur@.drop_last() =~= prev_cur);
                }
                cur_w = cur_w + s.width;
                cur_h = if s.height > cur_h {
                    s.height
                } else {
                    cur_h
                };
                proof {
                    assert(cur@.last() == s);
                    assert(row_width_of(cur@) == row_width_of(cur@.drop_last()) + s.width);
                    assert(row_height_of(cur@) == imax(
                        row_height_of(cur@.drop_last()),
                        s.height as int,
                    ));
                    assert(row_height_of(cur@.drop_last()) == row_height_of(prev_cur));
                    assert(cur_w == row_width_of(cur@));
                    assert(cur_h == row_height_of(cur@));
                }
                proof {
                    let full = div_rows(items.take(i + 1), env);
                    let rest = div_rows(items.take(i as int), env);
                    if i == 0 {
                        assert(cur@ =~= seq![s]);
                        assert(full =~= rows_view(rows@).push(cur@));
                    } else {
                        assert(rest.last() == prev_cur);
                        assert(row_width_of(prev_cur) + s.width <= env.max_width);
                        assert(full =~= rest.update(rest.len() - 1, prev_cur.push(s)));
                        assert(full =~= rows_view(rows@).push(cur@));
                    }
                }
            } else {
                if cur.len() > 0 {
                    rows.push(Row { items: cur, width: cur_w, height: cur_h });
                    cur = Vec::new();
                }
                let mut fitted = s;
                let capped_w = if s.width > env.max_width {
                    env.max_width
                } else {
                    s.width
                };
                let capped_h = if s.height > env.max_height {
                    env.max_height
                } else {
                    s.height
                };
                fitted.set_size(capped_w, capped_h);
                proof {
                    assert(fitted == div_fit(s, env));
                    assert(fitted.valid());
                }
                cur = Vec::new();
                cur.push(fitted);
                cur_w = fitted.width;
                cur_h = fitted.height;
                proof {
                    assert(cur@ =~= seq![fitted]);
                    assert(cur@.drop_last() =~= Seq::<WidgetSize>::empty());
                    assert(cur@.last() == fitted);
                    assert(row_width_of(Seq::<WidgetSize>::empty()) == 0);
                    assert(row_height_of(Seq::<WidgetSize>::empty()) == 0);
                    assert(row_width_of(cur@) == row_width_of(cur@.drop_last())
                        + cur@.last().width);
                    assert(row_height_of(cur@) == imax(
                        row_height_of(cur@.drop_last()),
                        cur@.last().height as int,
                    ));
                    assert(cur_w == row_width_of(cur@));
                    assert(cur_h == row_height_of(cur@));
                }
                proof {
                    let full = div_rows(items.take(i + 1), env);
                    let rest = div_rows(items.take(i as int), env);
                    assert(cur@ =~= seq![fitted]);
                    assert(cur@.drop_last() =~= Seq::<WidgetSize>::empty());
                    if i == 0 {
                        assert(rest =~= Seq::<Seq<WidgetSize>>::empty());
                        assert(full =~= rest.push(seq![fitted]));
                        assert(full =~= rows_view(rows@).push(cur@));
                    } else {
                        assert(full =~= rest.push(seq![fitted]));
                        assert(rows_view(rows@) =~= rows_view(prev_rows).push(prev_cur));
                        assert(full =~= rows_view(rows@).push(cur@));
                    }
                }
            }
            prev_inline = inline;
            i = i + 1;
        }
        proof {
            assert(items.take(n as int) =~= items);
        }
        if cur.len() > 0 {
            rows.push(Row { items: cur, width: cur_w, height: cur_h });
        }
        proof {
            assert(rows_view(rows@) =~= div_rows(items, env));
            lemma_div_rows_count(items, env);
        }
        let ghost frows = div_rows(items, env);
        // Place the lines top to bottom, each line's items left to right.
        let rn = rows.len();
        let ghost whole = div_place(frows, 0);
        let mut rects: Vec<Rect> = Vec::new();
        let mut div_width: u64 = 0;
        let mut y: u64 = 0;
        i = 0;
        proof {
            assert(frows.skip(0) =~= frows);
            assert(rects@ + div_place(frows, 0) =~= whole);
        }
        while i < rn
            invariant
                rn == rows@.len(),
                i <= rn,
                frows == rows_view(rows@),
                whole == div_place(frows, 0),
                forall|k: int| 0 <= k < rn ==> (#[trigger] rows@[k]).ok(),
                rn <= MAX_CHILDREN,
                div_width == max_row_width(frows.take(i as int)),
                y == total_height_of(frows.take(i as int)),
                y <= i * MAX_DIM,
                whole =~= rects@ + div_place(frows.skip(i as int), y as int),
            decreases rn - i,
        {
            proof {
                assert(frows.take(i + 1).drop_last() =~= frows.take(i as int));
                assert(frows.take(i + 1).last() == frows[i as int]);
                assert(frows.skip(i as int).first() == frows[i as int]);
                assert(frows.skip(i as int).drop_first() =~= frows.skip(i + 1));
                assert(frows[i as int] == rows@[i as int].items@);
                lemma_row_height_bounds(rows@[i as int].items@);
                lemma_row_width_bound(rows@[i as int].items@);
                assert((i + 1) * MAX_DIM == i * MAX_DIM + MAX_DIM) by (nonlinear_arith);
                assert(i * MAX_DIM <= 0x1000_0000 * MAX_DIM) by (nonlinear_arith)
                    requires
                        0 <= i <= 0x1000_0000,
                ;
            }
            let row = &rows[i];
            let m = row.items.len();
            if row.width > div_width {
                div_width = row.width;
            }
            let ghost row_items = row.items@;
            let mut x: u64 = 0;
            let mut j: usize = 0;
            proof {
                assert(row_items.skip(0) =~= row_items);
            }
            while j < m
                invariant
                    m == row.items@.len() <= MAX_CHILDREN,
                    j <= m,
                    row_items == row.items@,
                    sizes_valid(row.items@),
                    x == row_width_of(row.items@.take(j as int)),
                    x <= j * MAX_DIM,
                    y <= 0x1000_0000 * MAX_DIM,
                    whole =~= rects@ + (div_place_row(
                        row_items.skip(j as int),
                        x as int,
                        y as int,
                    ) + div_place(frows.skip(i + 1), y + row_height_of(row_items))),
                decreases m - j,
            {
                proof {
                    assert(row_items.skip(j as int).first() == row_items[j as int]);
                    assert(row_items.skip(j as int).drop_first() =~= row_items.skip(j + 1));
                    assert(row_items.take(j + 1).drop_last() =~= row_items.take(j as int));
                    assert(row_items.take(j + 1).last() == row_items[j as int]);
                    assert((j + 1) * MAX_DIM == j * MAX_DIM + MAX_DIM) by (nonlinear_arith);
                    assert(j * MAX_DIM <= 0x1000_0000 * MAX_DIM) by (nonlinear_arith)
                        requires
                            0 <= j <= 0x1000_0000,
                    ;
                }
                let w = row.items[j];
                let rect = Rect { min: (x, y), max: (x + w.width, y + w.height) };
                let ghost old_rects = rects@;
                let ghost old_x = x as int;
                rects.push(rect);
                x = x + w.width;
                j = j + 1;
                proof {
                    let rest_rows = div_place(frows.skip(i + 1), y + row_height_of(row_items));
                    assert(div_place_row(row_items.skip(j - 1), old_x, y as int) =~= seq![rect]
                        + div_place_row(row_items.skip(j as int), x as int, y as int));
                    assert(rects@ + (div_place_row(row_items.skip(j as int), x as int, y as int)
                        + rest_rows) =~= old_rects + (div_place_row(
                        row_items.skip(j - 1),
                        old_x,
                        y as int,
                    ) + rest_rows));
                }
            }
            proof {
                assert(row_items.skip(m as int) =~= Seq::<WidgetSize>::empty());
            }
            y = y + row.height;
            i = i + 1;
        }
        proof {
            assert(frows.take(rn as int) =~= frows);
            assert(frows.skip(rn as int) =~= Seq::<Seq<WidgetSize>>::empty());
            assert(rects@ =~= whole);
        }
        let mut out = env;
        out.set_size(div_width, y);
        proof {
            assert(out == div_size(items, env));
            assert(out.valid());
        }
        self.widget_subareas = rects;
        out
    }

    /// Hand each child the sub-rectangle its stored placement resolves
    /// within `area`, in order; reject stale placement data explicitly.
    fn render(&self, area: Rect, backend: &mut B) -> (r: Result<(), RenderError>) {
        let n = self.widgets.len();
        if n != self.widget_subareas.len() {
            return Err(RenderError::StaleLayout);
        }
        let mut i: usize = 0;
        while i < n
            invariant
                n == self.widgets@.len() == self.widget_subareas@.len(),
                i <= n,
                area.wf(),
                self.render_fits(area),
                forall|j: int| 0 <= j < i ==> (#[trigger] self.widgets@[j]).0.render_ready(),
            decreases n - i,
        {
            let sub = area.subarea(self.widget_subareas[i]);
            match self.widgets[i].0.render(sub, backend) {
                Ok(()) => {},
                Err(e) => {
                    proof {
                        assert(!self.widgets@[i as int].0.render_ready());
                    }
                    return Err(e);
                },
            }
            i = i + 1;
        }
        Ok(())
    }
}

impl<W, A> Default for Div<W, A> {
    fn default() -> (d: Div<W, A>)
        ensures
            d.widgets@.len() == 0,
            d.widget_subareas@.len() == 0,
            d.area_allocator is None,
    {
        Div::new()
    }
}

/// Measuring twice under the same constraints, with no intervening change
/// to the children or the configuration, resolves the same size and the
/// same placement rectangles: measurement is idempotent.
pub proof fn lemma_div_measure_idempotent<B, W: Widget<B>, A: AreaAllocator>(
    pre: Div<W, A>,
    post: Div<W, A>,
    twice: Div<W, A>,
    screen: (u64, u64),
    container: (u64, u64),
)
    requires
        Widget::<B>::measured_rel(&pre, post, screen, container),
        Widget::<B>::measured_rel(&post, twice, screen, container),
    ensures
        Widget::<B>::size_spec(&post, screen, container) == Widget::<B>::size_spec(
            &pre,
            screen,
            container,
        ),
        Widget::<B>::size_spec(&twice, screen, container) == Widget::<B>::size_spec(
            &pre,
            screen,
            container,
        ),
        twice.widget_subareas@ == post.widget_subareas@,
{
    let items = div_items_spec::<B, W>(pre.widgets@, screen, container);
    let post_items = div_items_spec::<B, W>(post.widgets@, screen, container);
    assert forall|i: int| 0 <= i < pre.widgets@.len() implies post_items[i] == items[i] by {
        pre.widgets@[i].0.lemma_measure_stable(post.widgets@[i].0, screen, container);
    }
    assert(post_items =~= items);
    pre.lemma_measure_stable(post, screen, container);
    post.lemma_measure_stable(twice, screen, container);
}

/// Line flow loses no item and emits no empty line, whatever the sizes.
proof fn lemma_div_rows_count(items: Seq<(WidgetSize, bool)>, env: WidgetSize)
    ensures
        div_rows(items, env).len() <= items.len(),
        sum_lens(div_rows(items, env)) == items.len(),
    decreases items.len(),
{
    if items.len() > 0 {
        let prev = items.drop_last();
        lemma_div_rows_count(prev, env);
        let rest = div_rows(prev, env);
        let ws = items.last().0;
        let rows = div_rows(items, env);
        let inline = items.last().1;
        let prev_inline = if items.len() >= 2 {
            items[items.len() - 2].1
        } else {
            true
        };
        let last_width = if rest.len() == 0 {
            0
        } else {
            row_width_of(rest.last())
        };
        if inline && prev_inline && last_width + ws.width <= env.max_width {
            if rest.len() == 0 {
                assert(rows =~= seq![seq![ws]]);
                assert(rows.drop_last() =~= Seq::<Seq<WidgetSize>>::empty());
            } else {
                let grown = rest.last().push(ws);
                assert(rows == rest.update(rest.len() - 1, grown));
                assert(rows.drop_last() =~= rest.drop_last());
                assert(rows.last() == grown);
            }
        } else {
            assert(rows == rest.push(seq![div_fit(ws, env)]));
            assert(rows.drop_last() =~= rest);
        }
    }
}

} // verus!
