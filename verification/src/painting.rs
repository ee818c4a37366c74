//! What is painted on the bar and on the clock panel, in the order in which it
//! is painted.
use vstd::prelude::*;

use crate::bar;
use crate::bar::{Bar, Module, Segment};
use crate::clock;
use crate::config::Colors;
use crate::lettering;
use crate::notifications::Entry;
use crate::panel;
use crate::panel::{
    Layout, Panel, PanelMetrics, Rect, Row, RowText, CLOSE, HAIRLINE, HOVER_PILL,
    PANEL_PAD, PANEL_RADIUS, ROW_FILL, ROW_HOVER, ROW_PAD, ROW_RADIUS, UNIT,
};

verus! {

/// The size of the letters.
#[derive(Clone, Copy, PartialEq, Eq, Debug, Structural)]
pub enum Size {
    Big,
    Base,
    Small,
}

/// Where in its rectangle a text stands.
#[derive(Clone, Copy, PartialEq, Eq, Debug, Structural)]
pub enum Align {
    Left,
    Centre,
    Right,
}

/// Something to paint.
#[derive(Debug, PartialEq, Eq)]
pub enum Item {
    /// A rectangle with rounded corners.
    Rounded { rect: Rect, radius: i128, color: [u8; 4] },
    /// A square-cornered fill.
    Rule { rect: Rect, color: [u8; 4] },
    /// A line of text, vertically centred in its rectangle. Where `cut`, it
    /// is cut to the rectangle's width.
    Line { text: String, rect: Rect, align: Align, size: Size, color: [u8; 4], cut: bool },
    /// From here on only what lies between these two is painted.
    Clip { top: i128, bottom: i128 },
}

/// An [`Item`], with its text by its characters.
pub enum ItemView {
    Rounded { rect: Rect, radius: i128, color: [u8; 4] },
    Rule { rect: Rect, color: [u8; 4] },
    Line { text: Seq<char>, rect: Rect, align: Align, size: Size, color: [u8; 4], cut: bool },
    Clip { top: i128, bottom: i128 },
}

impl View for Item {
    type V = ItemView;

    open spec fn view(&self) -> ItemView {
        match self {
            Item::Rounded { rect, radius, color } => ItemView::Rounded {
                rect: *rect,
                radius: *radius,
                color: *color,
            },
            Item::Rule { rect, color } => ItemView::Rule { rect: *rect, color: *color },
            Item::Line { text, rect, align, size, color, cut } => ItemView::Line {
                text: text@,
                rect: *rect,
                align: *align,
                size: *size,
                color: *color,
                cut: *cut,
            },
            Item::Clip { top, bottom } => ItemView::Clip { top: *top, bottom: *bottom },
        }
    }
}

/// The items of a list.
pub open spec fn item_views(items: Seq<Item>) -> Seq<ItemView> {
    Seq::new(items.len(), |i: int| items[i]@)
}

/// The pointer is on `r`.
pub open spec fn over(p: Panel, r: Rect) -> bool {
    p.pointer matches Some((x, y)) && r.holds(x as int, y as int)
}

/// The background, the time, the date in words, the rule under it and the
/// header.
pub open spec fn head_items(
    p: Panel,
    l: Layout,
    clock: Seq<char>,
    long_date: Seq<char>,
    c: Colors,
) -> Seq<ItemView> {
    seq![
        ItemView::Rounded {
            rect: Rect {
                x: 0,
                y: 0,
                w: (p.width * UNIT) as i128,
                h: (p.height * UNIT) as i128,
            },
            radius: (PANEL_RADIUS * UNIT) as i128,
            color: c.bg,
        },
        ItemView::Line {
            text: clock,
            rect: l.clock,
            align: Align::Left,
            size: Size::Big,
            color: c.fg,
            cut: false,
        },
        ItemView::Line {
            text: long_date,
            rect: l.date,
            align: Align::Left,
            size: Size::Base,
            color: c.muted,
            cut: false,
        },
        ItemView::Rule { rect: l.rule, color: HAIRLINE },
        ItemView::Line {
            text: "Notifications"@,
            rect: l.header,
            align: Align::Left,
            size: Size::Base,
            color: c.fg,
            cut: false,
        },
    ]
}

/// The pill behind a control under the pointer.
pub open spec fn pill(rect: Rect, hovered: bool) -> Seq<ItemView> {
    if hovered {
        seq![ItemView::Rounded { rect, radius: (rect.h as int / 2) as i128, color: HOVER_PILL }]
    } else {
        seq![]
    }
}

/// "Clear all", which stands at the right end of the header.
pub open spec fn clear_items(p: Panel, l: Layout, c: Colors) -> Seq<ItemView> {
    match l.clear {
        Some(r) => pill(r, over(p, r)).push(
            ItemView::Line {
                text: "Clear all"@,
                rect: l.header,
                align: Align::Right,
                size: Size::Small,
                color: if over(p, r) {
                    c.fg
                } else {
                    c.muted
                },
                cut: false,
            },
        ),
        None => seq![],
    }
}

/// Where one of a row's lines stands: `y` is in steps, the height in pixels.
pub open spec fn text_rect(width: u32, y: int, h: int) -> Rect {
    Rect {
        x: ((PANEL_PAD + 14) * UNIT) as i128,
        y: y as i128,
        w: ((width - 2 * PANEL_PAD - 14 - CLOSE - 10) * UNIT) as i128,
        h: (h * UNIT) as i128,
    }
}

/// The row itself, brighter under the pointer.
pub open spec fn row_back(p: Panel, m: PanelMetrics, row: Row) -> ItemView {
    ItemView::Rounded {
        rect: Rect {
            x: (PANEL_PAD * UNIT) as i128,
            y: row.top,
            w: ((p.width - 2 * PANEL_PAD) * UNIT) as i128,
            h: (m.spec_row() * UNIT) as i128,
        },
        radius: (ROW_RADIUS * UNIT) as i128,
        color: if over(p, row.shown) {
            ROW_HOVER
        } else {
            ROW_FILL
        },
    }
}

/// A dot before a notification that is still open in Huginn, not yet only
/// history.
pub open spec fn dot(m: PanelMetrics, row: Row, open: bool, c: Colors) -> Seq<ItemView> {
    if open {
        let y = row.top + ROW_PAD * UNIT + (m.small - 6) * (UNIT / 2);
        seq![
            ItemView::Rounded {
                rect: Rect {
                    x: ((PANEL_PAD + 5) * UNIT) as i128,
                    y: y as i128,
                    w: (6 * UNIT) as i128,
                    h: (6 * UNIT) as i128,
                },
                radius: (3 * UNIT) as i128,
                color: c.accent,
            },
        ]
    } else {
        seq![]
    }
}

/// The lines of a row: who and when, the summary, and the body if there is
/// any.
pub open spec fn line_items(
    width: u32,
    m: PanelMetrics,
    row: Row,
    head: Seq<char>,
    summary: Seq<char>,
    body: Seq<char>,
    c: Colors,
) -> Seq<ItemView> {
    let y = row.top + ROW_PAD * UNIT;
    let lines = seq![
        ItemView::Line {
            text: head,
            rect: text_rect(width, y, m.small as int),
            align: Align::Left,
            size: Size::Small,
            color: c.muted,
            cut: true,
        },
        ItemView::Line {
            text: summary,
            rect: text_rect(width, y + m.small * UNIT, m.line as int),
            align: Align::Left,
            size: Size::Base,
            color: c.fg,
            cut: true,
        },
    ];
    if body.len() == 0 {
        lines
    } else {
        lines.push(
            ItemView::Line {
                text: body,
                rect: text_rect(width, y + m.small * UNIT + m.line * UNIT, m.small as int),
                align: Align::Left,
                size: Size::Small,
                color: c.muted,
                cut: true,
            },
        )
    }
}

/// The remove control of a row. It only answers the pointer where all of it
/// shows.
pub open spec fn remove_items(p: Panel, row: Row, c: Colors) -> Seq<ItemView> {
    let hovered = row.clickable && over(p, row.remove);
    pill(row.remove, hovered).push(
        ItemView::Line {
            text: "󰅖"@,
            rect: row.remove,
            align: Align::Centre,
            size: Size::Base,
            color: if hovered {
                c.fg
            } else {
                c.muted
            },
            cut: false,
        },
    )
}

/// Everything on a row.
pub open spec fn row_items(
    p: Panel,
    m: PanelMetrics,
    row: Row,
    open: bool,
    t: RowText,
    c: Colors,
) -> Seq<ItemView> {
    seq![row_back(p, m, row)] + dot(m, row, open, c) + line_items(
        p.width,
        m,
        row,
        t.head@,
        t.summary@,
        t.body@,
        c,
    ) + remove_items(p, row, c)
}

/// Everything on the rows, one after the other.
pub open spec fn rows_items(
    p: Panel,
    m: PanelMetrics,
    rows: Seq<Row>,
    notes: Seq<Entry>,
    texts: Seq<RowText>,
    c: Colors,
) -> Seq<ItemView>
    decreases rows.len(),
{
    if rows.len() == 0 {
        seq![]
    } else {
        let i = rows.last().index as int;
        rows_items(p, m, rows.drop_last(), notes, texts, c) + row_items(
            p,
            m,
            rows.last(),
            notes[i].open,
            texts[rows.len() - 1],
            c,
        )
    }
}

/// The list, or that there is nothing in it.
pub open spec fn list_items(
    p: Panel,
    m: PanelMetrics,
    l: Layout,
    notes: Seq<Entry>,
    texts: Seq<RowText>,
    c: Colors,
) -> Seq<ItemView> {
    if notes.len() == 0 {
        seq![
            ItemView::Line {
                text: "No new notifications"@,
                rect: l.list,
                align: Align::Centre,
                size: Size::Base,
                color: c.muted,
                cut: false,
            },
        ]
    } else {
        seq![
            ItemView::Clip { top: l.list.y, bottom: (l.list.y + l.list.h) as i128 },
        ] + rows_items(p, m, l.rows@, notes, texts, c)
    }
}

/// Everything on the panel.
pub open spec fn panel_items(
    p: Panel,
    m: PanelMetrics,
    l: Layout,
    notes: Seq<Entry>,
    texts: Seq<RowText>,
    clock: Seq<char>,
    long_date: Seq<char>,
    c: Colors,
) -> Seq<ItemView> {
    head_items(p, l, clock, long_date, c) + clear_items(p, l, c) + list_items(
        p,
        m,
        l,
        notes,
        texts,
        c,
    )
}

/// A line that is not cut.
fn line(text: &str, rect: Rect, align: Align, size: Size, color: [u8; 4]) -> (i: Item)
    ensures
        i@ == (ItemView::Line { text: text@, rect, align, size, color, cut: false }),
{
    Item::Line { text: text.to_owned(), rect, align, size, color, cut: false }
}

/// A line that is cut to its rectangle.
fn cut_line(text: &str, rect: Rect, size: Size, color: [u8; 4]) -> (i: Item)
    ensures
        i@ == (ItemView::Line { text: text@, rect, align: Align::Left, size, color, cut: true }),
{
    Item::Line { text: text.to_owned(), rect, align: Align::Left, size, color, cut: true }
}

fn push_pill(items: &mut Vec<Item>, rect: Rect, hovered: bool)
    requires
        rect.near(),
    ensures
        item_views(final(items)@) == item_views(old(items)@) + pill(rect, hovered),
{
    let ghost before = item_views(items@);
    if hovered {
        let radius: i128 = if rect.h < 0 {
            -((1 - rect.h) / 2)
        } else {
            rect.h / 2
        };
        items.push(Item::Rounded { rect, radius, color: HOVER_PILL });
    }
    assert(item_views(items@) =~= before + pill(rect, hovered));
}

fn text_at(width: u32, y: i128, h: u32) -> (r: Rect)
    ensures
        r == text_rect(width, y as int, h as int),
{
    Rect {
        x: (PANEL_PAD + 14) * UNIT,
        y,
        w: (width as i128 - 2 * PANEL_PAD - 14 - CLOSE - 10) * UNIT,
        h: h as i128 * UNIT,
    }
}

/// Add a row's items.
fn push_row(
    items: &mut Vec<Item>,
    p: &Panel,
    m: &PanelMetrics,
    row: &Row,
    open: bool,
    t: &RowText,
    c: &Colors,
)
    requires
        row.near(),
    ensures
        item_views(final(items)@) == item_views(old(items)@) + row_items(*p, *m, *row, open, *t, *c),
{
    let ghost start = item_views(items@);
    let back = Rect {
        x: PANEL_PAD * UNIT,
        y: row.top,
        w: (p.width as i128 - 2 * PANEL_PAD) * UNIT,
        h: m.row() * UNIT,
    };
    let color = if p.over(&row.shown) {
        ROW_HOVER
    } else {
        ROW_FILL
    };
    items.push(Item::Rounded { rect: back, radius: ROW_RADIUS * UNIT, color });
    assert(item_views(items@) =~= start + seq![row_back(*p, *m, *row)]);
    let ghost one = item_views(items@);
    let y: i128 = row.top + ROW_PAD * UNIT;
    if open {
        items.push(
            Item::Rounded {
                rect: Rect {
                    x: (PANEL_PAD + 5) * UNIT,
                    y: y + (m.small as i128 - 6) * (UNIT / 2),
                    w: 6 * UNIT,
                    h: 6 * UNIT,
                },
                radius: 3 * UNIT,
                color: c.accent,
            },
        );
    }
    assert(item_views(items@) =~= one + dot(*m, *row, open, *c));
    let ghost two = item_views(items@);
    let second: i128 = y + m.small as i128 * UNIT;
    let third: i128 = second + m.line as i128 * UNIT;
    items.push(cut_line(t.head.as_str(), text_at(p.width, y, m.small), Size::Small, c.muted));
    items.push(cut_line(t.summary.as_str(), text_at(p.width, second, m.line), Size::Base, c.fg));
    if !t.body.as_str().is_empty() {
        items.push(cut_line(t.body.as_str(), text_at(p.width, third, m.small), Size::Small, c.muted));
    }
    assert(item_views(items@) =~= two + line_items(
        p.width,
        *m,
        *row,
        t.head@,
        t.summary@,
        t.body@,
        *c,
    ));
    let ghost three = item_views(items@);
    let hovered = row.clickable && p.over(&row.remove);
    push_pill(items, row.remove, hovered);
    let color = if hovered {
        c.fg
    } else {
        c.muted
    };
    let ghost four = item_views(items@);
    items.push(line("󰅖", row.remove, Align::Centre, Size::Base, color));
    assert(item_views(items@) =~= three + remove_items(*p, *row, *c)) by {
        assert(item_views(items@) =~= four.push(items@.last()@));
    }
    assert(item_views(items@) =~= start + row_items(*p, *m, *row, open, *t, *c));
}

/// Everything to paint on the panel, in order. `texts` are what the rows of
/// the layout say, one for each.
pub fn paint_panel(
    p: &Panel,
    m: &PanelMetrics,
    l: &Layout,
    notes: &Vec<Entry>,
    texts: &Vec<RowText>,
    clock: &str,
    long_date: &str,
    c: &Colors,
) -> (items: Vec<Item>)
    requires
        texts@.len() == l.rows@.len(),
        l.wf(notes@.len()),
    ensures
        item_views(items@) == panel_items(
            *p,
            *m,
            *l,
            notes@,
            texts@,
            clock@,
            long_date@,
            *c,
        ),
{
    let mut items: Vec<Item> = Vec::new();
    let whole = Rect { x: 0, y: 0, w: p.width as i128 * UNIT, h: p.height as i128 * UNIT };
    items.push(Item::Rounded { rect: whole, radius: PANEL_RADIUS * UNIT, color: c.bg });
    items.push(line(clock, l.clock, Align::Left, Size::Big, c.fg));
    items.push(line(long_date, l.date, Align::Left, Size::Base, c.muted));
    items.push(Item::Rule { rect: l.rule, color: HAIRLINE });
    items.push(line("Notifications", l.header, Align::Left, Size::Base, c.fg));
    assert(item_views(items@) =~= head_items(*p, *l, clock@, long_date@, *c));
    let ghost first = item_views(items@);
    if let Some(r) = l.clear {
        let hovered = p.over(&r);
        push_pill(&mut items, r, hovered);
        let color = if hovered {
            c.fg
        } else {
            c.muted
        };
        let ghost pilled = item_views(items@);
        items.push(line("Clear all", l.header, Align::Right, Size::Small, color));
        assert(item_views(items@) =~= pilled.push(items@.last()@));
    }
    assert(item_views(items@) =~= first + clear_items(*p, *l, *c));
    let ghost second = item_views(items@);
    if notes.len() == 0 {
        items.push(
            line("No new notifications", l.list, Align::Centre, Size::Base, c.muted),
        );
        assert(item_views(items@) =~= second + list_items(*p, *m, *l, notes@, texts@, *c));
    } else {
        items.push(Item::Clip { top: l.list.y, bottom: l.list.y + l.list.h });
        let ghost third = item_views(items@);
        assert(third =~= second + seq![
            ItemView::Clip { top: l.list.y, bottom: (l.list.y + l.list.h) as i128 },
        ]);
        let mut i: usize = 0;
        assert(item_views(items@) =~= third + rows_items(
            *p,
            *m,
            l.rows@.take(0),
            notes@,
            texts@,
            *c,
        ));
        while i < l.rows.len()
            invariant
                i <= l.rows@.len(),
                texts@.len() == l.rows@.len(),
                l.wf(notes@.len()),
                item_views(items@) == third + rows_items(
                    *p,
                    *m,
                    l.rows@.take(i as int),
                    notes@,
                    texts@,
                    *c,
                ),
            decreases l.rows@.len() - i,
        {
            let row = &l.rows[i];
            assert(l.rows@[i as int].near());
            assert(l.rows@.take(i + 1).drop_last() == l.rows@.take(i as int));
            push_row(&mut items, p, m, row, notes[row.index].open, &texts[i], c);
            assert(item_views(items@) =~= third + rows_items(
                *p,
                *m,
                l.rows@.take(i + 1),
                notes@,
                texts@,
                *c,
            ));
            i += 1;
        }
        assert(l.rows@.take(l.rows@.len() as int) == l.rows@);
        assert(item_views(items@) =~= second + list_items(*p, *m, *l, notes@, texts@, *c));
    }
    items
}

// ---------------------------------------------------------------------------
// One layout for painting and for the pointer
// ---------------------------------------------------------------------------
/// A painting of the panel, and what it was made from.
#[derive(Debug)]
pub struct Scene {
    /// How wide the letters of "Clear all" are, in steps.
    pub clear_width: i128,
    pub layout: Layout,
    /// What the rows of the layout say.
    pub texts: Vec<RowText>,
    /// What is painted, in order.
    pub items: Vec<Item>,
}

/// `t` is what the row of `note` says at `now`, `offset` giving what the local
/// time was ahead of UTC when it arrived.
pub open spec fn says<G: Fn(i64) -> i32>(t: RowText, note: Entry, now: i64, offset: G) -> bool {
    &&& exists|o: i32| #[trigger]
        call_ensures(offset, (note.arrived,), o) && t.head@ == panel::head_of(
            note@.app_name,
            clock::ago_said(note.arrived, now, o),
        )
    &&& t.summary@ == lettering::flat(note@.summary)
    &&& t.body@ == lettering::flat(note@.body)
}

/// `s` is the painting of the panel `p`, and `after` the panel then: both come
/// of one layout, for the panel's own width and scroll.
pub open spec fn is_scene<F: Fn(&str) -> i128, G: Fn(i64) -> i32>(
    s: Scene,
    p: Panel,
    after: Panel,
    m: PanelMetrics,
    notes: Seq<Entry>,
    now: i64,
    measure: F,
    offset: G,
    clock: Seq<char>,
    long_date: Seq<char>,
    c: Colors,
) -> bool {
    &&& bar::measured(measure, "Clear all"@, s.clear_width)
    &&& panel::laid_out(
        s.layout,
        m,
        p.width,
        notes.len(),
        p.scroll as int,
        s.clear_width as int,
    )
    &&& s.texts@.len() == s.layout.rows@.len()
    &&& forall|i: int|
        0 <= i < s.texts@.len() ==> says(
            #[trigger] s.texts@[i],
            notes[s.layout.rows@[i].index as int],
            now,
            offset,
        )
    &&& item_views(s.items@) == panel_items(
        p,
        m,
        s.layout,
        notes,
        s.texts@,
        clock,
        long_date,
        c,
    )
    &&& after.rows@ == panel::shown_of(s.layout.rows@)
    &&& after.hits@ == panel::hits_of(s.layout.clear, s.layout.rows@, panel::ids_of(notes))
    &&& after == (Panel { rows: after.rows, hits: after.hits, ..p })
}

impl Panel {
    /// Paint the panel, and keep for the pointer what was painted. `measure`
    /// gives the width of small letters, in steps, and `offset` what the local
    /// time was ahead of UTC at a time.
    pub fn paint<F: Fn(&str) -> i128, G: Fn(i64) -> i32>(
        &mut self,
        m: &PanelMetrics,
        notes: &Vec<Entry>,
        now: i64,
        measure: F,
        offset: G,
        clock: &str,
        long_date: &str,
        c: &Colors,
    ) -> (s: Scene)
        requires
            old(self).wf(),
            forall|x: &str| call_requires(measure, (x,)),
            forall|x: &str, w: i128| call_ensures(measure, (x,), w) ==> 0 <= w <= bar::WIDEST,
            forall|t: i64| call_requires(offset, (t,)),
        ensures
            final(self).wf(),
            is_scene(
                s,
                *old(self),
                *final(self),
                *m,
                notes@,
                now,
                measure,
                offset,
                clock@,
                long_date@,
                *c,
            ),
    {
        let clear_width: i128 = measure("Clear all");
        assert(bar::measured(measure, "Clear all"@, clear_width));
        let layout = panel::layout(m, self.width, notes.len(), self.scroll, clear_width);
        let mut texts: Vec<RowText> = Vec::new();
        let mut i: usize = 0;
        while i < layout.rows.len()
            invariant
                i <= layout.rows@.len(),
                layout.wf(notes@.len()),
                texts@.len() == i,
                forall|t: i64| call_requires(offset, (t,)),
                forall|j: int|
                    0 <= j < i ==> says(
                        #[trigger] texts@[j],
                        notes@[layout.rows@[j].index as int],
                        now,
                        offset,
                    ),
            decreases layout.rows@.len() - i,
        {
            assert(layout.rows@[i as int].near());
            let note = &notes[layout.rows[i].index];
            let o: i32 = offset(note.arrived);
            let when = clock::ago(note.arrived, now, o);
            texts.push(panel::row_text(note, when));
            i += 1;
        }
        let items = paint_panel(&*self, m, &layout, notes, &texts, clock, long_date, c);
        self.painted(&layout, notes);
        Scene { clear_width, layout, texts, items }
    }
}

impl Bar {
    /// Paint the panel, if it is open, with what the bar knows now, and keep
    /// for the pointer what was painted.
    pub fn paint_panel<F: Fn(&str) -> i128, G: Fn(i64) -> i32>(
        &mut self,
        m: &PanelMetrics,
        now: i64,
        measure: F,
        offset: G,
        c: &Colors,
    ) -> (r: Option<Scene>)
        requires
            old(self).wf(),
            forall|x: &str| call_requires(measure, (x,)),
            forall|x: &str, w: i128| call_ensures(measure, (x,), w) ==> 0 <= w <= bar::WIDEST,
            forall|t: i64| call_requires(offset, (t,)),
        ensures
            final(self).wf(),
            *final(self) == (Bar { panel: final(self).panel, ..*old(self) }),
            match old(self).panel {
                Some(p) => {
                    &&& r is Some
                    &&& final(self).panel is Some
                    &&& is_scene(
                        r.unwrap(),
                        p,
                        final(self).panel.unwrap(),
                        *m,
                        old(self).notes@,
                        now,
                        measure,
                        offset,
                        old(self).clock@,
                        old(self).long_date@,
                        *c,
                    )
                },
                None => r is None && final(self).panel is None,
            },
    {
        match &mut self.panel {
            Some(p) => Some(
                p.paint(
                    m,
                    &self.notes,
                    now,
                    measure,
                    offset,
                    self.clock.as_str(),
                    self.long_date.as_str(),
                    c,
                ),
            ),
            None => None,
        }
    }
}

// ---------------------------------------------------------------------------
// The bar
// ---------------------------------------------------------------------------
/// A module on a bar that is `height` pixels high. Under the pointer it has a
/// pill behind it, inset from the bar's edges so that it reads as a highlight
/// on the strip rather than a cut in it.
pub open spec fn segment_items(
    s: bar::SegmentView,
    hovered: bool,
    height: u32,
    c: Colors,
) -> Seq<ItemView> {
    let back = Rect {
        x: (s.x0 - 8 * UNIT) as i128,
        y: (4 * UNIT) as i128,
        w: (s.x1 - s.x0 + 16 * UNIT) as i128,
        h: ((height - 8) * UNIT) as i128,
    };
    pill(back, hovered).push(
        ItemView::Line {
            text: s.label.text,
            rect: Rect {
                x: s.x0 as i128,
                y: 0,
                w: (s.x1 - s.x0) as i128,
                h: (height * UNIT) as i128,
            },
            align: Align::Left,
            size: Size::Base,
            color: if hovered && s.label.color@ == c.muted@ {
                c.fg
            } else {
                s.label.color
            },
            cut: false,
        },
    )
}

/// The modules of the bar, one after the other.
pub open spec fn bar_items(
    ss: Seq<bar::SegmentView>,
    hover: Option<Module>,
    height: u32,
    c: Colors,
) -> Seq<ItemView>
    decreases ss.len(),
{
    if ss.len() == 0 {
        seq![]
    } else {
        bar_items(ss.drop_last(), hover, height, c) + segment_items(
            ss.last(),
            hover == Some(ss.last().label.module),
            height,
            c,
        )
    }
}

/// The modules to paint on a bar that is `height` pixels high, in order.
pub fn paint_bar(
    segments: &Vec<Segment>,
    hover: Option<Module>,
    height: u32,
    c: &Colors,
) -> (items: Vec<Item>)
    requires
        bar::all_near(segments@),
    ensures
        item_views(items@) == bar_items(bar::segment_views(segments@), hover, height, *c),
{
    let ghost all = bar::segment_views(segments@);
    let mut items: Vec<Item> = Vec::new();
    let mut i: usize = 0;
    assert(item_views(items@) =~= bar_items(all.take(0), hover, height, *c));
    while i < segments.len()
        invariant
            i <= segments@.len(),
            bar::all_near(segments@),
            all == bar::segment_views(segments@),
            item_views(items@) == bar_items(all.take(i as int), hover, height, *c),
        decreases segments@.len() - i,
    {
        let s = &segments[i];
        let ghost before = item_views(items@);
        assert(all.take(i + 1).drop_last() == all.take(i as int));
        assert(all.take(i + 1).last() == s@);
        let hovered = match hover {
            Some(m) => m == s.module && s.module.clickable(),
            None => false,
        };
        let w: i128 = s.x1 - s.x0;
        let tall: i128 = height as i128 * UNIT;
        if hovered {
            let h: i128 = (height as i128 - 8) * UNIT;
            let back = Rect { x: s.x0 - 8 * UNIT, y: 4 * UNIT, w: w + 16 * UNIT, h };
            let radius: i128 = (height as i128 - 8) * (UNIT / 2);
            assert(radius == h as int / 2);
            items.push(Item::Rounded { rect: back, radius, color: HOVER_PILL });
        }
        let ghost pilled = item_views(items@);
        let color = bar::drawn_color(s.color, hovered, c);
        items.push(
            line(s.text.as_str(), Rect { x: s.x0, y: 0, w, h: tall }, Align::Left, Size::Base, color),
        );
        assert(item_views(items@) =~= pilled.push(items@.last()@));
        assert(item_views(items@) =~= before + segment_items(
            s@,
            hover == Some(s.module),
            height,
            *c,
        ));
        i += 1;
    }
    assert(all.take(segments@.len() as int) == all);
    items
}

impl Bar {
    /// Put the modules where they stand now, and paint them.
    pub fn paint<F: Fn(&str) -> i128>(
        &mut self,
        measure: F,
        low: u32,
        c: &Colors,
        show_date: bool,
        padding: u32,
        gap: u32,
    ) -> (items: Vec<Item>)
        requires
            old(self).wf(),
            forall|x: &str| call_requires(measure, (x,)),
            forall|x: &str, w: i128| call_ensures(measure, (x,), w) ==> 0 <= w <= bar::WIDEST,
        ensures
            final(self).wf(),
            *final(self) == (Bar { segments: final(self).segments, ..*old(self) }),
            exists|ws: Seq<i128>, date: Option<(Seq<char>, i128)>| #[trigger]
                bar::stands(*final(self), measure, ws, date, low, *c, show_date, padding, gap),
            item_views(items@) == bar_items(
                bar::segment_views(final(self).segments@),
                old(self).hover,
                old(self).height,
                *c,
            ),
    {
        self.build_segments(measure, low, c, show_date, padding, gap);
        paint_bar(&self.segments, self.hover, self.height, c)
    }
}

// ---------------------------------------------------------------------------
// What holds of every painting
// ---------------------------------------------------------------------------
proof fn lemma_row_is_painted(
    p: Panel,
    m: PanelMetrics,
    rows: Seq<Row>,
    notes: Seq<Entry>,
    texts: Seq<RowText>,
    c: Colors,
    i: int,
)
    requires
        0 <= i < rows.len(),
    ensures
        rows_items(p, m, rows, notes, texts, c).contains(row_back(p, m, rows[i])),
        rows_items(p, m, rows, notes, texts, c).contains(remove_items(p, rows[i], c).last()),
    decreases rows.len(),
{
    let all = rows_items(p, m, rows, notes, texts, c);
    let front = rows.drop_last();
    let before = rows_items(p, m, front, notes, texts, c);
    let n = rows.last().index as int;
    let last = row_items(p, m, rows.last(), notes[n].open, texts[rows.len() - 1], c);
    assert(all == before + last);
    if i == rows.len() - 1 {
        assert(last[0] == row_back(p, m, rows[i]));
        assert(all[before.len() as int] == last[0]);
        assert(last.last() == remove_items(p, rows[i], c).last());
        assert(all.last() == last.last());
        assert(all[all.len() - 1] == all.last());
    } else {
        lemma_row_is_painted(p, m, front, notes, texts, c, i);
        assert(front[i] == rows[i]);
        let a = before.index_of(row_back(p, m, rows[i]));
        let b = before.index_of(remove_items(p, rows[i], c).last());
        assert(all[a] == before[a] && all[b] == before[b]);
    }
}

/// Painting and clicking share one layout: of a row that the pointer can be on
/// the row is painted, and of a remove control that can be pressed the cross is
/// painted in the very rectangle that answers the press.
pub proof fn law_controls_are_painted(
    p: Panel,
    m: PanelMetrics,
    l: Layout,
    notes: Seq<Entry>,
    texts: Seq<RowText>,
    clock: Seq<char>,
    long_date: Seq<char>,
    c: Colors,
    i: int,
)
    requires
        notes.len() > 0,
        0 <= i < l.rows@.len(),
    ensures
        ({
            let items = panel_items(p, m, l, notes, texts, clock, long_date, c);
            &&& items.contains(row_back(p, m, l.rows@[i]))
            &&& items.contains(
                ItemView::Line {
                    text: "󰅖"@,
                    rect: l.rows@[i].remove,
                    align: Align::Centre,
                    size: Size::Base,
                    color: if l.rows@[i].clickable && over(p, l.rows@[i].remove) {
                        c.fg
                    } else {
                        c.muted
                    },
                    cut: false,
                },
            )
            &&& l.rows@[i].clickable ==> panel::hits_of(
                l.clear,
                l.rows@,
                panel::ids_of(notes),
            ).contains(
                (
                    l.rows@[i].remove,
                    panel::PanelHit::Remove(panel::ids_of(notes)[l.rows@[i].index as int]),
                ),
            )
        }),
{
    let items = panel_items(p, m, l, notes, texts, clock, long_date, c);
    let rows = rows_items(p, m, l.rows@, notes, texts, c);
    let head = head_items(p, l, clock, long_date, c) + clear_items(p, l, c);
    lemma_row_is_painted(p, m, l.rows@, notes, texts, c, i);
    let at = head.len() as int + 1;
    assert(items.len() == at + rows.len());
    assert forall|k: int| 0 <= k < rows.len() implies items[at + k] == #[trigger] rows[k] by {}
    let a = rows.index_of(row_back(p, m, l.rows@[i]));
    let b = rows.index_of(remove_items(p, l.rows@[i], c).last());
    assert(items[at + a] == rows[a] && items[at + b] == rows[b]);
    if l.rows@[i].clickable {
        lemma_control_is_kept(l.clear, l.rows@, panel::ids_of(notes), i);
    }
}

proof fn lemma_control_is_kept(clear: Option<Rect>, rows: Seq<Row>, ids: Seq<u32>, i: int)
    requires
        0 <= i < rows.len(),
        rows[i].clickable,
    ensures
        panel::hits_of(clear, rows, ids).contains(
            (rows[i].remove, panel::PanelHit::Remove(ids[rows[i].index as int])),
        ),
    decreases rows.len(),
{
    let all = panel::hits_of(clear, rows, ids);
    let hit = (rows[i].remove, panel::PanelHit::Remove(ids[rows[i].index as int]));
    if i == rows.len() - 1 {
        assert(all[all.len() - 1] == hit);
    } else {
        let front = rows.drop_last();
        lemma_control_is_kept(clear, front, ids, i);
        let before = panel::hits_of(clear, front, ids);
        let k = before.index_of(hit);
        assert(all[k] == before[k]);
    }
}

/// There is a pill behind a control exactly if the pointer is on it: in the
/// control's own rectangle, and round at its ends.
pub proof fn law_pill(rect: Rect)
    requires
        rect.near(),
    ensures
        pill(rect, false).len() == 0,
        pill(rect, true).len() == 1,
        pill(rect, true)[0] matches ItemView::Rounded { rect: r, radius, color } && r == rect
            && rect.h - 1 <= 2 * radius <= rect.h && color == HOVER_PILL,
{
}

/// The panel begins with its background, which covers all of it, then the time,
/// larger than all else, the date under it, and the rule and the header, each
/// in the place that the layout has for it.
pub proof fn law_panel_begins(
    p: &Panel,
    m: &PanelMetrics,
    l: &Layout,
    notes: &Vec<Entry>,
    texts: &Vec<RowText>,
    clock: &str,
    long_date: &str,
    c: &Colors,
    items: Vec<Item>,
)
    requires
        call_ensures(paint_panel, (p, m, l, notes, texts, clock, long_date, c), items),
    ensures
        ({
            let v = item_views(items@);
            &&& v.len() >= 6
            &&& (v[0] matches ItemView::Rounded { rect, color, .. } && rect.x == 0 && rect.y == 0
                && rect.w == p.width * UNIT && rect.h == p.height * UNIT && color == c.bg)
            &&& (v[1] matches ItemView::Line { text, rect, size, color, align, .. } && text == clock@
                && rect == l.clock && size == Size::Big && color == c.fg && align == Align::Left)
            &&& (v[2] matches ItemView::Line { text, rect, size, color, align, .. } && text
                == long_date@ && rect == l.date && size == Size::Base && color == c.muted && align
                == Align::Left)
            &&& (v[3] matches ItemView::Rule { rect, color } && rect == l.rule && color == HAIRLINE)
            &&& (v[4] matches ItemView::Line { text, rect, align, color, .. } && text
                == "Notifications"@ && rect == l.header && align == Align::Left && color == c.fg)
        }),
{
    lemma_list_is_there(*p, *m, *l, notes@, texts@, *c);
}

proof fn lemma_list_is_there(
    p: Panel,
    m: PanelMetrics,
    l: Layout,
    notes: Seq<Entry>,
    texts: Seq<RowText>,
    c: Colors,
)
    ensures
        list_items(p, m, l, notes, texts, c).len() > 0,
{
}

/// "Clear all" is painted exactly if the layout has it, at the right end of the
/// header; the pointer on it brightens it and puts a pill behind it, before it.
pub proof fn law_clear_is_painted(p: Panel, l: Layout, c: Colors)
    ensures
        ({
            let v = clear_items(p, l, c);
            &&& l.clear is None <==> v.len() == 0
            &&& (l.clear matches Some(r) ==> {
                &&& v.len() == if over(p, r) {
                    2int
                } else {
                    1
                }
                &&& over(p, r) ==> (v[0] matches ItemView::Rounded { rect, .. } && rect == r)
                &&& (v.last() matches ItemView::Line { text, rect, align, color, .. } && text
                    == "Clear all"@ && rect == l.header && align == Align::Right && (over(p, r)
                    ==> color == c.fg) && (!over(p, r) ==> color == c.muted))
            })
        }),
{
}

/// Without a notification the list says so, in its middle, and nothing else
/// does; with one, what is painted from the list's beginning on is clipped to
/// the list, so that rows scroll under the header.
pub proof fn law_list_is_painted(
    p: Panel,
    m: PanelMetrics,
    l: Layout,
    notes: Seq<Entry>,
    texts: Seq<RowText>,
    c: Colors,
)
    requires
        l.list.near(),
    ensures
        ({
            let v = list_items(p, m, l, notes, texts, c);
            &&& notes.len() == 0 ==> v.len() == 1 && (v[0] matches ItemView::Line {
                text,
                rect,
                align,
                color,
                ..
            } && text == "No new notifications"@ && rect == l.list && align == Align::Centre
                && color == c.muted)
            &&& notes.len() > 0 ==> (v[0] matches ItemView::Clip { top, bottom } && top == l.list.y
                && bottom == l.list.y + l.list.h) && v.skip(1) == rows_items(
                p,
                m,
                l.rows@,
                notes,
                texts,
                c,
            )
        }),
{
    if notes.len() > 0 {
        let v = list_items(p, m, l, notes, texts, c);
        assert(v.skip(1) =~= rows_items(p, m, l.rows@, notes, texts, c));
    }
}

/// The rows are painted in turn, each with its own text and with the dot of its
/// own notification.
pub proof fn law_rows_in_turn(
    p: Panel,
    m: PanelMetrics,
    rows: Seq<Row>,
    row: Row,
    notes: Seq<Entry>,
    texts: Seq<RowText>,
    c: Colors,
)
    ensures
        rows_items(p, m, Seq::empty(), notes, texts, c).len() == 0,
        rows_items(p, m, rows.push(row), notes, texts, c) == rows_items(p, m, rows, notes, texts, c)
            + row_items(p, m, row, notes[row.index as int].open, texts[rows.len() as int], c),
{
    assert(rows.push(row).drop_last() =~= rows);
}

/// A row is painted at its own top, from edge to edge of the panel less its
/// padding, and brighter under the pointer than without.
pub proof fn law_row_back(p: Panel, q: Panel, m: PanelMetrics, row: Row)
    requires
        over(p, row.shown),
        !over(q, row.shown),
    ensures
        row_back(p, m, row) matches ItemView::Rounded { rect, color, .. } && rect.y == row.top
            && rect.x == PANEL_PAD * UNIT && rect.x + rect.w == (p.width - PANEL_PAD) * UNIT && rect.h
            == m.spec_row() * UNIT && color == ROW_HOVER,
        row_back(q, m, row) matches ItemView::Rounded { color, .. } && color == ROW_FILL,
        ROW_FILL@[0] < ROW_HOVER@[0] < HOVER_PILL@[0],
{
}

/// A dot is what an open notification has and one that is only history has not,
/// right behind the row itself; but for that the two are painted alike.
pub proof fn law_dot(p: Panel, m: PanelMetrics, row: Row, t: RowText, c: Colors)
    requires
        row.near(),
    ensures
        ({
            let open = row_items(p, m, row, true, t, c);
            let closed = row_items(p, m, row, false, t, c);
            &&& open == seq![closed[0], open[1]] + closed.skip(1)
            &&& (open[1] matches ItemView::Rounded { rect, radius, color } && color == c.accent
                && rect.w == rect.h && 2 * radius == rect.w && rect.x + rect.w <= text_rect(
                p.width,
                0,
                0,
            ).x && 2 * (rect.y - row.top - ROW_PAD * UNIT) + rect.h == m.small * UNIT)
        }),
{
    let open = row_items(p, m, row, true, t, c);
    let closed = row_items(p, m, row, false, t, c);
    assert(open =~= seq![closed[0], open[1]] + closed.skip(1));
}

/// A row says who and when, then the summary, then the body, one under the
/// other and each cut to what the row has beside the remove control; a body
/// that is empty takes no line, and changes nothing else.
pub proof fn law_row_lines(
    p: Panel,
    m: PanelMetrics,
    row: Row,
    head: Seq<char>,
    summary: Seq<char>,
    body: Seq<char>,
    c: Colors,
)
    requires
        row.near(),
    ensures
        ({
            let v = line_items(p.width, m, row, head, summary, body, c);
            let none = Seq::<char>::empty();
            &&& v.len() == if body.len() == 0 {
                2int
            } else {
                3
            }
            &&& v.take(2) == line_items(p.width, m, row, head, summary, none, c)
            &&& match (v[0], v[1]) {
                (
                    ItemView::Line { text: a, rect: r, size: x, color: u, cut: j, .. },
                    ItemView::Line { text: b, rect: s, size: y, color: w, cut: k, .. },
                ) => {
                    &&& a == head && b == summary && j && k
                    &&& x == Size::Small && y == Size::Base && u == c.muted && w == c.fg
                    &&& r.y == row.top + ROW_PAD * UNIT && r.h == m.small * UNIT
                    &&& s.y == r.y + r.h && s.h == m.line * UNIT
                    &&& r.x == s.x && r.w == s.w && r.x == (PANEL_PAD + 14) * UNIT
                    &&& r.x + r.w == (p.width - PANEL_PAD - CLOSE - 10) * UNIT
                    &&& body.len() > 0 ==> (v[2] matches ItemView::Line {
                        text: d,
                        rect: q,
                        size,
                        color,
                        cut,
                        ..
                    } && d == body && q.y == s.y + s.h && q.h == r.h && q.x == r.x && q.w == r.w
                        && cut && size == Size::Small && color == c.muted && q.y + q.h + ROW_PAD
                        * UNIT == row.top + m.spec_row() * UNIT)
                },
                _ => false,
            }
        }),
{
    let v = line_items(p.width, m, row, head, summary, body, c);
    assert(v.take(2) =~= line_items(p.width, m, row, head, summary, Seq::<char>::empty(), c));
}

/// The remove control is always painted, in its own rectangle; it brightens and
/// gets a pill exactly if the pointer is on it and all of it shows.
pub proof fn law_remove(p: Panel, row: Row, c: Colors)
    ensures
        ({
            let v = remove_items(p, row, c);
            let on = row.clickable && over(p, row.remove);
            &&& v.len() == if on {
                2int
            } else {
                1
            }
            &&& on ==> (v[0] matches ItemView::Rounded { rect, .. } && rect == row.remove)
            &&& (v.last() matches ItemView::Line { rect, align, color, .. } && rect == row.remove
                && align == Align::Centre && (on ==> color == c.fg) && (!on ==> color == c.muted))
        }),
{
}

/// All of a row is painted in order: the row, its dot, its lines, its control.
pub proof fn law_row_in_order(
    p: Panel,
    m: PanelMetrics,
    row: Row,
    open: bool,
    t: RowText,
    c: Colors,
)
    ensures
        ({
            let v = row_items(p, m, row, open, t, c);
            let lines = line_items(p.width, m, row, t.head@, t.summary@, t.body@, c);
            let control = remove_items(p, row, c);
            let k: int = if open {
                2
            } else {
                1
            };
            &&& v[0] == row_back(p, m, row)
            &&& v.len() == k + lines.len() + control.len()
            &&& v.subrange(k, k + lines.len()) == lines
            &&& v.skip(k + lines.len()) == control
        }),
{
    let v = row_items(p, m, row, open, t, c);
    let lines = line_items(p.width, m, row, t.head@, t.summary@, t.body@, c);
    let k: int = if open {
        2
    } else {
        1
    };
    assert(v.subrange(k, k + lines.len()) =~= lines);
    assert(v.skip(k + lines.len()) =~= remove_items(p, row, c));
}

/// The pointer is on what holds it, and on nothing where it is not on the panel.
pub proof fn law_over(p: Panel, r: Rect)
    ensures
        p.pointer is None ==> !over(p, r),
        p.pointer matches Some((x, y)) ==> (over(p, r) <==> r.x <= x < r.x + r.w && r.y <= y < r.y
            + r.h),
{
}

/// A module is painted where it stands, over the height of the bar, in its own
/// colour. The pointer on it puts a pill behind it that is wider by 8 pixels at
/// each end and inset by 4 from the edges of the bar, and brightens it if it is
/// muted; but for those it is painted alike.
pub proof fn law_segment(s: bar::SegmentView, height: u32, c: Colors)
    requires
        -panel::FAR <= s.x0 <= s.x1 <= panel::FAR,
    ensures
        ({
            let on = segment_items(s, true, height, c);
            let off = segment_items(s, false, height, c);
            &&& off.len() == 1 && on.len() == 2
            &&& (off[0] matches ItemView::Line { text, rect, align, size, color, cut } && text
                == s.label.text && rect.x == s.x0 && rect.x + rect.w == s.x1 && rect.y == 0 && rect.h
                == height * UNIT && align == Align::Left && size == Size::Base && color
                == s.label.color && !cut)
            &&& s.label.color@ != c.muted@ ==> on[1] == off[0]
            &&& (off[0] matches ItemView::Line { text, rect, align, size, cut, .. } ==> (on[1]
                matches ItemView::Line { text: t, rect: r, align: a, size: z, color, cut: u } && t
                == text && r == rect && a == align && z == size && u == cut && (s.label.color@
                == c.muted@ ==> color == c.fg)))
            &&& (on[0] matches ItemView::Rounded { rect, color, .. } && rect.x == s.x0 - 8 * UNIT
                && rect.x + rect.w == s.x1 + 8 * UNIT && rect.y == 4 * UNIT && rect.y + rect.h == (
            height - 4) * UNIT && color == HOVER_PILL)
        }),
{
}

/// The modules are painted in turn, and only the one under the pointer as such.
pub proof fn law_modules_in_turn(
    ss: Seq<bar::SegmentView>,
    s: bar::SegmentView,
    hover: Option<Module>,
    height: u32,
    c: Colors,
)
    ensures
        bar_items(Seq::empty(), hover, height, c).len() == 0,
        hover == Some(s.label.module) ==> bar_items(ss.push(s), hover, height, c) == bar_items(
            ss,
            hover,
            height,
            c,
        ) + segment_items(s, true, height, c),
        hover != Some(s.label.module) ==> bar_items(ss.push(s), hover, height, c) == bar_items(
            ss,
            hover,
            height,
            c,
        ) + segment_items(s, false, height, c),
{
    assert(ss.push(s).drop_last() =~= ss);
}

/// Without the pointer on the bar, what is painted are the texts of the modules
/// and nothing else, one for each, in order.
pub proof fn law_texts_in_order(ss: Seq<bar::SegmentView>, height: u32, c: Colors, i: int)
    requires
        0 <= i < ss.len(),
    ensures
        bar_items(ss, None, height, c).len() == ss.len(),
        bar_items(ss, None, height, c)[i] matches ItemView::Line { text, color, .. } && text
            == ss[i].label.text && color == ss[i].label.color,
    decreases ss.len(),
{
    let front = ss.drop_last();
    lemma_one_each(front, height, c);
    if i < front.len() {
        law_texts_in_order(front, height, c, i);
        assert(bar_items(ss, None, height, c)[i] == bar_items(front, None, height, c)[i]);
        assert(front[i] == ss[i]);
    }
}

proof fn lemma_one_each(ss: Seq<bar::SegmentView>, height: u32, c: Colors)
    ensures
        bar_items(ss, None, height, c).len() == ss.len(),
    decreases ss.len(),
{
    if ss.len() > 0 {
        lemma_one_each(ss.drop_last(), height, c);
    }
}

/// To paint the panel keeps everything of it but what answers the pointer; each
/// row that is painted answers there, and says the words of its own
/// notification.
pub proof fn law_scene<F: Fn(&str) -> i128, G: Fn(i64) -> i32>(
    s: Scene,
    p: Panel,
    after: Panel,
    m: PanelMetrics,
    notes: Seq<Entry>,
    now: i64,
    measure: F,
    offset: G,
    clock: Seq<char>,
    long_date: Seq<char>,
    c: Colors,
    i: int,
)
    requires
        is_scene(s, p, after, m, notes, now, measure, offset, clock, long_date, c),
        0 <= i < s.layout.rows@.len(),
    ensures
        after.scroll == p.scroll && after.width == p.width && after.height == p.height
            && after.pointer == p.pointer,
        after.rows@.len() == s.layout.rows@.len() && s.texts@.len() == s.layout.rows@.len(),
        after.rows@[i] == s.layout.rows@[i].shown,
        ({
            let note = notes[s.layout.rows@[i].index as int];
            &&& crate::text::words(s.texts@[i].summary@) == crate::text::words(note@.summary)
            &&& crate::text::words(s.texts@[i].body@) == crate::text::words(note@.body)
            &&& crate::text::begins(s.texts@[i].head@, note@.app_name)
        }),
{
    let note = notes[s.layout.rows@[i].index as int];
    let t = s.texts@[i];
    assert(says(t, note, now, offset));
    lettering::law_flat_keeps_words(note@.summary);
    lettering::law_flat_keeps_words(note@.body);
    assert(t.head@.take(note@.app_name.len() as int) =~= note@.app_name);
}

} // verus!
