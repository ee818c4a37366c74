//! The clock panel: the time, and the notifications Huginn holds.
//!
//! Positions are in logical pixels, counted in steps of 1/1280 ([`UNIT`]). A
//! pointer's position comes in steps of 1/256 and a wheel's notch in steps of
//! 1/120 of [`SCROLL_NOTCH`] pixels: both are whole numbers of such steps.
use vstd::prelude::*;

use crate::lettering;
use crate::notifications;
use crate::notifications::Entry;

verus! {

/// Steps in a logical pixel.
pub const UNIT: i128 = 1280;

pub const PANEL_WIDTH: u32 = 360;

/// Between the panel and the bar, and the screen's edge.
pub const PANEL_MARGIN: i32 = 8;

pub const PANEL_PAD: i128 = 16;

pub const PANEL_TOP: i128 = 12;

pub const PANEL_BOTTOM: i128 = 14;

pub const PANEL_GAP: i128 = 12;

pub const PANEL_GAP_SMALL: i128 = 6;

pub const PANEL_RADIUS: i128 = 14;

pub const ROW_PAD: i128 = 7;

pub const ROW_GAP: i128 = 6;

pub const ROW_RADIUS: i128 = 10;

/// The tallest the notification list gets before it scrolls.
pub const LIST_MAX: i128 = 420;

/// The list's height when it only says there is nothing in it.
pub const EMPTY_HEIGHT: i128 = 64;

/// How far one notch of a wheel scrolls the list.
pub const SCROLL_NOTCH: i128 = 48;

/// The side of a row's remove control.
pub const CLOSE: i128 = 24;

/// White at ~9%: the line where the bar meets the desktop. ARGB.
pub const HAIRLINE: [u8; 4] = [0x16, 0xFF, 0xFF, 0xFF];

/// White at ~14%: the pill behind a hovered, clickable module. ARGB.
pub const HOVER_PILL: [u8; 4] = [0x24, 0xFF, 0xFF, 0xFF];

/// White at ~5% and ~9%: a notification's row, and the row under the pointer.
pub const ROW_FILL: [u8; 4] = [0x0D, 0xFF, 0xFF, 0xFF];

pub const ROW_HOVER: [u8; 4] = [0x18, 0xFF, 0xFF, 0xFF];

// ---------------------------------------------------------------------------
// Heights
// ---------------------------------------------------------------------------
/// The heights of the clock panel's parts, in logical pixels.
#[derive(Clone, Copy, PartialEq, Eq, Debug, Structural)]
pub struct PanelMetrics {
    pub clock: u32,
    pub line: u32,
    pub small: u32,
    pub header: u32,
}

/// The larger of `a` and `b`.
pub open spec fn larger(a: int, b: int) -> int {
    if a < b {
        b
    } else {
        a
    }
}

/// The smaller of `a` and `b`.
pub open spec fn smaller(a: int, b: int) -> int {
    if a < b {
        a
    } else {
        b
    }
}

impl PanelMetrics {
    /// The height of a row: a small line, a line, and a small line.
    pub open spec fn spec_row(self) -> int {
        ROW_PAD * 2 + self.small * 2 + self.line
    }

    /// The height of `n` rows, the gaps between them counted.
    pub open spec fn content(self, n: nat) -> int {
        if n == 0 {
            EMPTY_HEIGHT as int
        } else {
            n * self.spec_row() + (n - 1) * ROW_GAP
        }
    }

    /// The height of the list.
    pub open spec fn list(self, n: nat) -> int {
        smaller(self.content(n), LIST_MAX as int)
    }

    /// How far the list scrolls.
    pub open spec fn reach(self, n: nat) -> int {
        larger(self.content(n) - self.list(n), 0)
    }

    /// The height of all the parts.
    pub open spec fn total(self, n: nat) -> int {
        PANEL_TOP + self.clock + self.line + PANEL_GAP + 1 + PANEL_GAP_SMALL + self.header
            + PANEL_GAP_SMALL + self.list(n) + PANEL_BOTTOM
    }

    /// The height of a row.
    pub fn row(&self) -> (r: i128)
        ensures
            r == self.spec_row(),
            14 <= r <= 0x4_0000_0000,
    {
        ROW_PAD * 2 + self.small as i128 * 2 + self.line as i128
    }

    /// The height that `n` notifications need.
    pub fn content_height(&self, n: usize) -> (r: i128)
        ensures
            r == self.content(n as nat),
            0 <= r <= 0x10_0000_0000_0000_0000_0000_0000,
    {
        if n == 0 {
            EMPTY_HEIGHT
        } else {
            let row = self.row();
            assert(0 <= n * row <= 0x1_0000_0000_0000_0000 * 0x4_0000_0000) by (nonlinear_arith)
                requires
                    0 <= n <= 0x1_0000_0000_0000_0000,
                    0 <= row <= 0x4_0000_0000,
            ;
            n as i128 * row + (n - 1) as i128 * ROW_GAP
        }
    }

    /// The height that the list of them takes, beyond which it scrolls.
    pub fn list_height(&self, n: usize) -> (r: i128)
        ensures
            r == self.list(n as nat),
            0 <= r <= LIST_MAX,
    {
        let c = self.content_height(n);
        if c < LIST_MAX {
            c
        } else {
            LIST_MAX
        }
    }

    /// How far the list scrolls.
    pub fn max_scroll(&self, n: usize) -> (r: i128)
        ensures
            r == self.reach(n as nat),
            0 <= r <= 0x10_0000_0000_0000_0000_0000_0000,
    {
        self.content_height(n) - self.list_height(n)
    }

    /// The whole panel's height; [`layout`] lays out the same sum.
    pub fn height(&self, n: usize) -> (r: u32)
        ensures
            r == smaller(self.total(n as nat), u32::MAX as int),
    {
        let sum: i128 = PANEL_TOP + self.clock as i128 + self.line as i128 + PANEL_GAP + 1
            + PANEL_GAP_SMALL + self.header as i128 + PANEL_GAP_SMALL + self.list_height(n)
            + PANEL_BOTTOM;
        if sum < u32::MAX as i128 {
            sum as u32
        } else {
            u32::MAX
        }
    }
}

// ---------------------------------------------------------------------------
// Layout
// ---------------------------------------------------------------------------
/// A rectangle, in steps.
#[derive(Clone, Copy, PartialEq, Eq, Debug, Structural)]
pub struct Rect {
    pub x: i128,
    pub y: i128,
    pub w: i128,
    pub h: i128,
}

/// The largest position or length that is reckoned with.
pub const FAR: i128 = 0x1_0000_0000_0000_0000_0000_0000_0000;

impl Rect {
    /// Nothing about it is too large to be added up.
    pub open spec fn near(self) -> bool {
        -FAR <= self.x <= FAR && -FAR <= self.y <= FAR && -FAR <= self.w <= FAR && -FAR <= self.h
            <= FAR
    }

    /// The point is in it: on its left or upper edge, but not on the others.
    pub open spec fn holds(self, x: int, y: int) -> bool {
        self.x <= x < self.x + self.w && self.y <= y < self.y + self.h
    }

    /// Whether the point is in it.
    pub fn contains(&self, x: i128, y: i128) -> (r: bool)
        requires
            self.near(),
        ensures
            r == self.holds(x as int, y as int),
    {
        x >= self.x && x < self.x + self.w && y >= self.y && y < self.y + self.h
    }
}

/// A notification on the panel.
#[derive(Clone, Copy, PartialEq, Eq, Debug, Structural)]
pub struct Row {
    /// Which of the notifications.
    pub index: usize,
    /// Where its row begins, which may be above the list.
    pub top: i128,
    /// The part of the row that shows.
    pub shown: Rect,
    /// The remove control, top right of the row.
    pub remove: Rect,
    /// All of the control shows.
    pub clickable: bool,
}

impl Row {
    /// Nothing about it is too large to be added up.
    pub open spec fn near(self) -> bool {
        self.shown.near() && self.remove.near() && -FAR <= self.top <= FAR
    }
}

/// Where everything on the panel is.
#[derive(Debug, PartialEq, Eq)]
pub struct Layout {
    /// The time.
    pub clock: Rect,
    /// The date in words.
    pub date: Rect,
    /// The rule under the date.
    pub rule: Rect,
    /// "Notifications".
    pub header: Rect,
    /// "Clear all", when there is anything to clear.
    pub clear: Option<Rect>,
    /// The list.
    pub list: Rect,
    /// The rows that show.
    pub rows: Vec<Row>,
}

impl Layout {
    /// What is true of every layout of `n` notifications.
    pub open spec fn wf(&self, n: nat) -> bool {
        &&& (self.clear matches Some(r) ==> r.near())
        &&& self.list.near()
        &&& forall|i: int|
            0 <= i < self.rows@.len() ==> (#[trigger] self.rows@[i]).near() && self.rows@[i].index
                < n
    }
}

/// Where the list begins.
pub open spec fn list_top(m: PanelMetrics) -> int {
    (PANEL_TOP + m.clock + m.line + PANEL_GAP + 1 + PANEL_GAP_SMALL + m.header + PANEL_GAP_SMALL)
        * UNIT
}

/// Where the list of `n` ends.
pub open spec fn list_bottom(m: PanelMetrics, n: nat) -> int {
    list_top(m) + m.list(n) * UNIT
}

/// Where the `i`-th row begins, with the list scrolled by `scroll`.
pub open spec fn row_top(m: PanelMetrics, scroll: int, i: int) -> int {
    list_top(m) + i * (m.spec_row() + ROW_GAP) * UNIT - scroll
}

/// Some of the `i`-th row of `n` shows.
pub open spec fn row_shows(m: PanelMetrics, n: nat, scroll: int, i: int) -> bool {
    row_top(m, scroll, i) + m.spec_row() * UNIT > list_top(m) && row_top(m, scroll, i)
        < list_bottom(m, n)
}

/// The `i`-th row of `n`, on a panel that is `width` pixels wide.
pub open spec fn row_at(m: PanelMetrics, width: u32, n: nat, scroll: int, i: int) -> Row {
    let top = row_top(m, scroll, i);
    let shown_top = larger(top, list_top(m));
    let y = top + (ROW_PAD - 2) * UNIT;
    Row {
        index: i as usize,
        top: top as i128,
        shown: Rect {
            x: (PANEL_PAD * UNIT) as i128,
            y: shown_top as i128,
            w: ((width - 2 * PANEL_PAD) * UNIT) as i128,
            h: (smaller(top + m.spec_row() * UNIT, list_bottom(m, n)) - shown_top) as i128,
        },
        remove: Rect {
            x: ((width - PANEL_PAD - CLOSE - 6) * UNIT) as i128,
            y: y as i128,
            w: (CLOSE * UNIT) as i128,
            h: (CLOSE * UNIT) as i128,
        },
        clickable: y >= list_top(m) && y + CLOSE * UNIT <= list_bottom(m, n),
    }
}

/// Those of the first `k` rows of `n` that show.
pub open spec fn rows_of(m: PanelMetrics, width: u32, n: nat, scroll: int, k: nat) -> Seq<Row>
    decreases k,
{
    if k == 0 {
        seq![]
    } else {
        let before = rows_of(m, width, n, scroll, (k - 1) as nat);
        if row_shows(m, n, scroll, k - 1) {
            before.push(row_at(m, width, n, scroll, k - 1))
        } else {
            before
        }
    }
}

/// A line across the panel that begins at `y` and is `h` high, both in
/// pixels.
pub open spec fn across(width: u32, y: int, h: int) -> Rect {
    Rect {
        x: (PANEL_PAD * UNIT) as i128,
        y: (y * UNIT) as i128,
        w: ((width - 2 * PANEL_PAD) * UNIT) as i128,
        h: (h * UNIT) as i128,
    }
}

/// "Clear all", whose letters are `clear_width` steps wide.
pub open spec fn clear_at(m: PanelMetrics, width: u32, clear_width: int) -> Rect {
    Rect {
        x: ((width - PANEL_PAD - 8) * UNIT - clear_width) as i128,
        y: ((PANEL_TOP + m.clock + m.line + PANEL_GAP + 1 + PANEL_GAP_SMALL + 3) * UNIT) as i128,
        w: (clear_width + 16 * UNIT) as i128,
        h: ((m.header - 6) * UNIT) as i128,
    }
}

fn line_across(width: u32, y: i128, h: i128) -> (r: Rect)
    requires
        0 <= y <= 0x10_0000_0000,
        0 <= h <= 0x10_0000_0000,
    ensures
        r == across(width, y as int, h as int),
        r.near(),
{
    Rect {
        x: PANEL_PAD * UNIT,
        y: y * UNIT,
        w: (width as i128 - 2 * PANEL_PAD) * UNIT,
        h: h * UNIT,
    }
}

/// `l` is the layout of a panel that is `width` pixels wide and lists `n`
/// notifications, scrolled by `scroll` steps; the letters of "Clear all" are
/// `clear_width` steps wide.
pub open spec fn laid_out(
    l: Layout,
    m: PanelMetrics,
    width: u32,
    n: nat,
    scroll: int,
    clear_width: int,
) -> bool {
    &&& l.clock == across(width, PANEL_TOP as int, m.clock as int)
    &&& l.date == across(width, PANEL_TOP + m.clock, m.line as int)
    &&& l.rule == across(width, PANEL_TOP + m.clock + m.line + PANEL_GAP, 1)
    &&& l.header == across(
        width,
        PANEL_TOP + m.clock + m.line + PANEL_GAP + 1 + PANEL_GAP_SMALL,
        m.header as int,
    )
    &&& l.clear == if n == 0 {
        None
    } else {
        Some(clear_at(m, width, clear_width))
    }
    &&& l.list.y == list_top(m)
    &&& l.list.y + l.list.h == list_bottom(m, n)
    &&& l.list.x == PANEL_PAD * UNIT
    &&& l.list.w == (width - 2 * PANEL_PAD) * UNIT
    &&& l.rows@ == rows_of(m, width, n, scroll, n)
}

/// Lay the panel out: it is `width` pixels wide and lists `n` notifications,
/// scrolled by `scroll` steps; the letters of "Clear all" are `clear_width`
/// steps wide.
pub fn layout(m: &PanelMetrics, width: u32, n: usize, scroll: i128, clear_width: i128) -> (l:
    Layout)
    requires
        0 <= scroll <= FAR,
        0 <= clear_width <= 0x1_0000_0000_0000,
    ensures
        laid_out(l, *m, width, n as nat, scroll as int, clear_width as int),
        l.wf(n as nat),
{
    let date_y: i128 = PANEL_TOP + m.clock as i128;
    let rule_y: i128 = date_y + m.line as i128 + PANEL_GAP;
    let header_y: i128 = rule_y + 1 + PANEL_GAP_SMALL;
    let list_y: i128 = header_y + m.header as i128 + PANEL_GAP_SMALL;
    let top: i128 = list_y * UNIT;
    let bottom: i128 = top + m.list_height(n) * UNIT;
    let right: i128 = (width as i128 - PANEL_PAD) * UNIT;
    let pad: i128 = PANEL_PAD * UNIT;
    let clear = if n == 0 {
        None
    } else {
        Some(
            Rect {
                x: right - clear_width - 8 * UNIT,
                y: (header_y + 3) * UNIT,
                w: clear_width + 16 * UNIT,
                h: (m.header as i128 - 6) * UNIT,
            },
        )
    };
    let row: i128 = m.row();
    let h: i128 = row * UNIT;
    let pitch: i128 = (row + ROW_GAP) * UNIT;
    let close: i128 = CLOSE * UNIT;
    let mut rows: Vec<Row> = Vec::new();
    let mut i: usize = 0;
    while i < n
        invariant
            i <= n,
            top == list_top(*m),
            bottom == list_bottom(*m, n as nat),
            0 <= top <= 0x1_0000_0000_0000,
            top <= bottom <= 0x1_0000_0000_0000,
            right == (width - PANEL_PAD) * UNIT,
            pad == PANEL_PAD * UNIT,
            row == m.spec_row(),
            14 <= row <= 0x4_0000_0000,
            h == row * UNIT,
            pitch == (row + ROW_GAP) * UNIT,
            close == CLOSE * UNIT,
            0 <= scroll <= FAR,
            rows@ == rows_of(*m, width, n as nat, scroll as int, i as nat),
            forall|j: int|
                0 <= j < rows@.len() ==> (#[trigger] rows@[j]).near() && rows@[j].index < n,
        decreases n - i,
    {
        assert(0 <= i * pitch <= 0x1_0000_0000_0000_0000 * 0x4000_0000_0000) by (nonlinear_arith)
            requires
                0 <= i <= 0x1_0000_0000_0000_0000,
                0 <= pitch <= 0x4000_0000_0000,
        ;
        assert(i * (row + ROW_GAP) * UNIT == i * pitch) by (nonlinear_arith)
            requires
                pitch == (row + ROW_GAP) * UNIT,
        ;
        let row_top: i128 = top + i as i128 * pitch - scroll;
        if row_top + h > top && row_top < bottom {
            let shown_top: i128 = if row_top < top {
                top
            } else {
                row_top
            };
            let shown_bottom: i128 = if row_top + h < bottom {
                row_top + h
            } else {
                bottom
            };
            let y: i128 = row_top + (ROW_PAD - 2) * UNIT;
            rows.push(
                Row {
                    index: i,
                    top: row_top,
                    shown: Rect { x: pad, y: shown_top, w: right - pad, h: shown_bottom - shown_top },
                    remove: Rect { x: right - close - 6 * UNIT, y, w: close, h: close },
                    clickable: y >= top && y + close <= bottom,
                },
            );
        }
        i += 1;
    }
    Layout {
        clock: line_across(width, PANEL_TOP, m.clock as i128),
        date: line_across(width, date_y, m.line as i128),
        rule: line_across(width, rule_y, 1),
        header: line_across(width, header_y, m.header as i128),
        clear,
        list: Rect { x: pad, y: top, w: right - pad, h: bottom - top },
        rows,
    }
}

// ---------------------------------------------------------------------------
// What a row says
// ---------------------------------------------------------------------------
/// The lines of a notification's row.
#[derive(Debug, PartialEq, Eq)]
pub struct RowText {
    /// Who sent it, and when.
    pub head: String,
    pub summary: String,
    /// Nothing is drawn where it is empty.
    pub body: String,
}

/// The line over a notification from `app_name` that arrived `when`.
pub open spec fn head_of(app_name: Seq<char>, when: Seq<char>) -> Seq<char> {
    if app_name.len() == 0 {
        when
    } else {
        app_name + " · "@ + when
    }
}

/// What the row of `note` says, where `when` is how long ago it arrived.
pub fn row_text(note: &Entry, when: String) -> (t: RowText)
    ensures
        t.head@ == head_of(note@.app_name, when@),
        t.summary@ == lettering::flat(note@.summary),
        t.body@ == lettering::flat(note@.body),
{
    let head = if note.app_name.as_str().is_empty() {
        when
    } else {
        let mut s = note.app_name.clone();
        s.append(" · ");
        s.append(when.as_str());
        s
    };
    RowText {
        head,
        summary: lettering::flatten(note.summary.as_str()),
        body: lettering::flatten(note.body.as_str()),
    }
}

// ---------------------------------------------------------------------------
// The panel
// ---------------------------------------------------------------------------
/// Something on the clock panel a click does something to.
#[derive(Clone, Copy, PartialEq, Eq, Debug, Structural)]
pub enum PanelHit {
    Remove(u32),
    Clear,
}

/// The left button of a pointer.
pub const BTN_LEFT: u32 = 0x110;

/// What the pointer does.
#[derive(Clone, Copy, PartialEq, Eq, Debug, Structural)]
pub enum Pointer {
    /// It comes, or moves, to a place, in steps.
    At { x: i128, y: i128 },
    Leave,
    Press { button: u32 },
    Release,
    /// It scrolls: by parts of 1/120 of a notch, or by notches, or, where
    /// both are zero, by so many steps of 1/256 pixel.
    Axis { value120: i32, discrete: i32, absolute: i32 },
}

/// What is to be put on the screen.
#[derive(Clone, Copy, PartialEq, Eq, Debug, Structural)]
pub enum Frame {
    /// Ask the compositor for this height.
    Resize(u32),
    Paint,
    Nothing,
}

/// The clock panel, while it is open.
#[derive(Debug)]
pub struct Panel {
    /// The height last asked of the compositor, logical.
    pub requested: u32,
    /// The size the compositor configured, logical.
    pub width: u32,
    pub height: u32,
    pub scale: i32,
    pub configured: bool,
    pub dirty: bool,
    /// Where the pointer is on the panel while it is on it.
    pub pointer: Option<(i128, i128)>,
    /// The visible part of each row, and each control, as last drawn: drawing
    /// and clicking share one layout.
    pub rows: Vec<Rect>,
    pub hits: Vec<(Rect, PanelHit)>,
    /// How far the list is scrolled, in steps.
    pub scroll: i128,
}

/// The first of `rs` that holds the point.
pub open spec fn first_holding(rs: Seq<Rect>, x: int, y: int) -> Option<int>
    decreases rs.len(),
{
    if rs.len() == 0 {
        None
    } else {
        match first_holding(rs.drop_last(), x, y) {
            Some(i) => Some(i),
            None => if rs.last().holds(x, y) {
                Some(rs.len() - 1)
            } else {
                None
            },
        }
    }
}

/// The rectangles of `hits`.
pub open spec fn hit_rects(hits: Seq<(Rect, PanelHit)>) -> Seq<Rect> {
    Seq::new(hits.len(), |i: int| hits[i].0)
}

/// An index of the code as one of mathematics.
pub open spec fn index(i: Option<usize>) -> Option<int> {
    match i {
        Some(i) => Some(i as int),
        None => None,
    }
}

/// How far the wheel moves the list, in steps.
pub open spec fn axis_steps(value120: i32, discrete: i32, absolute: i32) -> int {
    if value120 != 0 {
        value120 * SCROLL_NOTCH * UNIT / 120
    } else if discrete != 0 {
        discrete * SCROLL_NOTCH * UNIT
    } else {
        absolute * UNIT / 256
    }
}

/// `x`, or the nearer end of `0..=top` where it is outside.
pub open spec fn clamped(x: int, top: int) -> int {
    if x < 0 {
        0
    } else {
        smaller(x, top)
    }
}

impl Panel {
    /// What is true of every panel.
    pub open spec fn wf(&self) -> bool {
        &&& 0 <= self.scroll <= FAR
        &&& forall|i: int| 0 <= i < self.rows@.len() ==> (#[trigger] self.rows@[i]).near()
        &&& forall|i: int| 0 <= i < self.hits@.len() ==> (#[trigger] self.hits@[i]).0.near()
    }

    /// The row and the control under the pointer.
    pub open spec fn under(&self) -> (Option<int>, Option<int>) {
        match self.pointer {
            Some((x, y)) => (
                first_holding(self.rows@, x as int, y as int),
                first_holding(hit_rects(self.hits@), x as int, y as int),
            ),
            None => (None, None),
        }
    }

    /// A panel that has just been asked for.
    pub fn open(height: u32, scale: i32) -> (p: Self)
        ensures
            p.wf(),
            p.requested == height,
            p.scale == scale,
            p.width == 0,
            p.height == 0,
            !p.configured,
            p.dirty,
            p.pointer is None,
            p.rows@.len() == 0,
            p.hits@.len() == 0,
            p.scroll == 0,
    {
        Panel {
            requested: height,
            width: 0,
            height: 0,
            scale,
            configured: false,
            dirty: true,
            pointer: None,
            rows: Vec::new(),
            hits: Vec::new(),
            scroll: 0,
        }
    }

    /// The row and the control under the pointer, as indices into `rows` and
    /// `hits`.
    pub fn hover(&self) -> (r: (Option<usize>, Option<usize>))
        requires
            self.wf(),
        ensures
            (index(r.0), index(r.1)) == self.under(),
            r.1 matches Some(i) ==> i < self.hits@.len(),
    {
        let (x, y) = match self.pointer {
            Some(at) => at,
            None => return (None, None),
        };
        let mut row: Option<usize> = None;
        let mut i: usize = 0;
        while i < self.rows.len() && row.is_none()
            invariant
                self.wf(),
                i <= self.rows@.len(),
                index(row) == first_holding(self.rows@.take(i as int), x as int, y as int),
            decreases self.rows@.len() - i,
        {
            assert(self.rows@.take(i + 1).drop_last() == self.rows@.take(i as int));
            if self.rows[i].contains(x, y) {
                row = Some(i);
            }
            i += 1;
        }
        proof {
            assert(self.rows@.take(self.rows@.len() as int) == self.rows@);
            lemma_first_stays(self.rows@, i as int, x as int, y as int);
        }
        let ghost rs = hit_rects(self.hits@);
        let mut hit: Option<usize> = None;
        let mut j: usize = 0;
        while j < self.hits.len() && hit.is_none()
            invariant
                self.wf(),
                rs == hit_rects(self.hits@),
                j <= self.hits@.len(),
                hit matches Some(h) ==> h < self.hits@.len(),
                index(hit) == first_holding(rs.take(j as int), x as int, y as int),
            decreases self.hits@.len() - j,
        {
            assert(rs.take(j + 1).drop_last() == rs.take(j as int));
            assert(self.hits@[j as int].0.near());
            if self.hits[j].0.contains(x, y) {
                hit = Some(j);
            }
            j += 1;
        }
        proof {
            assert(rs.take(rs.len() as int) == rs);
            lemma_first_stays(rs, j as int, x as int, y as int);
        }
        (row, hit)
    }

    /// Whether the pointer is on `r`.
    pub fn over(&self, r: &Rect) -> (b: bool)
        requires
            r.near(),
        ensures
            b == (self.pointer matches Some((x, y)) && r.holds(x as int, y as int)),
    {
        match self.pointer {
            Some((x, y)) => r.contains(x, y),
            None => false,
        }
    }
}

proof fn lemma_first_stays(rs: Seq<Rect>, n: int, x: int, y: int)
    requires
        0 <= n <= rs.len(),
        first_holding(rs.take(n), x, y) is Some || n == rs.len(),
    ensures
        first_holding(rs, x, y) == first_holding(rs.take(n), x, y),
    decreases rs.len() - n,
{
    if n < rs.len() {
        assert(rs.take(n + 1).drop_last() == rs.take(n));
        lemma_first_stays(rs, n + 1, x, y);
    } else {
        assert(rs.take(n) == rs);
    }
}

/// The controls on the panel: "Clear all", then the remove control of each
/// row of which all shows.
pub open spec fn hits_of(clear: Option<Rect>, rows: Seq<Row>, ids: Seq<u32>) -> Seq<
    (Rect, PanelHit),
>
    decreases rows.len(),
{
    if rows.len() == 0 {
        match clear {
            Some(r) => seq![(r, PanelHit::Clear)],
            None => seq![],
        }
    } else {
        let before = hits_of(clear, rows.drop_last(), ids);
        let row = rows.last();
        if row.clickable {
            before.push((row.remove, PanelHit::Remove(ids[row.index as int])))
        } else {
            before
        }
    }
}

/// The parts of `rows` that show.
pub open spec fn shown_of(rows: Seq<Row>) -> Seq<Rect> {
    Seq::new(rows.len(), |i: int| rows[i].shown)
}

/// The numbers of the notifications.
pub open spec fn ids_of(notes: Seq<Entry>) -> Seq<u32> {
    Seq::new(notes.len(), |i: int| notes[i].id)
}

/// What an event presses: a press of the left button, the control under the
/// pointer; any other event, nothing.
pub open spec fn pressed(p: &Panel, ev: Pointer) -> Option<PanelHit> {
    if ev == (Pointer::Press { button: BTN_LEFT }) {
        match p.under().1 {
            Some(i) => Some(p.hits@[i].1),
            None => None,
        }
    } else {
        None
    }
}

/// The notifications that are left after `hit`.
pub open spec fn left(
    notes: Seq<notifications::EntryView>,
    hit: Option<PanelHit>,
) -> Seq<notifications::EntryView> {
    match hit {
        Some(PanelHit::Remove(id)) => notifications::without(notes, id),
        Some(PanelHit::Clear) => Seq::empty(),
        None => notes,
    }
}

/// Where the list is scrolled to after `ev`, with `n` notifications left.
pub open spec fn scrolled(p: &Panel, m: PanelMetrics, n: nat, ev: Pointer) -> int {
    match ev {
        Pointer::Press { button } => if button == BTN_LEFT {
            smaller(p.scroll as int, m.reach(n) * UNIT)
        } else {
            p.scroll as int
        },
        Pointer::Axis { value120, discrete, absolute } => clamped(
            p.scroll + axis_steps(value120, discrete, absolute),
            m.reach(n) * UNIT,
        ),
        _ => p.scroll as int,
    }
}

/// Where the pointer is after `ev`.
pub open spec fn moved(p: &Panel, ev: Pointer) -> Option<(i128, i128)> {
    match ev {
        Pointer::At { x, y } => Some((x, y)),
        Pointer::Leave => None,
        _ => p.pointer,
    }
}

fn same_index(a: Option<usize>, b: Option<usize>) -> (r: bool)
    ensures
        r == (index(a) == index(b)),
{
    match (a, b) {
        (Some(i), Some(j)) => i == j,
        (None, None) => true,
        _ => false,
    }
}

impl Panel {
    /// Keep what was drawn, for the pointer.
    pub fn painted(&mut self, l: &Layout, notes: &Vec<Entry>)
        requires
            old(self).wf(),
            l.wf(notes@.len()),
        ensures
            final(self).wf(),
            final(self).rows@ == shown_of(l.rows@),
            final(self).hits@ == hits_of(l.clear, l.rows@, ids_of(notes@)),
            *final(self) == (Panel {
                rows: final(self).rows,
                hits: final(self).hits,
                ..*old(self)
            }),
    {
        let ghost ids = ids_of(notes@);
        let mut rows: Vec<Rect> = Vec::new();
        let mut hits: Vec<(Rect, PanelHit)> = Vec::new();
        if let Some(r) = l.clear {
            hits.push((r, PanelHit::Clear));
        }
        let mut i: usize = 0;
        assert(l.rows@.take(0) == Seq::<Row>::empty());
        assert(hits@ == hits_of(l.clear, l.rows@.take(0), ids));
        while i < l.rows.len()
            invariant
                i <= l.rows@.len(),
                ids == ids_of(notes@),
                l.wf(notes@.len()),
                rows@.len() == i,
                forall|j: int|
                    0 <= j < i ==> #[trigger] rows@[j] == l.rows@[j].shown && rows@[j].near(),
                forall|j: int| 0 <= j < hits@.len() ==> (#[trigger] hits@[j]).0.near(),
                hits@ == hits_of(l.clear, l.rows@.take(i as int), ids),
            decreases l.rows@.len() - i,
        {
            let row = l.rows[i];
            assert(l.rows@[i as int].near());
            assert(l.rows@.take(i + 1).drop_last() == l.rows@.take(i as int));
            rows.push(row.shown);
            if row.clickable {
                let id: u32 = notes[row.index].id;
                assert(ids[row.index as int] == id);
                hits.push((row.remove, PanelHit::Remove(id)));
            }
            i += 1;
        }
        assert(l.rows@.take(l.rows@.len() as int) == l.rows@);
        assert(rows@ =~= shown_of(l.rows@));
        self.rows = rows;
        self.hits = hits;
    }

    /// Resize the panel if what it lists needs a different height, else draw
    /// it if anything changed. A resize is drawn when the compositor answers.
    pub fn draw_panel(&mut self, want: u32) -> (f: Frame)
        ensures
            f == if old(self).requested != want {
                Frame::Resize(want)
            } else if old(self).configured && old(self).dirty && old(self).width != 0 {
                Frame::Paint
            } else {
                Frame::Nothing
            },
            *final(self) == (Panel {
                requested: want,
                dirty: old(self).dirty && f != Frame::Paint,
                ..*old(self)
            }),
    {
        if self.requested != want {
            self.requested = want;
            Frame::Resize(want)
        } else if self.configured && self.dirty && self.width != 0 {
            self.dirty = false;
            Frame::Paint
        } else {
            Frame::Nothing
        }
    }

    /// The compositor configured the panel's size, a zero leaving it to us.
    pub fn configure(&mut self, w: u32, h: u32)
        ensures
            *final(self) == (Panel {
                width: if w == 0 {
                    PANEL_WIDTH
                } else {
                    w
                },
                height: if h == 0 {
                    old(self).requested
                } else {
                    h
                },
                configured: true,
                dirty: true,
                ..*old(self)
            }),
    {
        self.width = if w == 0 {
            PANEL_WIDTH
        } else {
            w
        };
        self.height = if h == 0 {
            self.requested
        } else {
            h
        };
        self.configured = true;
        self.dirty = true;
    }

    /// The list changed, and has `n` notifications now.
    pub fn notes_changed(&mut self, m: &PanelMetrics, n: usize)
        requires
            old(self).wf(),
        ensures
            final(self).wf(),
            *final(self) == (Panel {
                scroll: smaller(old(self).scroll as int, m.reach(n as nat) * UNIT) as i128,
                dirty: true,
                ..*old(self)
            }),
            final(self).scroll <= m.reach(n as nat) * UNIT,
    {
        let max: i128 = m.max_scroll(n) * UNIT;
        if self.scroll > max {
            self.scroll = max;
        }
        self.dirty = true;
    }

    /// A pointer event on the clock panel. A press on a control is answered at
    /// once: `notes` are what is left, and the centre's next list agrees.
    pub fn panel_pointer(&mut self, m: &PanelMetrics, notes: &mut Vec<Entry>, ev: Pointer) -> (r:
        Option<PanelHit>)
        requires
            old(self).wf(),
        ensures
            final(self).wf(),
            r == pressed(old(self), ev),
            notifications::entry_views(final(notes)@) == left(
                notifications::entry_views(old(notes)@),
                r,
            ),
            final(self).pointer == moved(old(self), ev),
            final(self).scroll == scrolled(old(self), *m, final(notes)@.len(), ev),
            final(self).dirty == (old(self).dirty || ev == (Pointer::Press { button: BTN_LEFT })
                || final(self).scroll != old(self).scroll || final(self).under() != old(
                self,
            ).under()),
            final(self).rows == old(self).rows,
            final(self).hits == old(self).hits,
            final(self).requested == old(self).requested,
            final(self).width == old(self).width,
            final(self).height == old(self).height,
            final(self).scale == old(self).scale,
            final(self).configured == old(self).configured,
    {
        let before = self.hover();
        let mut hit: Option<PanelHit> = None;
        match ev {
            Pointer::At { x, y } => {
                self.pointer = Some((x, y));
            },
            Pointer::Leave => {
                self.pointer = None;
            },
            Pointer::Press { button } => {
                if button == BTN_LEFT {
                    if let Some(i) = before.1 {
                        hit = Some(self.hits[i].1);
                    }
                    match hit {
                        Some(PanelHit::Remove(id)) => {
                            notifications::remove(notes, id);
                        },
                        Some(PanelHit::Clear) => {
                            notes.clear();
                            assert(notifications::entry_views(notes@) == Seq::<
                                notifications::EntryView,
                            >::empty());
                        },
                        None => {},
                    }
                    let max: i128 = m.max_scroll(notes.len()) * UNIT;
                    if self.scroll > max {
                        self.scroll = max;
                    }
                    self.dirty = true;
                }
            },
            Pointer::Axis { value120, discrete, absolute } => {
                let delta: i128 = if value120 != 0 {
                    assert(value120 * SCROLL_NOTCH * UNIT / 120 == value120 * 512);
                    value120 as i128 * 512
                } else if discrete != 0 {
                    discrete as i128 * SCROLL_NOTCH * UNIT
                } else {
                    assert(absolute * UNIT / 256 == absolute * 5);
                    absolute as i128 * 5
                };
                let max: i128 = m.max_scroll(notes.len()) * UNIT;
                let wanted: i128 = self.scroll + delta;
                let next: i128 = if wanted < 0 {
                    0
                } else if wanted > max {
                    max
                } else {
                    wanted
                };
                if next != self.scroll {
                    self.scroll = next;
                    self.dirty = true;
                }
            },
            Pointer::Release => {},
        }
        let after = self.hover();
        if !same_index(before.0, after.0) || !same_index(before.1, after.1) {
            self.dirty = true;
        }
        hit
    }
}

// ---------------------------------------------------------------------------
// What holds of every panel
// ---------------------------------------------------------------------------
/// The layout ends where the height says: the list and the margin under it
/// fill the panel exactly.
pub proof fn law_layout_fills_height(m: PanelMetrics, n: nat)
    ensures
        list_bottom(m, n) + PANEL_BOTTOM * UNIT == m.total(n) * UNIT,
        m.total(n) <= u32::MAX ==> list_bottom(m, n) + PANEL_BOTTOM * UNIT == smaller(
            m.total(n),
            u32::MAX as int,
        ) * UNIT,
{
}

/// How far apart two rows begin.
proof fn lemma_row_step(m: PanelMetrics, scroll: int, i: int, j: int)
    requires
        i <= j,
    ensures
        row_top(m, scroll, j) - row_top(m, scroll, i) == (j - i) * ((m.spec_row() + ROW_GAP)
            * UNIT),
        i < j ==> row_top(m, scroll, j) - row_top(m, scroll, i) >= (m.spec_row() + ROW_GAP) * UNIT,
{
    let pitch = (m.spec_row() + ROW_GAP) * UNIT;
    assert(i * (m.spec_row() + ROW_GAP) * UNIT == i * pitch) by (nonlinear_arith)
        requires
            pitch == (m.spec_row() + ROW_GAP) * UNIT,
    ;
    assert(j * (m.spec_row() + ROW_GAP) * UNIT == j * pitch) by (nonlinear_arith)
        requires
            pitch == (m.spec_row() + ROW_GAP) * UNIT,
    ;
    assert(j * pitch - i * pitch == (j - i) * pitch) by (nonlinear_arith);
    if i < j {
        assert((j - i) * pitch >= pitch) by (nonlinear_arith)
            requires
                j - i >= 1,
                pitch >= 0,
        ;
    }
}

/// Every row that shows stays inside the list: it never covers the header
/// above or the margin below, and some of it is there to be seen.
pub proof fn law_rows_stay_in_list(m: PanelMetrics, n: nat, scroll: int, i: int)
    requires
        row_shows(m, n, scroll, i),
    ensures
        ({
            let top = larger(row_top(m, scroll, i), list_top(m));
            let bottom = smaller(row_top(m, scroll, i) + m.spec_row() * UNIT, list_bottom(m, n));
            &&& list_top(m) <= top
            &&& bottom <= list_bottom(m, n)
            &&& top < bottom
        }),
{
    if n > 0 {
        assert(n * m.spec_row() >= m.spec_row()) by (nonlinear_arith)
            requires
                n >= 1,
                m.spec_row() >= 0,
        ;
    }
}

/// No two rows overlap, so at most one is under the pointer.
pub proof fn law_rows_apart(m: PanelMetrics, scroll: int, i: int, j: int)
    requires
        0 <= i < j,
    ensures
        row_top(m, scroll, i) + m.spec_row() * UNIT + ROW_GAP * UNIT <= row_top(m, scroll, j),
{
    lemma_row_step(m, scroll, i, j);
}

/// A list that fits does not scroll, and all of every row in it shows.
pub proof fn law_short_list_shows_all(m: PanelMetrics, n: nat, i: int)
    requires
        m.content(n) <= LIST_MAX,
        0 <= i < n,
    ensures
        m.reach(n) == 0,
        row_shows(m, n, 0, i),
        list_top(m) <= row_top(m, 0, i),
        row_top(m, 0, i) + m.spec_row() * UNIT <= list_bottom(m, n),
{
    let row = m.spec_row();
    lemma_row_step(m, 0, 0, i);
    lemma_row_step(m, 0, i, n - 1);
    lemma_content(m, n);
}

proof fn lemma_content(m: PanelMetrics, n: nat)
    requires
        n > 0,
    ensures
        row_top(m, 0, n - 1) + m.spec_row() * UNIT == list_top(m) + m.content(n) * UNIT,
{
    let row = m.spec_row();
    assert((n - 1) * (row + ROW_GAP) * UNIT == ((n - 1) * row + (n - 1) * ROW_GAP) * UNIT)
        by (nonlinear_arith);
    assert((n - 1) * row + row == n * row) by (nonlinear_arith);
}

/// Scrolled as far as it goes, a list that does not fit ends with its last
/// row, and unscrolled it begins with its first: every notification can be
/// reached, and the list never scrolls past its end.
pub proof fn law_scroll_reaches_both_ends(m: PanelMetrics, n: nat)
    requires
        m.content(n) > LIST_MAX,
    ensures
        row_top(m, 0, 0) == list_top(m),
        row_top(m, m.reach(n) * UNIT, n - 1) + m.spec_row() * UNIT == list_bottom(m, n),
{
    lemma_content(m, n);
}

/// Wherever the pointer scrolls, the list stays between its two ends.
pub proof fn law_scroll_in_range(p: Panel, m: PanelMetrics, n: nat, ev: Pointer)
    requires
        p.wf(),
    ensures
        0 <= scrolled(&p, m, n, ev),
        ev is Axis || ev == (Pointer::Press { button: BTN_LEFT }) ==> scrolled(&p, m, n, ev)
            <= m.reach(n) * UNIT,
        p.scroll <= m.reach(n) * UNIT ==> scrolled(&p, m, n, ev) <= m.reach(n) * UNIT,
{
}

/// A click removes the notification it was aimed at: each control on the
/// panel is "Clear all", or the whole remove control of a row that shows, and
/// carries the number of that row's notification.
pub proof fn law_controls_belong_to_rows(
    m: PanelMetrics,
    width: u32,
    clear: Option<Rect>,
    scroll: int,
    ids: Seq<u32>,
    k: nat,
    j: int,
)
    requires
        k <= ids.len(),
        ids.len() <= usize::MAX,
        0 <= j < hits_of(clear, rows_of(m, width, ids.len(), scroll, k), ids).len(),
    ensures
        ({
            let n = ids.len();
            let hit = hits_of(clear, rows_of(m, width, n, scroll, k), ids)[j];
            ||| clear == Some(hit.0) && hit.1 == PanelHit::Clear
            ||| exists|i: int|
                0 <= i < k && #[trigger] row_shows(m, n, scroll, i) && row_at(
                    m,
                    width,
                    n,
                    scroll,
                    i,
                ).clickable && hit == (
                    row_at(m, width, n, scroll, i).remove,
                    PanelHit::Remove(ids[i]),
                )
        }),
    decreases k,
{
    let n = ids.len();
    let rows = rows_of(m, width, n, scroll, k);
    if k > 0 {
        let before = rows_of(m, width, n, scroll, (k - 1) as nat);
        let i = k - 1;
        if row_shows(m, n, scroll, i) {
            assert(rows.drop_last() == before);
            let hits = hits_of(clear, before, ids);
            if j < hits.len() {
                law_controls_belong_to_rows(m, width, clear, scroll, ids, (k - 1) as nat, j);
            } else {
                assert(rows.last() == row_at(m, width, n, scroll, i));
                assert(rows.last().index == i);
            }
        } else {
            law_controls_belong_to_rows(m, width, clear, scroll, ids, (k - 1) as nat, j);
        }
    }
}

/// To clear the panel leaves nothing, and to remove leaves every other
/// notification; anything but a press of the left button leaves them all.
pub proof fn law_only_a_press_removes(
    p: Panel,
    notes: Seq<notifications::EntryView>,
    ev: Pointer,
)
    ensures
        ev != (Pointer::Press { button: BTN_LEFT }) ==> left(notes, pressed(&p, ev)) == notes,
        p.pointer is None ==> left(notes, pressed(&p, ev)) == notes,
        left(notes, Some(PanelHit::Clear)).len() == 0,
        forall|id: u32, e: notifications::EntryView|
            e.id != id ==> (#[trigger] left(notes, Some(PanelHit::Remove(id))).contains(e)
                <==> notes.contains(e)),
{
    assert forall|id: u32, e: notifications::EntryView|
        e.id != id implies (#[trigger] left(notes, Some(PanelHit::Remove(id))).contains(e)
        <==> notes.contains(e)) by {
        notifications::law_removed_is_gone(notes, id);
        assert(notifications::without(notes, id).contains(e) <==> notes.contains(e));
    }
}

// ---------------------------------------------------------------------------
// What holds of every scroll and every press
// ---------------------------------------------------------------------------
/// What an axis event counts: parts of a notch, else notches, else steps of a
/// pixel.
pub open spec fn amount(value120: i32, discrete: i32, absolute: i32) -> int {
    if value120 != 0 {
        value120 as int
    } else if discrete != 0 {
        discrete as int
    } else {
        absolute as int
    }
}

/// The list scrolls the way the wheel turns: a negative amount never moves it
/// down and a positive one never up, and short of the ends it always moves.
/// There it moves by a notch of [`SCROLL_NOTCH`] pixels for every 120 parts or
/// every whole notch, and pixel by pixel otherwise; past an end it stops there.
pub proof fn law_scroll_direction(
    p: Panel,
    m: PanelMetrics,
    n: nat,
    value120: i32,
    discrete: i32,
    absolute: i32,
)
    requires
        0 <= p.scroll <= m.reach(n) * UNIT,
    ensures
        ({
            let after = scrolled(&p, m, n, Pointer::Axis { value120, discrete, absolute });
            let by = amount(value120, discrete, absolute);
            let end = m.reach(n) * UNIT;
            &&& by <= 0 ==> after <= p.scroll
            &&& by >= 0 ==> after >= p.scroll
            &&& by < 0 && p.scroll > 0 ==> after < p.scroll
            &&& by > 0 && p.scroll < end ==> after > p.scroll
            &&& 0 <= after <= end
            &&& 0 < after < end && value120 != 0 ==> (after - p.scroll) * 120 == value120
                * SCROLL_NOTCH * UNIT
            &&& 0 < after < end && value120 == 0 && discrete != 0 ==> after - p.scroll == discrete
                * SCROLL_NOTCH * UNIT
            &&& 0 < after < end && value120 == 0 && discrete == 0 ==> (after - p.scroll) * 256
                == absolute * UNIT
            &&& after == 0 && p.scroll > 0 ==> by < 0
            &&& after == 0 && value120 != 0 ==> p.scroll * 120 <= -value120 * SCROLL_NOTCH * UNIT
                || p.scroll == 0 && (value120 < 0 || end == 0)
            &&& after == 0 && value120 == 0 && discrete != 0 ==> p.scroll <= -discrete
                * SCROLL_NOTCH * UNIT || end == 0
            &&& after == 0 && value120 == 0 && discrete == 0 ==> p.scroll * 256 <= -absolute * UNIT
                || end == 0
            &&& after == end && end > 0 && value120 != 0 ==> (end - p.scroll) * 120 <= value120
                * SCROLL_NOTCH * UNIT
            &&& after == end && end > 0 && value120 == 0 && discrete != 0 ==> end - p.scroll
                <= discrete * SCROLL_NOTCH * UNIT
            &&& after == end && end > 0 && value120 == 0 && discrete == 0 ==> (end - p.scroll)
                * 256 <= absolute * UNIT
        }),
{
    assert(value120 * SCROLL_NOTCH * UNIT / 120 == value120 * 512);
    assert(absolute * UNIT / 256 == absolute * 5);
}

/// What is scrolled down and then up again by as much, short of the ends, is
/// where it was.
pub proof fn law_scroll_back(p: Panel, q: Panel, m: PanelMetrics, n: nat, down: Pointer, up: Pointer)
    requires
        0 <= p.scroll <= m.reach(n) * UNIT,
        down matches Pointer::Axis { value120: a, discrete: b, absolute: c } && up
            matches Pointer::Axis { value120: d, discrete: e, absolute: f } && a == -d && b == -e
            && c == -f,
        q.scroll == scrolled(&p, m, n, down),
        0 < q.scroll < m.reach(n) * UNIT,
    ensures
        scrolled(&q, m, n, up) == p.scroll,
{
    if let Pointer::Axis { value120, discrete, absolute } = down {
        assert(value120 * SCROLL_NOTCH * UNIT / 120 == value120 * 512);
        assert(absolute * UNIT / 256 == absolute * 5);
        assert(-value120 * SCROLL_NOTCH * UNIT / 120 == -value120 * 512);
        assert(-absolute * UNIT / 256 == -absolute * 5);
    }
}

/// Only the wheel and a press of the left button ever scroll; a press only
/// pulls the list back to its end, when what is left is shorter.
pub proof fn law_what_scrolls(p: Panel, m: PanelMetrics, n: nat, ev: Pointer)
    ensures
        !(ev is Axis) && p.scroll <= m.reach(n) * UNIT ==> scrolled(&p, m, n, ev) == p.scroll,
        !(ev is Axis) && ev != (Pointer::Press { button: BTN_LEFT }) ==> scrolled(&p, m, n, ev)
            == p.scroll,
        ev == (Pointer::Press { button: BTN_LEFT }) && p.scroll > m.reach(n) * UNIT ==> scrolled(
            &p,
            m,
            n,
            ev,
        ) == m.reach(n) * UNIT,
{
}

/// The first rectangle that holds the point: it holds it, none before it does,
/// and there is none exactly if no rectangle holds it.
pub proof fn law_first_holding(rs: Seq<Rect>, x: int, y: int)
    ensures
        match first_holding(rs, x, y) {
            Some(i) => 0 <= i < rs.len() && rs[i].x <= x < rs[i].x + rs[i].w && rs[i].y <= y
                < rs[i].y + rs[i].h && forall|j: int|
                0 <= j < i ==> !(#[trigger] rs[j]).holds(x, y),
            None => forall|j: int| 0 <= j < rs.len() ==> !(#[trigger] rs[j]).holds(x, y),
        },
        forall|r: Rect| #[trigger]
            r.holds(x, y) <==> r.x <= x && x < r.x + r.w && r.y <= y && y < r.y + r.h,
    decreases rs.len(),
{
    if rs.len() > 0 {
        let front = rs.drop_last();
        law_first_holding(front, x, y);
        assert forall|j: int| 0 <= j < front.len() implies #[trigger] rs[j] == front[j] by {}
    }
}

/// A press of the left button hits the first control under the pointer, and
/// nothing where none is; no other event hits anything.
pub proof fn law_press_hits(p: Panel, ev: Pointer)
    ensures
        match pressed(&p, ev) {
            Some(hit) => ev == (Pointer::Press { button: BTN_LEFT }) && p.pointer is Some
                && exists|i: int|
                0 <= i < p.hits@.len() && (#[trigger] p.hits@[i]).1 == hit && p.hits@[i].0.holds(
                    p.pointer.unwrap().0 as int,
                    p.pointer.unwrap().1 as int,
                ) && forall|j: int|
                    0 <= j < i ==> !(#[trigger] p.hits@[j]).0.holds(
                        p.pointer.unwrap().0 as int,
                        p.pointer.unwrap().1 as int,
                    ),
            None => ev == (Pointer::Press { button: BTN_LEFT }) ==> (p.pointer matches Some((x, y))
                ==> forall|j: int|
                0 <= j < p.hits@.len() ==> !(#[trigger] p.hits@[j]).0.holds(x as int, y as int)),
        },
{
    if let Some((x, y)) = p.pointer {
        let rs = hit_rects(p.hits@);
        law_first_holding(rs, x as int, y as int);
        assert forall|j: int| 0 <= j < rs.len() implies #[trigger] rs[j] == p.hits@[j].0 by {}
        if let Some(i) = first_holding(rs, x as int, y as int) {
            assert(p.hits@[i].0.holds(x as int, y as int));
            assert forall|j: int| 0 <= j < i implies !(#[trigger] p.hits@[j]).0.holds(
                x as int,
                y as int,
            ) by {
                assert(!rs[j].holds(x as int, y as int));
            }
        } else {
            assert forall|j: int| 0 <= j < p.hits@.len() implies !(#[trigger] p.hits@[j]).0.holds(
                x as int,
                y as int,
            ) by {
                assert(!rs[j].holds(x as int, y as int));
            }
        }
    }
}

/// The pointer is where it last went, and nowhere once it left.
pub proof fn law_pointer_moves(p: Panel, ev: Pointer)
    ensures
        ev matches Pointer::At { x, y } ==> moved(&p, ev) == Some((x, y)),
        ev is Leave ==> moved(&p, ev) is None,
        !(ev is At) && !(ev is Leave) ==> moved(&p, ev) == p.pointer,
{
}

/// What [`Panel::panel_pointer`] does, from the outside: the wheel scrolls its
/// way and takes nothing away; a press takes away what it hits, and nothing but
/// that; and the panel is drawn again if the list moved or the pointer came
/// onto or off anything.
pub proof fn law_panel_pointer(
    p: &mut Panel,
    m: &PanelMetrics,
    notes: &mut Vec<Entry>,
    ev: Pointer,
    r: Option<PanelHit>,
)
    requires
        call_ensures(Panel::panel_pointer, (p, m, notes, ev), r),
        old(p).wf(),
        old(p).scroll <= m.reach(old(notes)@.len()) * UNIT,
    ensures
        r == pressed(old(p), ev),
        ev matches Pointer::Axis { value120, discrete, absolute } ==> {
            let by = amount(value120, discrete, absolute);
            &&& r is None
            &&& by <= 0 ==> final(p).scroll <= old(p).scroll
            &&& by >= 0 ==> final(p).scroll >= old(p).scroll
            &&& by < 0 && old(p).scroll > 0 ==> final(p).scroll < old(p).scroll
            &&& by > 0 && old(p).scroll < m.reach(old(notes)@.len()) * UNIT ==> final(p).scroll
                > old(p).scroll
        },
        r is None ==> notifications::entry_views(final(notes)@) == notifications::entry_views(
            old(notes)@,
        ),
        r == Some(PanelHit::Clear) ==> final(notes)@.len() == 0,
        r matches Some(PanelHit::Remove(id)) ==> forall|e: notifications::EntryView| #[trigger]
            notifications::entry_views(final(notes)@).contains(e) <==> e.id != id
                && notifications::entry_views(old(notes)@).contains(e),
        final(p).scroll != old(p).scroll ==> final(p).dirty,
        final(p).under() != old(p).under() ==> final(p).dirty,
        old(p).dirty ==> final(p).dirty,
{
    let before = notifications::entry_views(old(notes)@);
    let after = notifications::entry_views(final(notes)@);
    assert(after.len() == final(notes)@.len() && before.len() == old(notes)@.len());
    if let Pointer::Axis { value120, discrete, absolute } = ev {
        assert(after.len() == before.len());
        law_scroll_direction(
            *old(p),
            *m,
            old(notes)@.len(),
            value120,
            discrete,
            absolute,
        );
    }
    if let Some(PanelHit::Remove(id)) = r {
        notifications::law_removed_is_gone(before, id);
        assert forall|e: notifications::EntryView| #[trigger] after.contains(e) <==> e.id != id
            && before.contains(e) by {
            if after.contains(e) && e.id == id {
                let i = after.index_of(e);
                assert(notifications::without(before, id)[i].id != id);
            }
        }
    }
}

// ---------------------------------------------------------------------------
// What holds of every layout
// ---------------------------------------------------------------------------
/// A row is two small lines and one line high, with padding above and below;
/// each further notification takes a row and a gap more; a list is as high as
/// what is in it, up to [`LIST_MAX`], and scrolls by what is over that.
pub proof fn law_heights(m: PanelMetrics, n: nat)
    ensures
        m.spec_row() == ROW_PAD + m.small + m.line + m.small + ROW_PAD,
        m.content(0) == EMPTY_HEIGHT,
        m.content(1) == m.spec_row(),
        n > 0 ==> m.content(n + 1) == m.content(n) + ROW_GAP + m.spec_row(),
        m.list(n) <= LIST_MAX,
        m.list(n) <= m.content(n),
        m.list(n) == LIST_MAX || m.list(n) == m.content(n),
        m.reach(n) + m.list(n) == m.content(n),
        m.reach(n) == 0 <==> m.content(n) <= LIST_MAX,
{
    assert((n + 1) * m.spec_row() == n * m.spec_row() + m.spec_row()) by (nonlinear_arith);
}

/// The parts of the panel stand one below the other: the time at the top, then
/// the date, the rule and the header, each as high as it is to be, and the list
/// below; all between the same margins.
pub proof fn law_parts_stack(
    l: Layout,
    m: PanelMetrics,
    width: u32,
    n: nat,
    scroll: int,
    clear_width: int,
)
    requires
        laid_out(l, m, width, n, scroll, clear_width),
        0 <= clear_width <= 0x1_0000_0000_0000,
    ensures
        l.clock.y == PANEL_TOP * UNIT && l.clock.h == m.clock * UNIT,
        l.date.y == l.clock.y + l.clock.h && l.date.h == m.line * UNIT,
        l.rule.y == l.date.y + l.date.h + PANEL_GAP * UNIT && l.rule.h == UNIT,
        l.header.y == l.rule.y + l.rule.h + PANEL_GAP_SMALL * UNIT && l.header.h == m.header * UNIT,
        l.list.y == l.header.y + l.header.h + PANEL_GAP_SMALL * UNIT && l.list.h == m.list(n) * UNIT,
        l.list.y + l.list.h + PANEL_BOTTOM * UNIT == m.total(n) * UNIT,
        l.clock.x == l.list.x && l.date.x == l.list.x && l.rule.x == l.list.x && l.header.x
            == l.list.x && l.list.x == PANEL_PAD * UNIT,
        l.clock.w == l.list.w && l.date.w == l.list.w && l.rule.w == l.list.w && l.header.w
            == l.list.w && l.list.x + l.list.w + PANEL_PAD * UNIT == width * UNIT,
        l.clear is Some <==> n > 0,
        l.clear matches Some(r) ==> {
            &&& r.y - l.header.y == l.header.y + l.header.h - (r.y + r.h)
            &&& r.w == clear_width + 16 * UNIT
            &&& r.x + r.w == l.header.x + l.header.w + 8 * UNIT
            &&& r.h == l.header.h - 6 * UNIT
        },
{
    law_heights(m, n);
    assert(n > 0 ==> n * m.spec_row() >= 0) by (nonlinear_arith)
        requires
            m.spec_row() >= 0,
            n >= 0,
    ;
}

/// The `i`-th row's rectangle holds its remove control, at its right end; what
/// shows of it is what lies in the list; and the control answers exactly if all
/// of it lies there.
pub proof fn law_row_geometry(m: PanelMetrics, width: u32, n: nat, scroll: int, i: int)
    requires
        0 <= i <= usize::MAX,
        n <= usize::MAX,
        0 <= scroll <= FAR,
        row_shows(m, n, scroll, i),
    ensures
        ({
            let row = row_at(m, width, n, scroll, i);
            &&& row.index == i
            &&& row.top == list_top(m) + i * ((m.spec_row() + ROW_GAP) * UNIT) - scroll
            &&& row.shown.x == PANEL_PAD * UNIT
            &&& row.shown.x + row.shown.w == (width - PANEL_PAD) * UNIT
            &&& list_top(m) <= row.shown.y && row.top <= row.shown.y
            &&& row.shown.y == list_top(m) || row.shown.y == row.top
            &&& row.shown.y + row.shown.h <= list_bottom(m, n)
            &&& row.shown.y + row.shown.h <= row.top + m.spec_row() * UNIT
            &&& row.shown.y + row.shown.h == list_bottom(m, n) || row.shown.y + row.shown.h
                == row.top + m.spec_row() * UNIT
            &&& row.remove.w == CLOSE * UNIT && row.remove.h == CLOSE * UNIT
            &&& row.remove.x + row.remove.w + 6 * UNIT == row.shown.x + row.shown.w
            &&& row.remove.y == row.top + 5 * UNIT
            &&& row.clickable <==> list_top(m) <= row.remove.y && row.remove.y + row.remove.h
                <= list_bottom(m, n)
        }),
{
    let pitch = (m.spec_row() + ROW_GAP) * UNIT;
    assert(i * (m.spec_row() + ROW_GAP) * UNIT == i * pitch) by (nonlinear_arith)
        requires
            pitch == (m.spec_row() + ROW_GAP) * UNIT,
    ;
    assert(0 <= i * pitch <= 0x1_0000_0000_0000_0000 * 0x4000_0000_0000) by (nonlinear_arith)
        requires
            0 <= i <= 0x1_0000_0000_0000_0000,
            0 <= pitch <= 0x4000_0000_0000,
    ;
}

/// The rows are exactly those that show, in order.
pub proof fn law_rows_that_show(m: PanelMetrics, width: u32, n: nat, scroll: int, k: nat)
    requires
        k <= n <= usize::MAX,
    ensures
        ({
            let rows = rows_of(m, width, n, scroll, k);
            &&& rows.len() <= k
            &&& forall|j: int|
                0 <= j < rows.len() ==> {
                    let i = (#[trigger] rows[j]).index as int;
                    &&& 0 <= i < k && row_shows(m, n, scroll, i)
                    &&& rows[j] == row_at(m, width, n, scroll, i)
                }
            &&& forall|a: int, b: int|
                0 <= a < b < rows.len() ==> (#[trigger] rows[a]).index < (#[trigger] rows[b]).index
            &&& forall|i: int|
                0 <= i < k && #[trigger] row_shows(m, n, scroll, i) ==> exists|j: int|
                    0 <= j < rows.len() && (#[trigger] rows[j]).index == i
        }),
    decreases k,
{
    if k > 0 {
        let before = rows_of(m, width, n, scroll, (k - 1) as nat);
        let rows = rows_of(m, width, n, scroll, k);
        law_rows_that_show(m, width, n, scroll, (k - 1) as nat);
        assert forall|j: int| 0 <= j < before.len() implies #[trigger] rows[j] == before[j] by {}
        assert forall|i: int| 0 <= i < k && #[trigger] row_shows(m, n, scroll, i) implies exists|
            j: int,
        |
            0 <= j < rows.len() && (#[trigger] rows[j]).index == i by {
            if i < k - 1 {
                let j = choose|j: int| 0 <= j < before.len() && (#[trigger] before[j]).index == i;
                assert(rows[j].index == i);
            } else {
                assert(rows[rows.len() - 1].index == i);
            }
        }
    }
}

/// The controls are "Clear all", where there is any, and then those of the
/// rows that answer, each once and in the order of the rows.
pub proof fn law_controls_in_turn(clear: Option<Rect>, a: Seq<Row>, row: Row, ids: Seq<u32>)
    ensures
        hits_of(clear, Seq::empty(), ids) == match clear {
            Some(r) => seq![(r, PanelHit::Clear)],
            None => Seq::empty(),
        },
        hits_of(clear, a.push(row), ids) == hits_of(clear, a, ids) + (if row.clickable {
            seq![(row.remove, PanelHit::Remove(ids[row.index as int]))]
        } else {
            Seq::empty()
        }),
{
    assert(a.push(row).drop_last() =~= a);
    assert(a.push(row).last() == row);
    assert(hits_of(clear, a.push(row), ids) =~= hits_of(clear, a, ids) + (if row.clickable {
        seq![(row.remove, PanelHit::Remove(ids[row.index as int]))]
    } else {
        Seq::empty()
    }));
}

/// A row says who sent it and when, or only when; it always ends with when.
pub proof fn law_head(app: Seq<char>, when: Seq<char>)
    ensures
        head_of(Seq::empty(), when) == when,
        ends_with(head_of(app, when), when),
        app.len() > 0 ==> head_of(app, when).len() == app.len() + 3 + when.len() && head_of(
            app,
            when,
        ).take(app.len() as int) == app,
{
    reveal_strlit(" · ");
    let h = head_of(app, when);
    assert(h.skip(h.len() - when.len()) =~= when);
    if app.len() > 0 {
        assert(h.take(app.len() as int) =~= app);
    }
}

/// `s` ends in `t`.
pub open spec fn ends_with(s: Seq<char>, t: Seq<char>) -> bool {
    t.len() <= s.len() && s.skip(s.len() - t.len()) == t
}

/// A panel is asked for again exactly if what it lists needs another height;
/// otherwise it is painted exactly if it is there and something changed, and
/// then counts as painted.
pub proof fn law_frames(p: &mut Panel, want: u32, f: Frame)
    requires
        call_ensures(Panel::draw_panel, (p, want), f),
    ensures
        f is Resize <==> old(p).requested != want,
        f matches Frame::Resize(h) ==> h == want,
        f is Paint <==> old(p).requested == want && old(p).configured && old(p).dirty && old(
            p,
        ).width != 0,
        final(p).requested == want,
        final(p).dirty <==> old(p).dirty && !(f is Paint),
        final(p).scroll == old(p).scroll && final(p).pointer == old(p).pointer,
{
}

/// A size of zero leaves it to the panel: its own width, and the height it
/// asked for. Whatever comes, it is drawn again.
pub proof fn law_configured(p: &mut Panel, w: u32, h: u32)
    requires
        call_ensures(Panel::configure, (p, w, h), ()),
    ensures
        w != 0 ==> final(p).width == w,
        w == 0 ==> final(p).width == PANEL_WIDTH,
        h != 0 ==> final(p).height == h,
        h == 0 ==> final(p).height == old(p).requested,
        final(p).configured && final(p).dirty,
        final(p).scroll == old(p).scroll && final(p).requested == old(p).requested,
{
}

/// A list that became shorter is pulled back to its end; one that is still
/// within it stays where it is.
pub proof fn law_pulled_back(p: &mut Panel, m: &PanelMetrics, n: usize)
    requires
        call_ensures(Panel::notes_changed, (p, m, n), ()),
        old(p).wf(),
    ensures
        old(p).scroll <= m.reach(n as nat) * UNIT ==> final(p).scroll == old(p).scroll,
        old(p).scroll > m.reach(n as nat) * UNIT ==> final(p).scroll == m.reach(n as nat) * UNIT,
        final(p).dirty,
{
}

} // verus!
