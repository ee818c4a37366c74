//! The bar: its modules, where they are, and what happens to them.
//!
//! Positions are in logical pixels, counted in steps as on the clock panel.
use vstd::prelude::*;

use crate::audio;
use crate::audio::Volume;
use crate::bluetooth;
use crate::bluetooth::BtState;
use crate::clock::Times;
use crate::config::{Colors, Edge};
use crate::notifications;
use crate::notifications::Entry;
use crate::panel;
use crate::panel::{Panel, PanelHit, PanelMetrics, Pointer, BTN_LEFT, FAR, UNIT};
use crate::system;
use crate::system::{Battery, Wifi};
use crate::text;

verus! {

// ---------------------------------------------------------------------------
// What the modules say
// ---------------------------------------------------------------------------
#[derive(Clone, Copy, PartialEq, Eq, Debug, Structural)]
pub enum Module {
    Date,
    Wifi,
    Bluetooth,
    Volume,
    Battery,
    Clock,
}

impl Module {
    /// Whether a click does something here; see [`click_action`].
    pub fn clickable(&self) -> (r: bool)
        ensures
            r == (exists|button: u32| #[trigger] click_action(*self, button) is Some),
            r,
    {
        assert(click_action(*self, BTN_LEFT) is Some);
        true
    }
}

/// What a module says, and in which colour (ARGB).
#[derive(Debug, PartialEq, Eq)]
pub struct Label {
    pub module: Module,
    pub text: String,
    pub color: [u8; 4],
}

/// A [`Label`], with its text by its characters.
pub struct LabelView {
    pub module: Module,
    pub text: Seq<char>,
    pub color: [u8; 4],
}

impl View for Label {
    type V = LabelView;

    open spec fn view(&self) -> LabelView {
        LabelView { module: self.module, text: self.text@, color: self.color }
    }
}

/// The labels of a list.
pub open spec fn label_views(ls: Seq<Label>) -> Seq<LabelView> {
    Seq::new(ls.len(), |i: int| ls[i]@)
}

/// The battery as the bar reads it.
#[derive(Clone, Copy, PartialEq, Eq, Debug, Structural)]
pub struct Power {
    pub battery: Option<Battery>,
    /// Some supply says that it is online.
    pub plugged: bool,
    /// The machine is in its power-saver profile.
    pub eco: bool,
}

/// The Wi-Fi's label, if there is any.
pub open spec fn wifi_label(wifi: system::WifiView, c: Colors) -> Seq<LabelView> {
    match wifi {
        system::WifiView::Connected(ssid) => seq![
            LabelView { module: Module::Wifi, text: "󰤨 "@ + ssid, color: c.fg },
        ],
        system::WifiView::Disconnected => seq![
            LabelView { module: Module::Wifi, text: "󰤭"@, color: c.muted },
        ],
        system::WifiView::Unavailable => seq![],
    }
}

/// The Bluetooth adapter's label.
pub open spec fn bluetooth_label(state: bluetooth::BtStateView, c: Colors) -> LabelView {
    let (text, color) = match state {
        bluetooth::BtStateView::Connected(name) => ("󰂱 "@ + name, c.accent),
        bluetooth::BtStateView::Idle => ("󰂯"@, c.fg),
        bluetooth::BtStateView::Off => ("󰂲"@, c.muted),
        bluetooth::BtStateView::NoStack => ("󰂲 —"@, c.muted),
        bluetooth::BtStateView::Busy(what) => ("󰂯 "@ + what + "…"@, c.accent),
    };
    LabelView { module: Module::Bluetooth, text, color }
}

/// The volume's label.
pub open spec fn volume_label(volume: Option<Volume>, c: Colors) -> LabelView {
    let (text, color) = match volume {
        Some(v) => if v.muted {
            ("󰝟 mute"@, c.muted)
        } else {
            let icon = if v.percent == 0 {
                "󰕿 "@
            } else if v.percent < 50 {
                "󰖀 "@
            } else {
                "󰕾 "@
            };
            (icon + text::decimal_signed(v.percent as int) + "%"@, c.fg)
        },
        None => ("󰝟 —"@, c.muted),
    };
    LabelView { module: Module::Volume, text, color }
}

/// The icon of a battery with so many tenths in it.
pub open spec fn tenths_icon(tenths: int) -> Seq<char> {
    if tenths == 0 {
        "󰂎"@
    } else if tenths == 1 {
        "󰁺"@
    } else if tenths == 2 {
        "󰁻"@
    } else if tenths == 3 {
        "󰁼"@
    } else if tenths == 4 {
        "󰁽"@
    } else if tenths == 5 {
        "󰁾"@
    } else if tenths == 6 {
        "󰁿"@
    } else if tenths == 7 {
        "󰂀"@
    } else if tenths == 8 {
        "󰂁"@
    } else if tenths == 9 {
        "󰂂"@
    } else {
        "󰁹"@
    }
}

/// The battery's icon and its colour. Three plugged-in shapes: filling
/// (bolt), full and still on the charger (plug), full and off it. The last one
/// is the moment after the adapter is pulled, while the kernel still says Full
/// but no supply reports `online`; the plain battery icon is the honest one
/// there.
pub open spec fn battery_icon(b: Battery, plugged: bool, low: u32, c: Colors) -> (
    Seq<char>,
    [u8; 4],
) {
    if b.charging {
        ("󰂄"@, c.charging)
    } else if b.full && plugged {
        ("󰚥"@, c.charging)
    } else if b.full {
        ("󰁹"@, c.fg)
    } else if b.percent <= low {
        (tenths_icon(b.percent * 10 / 100), c.warning)
    } else {
        (tenths_icon(b.percent * 10 / 100), c.fg)
    }
}

/// The battery's label, if there is a battery. Eco is a leaf ahead of it, so
/// the reason the machine is being frugal is visible where the battery is
/// read.
pub open spec fn battery_label(p: Power, low: u32, c: Colors) -> Seq<LabelView> {
    match p.battery {
        Some(b) => {
            let (icon, color) = battery_icon(b, p.plugged, low, c);
            let leaf = if p.eco {
                "󰌪 "@
            } else {
                Seq::empty()
            };
            seq![
                LabelView {
                    module: Module::Battery,
                    text: leaf + icon + " "@ + text::decimal(b.percent as nat) + "%"@,
                    color,
                },
            ]
        },
        None => seq![],
    }
}

/// What stands on the right of the bar, from left to right.
pub open spec fn right_labels(
    wifi: system::WifiView,
    bt: bluetooth::BtStateView,
    volume: Option<Volume>,
    power: Power,
    clock: Seq<char>,
    low: u32,
    c: Colors,
) -> Seq<LabelView> {
    wifi_label(wifi, c) + seq![bluetooth_label(bt, c), volume_label(volume, c)] + battery_label(
        power,
        low,
        c,
    ) + seq![LabelView { module: Module::Clock, text: clock, color: c.fg }]
}

fn volume_text(v: &Volume) -> (s: String)
    requires
        !v.muted,
    ensures
        forall|c: Colors| #[trigger] volume_label(Some(*v), c).text == s@,
{
    let mut s = if v.percent == 0 {
        "󰕿 ".to_owned()
    } else if v.percent < 50 {
        "󰖀 ".to_owned()
    } else {
        "󰕾 ".to_owned()
    };
    let n = text::decimal_of_signed(v.percent);
    s.append(n.as_str());
    s.append("%");
    s
}

fn icon_of(percent: u32) -> (s: &'static str)
    ensures
        s@ == tenths_icon(percent * 10 / 100),
{
    let tenths: u32 = percent / 10;
    assert(percent * 10 / 100 == percent / 10);
    if tenths == 0 {
        "󰂎"
    } else if tenths == 1 {
        "󰁺"
    } else if tenths == 2 {
        "󰁻"
    } else if tenths == 3 {
        "󰁼"
    } else if tenths == 4 {
        "󰁽"
    } else if tenths == 5 {
        "󰁾"
    } else if tenths == 6 {
        "󰁿"
    } else if tenths == 7 {
        "󰂀"
    } else if tenths == 8 {
        "󰂁"
    } else if tenths == 9 {
        "󰂂"
    } else {
        "󰁹"
    }
}

/// What stands on the right of the bar, from left to right. `low` is the
/// percentage at and below which the battery is shown as a warning.
pub fn labels(
    wifi: &Wifi,
    bt: &BtState,
    volume: Option<Volume>,
    power: &Power,
    clock: &str,
    low: u32,
    c: &Colors,
) -> (ls: Vec<Label>)
    ensures
        label_views(ls@) == right_labels(wifi@, bt@, volume, *power, clock@, low, *c),
{
    let mut ls: Vec<Label> = Vec::new();
    match wifi {
        Wifi::Connected(ssid) => ls.push(
            Label {
                module: Module::Wifi,
                text: text::concat("󰤨 ", ssid.as_str()),
                color: c.fg,
            },
        ),
        Wifi::Disconnected => ls.push(
            Label { module: Module::Wifi, text: "󰤭".to_owned(), color: c.muted },
        ),
        Wifi::Unavailable => {},
    }
    assert(label_views(ls@) =~= wifi_label(wifi@, *c));
    let ghost first = ls@;
    let (said, color) = match bt {
        BtState::Connected(name) => (text::concat("󰂱 ", name.as_str()), c.accent),
        BtState::Idle => ("󰂯".to_owned(), c.fg),
        BtState::Off => ("󰂲".to_owned(), c.muted),
        BtState::NoStack => ("󰂲 —".to_owned(), c.muted),
        BtState::Busy(what) => {
            let mut s = text::concat("󰂯 ", what.as_str());
            s.append("…");
            (s, c.accent)
        },
    };
    ls.push(Label { module: Module::Bluetooth, text: said, color });
    let (said, color) = match volume {
        Some(v) => if v.muted {
            ("󰝟 mute".to_owned(), c.muted)
        } else {
            let s = volume_text(&v);
            assert(volume_label(Some(v), *c).text == s@);
            (s, c.fg)
        },
        None => ("󰝟 —".to_owned(), c.muted),
    };
    ls.push(Label { module: Module::Volume, text: said, color });
    assert(label_views(ls@) =~= label_views(first) + seq![
        bluetooth_label(bt@, *c),
        volume_label(volume, *c),
    ]);
    let ghost second = ls@;
    if let Some(b) = power.battery {
        let (icon, color): (&str, [u8; 4]) = if b.charging {
            ("󰂄", c.charging)
        } else if b.full && power.plugged {
            ("󰚥", c.charging)
        } else if b.full {
            ("󰁹", c.fg)
        } else if b.percent <= low {
            (icon_of(b.percent), c.warning)
        } else {
            (icon_of(b.percent), c.fg)
        };
        let mut s = if power.eco {
            "󰌪 ".to_owned()
        } else {
            String::new()
        };
        s.append(icon);
        s.append(" ");
        let n = text::decimal_of(b.percent as u64);
        s.append(n.as_str());
        s.append("%");
        ls.push(Label { module: Module::Battery, text: s, color });
    }
    assert(label_views(ls@) =~= label_views(second) + battery_label(*power, low, *c));
    let ghost third = ls@;
    ls.push(Label { module: Module::Clock, text: clock.to_owned(), color: c.fg });
    assert(label_views(ls@) =~= label_views(third) + seq![
        LabelView { module: Module::Clock, text: clock@, color: c.fg },
    ]);
    ls
}

// ---------------------------------------------------------------------------
// What a click does
// ---------------------------------------------------------------------------
pub const BTN_RIGHT: u32 = 0x111;

pub const BTN_MIDDLE: u32 = 0x112;

/// What a click does.
#[derive(Clone, Copy, PartialEq, Eq, Debug, Structural)]
pub enum Action {
    ToggleMute,
    /// Raven Settings on one page; Huginn's quick settings if Settings is not
    /// installed.
    OpenSettings(Page),
    /// Connect, disconnect or power on; where the bar has nothing to offer,
    /// the Bluetooth page does.
    BluetoothPrimary,
    BluetoothPower,
    /// Open the clock panel, or close it if it is open.
    TogglePanel,
    /// Raven Power; Huginn's quick settings if it is not installed.
    OpenPower,
}

/// A page of Raven Settings.
#[derive(Clone, Copy, PartialEq, Eq, Debug, Structural)]
pub enum Page {
    Network,
    Bluetooth,
    DateTime,
}

impl Page {
    /// What Raven Settings calls the page.
    pub fn name(&self) -> (s: &'static str)
        ensures
            s@ == match *self {
                Page::Network => "network"@,
                Page::Bluetooth => "bluetooth"@,
                Page::DateTime => "datetime"@,
            },
    {
        match *self {
            Page::Network => "network",
            Page::Bluetooth => "bluetooth",
            Page::DateTime => "datetime",
        }
    }
}

/// What a click with `button` on `module` does.
pub open spec fn click_action(module: Module, button: u32) -> Option<Action> {
    match module {
        Module::Volume => if button == BTN_LEFT || button == BTN_MIDDLE {
            Some(Action::ToggleMute)
        } else {
            None
        },
        Module::Bluetooth => if button == BTN_LEFT {
            Some(Action::BluetoothPrimary)
        } else if button == BTN_MIDDLE || button == BTN_RIGHT {
            Some(Action::BluetoothPower)
        } else {
            None
        },
        _ => if button != BTN_LEFT {
            None
        } else {
            match module {
                Module::Wifi => Some(Action::OpenSettings(Page::Network)),
                Module::Date => Some(Action::OpenSettings(Page::DateTime)),
                Module::Clock => Some(Action::TogglePanel),
                _ => Some(Action::OpenPower),
            }
        },
    }
}

/// What a click with `button` on `module` does.
pub fn click(module: Module, button: u32) -> (a: Option<Action>)
    ensures
        a == click_action(module, button),
{
    match module {
        Module::Volume => if button == BTN_LEFT || button == BTN_MIDDLE {
            Some(Action::ToggleMute)
        } else {
            None
        },
        Module::Bluetooth => if button == BTN_LEFT {
            Some(Action::BluetoothPrimary)
        } else if button == BTN_MIDDLE || button == BTN_RIGHT {
            Some(Action::BluetoothPower)
        } else {
            None
        },
        _ => if button != BTN_LEFT {
            None
        } else {
            match module {
                Module::Wifi => Some(Action::OpenSettings(Page::Network)),
                Module::Date => Some(Action::OpenSettings(Page::DateTime)),
                Module::Clock => Some(Action::TogglePanel),
                _ => Some(Action::OpenPower),
            }
        },
    }
}

// ---------------------------------------------------------------------------
// Where the modules are
// ---------------------------------------------------------------------------
/// How far beside a module the pointer still counts as on it, in pixels.
pub const SLOP: i128 = 6;

/// The widest a text is reckoned with, in steps.
pub const WIDEST: i128 = 0x1000_0000_0000;

/// A module on the bar, from `x0` to `x1`, in steps.
#[derive(Debug, PartialEq, Eq)]
pub struct Segment {
    pub module: Module,
    pub text: String,
    pub color: [u8; 4],
    pub x0: i128,
    pub x1: i128,
}

/// A [`Segment`], with its text by its characters.
pub struct SegmentView {
    pub label: LabelView,
    pub x0: int,
    pub x1: int,
}

impl View for Segment {
    type V = SegmentView;

    open spec fn view(&self) -> SegmentView {
        SegmentView {
            label: LabelView { module: self.module, text: self.text@, color: self.color },
            x0: self.x0 as int,
            x1: self.x1 as int,
        }
    }
}

/// The segments of a list.
pub open spec fn segment_views(ss: Seq<Segment>) -> Seq<SegmentView> {
    Seq::new(ss.len(), |i: int| ss[i]@)
}

/// Where the `i`-th of texts that are `ws` wide ends, when they stand side by
/// side with `gap` between them and the last one ends at `edge`.
pub open spec fn end_of(ws: Seq<i128>, edge: int, gap: int, i: int) -> int
    decreases ws.len() - i,
{
    if i >= ws.len() - 1 {
        edge
    } else {
        end_of(ws, edge, gap, i + 1) - ws[i + 1] - gap
    }
}

/// The `i`-th label where it stands.
pub open spec fn segment_at(
    ls: Seq<LabelView>,
    ws: Seq<i128>,
    edge: int,
    gap: int,
    i: int,
) -> SegmentView {
    let end = end_of(ws, edge, gap, i);
    SegmentView { label: ls[i], x0: end - ws[i], x1: end }
}

/// The labels `ls` where they stand, the last one first.
pub open spec fn on_the_right(
    ls: Seq<LabelView>,
    ws: Seq<i128>,
    edge: int,
    gap: int,
) -> Seq<SegmentView> {
    Seq::new(ls.len(), |k: int| segment_at(ls, ws, edge, gap, ls.len() - 1 - k))
}

/// The date on the left of the bar, if it is shown.
pub open spec fn on_the_left(date: Option<(Seq<char>, i128)>, muted: [u8; 4], pad: int) -> Seq<
    SegmentView,
> {
    match date {
        Some((text, w)) => seq![
            SegmentView {
                label: LabelView { module: Module::Date, text, color: muted },
                x0: pad,
                x1: pad + w,
            },
        ],
        None => seq![],
    }
}

/// The date and its width by its characters.
pub open spec fn date_view(date: Option<(String, i128)>) -> Option<(Seq<char>, i128)> {
    match date {
        Some((text, w)) => Some((text@, w)),
        None => None,
    }
}

/// Nothing about the segments is too large to be added up.
pub open spec fn all_near(ss: Seq<Segment>) -> bool {
    forall|i: int|
        0 <= i < ss.len() ==> -FAR <= (#[trigger] ss[i]).x0 <= ss[i].x1 <= FAR
}

/// Put the modules on a bar that is `width` pixels wide, with `padding` at its
/// ends and `gap` between them: `ls` on the right, `date` on the left. `ws`
/// are the widths of `ls` in steps, and the date comes with its own.
pub fn build_segments(
    ls: &Vec<Label>,
    ws: &Vec<i128>,
    date: Option<(String, i128)>,
    muted: [u8; 4],
    width: u32,
    padding: u32,
    gap: u32,
) -> (segs: Vec<Segment>)
    requires
        ws@.len() == ls@.len(),
        forall|i: int| 0 <= i < ws@.len() ==> 0 <= #[trigger] ws@[i] <= WIDEST,
        date matches Some((_, w)) ==> 0 <= w <= WIDEST,
    ensures
        segment_views(segs@) == on_the_right(
            label_views(ls@),
            ws@,
            (width - padding) * UNIT,
            gap * UNIT,
        ) + on_the_left(date_view(date), muted, padding * UNIT),
        all_near(segs@),
{
    let edge: i128 = (width as i128 - padding as i128) * UNIT;
    let between: i128 = gap as i128 * UNIT;
    let ghost all = on_the_right(label_views(ls@), ws@, edge as int, between as int);
    let mut segs: Vec<Segment> = Vec::new();
    let mut x: i128 = edge;
    let mut k: usize = 0;
    let n: usize = ls.len();
    while k < n
        invariant
            k <= n,
            n == ls@.len(),
            ws@.len() == n,
            forall|i: int| 0 <= i < ws@.len() ==> 0 <= #[trigger] ws@[i] <= WIDEST,
            0 <= between <= 0x800_0000_0000,
            -0x1000_0000_0000 <= edge <= 0x1000_0000_0000,
            edge - k * 0x2000_0000_0000 <= x <= edge,
            k < n ==> x == end_of(ws@, edge as int, between as int, n - 1 - k),
            segs@.len() == k,
            all == on_the_right(label_views(ls@), ws@, edge as int, between as int),
            forall|j: int| 0 <= j < k ==> #[trigger] segs@[j]@ == all[j],
            all_near(segs@),
        decreases n - k,
    {
        let i: usize = n - 1 - k;
        let w: i128 = ws[i];
        let l = &ls[i];
        segs.push(
            Segment {
                module: l.module,
                text: l.text.clone(),
                color: l.color,
                x0: x - w,
                x1: x,
            },
        );
        assert(segs@[k as int]@ == all[k as int]);
        x = x - w - between;
        k += 1;
    }
    let ghost right = segs@;
    assert(segment_views(right) =~= all);
    let pad: i128 = padding as i128 * UNIT;
    if let Some((text, w)) = date {
        segs.push(Segment { module: Module::Date, text, color: muted, x0: pad, x1: pad + w });
    }
    assert(segment_views(segs@) =~= segment_views(right) + on_the_left(
        date_view(date),
        muted,
        padding * UNIT,
    ));
    segs
}

/// The pointer at `x` is on `s`, or close enough.
pub open spec fn is_on(s: SegmentView, x: int) -> bool {
    s.x0 - SLOP * UNIT <= x <= s.x1 + SLOP * UNIT
}

/// The module of the first of `ss` that the pointer at `x` is on.
pub open spec fn module_under(ss: Seq<SegmentView>, x: int) -> Option<Module>
    decreases ss.len(),
{
    if ss.len() == 0 {
        None
    } else if is_on(ss[0], x) {
        Some(ss[0].label.module)
    } else {
        module_under(ss.drop_first(), x)
    }
}

/// The module under the pointer at `x`.
pub fn module_at(segs: &Vec<Segment>, x: i128) -> (m: Option<Module>)
    requires
        all_near(segs@),
    ensures
        m == module_under(segment_views(segs@), x as int),
{
    let ghost all = segment_views(segs@);
    let mut i: usize = 0;
    assert(all.skip(0) == all);
    while i < segs.len()
        invariant
            i <= segs@.len(),
            all_near(segs@),
            all == segment_views(segs@),
            module_under(all, x as int) == module_under(all.skip(i as int), x as int),
        decreases segs@.len() - i,
    {
        let s = &segs[i];
        assert(all.skip(i as int)[0] == s@);
        assert(all.skip(i as int).drop_first() == all.skip(i + 1));
        if s.x0 - SLOP * UNIT <= x && x <= s.x1 + SLOP * UNIT {
            return Some(s.module);
        }
        i += 1;
    }
    None
}

// ---------------------------------------------------------------------------
// How the modules look
// ---------------------------------------------------------------------------
fn same_color(a: [u8; 4], b: [u8; 4]) -> (r: bool)
    ensures
        r == (a@ == b@),
{
    let r = a[0] == b[0] && a[1] == b[1] && a[2] == b[2] && a[3] == b[3];
    if r {
        assert(a@ =~= b@);
    }
    r
}

/// The colour that a module is drawn in: a muted one brightens under the
/// pointer, so that a hover says "this responds" even where there is no pill.
pub fn drawn_color(color: [u8; 4], hovered: bool, c: &Colors) -> (r: [u8; 4])
    ensures
        r == if hovered && color@ == c.muted@ {
            c.fg
        } else {
            color
        },
{
    if hovered && same_color(color, c.muted) {
        c.fg
    } else {
        color
    }
}

/// The row of the hairline on a bar that is `height` pixels high: on the edge
/// that faces the desktop.
pub fn hairline_y(edge: Edge, height: u32) -> (y: i32)
    requires
        height <= i32::MAX,
    ensures
        y == match edge {
            Edge::Bottom => 0,
            Edge::Top => height - 1,
        },
{
    match edge {
        Edge::Bottom => 0,
        Edge::Top => height as i32 - 1,
    }
}

// ---------------------------------------------------------------------------
// The bar
// ---------------------------------------------------------------------------
/// How many seconds go by between two looks at the battery, the Wi-Fi, the
/// Bluetooth adapter and the settings.
pub const SLOW_POLL: u64 = 4;

/// What the bar knows and shows.
#[derive(Debug)]
pub struct Bar {
    /// Logical size, as the compositor configured it.
    pub width: u32,
    pub height: u32,
    pub scale: i32,
    pub configured: bool,
    pub dirty: bool,
    pub exit: bool,
    pub segments: Vec<Segment>,
    pub pointer_x: i128,
    pub hover: Option<Module>,
    /// What has been scrolled short of a whole notch, in steps of 1/256, so
    /// that smooth-scrolling mice change the volume sanely.
    pub scroll_acc: i64,
    /// Open while the clock has been clicked.
    pub panel: Option<Panel>,
    /// Huginn's notifications, newest first, as the centre last sent them.
    pub notes: Vec<Entry>,
    pub volume: Option<Volume>,
    pub bt_state: BtState,
    pub wifi: Wifi,
    pub power: Power,
    pub clock: String,
    pub date: String,
    pub long_date: String,
    /// Look at everything again at the next tick.
    pub poll_soon: bool,
}

/// A surface that the compositor speaks of.
#[derive(Clone, Copy, PartialEq, Eq, Debug, Structural)]
pub enum Surface {
    Bar,
    Panel,
    /// The transparent one over the rest of the screen, under the panel: a
    /// press on it is a click outside the panel, and closes it.
    Catcher,
    Other,
}

/// What is to be drawn again.
#[derive(Clone, Copy, PartialEq, Eq, Debug, Structural)]
pub enum Redraw {
    Nothing,
    Bar,
    Panel,
    /// Give the catcher a transparent buffer of this size: a surface only
    /// takes input where it has one.
    Catcher(u32, u32),
}

/// What the pointer asks for.
#[derive(Clone, Copy, PartialEq, Eq, Debug, Structural)]
pub enum Response {
    Nothing,
    /// Draw the bar again.
    Draw,
    /// Draw the panel again, and tell the centre of a control that was
    /// pressed.
    DrawPanel(Option<PanelHit>),
    /// A module was clicked: act, read the fast things again, and draw.
    Clicked(Option<Action>),
    /// Change the volume by so many notches, read it again, and draw.
    Scrolled(i64),
}

/// A notch of 120 parts, in steps of 1/256.
pub const NOTCH: i64 = 30720;

/// A notch of smooth scrolling, about 15 logical pixels, in steps of 1/256.
pub const SMOOTH_NOTCH: i64 = 3840;

/// The notches that a scroll comes to, and what is left over.
pub open spec fn notches(acc: int, value120: i32, discrete: i32, absolute: i32) -> (int, int) {
    if value120 != 0 {
        let sum = acc + value120 * 256;
        let n = audio::quotient(sum, NOTCH as int);
        (n, sum - n * NOTCH)
    } else if discrete != 0 {
        (discrete as int, acc)
    } else {
        let sum = acc + absolute;
        let n = audio::quotient(sum, SMOOTH_NOTCH as int);
        (n, sum - n * SMOOTH_NOTCH)
    }
}

fn whole_notches(sum: i64, size: i64) -> (r: (i64, i64))
    requires
        size == NOTCH || size == SMOOTH_NOTCH,
        -0x1_0000_0000_0000 <= sum <= 0x1_0000_0000_0000,
    ensures
        r.0 == audio::quotient(sum as int, size as int),
        r.1 == sum - r.0 * size,
        -size < r.1 < size,
        -0x1_0000_0000_0000 <= r.0 <= 0x1_0000_0000_0000,
{
    let n: i64 = if sum < 0 {
        -((-sum) / size)
    } else {
        sum / size
    };
    (n, sum - n * size)
}

/// By how many percent a scroll of so many notches changes the volume: up is
/// louder, and a wheel counts downwards. `step` is the change per notch.
pub fn scroll_change(notches: i64, step: i64) -> (d: i64)
    requires
        i64::MIN < notches,
        i64::MIN <= -notches * step <= i64::MAX,
    ensures
        d == -notches * step,
{
    -notches * step
}

/// What a click with `button` hits where the pointer is, and what it does.
pub open spec fn clicked(b: &Bar, button: u32) -> Option<(Module, Option<Action>)> {
    match module_under(segment_views(b.segments@), b.pointer_x as int) {
        Some(m) => Some((m, click_action(m, button))),
        None => None,
    }
}

/// The bar after it has taken in the time and the volume. A new clock or date
/// in words is also the panel's, with each notification's "5 min ago".
pub open spec fn after_fast(b: Bar, t: Times, volume: Option<Volume>) -> Bar {
    let words = t.clock@ != b.clock@ || t.long_date@ != b.long_date@;
    let line = t.clock@ != b.clock@ || t.date@ != b.date@ || volume != b.volume;
    Bar {
        panel: match b.panel {
            Some(p) => Some(Panel { dirty: p.dirty || words, ..p }),
            None => None,
        },
        long_date: if words {
            t.long_date
        } else {
            b.long_date
        },
        clock: if line {
            t.clock
        } else {
            b.clock
        },
        date: if line {
            t.date
        } else {
            b.date
        },
        volume,
        dirty: b.dirty || line,
        ..b
    }
}

/// The bar after it has taken in the battery, the Wi-Fi and the Bluetooth
/// adapter.
pub open spec fn after_slow(b: Bar, power: Power, wifi: Wifi, bt: BtState) -> Bar {
    let news = power != b.power || wifi@ != b.wifi@ || bt@ != b.bt_state@;
    Bar {
        power,
        wifi: if news {
            wifi
        } else {
            b.wifi
        },
        bt_state: if news {
            bt
        } else {
            b.bt_state
        },
        dirty: b.dirty || news,
        poll_soon: false,
        ..b
    }
}

/// `measure` gave `w` as the width of the text `s`.
pub open spec fn measured<F: Fn(&str) -> i128>(measure: F, s: Seq<char>, w: i128) -> bool {
    exists|x: &str| x@ == s && #[trigger] call_ensures(measure, (x,), w)
}

/// What stands on the right of the bar, from left to right.
pub open spec fn labels_of(b: Bar, low: u32, c: Colors) -> Seq<LabelView> {
    right_labels(b.wifi@, b.bt_state@, b.volume, b.power, b.clock@, low, c)
}

/// The segments of the bar are its own labels, and its date if `show_date`,
/// where they stand when they are as wide as `measure` says: `ws` and the
/// width beside `date`.
pub open spec fn stands<F: Fn(&str) -> i128>(
    b: Bar,
    measure: F,
    ws: Seq<i128>,
    date: Option<(Seq<char>, i128)>,
    low: u32,
    c: Colors,
    show_date: bool,
    padding: u32,
    gap: u32,
) -> bool {
    let ls = labels_of(b, low, c);
    &&& ws.len() == ls.len()
    &&& forall|i: int| 0 <= i < ws.len() ==> measured(measure, ls[i].text, #[trigger] ws[i])
    &&& match date {
        Some((text, w)) => show_date && text == b.date@ && measured(measure, text, w),
        None => !show_date,
    }
    &&& segment_views(b.segments@) == on_the_right(
        ls,
        ws,
        (b.width - padding) * UNIT,
        gap * UNIT,
    ) + on_the_left(date, c.muted, padding * UNIT)
}

/// There is something to draw, and somewhere to draw it.
pub open spec fn needs_drawing(b: Bar) -> bool {
    b.configured && b.dirty && b.width != 0
}

impl Bar {
    /// What is true of every bar.
    pub open spec fn wf(&self) -> bool {
        &&& all_near(self.segments@)
        &&& -NOTCH < self.scroll_acc < NOTCH
        &&& (self.panel matches Some(p) ==> p.wf())
    }

    /// The bar before it has looked at anything.
    pub fn new(height: u32) -> (b: Self)
        ensures
            b.wf(),
            b.width == 0,
            b.height == height,
            b.scale == 1,
            !b.configured,
            b.dirty,
            !b.exit,
            b.segments@.len() == 0,
            b.pointer_x == 0,
            b.hover is None,
            b.scroll_acc == 0,
            b.panel is None,
            b.notes@.len() == 0,
            b.volume is None,
            b.bt_state is NoStack,
            b.wifi is Unavailable,
            b.power == (Power { battery: None, plugged: false, eco: false }),
            b.clock@.len() == 0,
            b.date@.len() == 0,
            b.long_date@.len() == 0,
            b.poll_soon,
    {
        Bar {
            width: 0,
            height,
            scale: 1,
            configured: false,
            dirty: true,
            exit: false,
            segments: Vec::new(),
            pointer_x: 0,
            hover: None,
            scroll_acc: 0,
            panel: None,
            notes: Vec::new(),
            volume: None,
            bt_state: BtState::NoStack,
            wifi: Wifi::Unavailable,
            power: Power { battery: None, plugged: false, eco: false },
            clock: String::new(),
            date: String::new(),
            long_date: String::new(),
            poll_soon: true,
        }
    }

    /// Whether it is time for the slow things, `elapsed` seconds after they
    /// were last looked at.
    pub fn slow_poll_due(&self, elapsed: u64) -> (r: bool)
        ensures
            r == (self.poll_soon || elapsed >= SLOW_POLL),
    {
        self.poll_soon || elapsed >= SLOW_POLL
    }

    /// Take in the time and the volume.
    pub fn refresh_fast(&mut self, t: Times, volume: Option<Volume>)
        requires
            old(self).wf(),
        ensures
            final(self).wf(),
            *final(self) == after_fast(*old(self), t, volume),
    {
        let words = t.clock != self.clock || t.long_date != self.long_date;
        let line = t.clock != self.clock || t.date != self.date || volume != self.volume;
        if words {
            if let Some(p) = &mut self.panel {
                p.dirty = true;
            }
            self.long_date = t.long_date;
        }
        if line {
            self.clock = t.clock;
            self.date = t.date;
            self.volume = volume;
            self.dirty = true;
        }
    }

    /// Take in the battery, the Wi-Fi and the Bluetooth adapter.
    pub fn refresh_slow(&mut self, power: Power, wifi: Wifi, bt: BtState)
        ensures
            *final(self) == after_slow(*old(self), power, wifi, bt),
    {
        self.poll_soon = false;
        if power != self.power || !same_wifi(&wifi, &self.wifi) || !same_state(&bt, &self.bt_state) {
            self.power = power;
            self.wifi = wifi;
            self.bt_state = bt;
            self.dirty = true;
        }
    }

    /// Put the modules on the bar: what it knows now, measured by `measure`, in
    /// steps. `low` is the percentage at and below which the battery is shown
    /// as a warning.
    pub fn build_segments<F: Fn(&str) -> i128>(
        &mut self,
        measure: F,
        low: u32,
        c: &Colors,
        show_date: bool,
        padding: u32,
        gap: u32,
    )
        requires
            old(self).wf(),
            forall|x: &str| call_requires(measure, (x,)),
            forall|x: &str, w: i128| call_ensures(measure, (x,), w) ==> 0 <= w <= WIDEST,
        ensures
            final(self).wf(),
            *final(self) == (Bar { segments: final(self).segments, ..*old(self) }),
            exists|ws: Seq<i128>, date: Option<(Seq<char>, i128)>| #[trigger]
                stands(*final(self), measure, ws, date, low, *c, show_date, padding, gap),
    {
        let ls = labels(
            &self.wifi,
            &self.bt_state,
            self.volume,
            &self.power,
            self.clock.as_str(),
            low,
            c,
        );
        let ghost views = label_views(ls@);
        let mut ws: Vec<i128> = Vec::new();
        let mut i: usize = 0;
        while i < ls.len()
            invariant
                i <= ls@.len(),
                ws@.len() == i,
                views == label_views(ls@),
                forall|x: &str| call_requires(measure, (x,)),
                forall|x: &str, w: i128| call_ensures(measure, (x,), w) ==> 0 <= w <= WIDEST,
                forall|j: int|
                    0 <= j < i ==> measured(measure, views[j].text, #[trigger] ws@[j]) && 0 <= ws@[j]
                        <= WIDEST,
            decreases ls@.len() - i,
        {
            let w: i128 = measure(ls[i].text.as_str());
            ws.push(w);
            assert(measured(measure, views[i as int].text, w));
            i += 1;
        }
        let date = if show_date {
            let w: i128 = measure(self.date.as_str());
            assert(measured(measure, self.date@, w));
            Some((self.date.clone(), w))
        } else {
            None
        };
        let ghost shown = date_view(date);
        let segments = build_segments(&ls, &ws, date, c.muted, self.width, padding, gap);
        self.segments = segments;
        assert(stands(*self, measure, ws@, shown, low, *c, show_date, padding, gap));
    }

    /// Whether there is anything to draw, which then counts as drawn.
    pub fn draw(&mut self) -> (r: bool)
        ensures
            r == needs_drawing(*old(self)),
            *final(self) == (Bar { dirty: old(self).dirty && !r, ..*old(self) }),
    {
        if !self.configured || !self.dirty || self.width == 0 {
            return false;
        }
        self.dirty = false;
        true
    }
}

fn same_wifi(a: &Wifi, b: &Wifi) -> (r: bool)
    ensures
        r == (a@ == b@),
{
    match (a, b) {
        (Wifi::Unavailable, Wifi::Unavailable) => true,
        (Wifi::Disconnected, Wifi::Disconnected) => true,
        (Wifi::Connected(x), Wifi::Connected(y)) => *x == *y,
        _ => false,
    }
}

fn same_state(a: &BtState, b: &BtState) -> (r: bool)
    ensures
        r == (a@ == b@),
{
    match (a, b) {
        (BtState::NoStack, BtState::NoStack) => true,
        (BtState::Off, BtState::Off) => true,
        (BtState::Idle, BtState::Idle) => true,
        (BtState::Connected(x), BtState::Connected(y)) => *x == *y,
        (BtState::Busy(x), BtState::Busy(y)) => *x == *y,
        _ => false,
    }
}

/// The bar after a pointer event on it.
pub open spec fn after_pointer(b: Bar, ev: Pointer) -> Bar {
    match ev {
        Pointer::At { x, y } => {
            let h = module_under(segment_views(b.segments@), x as int);
            Bar { pointer_x: x, hover: h, dirty: b.dirty || h != b.hover, ..b }
        },
        Pointer::Leave => Bar { hover: None, dirty: b.dirty || b.hover is Some, ..b },
        Pointer::Press { button } => match clicked(&b, button) {
            // The bar is outside the panel too. The clock opens and closes it
            // itself.
            Some((m, _)) => Bar {
                panel: if m == Module::Clock {
                    b.panel
                } else {
                    None
                },
                poll_soon: true,
                dirty: true,
                ..b
            },
            None => b,
        },
        Pointer::Release => b,
        Pointer::Axis { value120, discrete, absolute } => match module_under(
            segment_views(b.segments@),
            b.pointer_x as int,
        ) {
            Some(m) => {
                let (n, rest) = notches(b.scroll_acc as int, value120, discrete, absolute);
                Bar {
                    scroll_acc: rest as i64,
                    dirty: b.dirty || (m == Module::Volume && n != 0),
                    ..b
                }
            },
            None => b,
        },
    }
}

/// What a pointer event on the bar asks for.
pub open spec fn response_to(b: Bar, ev: Pointer) -> Response {
    match ev {
        Pointer::At { x, y } => if module_under(segment_views(b.segments@), x as int) != b.hover {
            Response::Draw
        } else {
            Response::Nothing
        },
        Pointer::Leave => if b.hover is Some {
            Response::Draw
        } else {
            Response::Nothing
        },
        Pointer::Press { button } => match clicked(&b, button) {
            Some((_, action)) => Response::Clicked(action),
            None => Response::Nothing,
        },
        Pointer::Release => Response::Nothing,
        Pointer::Axis { value120, discrete, absolute } => {
            let n = notches(b.scroll_acc as int, value120, discrete, absolute).0;
            if module_under(segment_views(b.segments@), b.pointer_x as int) == Some(Module::Volume)
                && n != 0 {
                Response::Scrolled(n as i64)
            } else {
                Response::Nothing
            }
        },
    }
}

fn same_module(a: Option<Module>, b: Option<Module>) -> (r: bool)
    ensures
        r == (a == b),
{
    match (a, b) {
        (Some(x), Some(y)) => x == y,
        (None, None) => true,
        _ => false,
    }
}

impl Bar {
    /// A click on a module.
    fn click(&mut self, module: Module, button: u32) -> (a: Option<Action>)
        ensures
            a == click_action(module, button),
            *final(self) == (Bar {
                panel: if module == Module::Clock {
                    old(self).panel
                } else {
                    None
                },
                poll_soon: true,
                dirty: true,
                ..*old(self)
            }),
    {
        if module != Module::Clock {
            self.panel = None;
        }
        // Actions take a while; poll soon so the bar catches up.
        self.poll_soon = true;
        self.dirty = true;
        click(module, button)
    }

    /// A pointer event on the bar itself.
    pub fn bar_pointer(&mut self, ev: Pointer) -> (r: Response)
        requires
            old(self).wf(),
        ensures
            final(self).wf(),
            *final(self) == after_pointer(*old(self), ev),
            r == response_to(*old(self), ev),
    {
        match ev {
            Pointer::At { x, .. } => {
                self.pointer_x = x;
                let h = module_at(&self.segments, x);
                if !same_module(h, self.hover) {
                    self.hover = h;
                    self.dirty = true;
                    return Response::Draw;
                }
                Response::Nothing
            },
            Pointer::Leave => {
                if self.hover.is_some() {
                    self.hover = None;
                    self.dirty = true;
                    return Response::Draw;
                }
                Response::Nothing
            },
            Pointer::Press { button } => match module_at(&self.segments, self.pointer_x) {
                Some(m) => {
                    let action = self.click(m, button);
                    Response::Clicked(action)
                },
                None => Response::Nothing,
            },
            Pointer::Release => Response::Nothing,
            Pointer::Axis { value120, discrete, absolute } => {
                let m = match module_at(&self.segments, self.pointer_x) {
                    Some(m) => m,
                    None => return Response::Nothing,
                };
                let (n, rest): (i64, i64) = if value120 != 0 {
                    whole_notches(self.scroll_acc + value120 as i64 * 256, NOTCH)
                } else if discrete != 0 {
                    (discrete as i64, self.scroll_acc)
                } else {
                    whole_notches(self.scroll_acc + absolute as i64, SMOOTH_NOTCH)
                };
                self.scroll_acc = rest;
                if m == Module::Volume && n != 0 {
                    self.dirty = true;
                    return Response::Scrolled(n);
                }
                Response::Nothing
            },
        }
    }

    /// A pointer event on a surface.
    pub fn pointer_frame(&mut self, surface: Surface, ev: Pointer, m: &PanelMetrics) -> (r: Response)
        requires
            old(self).wf(),
        ensures
            final(self).wf(),
            surface == Surface::Bar ==> *final(self) == after_pointer(*old(self), ev) && r
                == response_to(*old(self), ev),
            // A press outside the panel closes it, and goes no further.
            surface == Surface::Catcher ==> r == Response::Nothing && *final(self) == (Bar {
                panel: if ev is Press {
                    None
                } else {
                    old(self).panel
                },
                ..*old(self)
            }),
            surface == Surface::Other ==> r == Response::Nothing && *final(self) == *old(self),
            surface == Surface::Panel ==> match old(self).panel {
                Some(p) => {
                    &&& r == Response::DrawPanel(panel::pressed(&p, ev))
                    &&& notifications::entry_views(final(self).notes@) == panel::left(
                        notifications::entry_views(old(self).notes@),
                        panel::pressed(&p, ev),
                    )
                    &&& *final(self) == (Bar {
                        panel: final(self).panel,
                        notes: final(self).notes,
                        ..*old(self)
                    })
                    &&& final(self).panel matches Some(q) && q == (Panel {
                        pointer: panel::moved(&p, ev),
                        scroll: panel::scrolled(&p, *m, final(self).notes@.len(), ev) as i128,
                        dirty: q.dirty,
                        ..p
                    }) && q.dirty == (p.dirty || ev == (Pointer::Press { button: BTN_LEFT })
                        || q.scroll != p.scroll || q.under() != p.under())
                },
                None => r == Response::Nothing && *final(self) == *old(self),
            },
    {
        match surface {
            Surface::Panel => match &mut self.panel {
                Some(p) => {
                    let hit = p.panel_pointer(m, &mut self.notes, ev);
                    Response::DrawPanel(hit)
                },
                None => Response::Nothing,
            },
            Surface::Catcher => {
                match ev {
                    Pointer::Press { .. } => {
                        self.panel = None;
                    },
                    _ => {},
                }
                Response::Nothing
            },
            Surface::Bar => self.bar_pointer(ev),
            Surface::Other => Response::Nothing,
        }
    }

    /// Open the clock panel, or close it if it is open. The height to ask the
    /// compositor for, if it opened.
    pub fn toggle_panel(&mut self, m: &PanelMetrics) -> (r: Option<u32>)
        requires
            old(self).wf(),
        ensures
            final(self).wf(),
            *final(self) == (Bar { panel: final(self).panel, ..*old(self) }),
            match old(self).panel {
                Some(_) => r is None && final(self).panel is None,
                None => {
                    let height = panel::smaller(
                        m.total(old(self).notes@.len()),
                        u32::MAX as int,
                    );
                    &&& r == Some(height as u32)
                    &&& final(self).panel matches Some(p) && p.requested == height && p.scale
                        == old(self).scale && p.width == 0 && p.height == 0 && !p.configured
                        && p.dirty && p.pointer is None && p.rows@.len() == 0 && p.hits@.len() == 0
                        && p.scroll == 0
                },
            },
    {
        if self.panel.is_some() {
            self.panel = None;
            return None;
        }
        let height: u32 = m.height(self.notes.len());
        self.panel = Some(Panel::open(height, self.scale));
        Some(height)
    }

    /// The centre sent a new list. Whether that is news.
    pub fn notes_changed(&mut self, notes: Vec<Entry>, m: &PanelMetrics) -> (news: bool)
        requires
            old(self).wf(),
        ensures
            final(self).wf(),
            news == (notifications::entry_views(notes@) != notifications::entry_views(
                old(self).notes@,
            )),
            !news ==> *final(self) == *old(self),
            news ==> *final(self) == (Bar {
                notes,
                panel: match old(self).panel {
                    Some(p) => Some(
                        Panel {
                            scroll: panel::smaller(
                                p.scroll as int,
                                m.reach(notes@.len()) * UNIT,
                            ) as i128,
                            dirty: true,
                            ..p
                        },
                    ),
                    None => None,
                },
                ..*old(self)
            }),
    {
        if notifications::same(&notes, &self.notes) {
            return false;
        }
        let n: usize = notes.len();
        self.notes = notes;
        if let Some(p) = &mut self.panel {
            p.notes_changed(m, n);
        }
        true
    }

    /// The compositor closed a surface: without its own the bar is done.
    pub fn closed(&mut self, surface: Surface)
        ensures
            *final(self) == if old(self).panel is Some && (surface == Surface::Panel || surface
                == Surface::Catcher) {
                Bar { panel: None, ..*old(self) }
            } else {
                Bar { exit: true, ..*old(self) }
            },
    {
        if self.panel.is_some() && (surface == Surface::Panel || surface == Surface::Catcher) {
            self.panel = None;
        } else {
            self.exit = true;
        }
    }

    /// The scale of a surface changed. Nothing is to be seen on the catcher,
    /// so its buffer stays at scale 1.
    pub fn scale_factor_changed(&mut self, surface: Surface, factor: i32) -> (r: Redraw)
        requires
            old(self).wf(),
        ensures
            final(self).wf(),
            ({
                let o = *old(self);
                match (o.panel, surface) {
                    (Some(p), Surface::Catcher) => r == Redraw::Nothing && *final(self) == o,
                    (Some(p), Surface::Panel) => if p.scale != factor {
                        r == Redraw::Panel && *final(self) == (Bar {
                            panel: Some(Panel { scale: factor, dirty: true, ..p }),
                            ..o
                        })
                    } else {
                        r == Redraw::Nothing && *final(self) == o
                    },
                    _ => if o.scale != factor {
                        r == Redraw::Bar && *final(self) == (Bar {
                            scale: factor,
                            dirty: true,
                            ..o
                        })
                    } else {
                        r == Redraw::Nothing && *final(self) == o
                    },
                }
            }),
    {
        if let Some(p) = &mut self.panel {
            match surface {
                Surface::Catcher => return Redraw::Nothing,
                Surface::Panel => {
                    if p.scale != factor {
                        p.scale = factor;
                        p.dirty = true;
                        return Redraw::Panel;
                    }
                    return Redraw::Nothing;
                },
                _ => {},
            }
        }
        if factor != self.scale {
            self.scale = factor;
            self.dirty = true;
            return Redraw::Bar;
        }
        Redraw::Nothing
    }

    /// The compositor configured a surface's size, a zero leaving it to us.
    pub fn configure(&mut self, surface: Surface, w: u32, h: u32) -> (r: Redraw)
        requires
            old(self).wf(),
        ensures
            final(self).wf(),
            ({
                let o = *old(self);
                match (o.panel, surface) {
                    (Some(p), Surface::Catcher) => *final(self) == o && r == Redraw::Catcher(
                        if w == 0 {
                            1
                        } else {
                            w
                        },
                        if h == 0 {
                            1
                        } else {
                            h
                        },
                    ),
                    (Some(p), Surface::Panel) => r == Redraw::Panel && *final(self) == (Bar {
                        panel: Some(
                            Panel {
                                width: if w == 0 {
                                    panel::PANEL_WIDTH
                                } else {
                                    w
                                },
                                height: if h == 0 {
                                    p.requested
                                } else {
                                    h
                                },
                                configured: true,
                                dirty: true,
                                ..p
                            },
                        ),
                        ..o
                    }),
                    _ => r == Redraw::Bar && *final(self) == (Bar {
                        width: if w == 0 {
                            1920
                        } else {
                            w
                        },
                        height: if h == 0 {
                            o.height
                        } else {
                            h
                        },
                        configured: true,
                        dirty: true,
                        ..o
                    }),
                }
            }),
    {
        if let Some(p) = &mut self.panel {
            match surface {
                Surface::Catcher => return Redraw::Catcher(
                    if w == 0 {
                        1
                    } else {
                        w
                    },
                    if h == 0 {
                        1
                    } else {
                        h
                    },
                ),
                Surface::Panel => {
                    p.configure(w, h);
                    return Redraw::Panel;
                },
                _ => {},
            }
        }
        self.width = if w == 0 {
            1920
        } else {
            w
        };
        if h != 0 {
            self.height = h;
        }
        self.configured = true;
        self.dirty = true;
        Redraw::Bar
    }

    /// Put the panel on the screen, if it is open: the height it needs is the
    /// one for what it lists now.
    pub fn draw_panel(&mut self, m: &PanelMetrics) -> (f: panel::Frame)
        requires
            old(self).wf(),
        ensures
            final(self).wf(),
            match old(self).panel {
                Some(p) => {
                    let want = panel::smaller(
                        m.total(old(self).notes@.len()),
                        u32::MAX as int,
                    ) as u32;
                    &&& f == if p.requested != want {
                        panel::Frame::Resize(want)
                    } else if p.configured && p.dirty && p.width != 0 {
                        panel::Frame::Paint
                    } else {
                        panel::Frame::Nothing
                    }
                    &&& *final(self) == (Bar {
                        panel: Some(
                            Panel {
                                requested: want,
                                dirty: p.dirty && f != panel::Frame::Paint,
                                ..p
                            },
                        ),
                        ..*old(self)
                    })
                },
                None => f == panel::Frame::Nothing && *final(self) == *old(self),
            },
    {
        let want: u32 = m.height(self.notes.len());
        match &mut self.panel {
            Some(p) => p.draw_panel(want),
            None => panel::Frame::Nothing,
        }
    }
}

// ---------------------------------------------------------------------------
// What holds of every bar
// ---------------------------------------------------------------------------
/// The place of a module on the right of the bar, counted from the left.
pub open spec fn place(m: Module) -> int {
    match m {
        Module::Wifi => 0,
        Module::Bluetooth => 1,
        Module::Volume => 2,
        Module::Battery => 3,
        Module::Clock => 4,
        Module::Date => -1,
    }
}

/// On the right stand Wi-Fi, Bluetooth, volume, battery and clock, in this
/// order and each at most once; Bluetooth, the volume and the clock always do.
pub proof fn law_right_side_order(
    wifi: system::WifiView,
    bt: bluetooth::BtStateView,
    volume: Option<Volume>,
    power: Power,
    clock: Seq<char>,
    low: u32,
    c: Colors,
)
    ensures
        ({
            let ls = right_labels(wifi, bt, volume, power, clock, low, c);
            &&& forall|i: int, j: int|
                0 <= i < j < ls.len() ==> place((#[trigger] ls[i]).module) < place(
                    (#[trigger] ls[j]).module,
                )
            &&& ls.last().module == Module::Clock
            &&& exists|i: int|
                0 <= i < ls.len() - 1 && (#[trigger] ls[i]).module == Module::Bluetooth
                    && ls[i + 1].module == Module::Volume
        }),
{
    let ls = right_labels(wifi, bt, volume, power, clock, low, c);
    let n = wifi_label(wifi, c).len() as int;
    assert(ls[n].module == Module::Bluetooth);
    assert(ls[n + 1].module == Module::Volume);
}

proof fn lemma_ends_apart(ws: Seq<i128>, edge: int, gap: int, i: int, j: int)
    requires
        0 <= i < j < ws.len(),
        gap >= 0,
        forall|k: int| 0 <= k < ws.len() ==> 0 <= #[trigger] ws[k],
    ensures
        end_of(ws, edge, gap, i) + gap <= end_of(ws, edge, gap, j) - ws[j],
    decreases j - i,
{
    if i + 1 < j {
        lemma_ends_apart(ws, edge, gap, i + 1, j);
    }
    assert(ws[i + 1] >= 0);
}

/// The modules on the right do not overlap: the gap is between any two, and
/// the last one ends at the padding.
pub proof fn law_modules_apart(
    ls: Seq<LabelView>,
    ws: Seq<i128>,
    edge: int,
    gap: int,
    i: int,
    j: int,
)
    requires
        ls.len() == ws.len(),
        0 <= i < j < ls.len(),
        gap >= 0,
        forall|k: int| 0 <= k < ws.len() ==> 0 <= #[trigger] ws[k],
    ensures
        segment_at(ls, ws, edge, gap, i).x1 + gap <= segment_at(ls, ws, edge, gap, j).x0,
        segment_at(ls, ws, edge, gap, ls.len() - 1).x1 == edge,
{
    lemma_ends_apart(ws, edge, gap, i, j);
}

proof fn lemma_found_in(ss: Seq<SegmentView>, x: int, k: int)
    requires
        0 <= k < ss.len(),
        is_on(ss[k], x),
        forall|j: int| 0 <= j < ss.len() && j != k ==> !is_on(#[trigger] ss[j], x),
    ensures
        module_under(ss, x) == Some(ss[k].label.module),
    decreases ss.len(),
{
    if k > 0 {
        assert(!is_on(ss[0], x));
        let rest = ss.drop_first();
        assert forall|j: int| 0 <= j < rest.len() && j != k - 1 implies !is_on(
            #[trigger] rest[j],
            x,
        ) by {
            assert(rest[j] == ss[j + 1]);
        }
        lemma_found_in(rest, x, k - 1);
    }
}

/// A pointer on a module on the right finds that module, as long as the gap is
/// wider than the slop.
pub proof fn law_pointer_finds_module(
    ls: Seq<LabelView>,
    ws: Seq<i128>,
    edge: int,
    gap: int,
    i: int,
    x: int,
)
    requires
        ls.len() == ws.len(),
        0 <= i < ls.len(),
        gap > SLOP * UNIT,
        forall|k: int| 0 <= k < ws.len() ==> 0 <= #[trigger] ws[k],
        segment_at(ls, ws, edge, gap, i).x0 <= x <= segment_at(ls, ws, edge, gap, i).x1,
    ensures
        module_under(on_the_right(ls, ws, edge, gap), x) == Some(ls[i].module),
{
    let ss = on_the_right(ls, ws, edge, gap);
    let k = ls.len() - 1 - i;
    assert(ss[k] == segment_at(ls, ws, edge, gap, i));
    assert forall|j: int| 0 <= j < ss.len() && j != k implies !is_on(#[trigger] ss[j], x) by {
        let other = ls.len() - 1 - j;
        if other < i {
            lemma_ends_apart(ws, edge, gap, other, i);
        } else {
            lemma_ends_apart(ws, edge, gap, i, other);
        }
    }
    lemma_found_in(ss, x, k);
}

/// No part of a scroll is lost: what comes in is what the notches amount to
/// and what is left over, which is always less than a notch.
pub proof fn law_scroll_adds_up(acc: int, value120: i32, discrete: i32, absolute: i32)
    requires
        -NOTCH < acc < NOTCH,
    ensures
        ({
            let (n, rest) = notches(acc, value120, discrete, absolute);
            &&& value120 != 0 ==> acc + value120 * 256 == n * NOTCH + rest
            &&& value120 == 0 && discrete == 0 ==> acc + absolute == n * SMOOTH_NOTCH + rest
                && -SMOOTH_NOTCH < rest < SMOOTH_NOTCH
            &&& value120 == 0 && discrete != 0 ==> n == discrete && rest == acc
            &&& -NOTCH < rest < NOTCH
        }),
{
}

/// The bar is drawn again only when something on it changed: once drawn, it
/// stays drawn as long as it reads the same time, volume, battery, Wi-Fi and
/// Bluetooth.
pub proof fn law_drawn_when_changed(
    b: Bar,
    t: Times,
    volume: Option<Volume>,
    power: Power,
    wifi: Wifi,
    bt: BtState,
)
    requires
        !b.dirty,
    ensures
        after_fast(b, t, volume).dirty <==> t.clock@ != b.clock@ || t.date@ != b.date@ || volume
            != b.volume,
        after_slow(b, power, wifi, bt).dirty <==> power != b.power || wifi@ != b.wifi@ || bt@
            != b.bt_state@,
        !needs_drawing(b),
{
}

/// To read the same time and volume again changes nothing at all of the bar.
pub proof fn law_reading_twice(b: Bar, t: Times, volume: Option<Volume>)
    ensures
        after_fast(after_fast(b, t, volume), t, volume) == after_fast(b, t, volume),
{
}

/// A click anywhere on the bar but on the clock closes the panel, and a
/// pointer that only moves or scrolls never does.
pub proof fn law_clicks_close_the_panel(b: Bar, ev: Pointer)
    ensures
        ev matches Pointer::Press { button } ==> match clicked(&b, button) {
            Some((m, _)) => after_pointer(b, ev).panel == if m == Module::Clock {
                b.panel
            } else {
                None
            },
            None => after_pointer(b, ev) == b,
        },
        !(ev is Press) ==> after_pointer(b, ev).panel == b.panel,
{
}

// ---------------------------------------------------------------------------
// What holds of what the modules say
// ---------------------------------------------------------------------------
/// In the power-saver profile the battery says what it says outside of it, with
/// a leaf and a space ahead, whatever the battery and plugged in or not; the
/// colour stays as it is.
pub proof fn law_leaf(p: Power, low: u32, c: Colors)
    requires
        p.battery is Some,
    ensures
        ({
            let eco = battery_label(Power { eco: true, ..p }, low, c);
            let plain = battery_label(Power { eco: false, ..p }, low, c);
            &&& eco.len() == 1 && plain.len() == 1
            &&& eco[0].text == "󰌪 "@ + plain[0].text
            &&& eco[0].color == plain[0].color
            &&& eco[0].module == Module::Battery && plain[0].module == Module::Battery
        }),
{
    let eco = battery_label(Power { eco: true, ..p }, low, c);
    let plain = battery_label(Power { eco: false, ..p }, low, c);
    assert(eco[0].text =~= "󰌪 "@ + plain[0].text);
}

/// The battery without the leaf.
pub open spec fn plain_battery(b: Battery, plugged: bool, low: u32, c: Colors) -> LabelView {
    battery_label(Power { battery: Some(b), plugged, eco: false }, low, c)[0]
}

/// The battery's colour: on the charger that of charging, while it fills and
/// while it is full and plugged in; otherwise a warning at and below `low`, but
/// never of a battery that is full.
pub proof fn law_battery_color(b: Battery, plugged: bool, low: u32, c: Colors)
    ensures
        ({
            let color = plain_battery(b, plugged, low, c).color;
            &&& b.charging || (b.full && plugged) ==> color == c.charging
            &&& !b.charging && !b.full && b.percent <= low ==> color == c.warning
            &&& !b.charging && !(b.full && plugged) && (b.full || b.percent > low) ==> color == c.fg
        }),
{
}

/// The battery's text is its icon, a space, and its percentage whatever that
/// is; the icon of two batteries of the same standing is the same where both
/// are on the charger, both full, or both within the same tenth, a hundred and
/// more counting as one.
pub proof fn law_battery_text(a: Battery, b: Battery, plugged: bool, low: u32, c: Colors)
    requires
        a.charging == b.charging,
        a.full == b.full,
        a.charging || a.full || a.percent / 10 == b.percent / 10 || (a.percent >= 100 && b.percent
            >= 100),
    ensures
        exists|icon: Seq<char>|
            #![trigger icon + " "@]
            plain_battery(a, plugged, low, c).text == icon + " "@ + text::decimal(a.percent as nat)
                + "%"@ && plain_battery(b, plugged, low, c).text == icon + " "@ + text::decimal(
                b.percent as nat,
            ) + "%"@,
{
    let icon = battery_icon(a, plugged, low, c).0;
    assert(a.percent * 10 / 100 == a.percent / 10 && b.percent * 10 / 100 == b.percent / 10);
    assert(battery_icon(b, plugged, low, c).0 == icon);
    assert(Seq::<char>::empty() + icon =~= icon);
    assert(plain_battery(a, plugged, low, c).text == icon + " "@ + text::decimal(
        a.percent as nat,
    ) + "%"@);
}

/// A battery that fills says so whether or not it is plugged in or low; a full
/// one looks another way on the charger than off it, and off it as one of a
/// hundred percent does.
pub proof fn law_battery_icon(b: Battery, low: u32, more: u32, c: Colors)
    ensures
        b.charging ==> plain_battery(b, true, low, c) == plain_battery(b, false, more, c),
        b.full && !b.charging ==> plain_battery(b, true, low, c) == plain_battery(b, true, more, c)
            && plain_battery(b, false, low, c) == plain_battery(b, false, more, c),
        b.full && !b.charging ==> plain_battery(b, true, low, c).text != plain_battery(
            b,
            false,
            low,
            c,
        ).text,
        !b.full && !b.charging ==> plain_battery(b, true, low, c) == plain_battery(b, false, low, c),
        plain_battery(b, true, low, c).text == plain_battery(b, true, more, c).text,
        b.percent >= 100 && !b.charging ==> plain_battery(b, false, low, c).text
            == plain_battery(Battery { full: !b.full, ..b }, false, low, c).text,
{
    reveal_strlit("󰚥");
    reveal_strlit("󰁹");
    if b.full && !b.charging {
        let x = plain_battery(b, true, low, c).text;
        let y = plain_battery(b, false, low, c).text;
        assert(x[0] == "󰚥"@[0] && y[0] == "󰁹"@[0]);
    }
}

/// There is a battery on the bar exactly if there is one, and Wi-Fi exactly if
/// it can be had; the clock says what it is given.
pub proof fn law_modules_there(
    wifi: system::WifiView,
    bt: bluetooth::BtStateView,
    volume: Option<Volume>,
    power: Power,
    clock: Seq<char>,
    low: u32,
    c: Colors,
)
    ensures
        ({
            let ls = right_labels(wifi, bt, volume, power, clock, low, c);
            let w: int = if wifi is Unavailable {
                0
            } else {
                1
            };
            let b: int = if power.battery is None {
                0
            } else {
                1
            };
            &&& ls.len() == w + b + 3
            &&& w == 1 ==> ls[0].module == Module::Wifi
            &&& ls[w] == bluetooth_label(bt, c) && ls[w].module == Module::Bluetooth
            &&& ls[w + 1] == volume_label(volume, c) && ls[w + 1].module == Module::Volume
            &&& b == 1 ==> ls[w + 2] == battery_label(power, low, c)[0]
            &&& ls[w + b + 2] == (LabelView { module: Module::Clock, text: clock, color: c.fg })
        }),
{
}

/// The volume says its percentage unless it is muted, and then the same
/// whatever it is; two volumes of the same kind -- nothing, less than half, half
/// and more -- differ in the number alone. Only a volume that is there and not
/// muted stands out.
pub proof fn law_volume_label(v: Volume, w: Volume, c: Colors)
    ensures
        v.muted && w.muted ==> volume_label(Some(v), c) == volume_label(Some(w), c),
        !v.muted && !w.muted && ((v.percent == 0) == (w.percent == 0)) && ((v.percent < 50) == (
        w.percent < 50)) ==> exists|icon: Seq<char>|
            volume_label(Some(v), c).text == #[trigger] (icon + text::decimal_signed(
                v.percent as int,
            )) + "%"@ && volume_label(Some(w), c).text == icon + text::decimal_signed(
                w.percent as int,
            ) + "%"@,
        volume_label(Some(v), c).color == if v.muted {
            c.muted
        } else {
            c.fg
        },
        volume_label(None, c).color == c.muted,
        volume_label(None, c).module == Module::Volume,
        volume_label(Some(v), c).module == Module::Volume,
        volume_label(None, c).text != volume_label(Some(Volume { muted: true, ..v }), c).text,
{
    reveal_strlit("󰝟 —");
    reveal_strlit("󰝟 mute");
    assert("󰝟 —"@.len() != "󰝟 mute"@.len());
    if !v.muted && !w.muted && ((v.percent == 0) == (w.percent == 0)) && ((v.percent < 50) == (
    w.percent < 50)) {
        let icon = if v.percent == 0 {
            "󰕿 "@
        } else if v.percent < 50 {
            "󰖀 "@
        } else {
            "󰕾 "@
        };
        assert(volume_label(Some(v), c).text == (icon + text::decimal_signed(v.percent as int))
            + "%"@);
    }
}

/// The Wi-Fi is named in full behind its icon, and is muted while it is not
/// connected.
pub proof fn law_wifi_label(a: Seq<char>, b: Seq<char>, c: Colors)
    ensures
        exists|icon: Seq<char>|
            wifi_label(system::WifiView::Connected(a), c)[0].text == #[trigger] (icon + a)
                && wifi_label(system::WifiView::Connected(b), c)[0].text == icon + b,
        wifi_label(system::WifiView::Connected(a), c)[0].color == c.fg,
        wifi_label(system::WifiView::Disconnected, c)[0].color == c.muted,
        wifi_label(system::WifiView::Disconnected, c)[0].text.len() == 1,
{
    reveal_strlit("󰤭");
    assert(wifi_label(system::WifiView::Connected(a), c)[0].text == "󰤨 "@ + a);
}

/// A connected device and what is in flight are named in full, and stand out;
/// an adapter that is on does not, and one that is off or not there is muted.
pub proof fn law_bluetooth_label(a: Seq<char>, b: Seq<char>, c: Colors)
    ensures
        exists|icon: Seq<char>|
            bluetooth_label(bluetooth::BtStateView::Connected(a), c).text == #[trigger] (icon + a)
                && bluetooth_label(bluetooth::BtStateView::Connected(b), c).text == icon + b,
        exists|icon: Seq<char>|
            bluetooth_label(bluetooth::BtStateView::Busy(a), c).text == #[trigger] (icon + a)
                + "…"@ && bluetooth_label(bluetooth::BtStateView::Busy(b), c).text == icon + b
                + "…"@,
        bluetooth_label(bluetooth::BtStateView::Connected(a), c).color == c.accent,
        bluetooth_label(bluetooth::BtStateView::Busy(a), c).color == c.accent,
        bluetooth_label(bluetooth::BtStateView::Idle, c).color == c.fg,
        bluetooth_label(bluetooth::BtStateView::Off, c).color == c.muted,
        bluetooth_label(bluetooth::BtStateView::NoStack, c).color == c.muted,
        bluetooth_label(bluetooth::BtStateView::NoStack, c).text == bluetooth_label(
            bluetooth::BtStateView::Off,
            c,
        ).text + " —"@,
{
    reveal_strlit("󰂲 —");
    reveal_strlit("󰂲");
    reveal_strlit(" —");
    assert(bluetooth_label(bluetooth::BtStateView::Connected(a), c).text == "󰂱 "@ + a);
    assert(bluetooth_label(bluetooth::BtStateView::Busy(a), c).text == ("󰂯 "@ + a) + "…"@);
    assert("󰂲 —"@ =~= "󰂲"@ + " —"@);
}

/// What [`labels`] gives is what stands on the right.
pub proof fn law_labels(
    wifi: &Wifi,
    bt: &BtState,
    volume: Option<Volume>,
    power: &Power,
    clock: &str,
    low: u32,
    c: &Colors,
    ls: Vec<Label>,
)
    requires
        call_ensures(labels, (wifi, bt, volume, power, clock, low, c), ls),
    ensures
        power.battery is Some && power.eco ==> exists|i: int|
            0 <= i < ls@.len() && (#[trigger] ls@[i]).module == Module::Battery && text::begins(
                ls@[i].text@,
                "󰌪 "@,
            ),
        power.battery is None ==> forall|i: int|
            0 <= i < ls@.len() ==> (#[trigger] ls@[i]).module != Module::Battery,
        ls@.last().module == Module::Clock && ls@.last().text@ == clock@,
{
    let views = label_views(ls@);
    law_modules_there(wifi@, bt@, volume, *power, clock@, low, *c);
    law_right_side_order(wifi@, bt@, volume, *power, clock@, low, *c);
    assert(views[views.len() - 1] == ls@[ls@.len() - 1]@);
    let w: int = if wifi@ is Unavailable {
        0
    } else {
        1
    };
    if power.battery is Some && power.eco {
        law_leaf(*power, low, *c);
        assert(ls@[w + 2]@ == views[w + 2]);
        let plain = battery_label(Power { eco: false, ..*power }, low, *c)[0].text;
        assert(("󰌪 "@ + plain).take("󰌪 "@.len() as int) =~= "󰌪 "@);
    }
    if power.battery is None {
        assert forall|i: int| 0 <= i < ls@.len() implies (#[trigger] ls@[i]).module
            != Module::Battery by {
            assert(ls@[i]@ == views[i]);
        }
    }
}

// ---------------------------------------------------------------------------
// What holds of every click and every place
// ---------------------------------------------------------------------------
/// A left click does something on every module; a middle click on the volume
/// and on Bluetooth, a right click on Bluetooth alone; and no other button does
/// anything anywhere. No two modules do the same.
pub proof fn law_clicks(m: Module, other: Module, button: u32, b: u32)
    ensures
        click_action(m, button) is Some <==> button == BTN_LEFT || (button == BTN_MIDDLE && (m
            == Module::Volume || m == Module::Bluetooth)) || (button == BTN_RIGHT && m
            == Module::Bluetooth),
        m != other && click_action(m, button) is Some ==> click_action(m, button) != click_action(
            other,
            b,
        ),
        click_action(m, button) == Some(Action::ToggleMute) ==> m == Module::Volume,
        click_action(m, button) == Some(Action::TogglePanel) ==> m == Module::Clock,
        click_action(m, button) == Some(Action::OpenPower) ==> m == Module::Battery,
        click_action(m, button) == Some(Action::OpenSettings(Page::Network)) ==> m == Module::Wifi,
        click_action(m, button) == Some(Action::OpenSettings(Page::DateTime)) ==> m == Module::Date,
        click_action(m, button) == Some(Action::BluetoothPrimary) ==> m == Module::Bluetooth
            && button == BTN_LEFT,
        click_action(m, button) == Some(Action::BluetoothPower) ==> m == Module::Bluetooth && button
            != BTN_LEFT,
        click_action(m, button) != Some(Action::OpenSettings(Page::Bluetooth)),
        m == Module::Volume && click_action(m, button) is Some ==> click_action(m, button) == Some(
            Action::ToggleMute,
        ),
{
}

/// [`click`] is that: on the module and the button alone.
pub proof fn law_click(m: Module, button: u32, a: Option<Action>)
    requires
        call_ensures(click, (m, button), a),
    ensures
        a == click_action(m, button),
        button == BTN_LEFT ==> a is Some,
        button != BTN_LEFT && m != Module::Volume && m != Module::Bluetooth ==> a is None,
{
}

/// Each label stands where its width fits, right before the next with the gap
/// between them, the last at the edge; the date stands at the padding on the
/// left.
pub proof fn law_places(
    ls: Seq<LabelView>,
    ws: Seq<i128>,
    edge: int,
    gap: int,
    i: int,
    date: (Seq<char>, i128),
    muted: [u8; 4],
    pad: int,
)
    requires
        ls.len() == ws.len(),
        0 <= i < ls.len(),
    ensures
        ({
            let s = segment_at(ls, ws, edge, gap, i);
            &&& s.label == ls[i]
            &&& s.x1 - s.x0 == ws[i]
            &&& i + 1 < ls.len() ==> s.x1 + gap == segment_at(ls, ws, edge, gap, i + 1).x0
            &&& i + 1 == ls.len() ==> s.x1 == edge
            &&& on_the_right(ls, ws, edge, gap).len() == ls.len()
            &&& on_the_right(ls, ws, edge, gap)[ls.len() - 1 - i] == s
        }),
        on_the_left(None, muted, pad).len() == 0,
        on_the_left(Some(date), muted, pad).len() == 1,
        ({
            let d = on_the_left(Some(date), muted, pad)[0];
            &&& d.label == (LabelView { module: Module::Date, text: date.0, color: muted })
            &&& d.x0 == pad
            &&& d.x1 - d.x0 == date.1
        }),
{
}

/// The module under the pointer is the first that the pointer is on, or within
/// [`SLOP`] pixels of; there is none exactly if it is near none.
pub proof fn law_module_under(ss: Seq<SegmentView>, x: int)
    ensures
        match module_under(ss, x) {
            Some(m) => exists|i: int|
                0 <= i < ss.len() && (#[trigger] ss[i]).label.module == m && ss[i].x0 - SLOP * UNIT
                    <= x && x <= ss[i].x1 + SLOP * UNIT && forall|j: int|
                    0 <= j < i ==> x < (#[trigger] ss[j]).x0 - SLOP * UNIT || ss[j].x1 + SLOP * UNIT
                        < x,
            None => forall|i: int|
                0 <= i < ss.len() ==> x < (#[trigger] ss[i]).x0 - SLOP * UNIT || ss[i].x1 + SLOP
                    * UNIT < x,
        },
    decreases ss.len(),
{
    if ss.len() > 0 && !is_on(ss[0], x) {
        let rest = ss.drop_first();
        law_module_under(rest, x);
        assert forall|i: int| 1 <= i < ss.len() implies #[trigger] ss[i] == rest[i - 1] by {}
        if let Some(m) = module_under(rest, x) {
            let i = choose|i: int|
                0 <= i < rest.len() && (#[trigger] rest[i]).label.module == m && rest[i].x0 - SLOP
                    * UNIT <= x && x <= rest[i].x1 + SLOP * UNIT && forall|j: int|
                    0 <= j < i ==> x < (#[trigger] rest[j]).x0 - SLOP * UNIT || rest[j].x1 + SLOP
                        * UNIT < x;
            assert(ss[i + 1] == rest[i]);
            assert forall|j: int| 0 <= j < i + 1 implies x < (#[trigger] ss[j]).x0 - SLOP * UNIT
                || ss[j].x1 + SLOP * UNIT < x by {
                if j > 0 {
                    assert(ss[j] == rest[j - 1]);
                }
            }
        } else {
            assert forall|i: int| 0 <= i < ss.len() implies x < (#[trigger] ss[i]).x0 - SLOP * UNIT
                || ss[i].x1 + SLOP * UNIT < x by {
                if i > 0 {
                    assert(ss[i] == rest[i - 1]);
                }
            }
        }
    } else if ss.len() > 0 {
        assert(is_on(ss[0], x) && ss[0].label.module == ss[0].label.module);
    }
}

/// A scroll counts the way it goes: what is left over, short of a notch, never
/// points the other way than the whole, and neither do the notches. Scrolled
/// back by as much, all of it is where it was.
pub proof fn law_scroll_keeps_its_way(acc: int, value120: i32, discrete: i32, absolute: i32)
    requires
        -NOTCH < acc < NOTCH,
    ensures
        ({
            let (n, rest) = notches(acc, value120, discrete, absolute);
            let sum = if value120 != 0 {
                acc + value120 * 256
            } else {
                acc + absolute
            };
            let size = if value120 != 0 {
                NOTCH
            } else {
                SMOOTH_NOTCH
            };
            &&& value120 != 0 || discrete == 0 ==> {
                &&& sum >= 0 ==> n >= 0 && rest >= 0
                &&& sum <= 0 ==> n <= 0 && rest <= 0
                &&& -size < rest < size
                &&& sum == n * size + rest
            }
            &&& value120 == 0 && discrete != 0 ==> n == discrete && rest == acc
        }),
        value120 == 120 && acc == 0 ==> notches(acc, value120, discrete, absolute) == (1int, 0int),
{
}

/// Scrolling up makes it louder and down quieter, by the step for each notch.
pub proof fn law_scroll_change(n: i64, step: i64, d: i64)
    requires
        call_ensures(scroll_change, (n, step), d),
        step >= 0,
    ensures
        n <= 0 ==> d >= 0,
        n >= 0 ==> d <= 0,
        n == 1 ==> d == -step,
        n == -1 ==> d == step,
        d + n * step == 0,
{
    assert(d == -n * step);
    assert(-n * step + n * step == 0) by (nonlinear_arith);
    assert(n == -1 ==> -n * step == step) by (nonlinear_arith);
    assert(n == 1 ==> -n * step == -step) by (nonlinear_arith);
    assert(n <= 0 ==> -n * step >= 0) by (nonlinear_arith)
        requires
            step >= 0,
    ;
    assert(n >= 0 ==> -n * step <= 0) by (nonlinear_arith)
        requires
            step >= 0,
    ;
}

// ---------------------------------------------------------------------------
// What holds of every event
// ---------------------------------------------------------------------------
/// Whatever the bar knew, it then shows the time, the date and the volume that
/// it was given; the panel is drawn again exactly if its time or date changed,
/// and nothing else of either changes.
pub proof fn law_takes_in_the_time(b: Bar, t: Times, volume: Option<Volume>)
    ensures
        ({
            let after = after_fast(b, t, volume);
            &&& after.clock@ == t.clock@
            &&& after.date@ == t.date@
            &&& after.long_date@ == t.long_date@
            &&& after.volume == volume
            &&& after.dirty <==> b.dirty || after.clock@ != b.clock@ || after.date@ != b.date@
                || after.volume != b.volume
            &&& after.panel is Some <==> b.panel is Some
            &&& (b.panel matches Some(p) ==> after.panel == Some(
                Panel {
                    dirty: p.dirty || t.clock@ != b.clock@ || t.long_date@ != b.long_date@,
                    ..p
                },
            ))
            &&& after.power == b.power && after.wifi == b.wifi && after.bt_state == b.bt_state
            &&& after.segments == b.segments && after.hover == b.hover && after.poll_soon
                == b.poll_soon && after.width == b.width && after.notes == b.notes
        }),
{
}

/// Whatever the bar knew, it then shows the battery, the Wi-Fi and the
/// Bluetooth that it was given, and need not look again soon.
pub proof fn law_takes_in_the_rest(b: Bar, power: Power, wifi: Wifi, bt: BtState)
    ensures
        ({
            let after = after_slow(b, power, wifi, bt);
            &&& after.power == power
            &&& after.wifi@ == wifi@
            &&& after.bt_state@ == bt@
            &&& !after.poll_soon
            &&& after.clock == b.clock && after.date == b.date && after.volume == b.volume
                && after.panel == b.panel && after.segments == b.segments && after.hover == b.hover
        }),
{
}

/// The pointer highlights what it is on, and nothing once it left; the bar is
/// drawn again exactly if that is something else than before.
pub proof fn law_hover(b: Bar, ev: Pointer)
    requires
        !b.dirty,
        ev is At || ev is Leave,
    ensures
        ({
            let after = after_pointer(b, ev);
            &&& after.hover == match ev {
                Pointer::At { x, y } => module_under(segment_views(b.segments@), x as int),
                _ => None,
            }
            &&& (ev matches Pointer::At { x, y } ==> after.pointer_x == x)
            &&& after.dirty <==> after.hover != b.hover
            &&& response_to(b, ev) == if after.hover != b.hover {
                Response::Draw
            } else {
                Response::Nothing
            }
            &&& after.volume == b.volume && after.scroll_acc == b.scroll_acc && after.poll_soon
                == b.poll_soon
        }),
{
}

/// A press is of the module under the pointer: it asks for what a click there
/// does, and has the bar look again soon; where there is none it does nothing.
pub proof fn law_press(b: Bar, button: u32)
    ensures
        ({
            let ev = Pointer::Press { button };
            let after = after_pointer(b, ev);
            match module_under(segment_views(b.segments@), b.pointer_x as int) {
                Some(m) => {
                    &&& response_to(b, ev) == Response::Clicked(click_action(m, button))
                    &&& after.poll_soon && after.dirty
                    &&& m == Module::Clock ==> after.panel == b.panel
                    &&& m != Module::Clock ==> after.panel is None
                    &&& after.hover == b.hover && after.volume == b.volume
                },
                None => response_to(b, ev) == Response::Nothing && after == b,
            }
        }),
{
}

/// The wheel changes the volume over the volume and nowhere else, by whole
/// notches; over nothing it is not even counted.
pub proof fn law_wheel(b: Bar, value120: i32, discrete: i32, absolute: i32)
    requires
        b.wf(),
    ensures
        ({
            let ev = Pointer::Axis { value120, discrete, absolute };
            let after = after_pointer(b, ev);
            let under = module_under(segment_views(b.segments@), b.pointer_x as int);
            let n = notches(b.scroll_acc as int, value120, discrete, absolute).0;
            &&& response_to(b, ev) is Scrolled <==> under == Some(Module::Volume) && n != 0
            &&& (response_to(b, ev) matches Response::Scrolled(k) ==> k == n)
            &&& !(response_to(b, ev) is Scrolled) ==> response_to(b, ev) == Response::Nothing
            &&& under is None ==> after == b
            &&& after.dirty <==> b.dirty || response_to(b, ev) is Scrolled
            &&& after.volume == b.volume && after.panel == b.panel && after.hover == b.hover
        }),
{
    law_scroll_keeps_its_way(b.scroll_acc as int, value120, discrete, absolute);
}

/// The bar is drawn where it is on the screen and something changed, and then
/// counts as drawn; otherwise nothing of it changes.
pub proof fn law_draw(b: &mut Bar, r: bool)
    requires
        call_ensures(Bar::draw, (b,), r),
    ensures
        r <==> old(b).configured && old(b).dirty && old(b).width != 0,
        r ==> !final(b).dirty,
        !r ==> *final(b) == *old(b),
        final(b).clock == old(b).clock && final(b).segments == old(b).segments,
{
}

/// The slow things are looked at again when that was asked for, and otherwise
/// once so many seconds have gone by, and from then on.
pub proof fn law_slow_poll(b: &Bar, a: u64, c: u64, ra: bool, rc: bool)
    requires
        call_ensures(Bar::slow_poll_due, (b, a), ra),
        call_ensures(Bar::slow_poll_due, (b, c), rc),
        a <= c,
    ensures
        ra ==> rc,
        b.poll_soon ==> ra,
        !b.poll_soon ==> (ra <==> a >= SLOW_POLL),
{
}

/// To toggle the panel opens one that is closed, unscrolled and at the height
/// that what it lists needs, and closes one that is open.
pub proof fn law_toggle_panel(b: &mut Bar, m: &PanelMetrics, r: Option<u32>)
    requires
        call_ensures(Bar::toggle_panel, (b, m), r),
        old(b).wf(),
    ensures
        r is Some <==> old(b).panel is None,
        final(b).panel is Some <==> old(b).panel is None,
        final(b).panel matches Some(p) ==> p.scroll == 0 && p.dirty && !p.configured && Some(
            p.requested,
        ) == r && p.scale == old(b).scale && p.pointer is None,
        r matches Some(h) ==> h <= m.total(old(b).notes@.len()) && (h == m.total(
            old(b).notes@.len(),
        ) || h == u32::MAX),
        final(b).notes == old(b).notes && final(b).dirty == old(b).dirty,
{
}

/// A new list is news exactly if it differs from the one before; then it is
/// the list, an open panel is drawn again, and a scroll beyond its end is
/// pulled back.
pub proof fn law_notes(b: &mut Bar, notes: Vec<Entry>, m: &PanelMetrics, news: bool)
    requires
        call_ensures(Bar::notes_changed, (b, notes, m), news),
        old(b).wf(),
    ensures
        news <==> notifications::entry_views(notes@) != notifications::entry_views(old(b).notes@),
        notifications::entry_views(final(b).notes@) == notifications::entry_views(notes@),
        final(b).panel is Some <==> old(b).panel is Some,
        news ==> (final(b).panel matches Some(p) ==> p.dirty && p.scroll <= m.reach(notes@.len())
            * UNIT && p.scroll <= old(b).panel.unwrap().scroll),
        !news ==> *final(b) == *old(b),
{
}

/// The panel closes with its surface or the one behind it; the bar is done when
/// anything else of it closes.
pub proof fn law_closed(b: &mut Bar, surface: Surface)
    requires
        call_ensures(Bar::closed, (b, surface), ()),
    ensures
        final(b).exit <==> old(b).exit || old(b).panel is None || !(surface == Surface::Panel
            || surface == Surface::Catcher),
        surface == Surface::Panel || surface == Surface::Catcher ==> final(b).panel is None,
        surface == Surface::Bar || surface == Surface::Other ==> final(b).panel == old(b).panel,
{
}

/// A press outside the panel closes it and goes no further; any other event
/// there does nothing.
pub proof fn law_outside_the_panel(b: &mut Bar, ev: Pointer, m: &PanelMetrics, r: Response)
    requires
        call_ensures(Bar::pointer_frame, (b, Surface::Catcher, ev, m), r),
        old(b).wf(),
    ensures
        r == Response::Nothing,
        ev is Press ==> final(b).panel is None,
        !(ev is Press) ==> *final(b) == *old(b),
        final(b).volume == old(b).volume && final(b).notes == old(b).notes && final(b).dirty
            == old(b).dirty,
{
}

/// A new scale is taken on by the surface it is of, which is then drawn again;
/// the scale that it has already changes nothing.
pub proof fn law_scale(b: &mut Bar, surface: Surface, factor: i32, r: Redraw)
    requires
        call_ensures(Bar::scale_factor_changed, (b, surface, factor), r),
        old(b).wf(),
    ensures
        surface == Surface::Bar ==> final(b).scale == factor && (r == Redraw::Bar <==> old(b).scale
            != factor) && final(b).panel == old(b).panel,
        surface == Surface::Panel ==> (old(b).panel matches Some(p)
            ==> final(b).panel.unwrap().scale == factor && (r == Redraw::Panel <==> p.scale
            != factor) && final(b).scale == old(b).scale),
        r == Redraw::Nothing ==> *final(b) == *old(b),
        r == Redraw::Bar ==> final(b).dirty,
{
}

/// The compositor's size is taken on by the surface it is of, a zero leaving it
/// to the bar: its own height stays.
pub proof fn law_configure(b: &mut Bar, surface: Surface, w: u32, h: u32, r: Redraw)
    requires
        call_ensures(Bar::configure, (b, surface, w, h), r),
        old(b).wf(),
    ensures
        surface == Surface::Bar ==> {
            &&& r == Redraw::Bar && final(b).configured && final(b).dirty
            &&& w != 0 ==> final(b).width == w
            &&& w == 0 ==> final(b).width == 1920
            &&& h != 0 ==> final(b).height == h
            &&& h == 0 ==> final(b).height == old(b).height
            &&& final(b).panel == old(b).panel
        },
        surface == Surface::Catcher && old(b).panel is Some ==> {
            &&& *final(b) == *old(b)
            &&& r matches Redraw::Catcher(cw, ch) && cw > 0 && ch > 0 && (w > 0 ==> cw == w) && (h
                > 0 ==> ch == h)
        },
        surface == Surface::Panel && old(b).panel is Some ==> r == Redraw::Panel && final(b).width
            == old(b).width && final(b).height == old(b).height,
{
}

/// A module is drawn in its own colour, but for a muted one under the pointer,
/// which brightens.
pub proof fn law_drawn_color(color: [u8; 4], c: &Colors, on: [u8; 4], off: [u8; 4])
    requires
        call_ensures(drawn_color, (color, true, c), on),
        call_ensures(drawn_color, (color, false, c), off),
    ensures
        off == color,
        color@ != c.muted@ ==> on == color,
        color@ == c.muted@ ==> on == c.fg,
{
}

/// The hairline is on the row next to the desktop: the last of a bar at the top
/// and the first of one at the bottom.
pub proof fn law_hairline(height: u32, top: i32, bottom: i32)
    requires
        call_ensures(hairline_y, (Edge::Top, height), top),
        call_ensures(hairline_y, (Edge::Bottom, height), bottom),
    ensures
        top + 1 == height,
        bottom == 0,
{
}

/// No two pages of the settings go by one name.
pub proof fn law_page_names(a: Page, b: Page, s: &'static str, t: &'static str)
    requires
        call_ensures(Page::name, (&a,), s),
        call_ensures(Page::name, (&b,), t),
        s@ == t@,
    ensures
        a == b,
{
    reveal_strlit("network");
    reveal_strlit("bluetooth");
    reveal_strlit("datetime");
    assert("network"@.len() == 7 && "bluetooth"@.len() == 9 && "datetime"@.len() == 8);
}

/// Every module answers some click, and a new bar shows nothing, waits for its
/// first poll, and is to be drawn.
pub proof fn law_fresh(m: Module, clickable: bool, height: u32, b: Bar)
    requires
        call_ensures(Module::clickable, (&m,), clickable),
        call_ensures(Bar::new, (height,), b),
    ensures
        clickable,
        b.height == height && b.dirty && b.poll_soon && !b.exit && !b.configured && b.scale == 1,
        b.panel is None && b.hover is None && b.segments@.len() == 0 && b.notes@.len() == 0,
        b.volume is None && b.power.battery is None && b.wifi is Unavailable && b.bt_state is NoStack,
{
}

/// An event on the bar is the bar's, as it is without a panel; one on the panel
/// leaves the bar as it was but for the panel and what it lists; and one
/// anywhere else does nothing.
pub proof fn law_pointer_frame(
    b: &mut Bar,
    c: &mut Bar,
    surface: Surface,
    ev: Pointer,
    m: &PanelMetrics,
    r: Response,
    q: Response,
)
    requires
        call_ensures(Bar::pointer_frame, (b, surface, ev, m), r),
        call_ensures(Bar::bar_pointer, (c, ev), q),
        *old(b) == *old(c),
        old(b).wf(),
    ensures
        surface == Surface::Bar ==> r == q && *final(b) == *final(c),
        surface == Surface::Other ==> r == Response::Nothing && *final(b) == *old(b),
        surface == Surface::Panel && old(b).panel is None ==> r == Response::Nothing && *final(b)
            == *old(b),
        surface == Surface::Panel ==> final(b).segments == old(b).segments && final(b).hover
            == old(b).hover && final(b).volume == old(b).volume
            && final(b).scroll_acc == old(b).scroll_acc
            && final(b).dirty == old(b).dirty && (final(b).panel is Some <==> old(b).panel is Some),
        surface == Surface::Panel ==> (old(b).panel matches Some(p) ==> (r matches
            Response::DrawPanel(hit) && (hit is Some ==> ev == (Pointer::Press { button: BTN_LEFT })))),
{
}

/// A panel that is closed is not put on the screen; one that is open is asked
/// for again exactly if what it lists needs another height, which is then that,
/// and otherwise painted exactly if it is there and something changed.
pub proof fn law_panel_frames(b: &mut Bar, m: &PanelMetrics, f: panel::Frame)
    requires
        call_ensures(Bar::draw_panel, (b, m), f),
        old(b).wf(),
        m.total(old(b).notes@.len()) <= u32::MAX,
    ensures
        old(b).panel is None ==> f == panel::Frame::Nothing && *final(b) == *old(b),
        final(b).notes == old(b).notes && final(b).dirty == old(b).dirty,
        final(b).segments == old(b).segments,
        old(b).panel matches Some(p) ==> {
            let want = m.total(old(b).notes@.len());
            &&& f is Resize <==> p.requested != want
            &&& (f matches panel::Frame::Resize(h) ==> h == want)
            &&& f is Paint <==> p.requested == want && p.configured && p.dirty && p.width != 0
            &&& (final(b).panel matches Some(q) && q.requested == want && q.scroll == p.scroll && (
            q.dirty <==> p.dirty && !(f is Paint)))
        },
{
}

} // verus!
