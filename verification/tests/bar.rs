use roostbar::audio::Volume;
use roostbar::bar;
use roostbar::bar::{
    Action, Bar, Label, Module, Page, Power, Redraw, Response, Surface, BTN_MIDDLE, BTN_RIGHT,
};
use roostbar::bluetooth::BtState;
use roostbar::clock::Times;
use roostbar::config::{Colors, Edge};
use roostbar::notifications::Entry;
use roostbar::painting;
use roostbar::painting::{Align, Item, Size};
use roostbar::panel;
use roostbar::panel::{Frame, PanelHit, PanelMetrics, Pointer, Rect, BTN_LEFT, UNIT};
use roostbar::system::{Battery, Wifi};

fn colors() -> Colors {
    Colors {
        bg: [255, 0, 0, 0],
        fg: [255, 1, 1, 1],
        accent: [255, 2, 2, 2],
        muted: [255, 3, 3, 3],
        warning: [255, 4, 4, 4],
        charging: [255, 5, 5, 5],
    }
}

fn no_battery() -> Power {
    Power { battery: None, plugged: false, eco: false }
}

fn said(wifi: Wifi, bt: BtState, volume: Option<Volume>, power: Power) -> Vec<(Module, String, u8)> {
    bar::labels(&wifi, &bt, volume, &power, "14:32", 20, &colors())
        .into_iter()
        .map(|l| (l.module, l.text, l.color[1]))
        .collect()
}

fn one(ls: Vec<(Module, String, u8)>, m: Module) -> (String, u8) {
    let found: Vec<_> = ls.into_iter().filter(|l| l.0 == m).collect();
    assert_eq!(found.len(), 1);
    (found[0].1.clone(), found[0].2)
}

#[test]
fn stands_in_order() {
    let full = Power { battery: Some(Battery { percent: 99, charging: false, full: false }), ..no_battery() };
    let ls = said(
        Wifi::Connected("Hutchinson6".to_string()),
        BtState::Connected("WH-1000XM4".to_string()),
        Some(Volume { percent: 45, muted: false }),
        full,
    );
    let texts: Vec<&str> = ls.iter().map(|l| l.1.as_str()).collect();
    assert_eq!(
        texts,
        vec![
            "\u{F0928} Hutchinson6",
            "\u{F00B1} WH-1000XM4",
            "\u{F0580} 45%",
            "\u{F0082} 99%",
            "14:32"
        ]
    );
    let ls = said(Wifi::Unavailable, BtState::NoStack, None, no_battery());
    let modules: Vec<Module> = ls.iter().map(|l| l.0).collect();
    assert_eq!(modules, vec![Module::Bluetooth, Module::Volume, Module::Clock]);
}

#[test]
fn says_the_wifi_and_the_bluetooth() {
    let wifi = |w| one(said(w, BtState::Idle, None, no_battery()), Module::Wifi);
    assert_eq!(wifi(Wifi::Disconnected), ("\u{F092D}".to_string(), 3));
    assert_eq!(wifi(Wifi::Connected("x".to_string())).1, 1);
    let bt = |b| one(said(Wifi::Disconnected, b, None, no_battery()), Module::Bluetooth);
    assert_eq!(bt(BtState::Idle), ("\u{F00AF}".to_string(), 1));
    assert_eq!(bt(BtState::Off), ("\u{F00B2}".to_string(), 3));
    assert_eq!(bt(BtState::NoStack), ("\u{F00B2} —".to_string(), 3));
    assert_eq!(bt(BtState::Connected("p".to_string())).1, 2);
    assert_eq!(
        bt(BtState::Busy("pairing x".to_string())),
        ("\u{F00AF} pairing x…".to_string(), 2)
    );
}

#[test]
fn says_the_volume() {
    let volume = |v| one(said(Wifi::Disconnected, BtState::Idle, v, no_battery()), Module::Volume);
    let at = |percent| Some(Volume { percent, muted: false });
    assert_eq!(volume(None), ("\u{F075F} —".to_string(), 3));
    assert_eq!(volume(Some(Volume { percent: 50, muted: true })), ("\u{F075F} mute".to_string(), 3));
    assert_eq!(volume(at(0)), ("\u{F057F} 0%".to_string(), 1));
    assert_eq!(volume(at(49)), ("\u{F0580} 49%".to_string(), 1));
    assert_eq!(volume(at(50)), ("\u{F057E} 50%".to_string(), 1));
    assert_eq!(volume(at(100)), ("\u{F057E} 100%".to_string(), 1));
}

#[test]
fn says_the_battery() {
    let battery = |percent, charging, full, plugged, eco| {
        let power = Power { battery: Some(Battery { percent, charging, full }), plugged, eco };
        one(said(Wifi::Disconnected, BtState::Idle, None, power), Module::Battery)
    };
    assert_eq!(battery(57, true, false, true, false), ("\u{F0084} 57%".to_string(), 5));
    assert_eq!(battery(100, false, true, true, false), ("\u{F06A5} 100%".to_string(), 5));
    assert_eq!(battery(100, false, true, false, false), ("\u{F0079} 100%".to_string(), 1));
    assert_eq!(battery(20, false, false, false, false), ("\u{F007B} 20%".to_string(), 4));
    assert_eq!(battery(21, false, false, false, false), ("\u{F007B} 21%".to_string(), 1));
    assert_eq!(battery(5, false, false, false, true), ("\u{F032A} \u{F008E} 5%".to_string(), 4));
    let icons = ["8E", "7A", "7B", "7C", "7D", "7E", "7F", "80", "81", "82", "79"];
    for (i, code) in icons.iter().enumerate() {
        let icon = char::from_u32(0xF0000 + u32::from_str_radix(code, 16).unwrap()).unwrap();
        let percent = 10 * i as u32;
        assert_eq!(battery(percent, false, false, false, false).0, format!("{icon} {percent}%"));
    }
    assert_eq!(battery(140, false, false, false, false).0, "\u{F0079} 140%");
}

fn label(module: Module, text: &str) -> Label {
    Label { module, text: text.to_string(), color: colors().fg }
}

/// Bluetooth, volume and clock, 20, 40 and 30 pixels wide, on a bar of 400.
fn placed(date: bool) -> Bar {
    let ls = vec![label(Module::Bluetooth, "b"), label(Module::Volume, "v"), label(Module::Clock, "c")];
    let ws = vec![20 * UNIT, 40 * UNIT, 30 * UNIT];
    let date = if date { Some(("d".to_string(), 60 * UNIT)) } else { None };
    let mut b = Bar::new(26);
    b.segments = bar::build_segments(&ls, &ws, date, colors().muted, 400, 12, 18);
    b
}

#[test]
fn puts_the_modules_side_by_side() {
    let b = placed(true);
    let places: Vec<(Module, i128, i128)> =
        b.segments.iter().map(|s| (s.module, s.x0 / UNIT, s.x1 / UNIT)).collect();
    assert_eq!(
        places,
        vec![
            (Module::Clock, 358, 388),
            (Module::Volume, 300, 340),
            (Module::Bluetooth, 262, 282),
            (Module::Date, 12, 72),
        ]
    );
    assert_eq!(b.segments[3].color, colors().muted);
    assert_eq!(placed(false).segments.len(), 3);
}

#[test]
fn finds_the_module_under_the_pointer() {
    let b = placed(true);
    let on = |x: i128| bar::module_at(&b.segments, x * UNIT);
    assert_eq!(on(370), Some(Module::Clock));
    assert_eq!(on(300), Some(Module::Volume));
    assert_eq!(on(346), Some(Module::Volume));
    assert_eq!(on(347), None);
    assert_eq!(on(352), Some(Module::Clock));
    assert_eq!(on(6), Some(Module::Date));
    assert_eq!(on(5), None);
    assert_eq!(on(150), None);
}

fn metrics() -> PanelMetrics {
    PanelMetrics { clock: 44, line: 21, small: 18, header: 30 }
}

fn at(x: i128) -> Pointer {
    Pointer::At { x: x * UNIT, y: 5 * UNIT }
}

fn press(button: u32) -> Pointer {
    Pointer::Press { button }
}

#[test]
fn clicks_do_what_the_table_says() {
    let left = |m| bar::click(m, BTN_LEFT);
    assert_eq!(left(Module::Volume), Some(Action::ToggleMute));
    assert_eq!(bar::click(Module::Volume, BTN_MIDDLE), Some(Action::ToggleMute));
    assert_eq!(bar::click(Module::Volume, BTN_RIGHT), None);
    assert_eq!(left(Module::Bluetooth), Some(Action::BluetoothPrimary));
    assert_eq!(bar::click(Module::Bluetooth, BTN_MIDDLE), Some(Action::BluetoothPower));
    assert_eq!(bar::click(Module::Bluetooth, BTN_RIGHT), Some(Action::BluetoothPower));
    assert_eq!(left(Module::Wifi), Some(Action::OpenSettings(Page::Network)));
    assert_eq!(left(Module::Date), Some(Action::OpenSettings(Page::DateTime)));
    assert_eq!(left(Module::Clock), Some(Action::TogglePanel));
    assert_eq!(left(Module::Battery), Some(Action::OpenPower));
    for m in [Module::Wifi, Module::Date, Module::Clock, Module::Battery] {
        assert!(m.clickable());
        assert_eq!(bar::click(m, BTN_RIGHT), None);
        assert_eq!(bar::click(m, 0x113), None);
    }
    assert_eq!(Page::Network.name(), "network");
    assert_eq!(Page::Bluetooth.name(), "bluetooth");
    assert_eq!(Page::DateTime.name(), "datetime");
}

#[test]
fn the_pointer_highlights_and_clicks() {
    let mut b = placed(true);
    b.dirty = false;
    b.poll_soon = false;
    assert_eq!(b.pointer_frame(Surface::Bar, at(310), &metrics()), Response::Draw);
    assert_eq!(b.hover, Some(Module::Volume));
    assert!(b.dirty);
    b.dirty = false;
    assert_eq!(b.pointer_frame(Surface::Bar, at(311), &metrics()), Response::Nothing);
    assert!(!b.dirty);
    assert_eq!(
        b.pointer_frame(Surface::Bar, press(BTN_LEFT), &metrics()),
        Response::Clicked(Some(Action::ToggleMute))
    );
    assert!(b.dirty && b.poll_soon);
    assert_eq!(
        b.pointer_frame(Surface::Bar, press(0x113), &metrics()),
        Response::Clicked(None)
    );
    assert_eq!(b.pointer_frame(Surface::Bar, Pointer::Release, &metrics()), Response::Nothing);
    assert_eq!(b.pointer_frame(Surface::Bar, Pointer::Leave, &metrics()), Response::Draw);
    assert_eq!(b.hover, None);
    assert_eq!(b.pointer_frame(Surface::Bar, Pointer::Leave, &metrics()), Response::Nothing);
    b.pointer_frame(Surface::Bar, at(150), &metrics());
    assert_eq!(b.pointer_frame(Surface::Bar, press(BTN_LEFT), &metrics()), Response::Nothing);
    assert_eq!(b.pointer_frame(Surface::Other, at(310), &metrics()), Response::Nothing);
    assert_eq!(b.hover, None);
}

fn axis(value120: i32, discrete: i32, absolute: i32) -> Pointer {
    Pointer::Axis { value120, discrete, absolute }
}

#[test]
fn scrolling_adds_up_to_notches() {
    let mut b = placed(false);
    b.pointer_frame(Surface::Bar, at(310), &metrics());
    let mut scroll = |ev| b.pointer_frame(Surface::Bar, ev, &metrics());
    assert_eq!(scroll(axis(120, 0, 0)), Response::Scrolled(1));
    assert_eq!(scroll(axis(-240, 0, 0)), Response::Scrolled(-2));
    assert_eq!(scroll(axis(50, 0, 0)), Response::Nothing);
    assert_eq!(scroll(axis(50, 0, 0)), Response::Nothing);
    assert_eq!(scroll(axis(50, 0, 0)), Response::Scrolled(1));
    assert_eq!(scroll(axis(-30, 0, 0)), Response::Nothing);
    assert_eq!(scroll(axis(0, 3, 99)), Response::Scrolled(3));
    assert_eq!(scroll(axis(0, 0, 14 * 256)), Response::Nothing);
    assert_eq!(scroll(axis(0, 0, 256)), Response::Scrolled(1));
    assert_eq!(scroll(axis(0, 0, -40 * 256)), Response::Scrolled(-2));
    assert_eq!(b.scroll_acc, -10 * 256);
    // Elsewhere on the bar it adds up too, but changes nothing.
    b.pointer_frame(Surface::Bar, at(370), &metrics());
    b.dirty = false;
    assert_eq!(b.pointer_frame(Surface::Bar, axis(0, 1, 0), &metrics()), Response::Nothing);
    assert!(!b.dirty);
    assert_eq!(bar::scroll_change(1, 5), -5);
    assert_eq!(bar::scroll_change(-2, 5), 10);
}

fn times(clock: &str, date: &str, long_date: &str) -> Times {
    Times { clock: clock.to_string(), date: date.to_string(), long_date: long_date.to_string() }
}

#[test]
fn is_drawn_only_when_something_changed() {
    let mut b = Bar::new(26);
    assert!(!b.draw());
    assert_eq!(b.configure(Surface::Bar, 0, 0), Redraw::Bar);
    assert_eq!((b.width, b.height), (1920, 26));
    assert!(b.draw());
    assert!(!b.draw());
    let v = Some(Volume { percent: 45, muted: false });
    b.refresh_fast(times("14:32", "Thu 28 Aug", "Thursday 28 August"), v);
    assert!(b.draw());
    b.refresh_fast(times("14:32", "Thu 28 Aug", "Thursday 28 August"), v);
    assert!(!b.draw());
    b.refresh_fast(times("14:32", "Thu 28 Aug", "Thursday 28 August"), None);
    assert!(b.draw());
    // The date in words is not on the bar.
    b.refresh_fast(times("14:32", "Thu 28 Aug", "Friday"), None);
    assert!(!b.draw());
    assert_eq!(b.long_date, "Friday");
    b.refresh_slow(no_battery(), Wifi::Unavailable, BtState::NoStack);
    assert!(!b.draw());
    b.refresh_slow(no_battery(), Wifi::Connected("a".to_string()), BtState::NoStack);
    assert!(b.draw());
    b.refresh_slow(no_battery(), Wifi::Connected("a".to_string()), BtState::NoStack);
    assert!(!b.draw());
    b.refresh_slow(no_battery(), Wifi::Connected("b".to_string()), BtState::Idle);
    assert!(b.draw());
    b.refresh_slow(Power { eco: true, ..no_battery() }, Wifi::Connected("b".to_string()), BtState::Idle);
    assert!(b.draw());
}

#[test]
fn polls_slowly() {
    let mut b = Bar::new(26);
    assert!(b.slow_poll_due(0));
    b.refresh_slow(no_battery(), Wifi::Unavailable, BtState::NoStack);
    assert!(!b.slow_poll_due(3));
    assert!(b.slow_poll_due(4));
}

fn note(id: u32) -> Entry {
    Entry {
        id,
        app_name: String::new(),
        summary: "s".to_string(),
        body: "b".to_string(),
        arrived: 0,
        open: true,
    }
}

#[test]
fn the_clock_opens_and_closes_the_panel() {
    let mut b = placed(false);
    assert!(b.notes_changed(vec![note(1), note(2)], &metrics()));
    assert!(!b.notes_changed(vec![note(1), note(2)], &metrics()));
    assert_eq!(b.toggle_panel(&metrics()), Some(metrics().height(2)));
    assert!(b.panel.is_some());
    b.pointer_frame(Surface::Bar, at(370), &metrics());
    b.pointer_frame(Surface::Bar, press(BTN_LEFT), &metrics());
    assert!(b.panel.is_some());
    assert_eq!(b.toggle_panel(&metrics()), None);
    assert!(b.panel.is_none());
    // A click elsewhere on the bar, or outside it, closes the panel.
    b.toggle_panel(&metrics());
    b.pointer_frame(Surface::Bar, at(310), &metrics());
    assert!(b.panel.is_some());
    b.pointer_frame(Surface::Bar, press(BTN_RIGHT), &metrics());
    assert!(b.panel.is_none());
    b.toggle_panel(&metrics());
    b.pointer_frame(Surface::Catcher, at(1), &metrics());
    assert!(b.panel.is_some());
    b.pointer_frame(Surface::Catcher, press(BTN_LEFT), &metrics());
    assert!(b.panel.is_none());
}

#[test]
fn the_panel_takes_its_own_events() {
    let mut b = Bar::new(26);
    assert_eq!(b.pointer_frame(Surface::Panel, at(1), &metrics()), Response::Nothing);
    b.notes_changed(vec![note(1), note(2)], &metrics());
    b.toggle_panel(&metrics());
    assert_eq!(b.configure(Surface::Panel, 0, 0), Redraw::Panel);
    assert_eq!(b.draw_panel(&metrics()), Frame::Paint);
    assert_eq!(b.draw_panel(&metrics()), Frame::Nothing);
    let l = panel::layout(&metrics(), 360, 2, 0, 50 * UNIT);
    b.panel.as_mut().unwrap().painted(&l, &b.notes);
    let over = Pointer::At { x: 320 * UNIT, y: 140 * UNIT };
    assert_eq!(b.pointer_frame(Surface::Panel, over, &metrics()), Response::DrawPanel(None));
    assert_eq!(
        b.pointer_frame(Surface::Panel, press(BTN_LEFT), &metrics()),
        Response::DrawPanel(Some(PanelHit::Remove(1)))
    );
    assert_eq!(b.notes, vec![note(2)]);
    assert_eq!(b.draw_panel(&metrics()), Frame::Resize(metrics().height(1)));
    // A new clock is the panel's too.
    b.panel.as_mut().unwrap().dirty = false;
    b.refresh_fast(times("14:33", "", ""), None);
    assert!(b.panel.as_ref().unwrap().dirty);
}

#[test]
fn surfaces_change_and_close() {
    let mut b = Bar::new(26);
    assert_eq!(b.scale_factor_changed(Surface::Bar, 2), Redraw::Bar);
    assert_eq!(b.scale_factor_changed(Surface::Bar, 2), Redraw::Nothing);
    b.toggle_panel(&metrics());
    assert_eq!(b.panel.as_ref().unwrap().scale, 2);
    assert_eq!(b.scale_factor_changed(Surface::Catcher, 3), Redraw::Nothing);
    assert_eq!(b.scale_factor_changed(Surface::Panel, 3), Redraw::Panel);
    assert_eq!(b.scale, 2);
    assert_eq!(b.configure(Surface::Catcher, 0, 700), Redraw::Catcher(1, 700));
    assert_eq!(b.configure(Surface::Bar, 1280, 30), Redraw::Bar);
    assert_eq!((b.width, b.height), (1280, 30));
    b.closed(Surface::Catcher);
    assert!(b.panel.is_none() && !b.exit);
    b.closed(Surface::Bar);
    assert!(b.exit);
}

#[test]
fn a_hovered_module_has_a_pill() {
    let c = colors();
    let mut b = placed(true);
    b.hover = Some(Module::Date);
    let items = painting::paint_bar(&b.segments, b.hover, 26, &c);
    assert_eq!(items.len(), 5);
    assert_eq!(
        items[3],
        Item::Rounded {
            rect: Rect { x: 4 * UNIT, y: 4 * UNIT, w: 76 * UNIT, h: 18 * UNIT },
            radius: 9 * UNIT,
            color: panel::HOVER_PILL,
        }
    );
    // The muted date brightens.
    assert_eq!(
        items[4],
        Item::Line {
            text: "d".to_string(),
            rect: Rect { x: 12 * UNIT, y: 0, w: 60 * UNIT, h: 26 * UNIT },
            align: Align::Left,
            size: Size::Base,
            color: c.fg,
            cut: false,
        }
    );
    assert_eq!(bar::drawn_color(c.accent, true, &c), c.accent);
    assert_eq!(bar::drawn_color(c.muted, false, &c), c.muted);
    assert_eq!(bar::hairline_y(Edge::Top, 26), 25);
    assert_eq!(bar::hairline_y(Edge::Bottom, 26), 0);
}

#[test]
fn paints_the_panel_in_order() {
    let c = colors();
    let mut b = Bar::new(26);
    b.notes_changed(vec![note(1)], &metrics());
    b.toggle_panel(&metrics());
    b.configure(Surface::Panel, 0, 0);
    let mut p = b.panel.take().unwrap();
    let l = panel::layout(&metrics(), p.width, 1, p.scroll, 50 * UNIT);
    let texts = vec![panel::row_text(&b.notes[0], "now".to_string())];
    let paint = |p: &roostbar::panel::Panel| {
        painting::paint_panel(p, &metrics(), &l, &b.notes, &texts, "14:32", "Thursday", &c)
    };
    let items = paint(&p);
    let lines: Vec<&str> = items
        .iter()
        .filter_map(|i| match i {
            Item::Line { text, .. } => Some(text.as_str()),
            _ => None,
        })
        .collect();
    assert_eq!(
        lines,
        vec!["14:32", "Thursday", "Notifications", "Clear all", "now", "s", "b", "\u{F0156}"]
    );
    assert_eq!(items[6], Item::Clip { top: l.list.y, bottom: l.list.y + l.list.h });
    // Background, row and dot; no pill without a pointer.
    let rounded = |items: &Vec<Item>| items.iter().filter(|i| matches!(i, Item::Rounded { .. })).count();
    assert_eq!(rounded(&items), 3);
    p.pointer = Some((320 * UNIT, 140 * UNIT));
    assert_eq!(rounded(&paint(&p)), 4);
    p.pointer = Some((300 * UNIT, 110 * UNIT));
    assert_eq!(rounded(&paint(&p)), 4);
    assert_eq!(
        items[8],
        Item::Rounded {
            rect: Rect { x: 21 * UNIT, y: 145 * UNIT, w: 6 * UNIT, h: 6 * UNIT },
            radius: 3 * UNIT,
            color: c.accent,
        }
    );
}

#[test]
fn paints_an_empty_panel() {
    let mut b = Bar::new(26);
    b.toggle_panel(&metrics());
    b.configure(Surface::Panel, 0, 0);
    let p = b.panel.take().unwrap();
    let l = panel::layout(&metrics(), p.width, 0, 0, 50 * UNIT);
    let items =
        painting::paint_panel(&p, &metrics(), &l, &b.notes, &Vec::new(), "14:32", "Thursday", &colors());
    assert_eq!(items.len(), 6);
    assert_eq!(
        items[5],
        Item::Line {
            text: "No new notifications".to_string(),
            rect: l.list,
            align: Align::Centre,
            size: Size::Base,
            color: colors().muted,
            cut: false,
        }
    );
}

#[test]
fn the_bar_measures_its_own_labels() {
    let mut b = Bar::new(26);
    b.configure(Surface::Bar, 400, 26);
    b.refresh_fast(
        times("14:32", "Thu 28 Aug", "Thursday 28 August"),
        Some(Volume { percent: 45, muted: false }),
    );
    b.refresh_slow(no_battery(), Wifi::Unavailable, BtState::NoStack);
    let width = |s: &str| s.chars().count() as i128 * 10 * UNIT;
    let places = |b: &Bar| -> Vec<(Module, String, i128, i128)> {
        b.segments.iter().map(|s| (s.module, s.text.clone(), s.x0 / UNIT, s.x1 / UNIT)).collect()
    };
    b.build_segments(width, 20, &colors(), true, 12, 18);
    let with_date = places(&b);
    assert_eq!(with_date[0], (Module::Clock, "14:32".to_string(), 338, 388));
    let volume = with_date.iter().find(|p| p.0 == Module::Volume).unwrap();
    assert_eq!(volume.1, "\u{F0580} 45%");
    assert_eq!(volume.3 - volume.2, 50);
    assert_eq!(with_date.last().unwrap(), &(Module::Date, "Thu 28 Aug".to_string(), 12, 112));
    b.hover = Some(Module::Clock);
    let items = b.paint(width, 20, &colors(), false, 12, 18);
    assert_eq!(places(&b), with_date[..with_date.len() - 1]);
    assert_eq!(items, painting::paint_bar(&b.segments, Some(Module::Clock), 26, &colors()));
    assert_eq!(items.len(), b.segments.len() + 1);
    assert_eq!(bar::module_at(&b.segments, 350 * UNIT), Some(Module::Clock));
}

#[test]
fn what_is_painted_is_what_is_pressed() {
    let c = colors();
    let width = |s: &str| s.chars().count() as i128 * 6 * UNIT;
    let mut b = Bar::new(26);
    assert!(b.paint_panel(&metrics(), 120, width, |_| 0, &c).is_none());
    b.notes_changed(vec![note(7), note(8)], &metrics());
    b.refresh_fast(times("14:32", "Thu", "Thursday"), None);
    b.toggle_panel(&metrics());
    b.configure(Surface::Panel, 0, 0);
    let scene = b.paint_panel(&metrics(), 120, width, |_| 0, &c).unwrap();
    assert_eq!(scene.clear_width, 54 * UNIT);
    assert_eq!(
        scene.layout.clear,
        panel::layout(&metrics(), 360, 2, 0, 54 * UNIT).clear
    );
    assert_eq!(scene.texts[0].head, "2 min ago");
    let p = b.panel.as_ref().unwrap();
    assert_eq!(p.rows.len(), 2);
    let crosses: Vec<Rect> = scene
        .items
        .iter()
        .filter_map(|i| match i {
            Item::Line { text, rect, .. } if text == "\u{F0156}" => Some(*rect),
            _ => None,
        })
        .collect();
    let pressed: Vec<Rect> = p
        .hits
        .iter()
        .filter(|h| matches!(h.1, PanelHit::Remove(_)))
        .map(|h| h.0)
        .collect();
    assert_eq!(crosses, pressed);
    // The second cross takes the second notification away.
    let r = crosses[1];
    b.pointer_frame(
        Surface::Panel,
        Pointer::At { x: r.x + r.w / 2, y: r.y + r.h / 2 },
        &metrics(),
    );
    assert_eq!(
        b.pointer_frame(Surface::Panel, press(BTN_LEFT), &metrics()),
        Response::DrawPanel(Some(PanelHit::Remove(8)))
    );
}
