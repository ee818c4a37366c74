use roostbar::notifications::Entry;
use roostbar::panel;
use roostbar::panel::{
    Frame, Panel, PanelHit, PanelMetrics, Pointer, Rect, BTN_LEFT, LIST_MAX, UNIT,
};

/// The parts at the default font size of 13.
fn metrics() -> PanelMetrics {
    PanelMetrics { clock: 44, line: 21, small: 18, header: 30 }
}

fn notes(n: u32) -> Vec<Entry> {
    (0..n)
        .map(|i| Entry {
            id: 100 + i,
            app_name: "app".to_string(),
            summary: "s".to_string(),
            body: String::new(),
            arrived: 0,
            open: false,
        })
        .collect()
}

#[test]
fn adds_up_the_heights() {
    let m = metrics();
    assert_eq!(m.row(), 71);
    assert_eq!(m.content_height(0), 64);
    assert_eq!(m.content_height(1), 71);
    assert_eq!(m.content_height(5), 379);
    assert_eq!(m.content_height(6), 456);
    assert_eq!(m.list_height(5), 379);
    assert_eq!(m.list_height(6), 420);
    assert_eq!(m.max_scroll(5), 0);
    assert_eq!(m.max_scroll(6), 36);
    assert_eq!(m.height(0), 12 + 44 + 21 + 12 + 1 + 6 + 30 + 6 + 64 + 14);
    assert_eq!(m.height(6), 146 + 420);
    let huge = PanelMetrics { clock: u32::MAX, line: 9, small: 9, header: 9 };
    assert_eq!(huge.height(1), u32::MAX);
    assert_eq!(m.list_height(usize::MAX), LIST_MAX);
}

#[test]
fn the_layout_fills_the_height() {
    for n in [0usize, 1, 3, 6, 40] {
        let m = metrics();
        let l = panel::layout(&m, 360, n, 0, 50 * UNIT);
        assert_eq!(l.list.y + l.list.h + 14 * UNIT, m.height(n) as i128 * UNIT);
        assert_eq!(l.clear.is_some(), n > 0);
    }
}

#[test]
fn lays_the_parts_out() {
    let l = panel::layout(&metrics(), 360, 2, 0, 50 * UNIT);
    let px = |x: i128, y: i128, w: i128, h: i128| Rect {
        x: x * UNIT,
        y: y * UNIT,
        w: w * UNIT,
        h: h * UNIT,
    };
    assert_eq!(l.clock, px(16, 12, 328, 44));
    assert_eq!(l.date, px(16, 56, 328, 21));
    assert_eq!(l.rule, px(16, 89, 328, 1));
    assert_eq!(l.header, px(16, 96, 328, 30));
    assert_eq!(l.clear, Some(px(286, 99, 66, 24)));
    assert_eq!(l.list, px(16, 132, 328, 148));
    assert_eq!(l.rows.len(), 2);
    assert_eq!(l.rows[0].shown, px(16, 132, 328, 71));
    assert_eq!(l.rows[0].remove, px(314, 137, 24, 24));
    assert!(l.rows[0].clickable && l.rows[1].clickable);
    assert_eq!(l.rows[1].top, 209 * UNIT);
    assert_eq!(l.rows[1].index, 1);
}

#[test]
fn scrolled_rows_stay_in_the_list() {
    let m = metrics();
    let l = panel::layout(&m, 360, 12, 40 * UNIT, 50 * UNIT);
    // The first row is cut, its control hidden; the last ones are out.
    assert_eq!(l.rows[0].shown.y, l.list.y);
    assert_eq!(l.rows[0].shown.h, 31 * UNIT);
    assert!(!l.rows[0].clickable);
    assert!(l.rows.len() < 12);
    for row in &l.rows {
        assert!(row.shown.y >= l.list.y && row.shown.h > 0);
        assert!(row.shown.y + row.shown.h <= l.list.y + l.list.h);
    }
    // Scrolled as far as it goes, the last row ends with the list.
    let l = panel::layout(&m, 360, 12, m.max_scroll(12) * UNIT, 50 * UNIT);
    let last = l.rows.last().unwrap();
    assert_eq!(last.index, 11);
    assert_eq!(last.shown.y + last.shown.h, l.list.y + l.list.h);
}

fn painted(n: u32) -> (Panel, Vec<Entry>) {
    let notes = notes(n);
    let mut p = Panel::open(metrics().height(notes.len()), 1);
    p.configure(0, 0);
    let l = panel::layout(&metrics(), p.width, notes.len(), p.scroll, 50 * UNIT);
    p.painted(&l, &notes);
    p.dirty = false;
    (p, notes)
}

fn at(x: i128, y: i128) -> Pointer {
    Pointer::At { x: x * UNIT, y: y * UNIT }
}

const PRESS: Pointer = Pointer::Press { button: BTN_LEFT };

#[test]
fn finds_what_is_under_the_pointer() {
    let (mut p, mut ns) = painted(3);
    assert_eq!(p.hover(), (None, None));
    p.panel_pointer(&metrics(), &mut ns, at(20, 140));
    assert_eq!(p.hover(), (Some(0), None));
    assert!(p.dirty);
    p.dirty = false;
    p.panel_pointer(&metrics(), &mut ns, at(21, 141));
    assert!(!p.dirty);
    // On the second row's control; "Clear all" comes first among the controls.
    p.panel_pointer(&metrics(), &mut ns, at(320, 220));
    assert_eq!(p.hover(), (Some(1), Some(2)));
    p.panel_pointer(&metrics(), &mut ns, at(300, 110));
    assert_eq!(p.hover(), (None, Some(0)));
    p.panel_pointer(&metrics(), &mut ns, Pointer::Leave);
    assert_eq!(p.hover(), (None, None));
    // In the gap between two rows.
    p.panel_pointer(&metrics(), &mut ns, at(20, 205));
    assert_eq!(p.hover(), (None, None));
}

#[test]
fn a_press_removes_what_it_is_aimed_at() {
    let (mut p, mut ns) = painted(3);
    p.panel_pointer(&metrics(), &mut ns, at(320, 220));
    assert_eq!(
        p.panel_pointer(&metrics(), &mut ns, Pointer::Press { button: 0x111 }),
        None
    );
    assert_eq!(p.panel_pointer(&metrics(), &mut ns, Pointer::Release), None);
    assert_eq!(ns.len(), 3);
    assert_eq!(p.panel_pointer(&metrics(), &mut ns, PRESS), Some(PanelHit::Remove(101)));
    assert_eq!(ns.iter().map(|n| n.id).collect::<Vec<_>>(), vec![100, 102]);
    let (mut p, mut ns) = painted(3);
    p.panel_pointer(&metrics(), &mut ns, at(300, 110));
    assert_eq!(p.panel_pointer(&metrics(), &mut ns, PRESS), Some(PanelHit::Clear));
    assert!(ns.is_empty());
    let (mut p, mut ns) = painted(3);
    p.panel_pointer(&metrics(), &mut ns, at(20, 140));
    assert_eq!(p.panel_pointer(&metrics(), &mut ns, PRESS), None);
    assert_eq!(ns.len(), 3);
}

fn axis(value120: i32, discrete: i32, absolute: i32) -> Pointer {
    Pointer::Axis { value120, discrete, absolute }
}

#[test]
fn scrolls_between_its_ends() {
    let (mut p, mut ns) = painted(12);
    let max = metrics().max_scroll(12) * UNIT;
    assert_eq!(max, 498 * UNIT);
    p.panel_pointer(&metrics(), &mut ns, axis(120, 0, 0));
    assert_eq!(p.scroll, 48 * UNIT);
    assert!(p.dirty);
    p.panel_pointer(&metrics(), &mut ns, axis(0, 1, 0));
    assert_eq!(p.scroll, 96 * UNIT);
    p.panel_pointer(&metrics(), &mut ns, axis(0, 0, -256));
    assert_eq!(p.scroll, 95 * UNIT);
    p.panel_pointer(&metrics(), &mut ns, axis(1, 9, 9));
    assert_eq!(p.scroll, 95 * UNIT + 512);
    p.panel_pointer(&metrics(), &mut ns, axis(0, 100, 0));
    assert_eq!(p.scroll, max);
    p.dirty = false;
    p.panel_pointer(&metrics(), &mut ns, axis(0, 100, 0));
    assert!(!p.dirty);
    p.panel_pointer(&metrics(), &mut ns, axis(0, -100, 0));
    assert_eq!(p.scroll, 0);
    // A list that fits does not scroll.
    let (mut p, mut ns) = painted(2);
    p.panel_pointer(&metrics(), &mut ns, axis(120, 0, 0));
    assert_eq!(p.scroll, 0);
}

#[test]
fn a_shorter_list_pulls_the_scroll_back() {
    let (mut p, mut ns) = painted(12);
    p.panel_pointer(&metrics(), &mut ns, axis(0, 100, 0));
    p.notes_changed(&metrics(), 6);
    assert_eq!(p.scroll, 36 * UNIT);
    p.notes_changed(&metrics(), 1);
    assert_eq!(p.scroll, 0);
}

#[test]
fn is_resized_before_it_is_drawn() {
    let mut p = Panel::open(200, 2);
    assert_eq!(p.scale, 2);
    assert_eq!(p.draw_panel(200), Frame::Nothing);
    assert_eq!(p.draw_panel(300), Frame::Resize(300));
    assert_eq!(p.requested, 300);
    p.configure(0, 0);
    assert_eq!((p.width, p.height), (360, 300));
    assert_eq!(p.draw_panel(300), Frame::Paint);
    assert_eq!(p.draw_panel(300), Frame::Nothing);
    p.configure(400, 310);
    assert_eq!((p.width, p.height), (400, 310));
    assert_eq!(p.draw_panel(300), Frame::Paint);
}

#[test]
fn says_who_and_when() {
    let mut note = notes(1).remove(0);
    note.summary = "two\nlines".to_string();
    note.body = " \n".to_string();
    let t = panel::row_text(&note, "5 min ago".to_string());
    assert_eq!(t.head, "app · 5 min ago");
    assert_eq!(t.summary, "two lines");
    assert_eq!(t.body, "");
    note.app_name = String::new();
    assert_eq!(panel::row_text(&note, "now".to_string()).head, "now");
}

#[test]
fn rows_never_overlap() {
    for scroll in [0, 17, 100, 498] {
        let l = panel::layout(&metrics(), 360, 12, scroll * UNIT, 50 * UNIT);
        for pair in l.rows.windows(2) {
            assert_eq!(pair[0].top + (71 + 6) * UNIT, pair[1].top);
            assert!(pair[0].shown.y + pair[0].shown.h <= pair[1].shown.y);
        }
    }
}

#[test]
fn a_short_list_shows_all_of_every_row() {
    let l = panel::layout(&metrics(), 360, 5, 0, 50 * UNIT);
    assert_eq!(l.rows.len(), 5);
    for row in &l.rows {
        assert_eq!(row.shown.h, 71 * UNIT);
        assert!(row.clickable);
    }
}
