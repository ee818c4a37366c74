use roostbar::clock;
use roostbar::clock::Moment;
use roostbar::lettering;
use roostbar::lettering::{BadIconFont, Face, Glyph, Text};
use roostbar::text;

/// A font with nothing in it but a character map: groups of first character,
/// last character and first glyph.
fn font(groups: &[(u32, u32, u32)]) -> Vec<u8> {
    let mut head = vec![0u8; 54];
    head[0..4].copy_from_slice(&0x0001_0000u32.to_be_bytes());
    head[12..16].copy_from_slice(&0x5F0F_3CF5u32.to_be_bytes());
    head[18..20].copy_from_slice(&1000u16.to_be_bytes());
    let mut hhea = vec![0u8; 36];
    hhea[0..4].copy_from_slice(&0x0001_0000u32.to_be_bytes());
    hhea[34..36].copy_from_slice(&1u16.to_be_bytes());
    let mut maxp = vec![0u8; 6];
    maxp[0..4].copy_from_slice(&0x0000_5000u32.to_be_bytes());
    maxp[4..6].copy_from_slice(&200u16.to_be_bytes());
    let mut cmap: Vec<u8> = Vec::new();
    cmap.extend(0u16.to_be_bytes());
    cmap.extend(1u16.to_be_bytes());
    cmap.extend(3u16.to_be_bytes());
    cmap.extend(10u16.to_be_bytes());
    cmap.extend(12u32.to_be_bytes());
    cmap.extend(12u16.to_be_bytes());
    cmap.extend(0u16.to_be_bytes());
    cmap.extend((16 + 12 * groups.len() as u32).to_be_bytes());
    cmap.extend(0u32.to_be_bytes());
    cmap.extend((groups.len() as u32).to_be_bytes());
    for (from, to, glyph) in groups {
        cmap.extend(from.to_be_bytes());
        cmap.extend(to.to_be_bytes());
        cmap.extend(glyph.to_be_bytes());
    }
    let tables: [(&[u8; 4], Vec<u8>); 4] =
        [(b"cmap", cmap), (b"head", head), (b"hhea", hhea), (b"maxp", maxp)];
    let mut out: Vec<u8> = Vec::new();
    out.extend(0x0001_0000u32.to_be_bytes());
    out.extend(4u16.to_be_bytes());
    out.extend([0u8; 6]);
    let mut at: u32 = 12 + 16 * 4;
    for (tag, data) in &tables {
        out.extend(*tag);
        out.extend(0u32.to_be_bytes());
        out.extend(at.to_be_bytes());
        out.extend((data.len() as u32).to_be_bytes());
        at += (data.len() as u32 + 3) / 4 * 4;
    }
    for (_, data) in &tables {
        out.extend(data);
        while out.len() % 4 != 0 {
            out.push(0);
        }
    }
    out
}

const LATIN: (u32, u32, u32) = (0x20, 0x7E, 1);

#[test]
fn a_character_is_drawn_by_the_face_that_has_it() {
    let icons = font(&[LATIN, (0xF0928, 0xF0928, 150)]);
    let t = Text::load(Some(font(&[(0x41, 0x5A, 10)])), icons).ok().unwrap();
    assert!(t.has_ui());
    assert_eq!(t.face_of('A'), (Face::Ui, 10));
    assert_eq!(t.face_of('C'), (Face::Ui, 12));
    assert_eq!(t.face_of('a'), (Face::Icon, 66));
    assert_eq!(t.face_of('\u{F0928}'), (Face::Icon, 150));
    assert_eq!(t.face_of('é'), (Face::Icon, 0));
    // Kerning only between two glyphs of one face.
    assert_eq!(
        t.walk("ABa"),
        vec![
            Glyph { face: Face::Ui, id: 10, kerned: false },
            Glyph { face: Face::Ui, id: 11, kerned: true },
            Glyph { face: Face::Icon, id: 66, kerned: false },
        ]
    );
    assert!(t.walk("").is_empty());
}

#[test]
fn a_font_keeps_its_bytes() {
    let (ui, icon) = (font(&[(0x41, 0x5A, 10)]), font(&[LATIN]));
    let t = Text::load(Some(ui.clone()), icon.clone()).ok().unwrap();
    assert_eq!(t.font(Face::Ui).as_slice(), &ui[..]);
    assert_eq!(t.font(Face::Icon).as_slice(), &icon[..]);
}

#[test]
fn the_icon_face_must_load() {
    assert_eq!(Text::load(None, vec![1, 2, 3]).err(), Some(BadIconFont));
    assert_eq!(Text::load(Some(font(&[LATIN])), Vec::new()).err(), Some(BadIconFont));
    // Without the UI face the bar is drawn with the one it has.
    for ui in [None, Some(vec![0; 10])] {
        let t = Text::load(ui, font(&[LATIN])).ok().unwrap();
        assert!(!t.has_ui());
        assert_eq!(t.face_of('A'), (Face::Icon, 34));
        assert_eq!(t.font(Face::Ui).as_slice(), t.font(Face::Icon).as_slice());
    }
}

#[test]
fn flattens_text_to_one_line() {
    assert_eq!(lettering::flatten("  two\n\n lines\tof\r\ntext "), "two lines of text");
    assert_eq!(lettering::flatten("already flat"), "already flat");
    assert_eq!(lettering::flatten(" \n "), "");
    assert_eq!(lettering::flatten("a\u{3000}b\u{A0}c"), "a b c");
    let once = lettering::flatten(" x  y ");
    assert_eq!(lettering::flatten(&once), once);
}

#[test]
fn cuts_text_to_fit() {
    let fits = |n: usize| move |s: &str| s.chars().count() <= n;
    assert_eq!(lettering::ellipsize("short", fits(5)), "short");
    assert_eq!(lettering::ellipsize("shorter", fits(5)), "shor…");
    // The space before the ellipsis goes.
    assert_eq!(lettering::ellipsize("one two", fits(5)), "one…");
    assert_eq!(lettering::ellipsize("abc", fits(1)), "…");
    assert_eq!(lettering::ellipsize("abc", fits(0)), "");
    assert_eq!(lettering::ellipsize("", |_: &str| false), "");
}

#[test]
fn says_how_long_ago() {
    let now = 1_700_000_000;
    assert_eq!(clock::ago(now, now, 0), "now");
    assert_eq!(clock::ago(now + 500, now, 0), "now");
    assert_eq!(clock::ago(now - 59, now, 0), "now");
    assert_eq!(clock::ago(now - 60, now, 0), "1 min ago");
    assert_eq!(clock::ago(now - 3599, now, 0), "59 min ago");
    assert_eq!(clock::ago(now - 3600, now, 0), "1 h ago");
    assert_eq!(clock::ago(now - 86_399, now, 0), "23 h ago");
    assert_eq!(clock::ago(now - 86_400, now, 0), "13 Nov");
    // Nine hours to the east it is the next day.
    assert_eq!(clock::ago(now - 86_400, now, 9 * 3600), "14 Nov");
    assert_eq!(clock::ago(i64::MIN, now, 0), "");
    assert_eq!(clock::ago_on(0, 90_000, "that day".to_string()), "that day");
}

#[test]
fn writes_the_time() {
    let now = Moment { secs: 1_757_946_720, nanos: 0, offset: 7200 };
    let t = clock::times(now, "%H:%M", "%a %d %b").unwrap();
    assert_eq!(t.clock, "16:32");
    assert_eq!(t.date, "Mon 15 Sep");
    assert_eq!(t.long_date, "Monday 15 September");
    assert_eq!(now.format("%Y-%m-%d %z"), Some("2025-09-15 +0200".to_string()));
    assert_eq!(Moment { nanos: 250_000_000, ..now }.format("%.3f"), Some(".250".to_string()));
    // What is no pattern, no zone or no day.
    assert_eq!(clock::times(now, "%", "%d"), None);
    assert_eq!(clock::times(now, "%H", "%Q"), None);
    assert_eq!(Moment { offset: 86_400, ..now }.format("%H"), None);
    assert_eq!(Moment { secs: i64::MAX, ..now }.format("%H"), None);
}

#[test]
fn waits_for_the_next_second() {
    assert_eq!(clock::until_next_second(0), 1000);
    assert_eq!(clock::until_next_second(1), 999);
    assert_eq!(clock::until_next_second(999), 1);
    assert_eq!(clock::until_next_second(1500), 1);
}

#[test]
fn works_on_text() {
    assert_eq!(text::trim(" \t a b \n"), "a b");
    assert_eq!(text::trim_start("  a "), "a ");
    assert_eq!(text::trim_end("  a "), "  a");
    assert_eq!(text::split_words(" a  bc "), vec!["a", "bc"]);
    assert_eq!(text::split_lines("a\r\nb\n\nc"), vec!["a", "b", "", "c"]);
    assert_eq!(text::split_lines("a\n"), vec!["a"]);
    assert_eq!(text::join(&vec!["a".to_string(), "b".to_string()], ", "), "a, b");
    assert_eq!(text::replace_first("true true", "true", "false"), "false true");
    assert_eq!(text::replace_first("no", "true", "false"), "no");
    assert!(text::starts_with("wayland-1", "wayland-"));
    assert!(!text::starts_with("way", "wayland-"));
    assert!(text::ends_with("wayland-1.lock", ".lock"));
    assert!(text::contains("a connection error", "connection"));
    assert!(!text::contains("", "x"));
    assert!(text::eq_ignore_case("Connected", "cOnNECTED"));
    assert!(!text::eq_ignore_case("É", "é"));
    assert!(text::is_before("a", "b"));
    assert!(text::is_before("a", "ab"));
    assert!(!text::is_before("b", "ab"));
    assert!(!text::is_before("a", "a"));
    assert_eq!(text::decimal_of(u64::MAX), u64::MAX.to_string());
    assert_eq!(text::decimal_of_signed(i64::MIN), i64::MIN.to_string());
    assert_eq!(text::decimal_of(0), "0");
    assert_eq!(text::parse_number("+15", 10, u64::MAX), Some(15));
    assert_eq!(text::parse_number("ff", 16, 255), Some(255));
    assert_eq!(text::parse_number("100", 16, 255), None);
    assert_eq!(text::parse_number("", 10, 9), None);
    assert_eq!(text::parse_number("-1", 10, 9), None);
}
