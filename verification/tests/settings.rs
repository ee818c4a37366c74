use roostbar::audio;
use roostbar::audio::{Audio, CardScan, Probe, Verdict, Volume};
use roostbar::config;
use roostbar::config::{Colors, Config, ConfigFile, Edge, Extras, Geometry};
use roostbar::system;
use roostbar::system::{Battery, Wifi};

fn bytes(s: &str) -> Option<Vec<u8>> {
    Some(s.as_bytes().to_vec())
}

#[test]
fn finds_the_settings_file() {
    assert_eq!(Config::path(bytes("/xdg"), bytes("/home/me")), b"/xdg/roostbar/config.toml".to_vec());
    assert_eq!(
        Config::path(None, bytes("/home/me")),
        b"/home/me/.config/roostbar/config.toml".to_vec()
    );
    assert_eq!(Config::path(None, None), b"./roostbar/config.toml".to_vec());
}

#[test]
fn a_bad_file_means_the_defaults() {
    for file in [ConfigFile::Missing, ConfigFile::Invalid] {
        let cfg = Config::load(file);
        assert_eq!(cfg.position, "top");
        assert_eq!(cfg.height, 26);
        assert!(cfg.exclusive);
        assert_eq!(cfg.clock_format, "%H:%M");
        assert_eq!(cfg.date_format, "%a %d %b");
        assert_eq!(cfg.volume_step, 5);
        assert_eq!(cfg.alsa_mixer, "Master");
        assert_eq!(cfg.battery, "BAT0");
        assert_eq!((cfg.padding, cfg.gap), (12, 18));
        assert_eq!(cfg.background, "#D916161F");
    }
    let mut cfg = Config::default();
    cfg.height = 40;
    assert_eq!(Config::load(ConfigFile::Parsed(cfg)).height, 40);
}

#[test]
fn reads_colors() {
    assert_eq!(config::parse_argb("#7AA2F7"), [255, 0x7A, 0xA2, 0xF7]);
    assert_eq!(config::parse_argb(" #D916161F "), [0xD9, 0x16, 0x16, 0x1F]);
    assert_eq!(config::parse_argb("##00ff00"), [255, 0, 255, 0]);
    // Anything but six digits has its alpha in the top byte.
    assert_eq!(config::parse_argb("#12"), [0, 0, 0, 0x12]);
    for bad in ["", "#", "red", "#123456789", "#-1"] {
        assert_eq!(config::parse_argb(bad), [255, 255, 255, 255]);
        assert_eq!(config::parse_color(bad), [255, 255, 255, 255]);
    }
}

#[test]
fn premultiplies_colors() {
    assert_eq!(config::parse_color("#7AA2F7"), [255, 0x7A, 0xA2, 0xF7]);
    assert_eq!(config::parse_color("#80FF8000"), [0x80, 0x80, 0x40, 0]);
    assert_eq!(config::parse_color("#00FFFFFF"), [0, 0, 0, 0]);
    let [a, r, g, b] = config::parse_color("#D916161F");
    assert!(r <= a && g <= a && b <= a);
    assert_eq!([a, r, g, b], [0xD9, 19, 19, 26]);
}

fn extras() -> Extras {
    Extras { ui_font: "ui.ttf".to_string(), charging: "#00FF00".to_string(), battery_low: 20 }
}

#[test]
fn takes_the_colors_from_the_settings() {
    let cfg = Config::default();
    let c = Colors::from_config(&cfg, &extras());
    assert_eq!(c.bg, [0xD9, 0x16, 0x16, 0x1F]);
    assert_eq!(c.fg, [255, 0xC0, 0xCA, 0xF5]);
    assert_eq!(c.muted, [255, 0x56, 0x5F, 0x89]);
    assert_eq!(c.warning, [255, 0xF7, 0x76, 0x8E]);
    assert_eq!(c.charging, [255, 0, 255, 0]);
    let blank = Extras { charging: "  ".to_string(), ..extras() };
    assert_eq!(Colors::from_config(&cfg, &blank).charging, c.accent);
}

#[test]
fn an_edit_changes_what_it_must() {
    let old = Config::default();
    let none = config::reload(&old, &extras(), &Config::default(), &extras(), false);
    assert!(!none.fonts && none.geometry.is_none() && !none.audio);
    let mut new = Config::default();
    new.position = "bottom".to_string();
    let moved = config::reload(&old, &extras(), &new, &extras(), false);
    assert_eq!(
        moved.geometry,
        Some(Geometry { edge: Edge::Bottom, height: 26, exclusive_zone: 26 })
    );
    new.exclusive = false;
    assert_eq!(new.geometry().exclusive_zone, 0);
    let mut new = Config::default();
    new.alsa_card = "hw:2".to_string();
    assert!(config::reload(&old, &extras(), &new, &extras(), false).audio);
    let other = Extras { ui_font: "other.ttf".to_string(), ..extras() };
    assert!(config::reload(&old, &extras(), &old, &other, false).fonts);
    assert!(config::reload(&old, &extras(), &old, &extras(), true).fonts);
    assert_eq!(Config::default().edge(), Edge::Top);
}

#[test]
fn reads_the_battery() {
    assert_eq!(
        system::battery(Some("57\n"), Some("Charging\n")),
        Some(Battery { percent: 57, charging: true, full: false })
    );
    assert_eq!(
        system::battery(Some("100"), Some("Full")),
        Some(Battery { percent: 100, charging: false, full: true })
    );
    assert_eq!(
        system::battery(Some("95"), Some("Not charging")),
        Some(Battery { percent: 95, charging: false, full: true })
    );
    assert_eq!(
        system::battery(Some("94"), Some("Not charging")),
        Some(Battery { percent: 94, charging: false, full: false })
    );
    assert_eq!(
        system::battery(Some("5"), None),
        Some(Battery { percent: 5, charging: false, full: false })
    );
    assert_eq!(system::battery(None, Some("Full")), None);
    assert_eq!(system::battery(Some("many"), Some("Full")), None);
    assert_eq!(system::battery(Some("4294967296"), None), None);
}

#[test]
fn reads_the_wifi() {
    assert_eq!(system::wifi(None), Wifi::Unavailable);
    assert_eq!(
        system::wifi(Some("state   Connected\nnetwork  My  Home Net\nsignal 70\n")),
        Wifi::Connected("My Home Net".to_string())
    );
    assert_eq!(system::wifi(Some("state scanning\nnetwork Home")), Wifi::Disconnected);
    assert_eq!(system::wifi(Some("state connected\n")), Wifi::Disconnected);
    assert_eq!(system::wifi(Some("")), Wifi::Disconnected);
    // The last line of a kind counts.
    assert_eq!(
        system::wifi(Some("network a\nnetwork b\nstate connected")),
        Wifi::Connected("b".to_string())
    );
}

fn master(volume: i64) -> Audio {
    Audio { lo: 0, hi: 87, volume: Some(volume), has_switch: true, switch: Some(1) }
}

#[test]
fn reads_the_mixer() {
    assert_eq!(master(87).get(), Some(Volume { percent: 100, muted: false }));
    assert_eq!(master(0).get(), Some(Volume { percent: 0, muted: false }));
    let off = Audio { switch: Some(0), ..master(40) };
    assert!(off.get().unwrap().muted);
    let plain = Audio { has_switch: false, ..off };
    assert!(!plain.get().unwrap().muted);
    assert_eq!(Audio { volume: None, ..master(1) }.get(), None);
    assert_eq!(audio::alsa_percent(0, 200, 100), 50);
    assert_eq!(audio::alsa_percent(-100, 100, 0), 50);
    assert_eq!(audio::alsa_percent(5, 5, 5), 0);
}

#[test]
fn a_percentage_reads_back() {
    let e = Audio { lo: 0, hi: 65536, volume: Some(32768), has_switch: true, switch: Some(1) };
    let before = e.get().unwrap().percent;
    assert_eq!(before, 50);
    let (raw, _) = e.adjust(5);
    assert_eq!(Audio { volume: Some(raw), ..e }.get().unwrap().percent, before + 5);
    let (raw, _) = e.adjust(-100);
    assert_eq!(raw, 0);
    let (raw, _) = e.adjust(100);
    assert_eq!(raw, 65536);
}

#[test]
fn turning_it_up_unmutes() {
    let muted = Audio { switch: Some(0), ..master(40) };
    assert_eq!(muted.adjust(5).1, Some(1));
    assert_eq!(muted.adjust(-5).1, None);
    assert_eq!(muted.toggle_mute(), Some(1));
    assert_eq!(master(40).toggle_mute(), Some(0));
    assert_eq!(Audio { has_switch: false, ..master(40) }.toggle_mute(), None);
}

#[test]
fn prefers_an_analog_card() {
    let mut scan = CardScan::new(String::new());
    assert_eq!(scan.next_card(), Some("hw:0".to_string()));
    assert_eq!(scan.record(Probe::Absent), Verdict::Discard);
    assert_eq!(scan.record(Probe::Plain), Verdict::Keep);
    assert_eq!(scan.record(Probe::Plain), Verdict::Discard);
    assert_eq!(scan.next_card(), Some("hw:3".to_string()));
    assert_eq!(scan.record(Probe::Analog), Verdict::Use);
    let mut scan = CardScan::new(String::new());
    for i in 0..8 {
        assert_eq!(scan.next_card(), Some(format!("hw:{i}")));
        assert_eq!(scan.record(Probe::Absent), Verdict::Discard);
    }
    assert_eq!(scan.next_card(), None);
}

#[test]
fn tries_a_configured_card_alone() {
    for (probe, verdict) in
        [(Probe::Plain, Verdict::Use), (Probe::Analog, Verdict::Use), (Probe::Absent, Verdict::Discard)]
    {
        let mut scan = CardScan::new("hw:2".to_string());
        assert_eq!(scan.next_card(), Some("hw:2".to_string()));
        assert_eq!(scan.record(probe), verdict);
        if verdict == Verdict::Discard {
            assert_eq!(scan.next_card(), None);
        }
    }
}

#[test]
fn compares_paths_by_components() {
    for same in ["/a/b", "/a//b", "//a/b/", "/a/./b", "/./a/b/."] {
        assert!(config::same_path("/a/b", same));
        assert_eq!(std::path::Path::new("/a/b"), std::path::Path::new(same));
    }
    for (a, b) in [("/a/b", "a/b"), ("a", "./a"), ("/a/b", "/a/../b"), ("/a", "/a/b"), ("", "."), ("/", ""), ("a", ".a")] {
        assert!(!config::same_path(a, b));
        assert_ne!(std::path::Path::new(a), std::path::Path::new(b));
    }
    for (a, b) in [("./a", ".//a/"), (".", "./."), ("..", "../"), ("/", "//"), ("", "")] {
        assert!(config::same_path(a, b));
        assert_eq!(std::path::Path::new(a), std::path::Path::new(b));
    }
    let old = Config::default();
    let mut new = Config::default();
    new.font = "/usr/share//fonts/JetBrainsMonoNerdFontMono-Regular.ttf".to_string();
    assert!(!config::reload(&old, &extras(), &new, &extras(), false).fonts);
    new.font = "/usr/share/fonts/Other.ttf".to_string();
    assert!(config::reload(&old, &extras(), &new, &extras(), false).fonts);
}

#[test]
fn knows_when_a_range_is_too_large() {
    assert!(master(40).can_get());
    assert!(master(40).can_adjust(5));
    assert!(!master(40).can_adjust(i64::MAX));
    assert!(master(40).can_adjust(i64::MIN));
    let wide = Audio { lo: i64::MIN, hi: i64::MAX, ..master(0) };
    assert!(!wide.can_get());
    assert!(!wide.can_adjust(0));
    // An empty range has no percentages to work out.
    let empty = Audio { lo: 5, hi: 5, ..master(5) };
    assert!(empty.can_get());
    assert_eq!(empty.get().unwrap().percent, 0);
    // The percentage fits, but a hundred times the range does not.
    let large = Audio { lo: 0, hi: i64::MAX / 100 + 1, ..master(0) };
    assert!(large.can_get());
    assert!(!large.can_adjust(100));
    assert!(large.can_adjust(0));
}
