//! The bar's settings, where they are read from, and what they say about
//! colours and geometry.
use vstd::prelude::*;

use crate::render;
use crate::text;

verus! {

/// The settings in `config.toml`, but for the size of the type, which is not
/// a whole number.
#[derive(Debug, Clone)]
pub struct Config {
    /// "top" or "bottom"
    pub position: String,
    /// Bar height in logical pixels.
    pub height: u32,
    /// Reserve space so windows never sit under the bar.
    pub exclusive: bool,
    /// The file that the icon font is in.
    pub font: String,
    /// Colours as #RRGGBB or #AARRGGBB.
    pub background: String,
    pub foreground: String,
    pub accent: String,
    pub muted: String,
    pub warning: String,
    /// Horizontal padding on each side of the bar and between modules.
    pub padding: u32,
    pub gap: u32,
    pub clock_format: String,
    pub date_format: String,
    pub show_date: bool,
    /// Start pipewire/wireplumber/pipewire-pulse at launch if installed and
    /// not running (Raven has no systemd user session to do it).
    pub start_pipewire: bool,
    /// ALSA fallback card (used only when PipeWire is not running), e.g.
    /// "hw:2". Empty = auto-detect.
    pub alsa_card: String,
    pub alsa_mixer: String,
    /// Volume change per scroll notch, percent.
    pub volume_step: i64,
    /// Bluetooth MAC (AA:BB:CC:DD:EE:FF) to connect on click. Empty = last
    /// connected/paired.
    pub bluetooth_device: String,
    pub battery: String,
    pub wifi_interface: String,
}

/// Settings that have no value unless the file gives one.
#[derive(Debug, Clone)]
pub struct Extras {
    /// The file that the typeface for words and numbers is in.
    pub ui_font: String,
    /// The colour of a battery on the charger. Blank = the accent colour.
    pub charging: String,
    /// At this percentage and below, the battery is shown as a warning.
    pub battery_low: u32,
}

impl Config {
    /// The settings that the bar has without a file.
    pub open spec fn is_default(&self) -> bool {
        &&& self.position@ == "top"@
        &&& self.height == 26
        &&& self.exclusive
        &&& self.font@ == "/usr/share/fonts/JetBrainsMonoNerdFontMono-Regular.ttf"@
        &&& self.background@ == "#D916161F"@
        &&& self.foreground@ == "#C0CAF5"@
        &&& self.accent@ == "#7AA2F7"@
        &&& self.muted@ == "#565F89"@
        &&& self.warning@ == "#F7768E"@
        &&& self.padding == 12
        &&& self.gap == 18
        &&& self.clock_format@ == "%H:%M"@
        &&& self.date_format@ == "%a %d %b"@
        &&& self.show_date
        &&& self.start_pipewire
        &&& self.alsa_card@ == Seq::<char>::empty()
        &&& self.alsa_mixer@ == "Master"@
        &&& self.volume_step == 5
        &&& self.bluetooth_device@ == Seq::<char>::empty()
        &&& self.battery@ == "BAT0"@
        &&& self.wifi_interface@ == Seq::<char>::empty()
    }
}

impl Default for Config {
    fn default() -> (cfg: Self)
        ensures
            cfg.is_default(),
    {
        Config {
            position: "top".to_owned(),
            height: 26,
            exclusive: true,
            font: "/usr/share/fonts/JetBrainsMonoNerdFontMono-Regular.ttf".to_owned(),
            background: "#D916161F".to_owned(),
            foreground: "#C0CAF5".to_owned(),
            accent: "#7AA2F7".to_owned(),
            muted: "#565F89".to_owned(),
            warning: "#F7768E".to_owned(),
            padding: 12,
            gap: 18,
            clock_format: "%H:%M".to_owned(),
            date_format: "%a %d %b".to_owned(),
            show_date: true,
            start_pipewire: true,
            alsa_card: String::new(),
            alsa_mixer: "Master".to_owned(),
            volume_step: 5,
            bluetooth_device: String::new(),
            battery: "BAT0".to_owned(),
            wifi_interface: String::new(),
        }
    }
}

// ---------------------------------------------------------------------------
// The file
// ---------------------------------------------------------------------------
/// The path `base/name`, as bytes: no separator after an empty path or one
/// that ends in a separator.
pub open spec fn below(base: Seq<u8>, name: Seq<u8>) -> Seq<u8> {
    if base.len() == 0 || base.last() == 0x2f {
        base + name
    } else {
        base.push(0x2f) + name
    }
}

/// The bytes of an ASCII literal.
pub open spec fn ascii(s: Seq<char>) -> Seq<u8> {
    Seq::new(s.len(), |i: int| s[i] as u8)
}

/// The configuration file, given `$XDG_CONFIG_HOME` and `$HOME`.
pub open spec fn config_path(xdg: Option<Seq<u8>>, home: Option<Seq<u8>>) -> Seq<u8> {
    let base = match (xdg, home) {
        (Some(dir), _) => dir,
        (None, Some(home)) => below(home, ascii(".config"@)),
        (None, None) => ascii("."@),
    };
    below(below(base, ascii("roostbar"@)), ascii("config.toml"@))
}

fn join_path(base: Vec<u8>, name: &str) -> (path: Vec<u8>)
    requires
        name.is_ascii(),
    ensures
        path@ == below(base@, ascii(name@)),
{
    let mut path = base;
    if path.len() > 0 && path[path.len() - 1] != 0x2f {
        path.push(0x2f);
    }
    let tail = name.as_bytes();
    let ghost front = path@;
    assert(tail@ == ascii(name@));
    let mut i: usize = 0;
    while i < tail.len()
        invariant
            i <= tail@.len(),
            path@ == front + tail@.take(i as int),
        decreases tail@.len() - i,
    {
        path.push(tail[i]);
        assert(tail@.take(i + 1) == tail@.take(i as int).push(tail@[i as int]));
        i += 1;
    }
    assert(tail@.take(tail@.len() as int) == tail@);
    path
}

/// An optional path by its bytes.
pub open spec fn path_view(p: Option<Vec<u8>>) -> Option<Seq<u8>> {
    match p {
        Some(v) => Some(v@),
        None => None,
    }
}

/// What was found at [`Config::path`].
pub enum ConfigFile {
    /// It could not be read.
    Missing,
    /// It is not a configuration.
    Invalid,
    Parsed(Config),
}

impl Config {
    /// The configuration file: `$XDG_CONFIG_HOME`, else `$HOME/.config`, else
    /// the working directory, and `roostbar/config.toml` below it. Paths are
    /// given and returned as their bytes.
    pub fn path(xdg_config_home: Option<Vec<u8>>, home: Option<Vec<u8>>) -> (path: Vec<u8>)
        ensures
            path@ == config_path(path_view(xdg_config_home), path_view(home)),
    {
        proof {
            reveal_strlit(".config");
            reveal_strlit(".");
            reveal_strlit("roostbar");
            reveal_strlit("config.toml");
        }
        let base = match xdg_config_home {
            Some(dir) => dir,
            None => match home {
                Some(home) => join_path(home, ".config"),
                None => {
                    let dot: Vec<u8> = Vec::new();
                    let dot = join_path(dot, ".");
                    assert(dot@ == ascii("."@));
                    dot
                },
            },
        };
        join_path(join_path(base, "roostbar"), "config.toml")
    }

    /// The settings to use: what the file says, or the defaults when it could
    /// not be read or is not a configuration.
    pub fn load(file: ConfigFile) -> (cfg: Config)
        ensures
            match file {
                ConfigFile::Parsed(read) => cfg == read,
                _ => cfg.is_default(),
            },
    {
        match file {
            ConfigFile::Parsed(cfg) => cfg,
            _ => Config::default(),
        }
    }
}

// ---------------------------------------------------------------------------
// Colours
// ---------------------------------------------------------------------------
/// `s` without its leading number signs.
pub open spec fn without_signs(s: Seq<char>) -> Seq<char>
    decreases s.len(),
{
    if s.len() > 0 && s[0] == '#' {
        without_signs(s.drop_first())
    } else {
        s
    }
}

/// The digits of a colour.
pub open spec fn color_digits(s: Seq<char>) -> Seq<char> {
    without_signs(text::trimmed(s))
}

/// The number that a colour's digits write; all ones if they are none.
pub open spec fn color_value(s: Seq<char>) -> nat {
    match text::number(color_digits(s), 16, 0xffff_ffff) {
        Some(v) => v,
        None => 0xffff_ffff,
    }
}

/// A colour's alpha, red, green and blue. Six digits have no alpha and are
/// opaque.
pub open spec fn argb_of(s: Seq<char>) -> Seq<u8> {
    let v = color_value(s);
    seq![
        if color_digits(s).len() == 6 {
            255
        } else {
            (v / 0x100_0000 % 256) as u8
        },
        (v / 0x1_0000 % 256) as u8,
        (v / 0x100 % 256) as u8,
        (v % 256) as u8,
    ]
}

/// `argb` with red, green and blue premultiplied by alpha.
pub open spec fn premultiplied_argb(argb: Seq<u8>) -> Seq<u8> {
    seq![
        argb[0],
        render::scaled(argb[1], argb[0]),
        render::scaled(argb[2], argb[0]),
        render::scaled(argb[3], argb[0]),
    ]
}

fn digits_of(s: &str) -> (r: String)
    ensures
        r@ == color_digits(s@),
{
    let t = text::trim(s);
    let v = text::chars(t.as_str());
    let mut i: usize = 0;
    assert(v@.skip(0) == v@);
    while i < v.len() && v[i] == '#'
        invariant
            i <= v@.len(),
            without_signs(v@.skip(i as int)) == without_signs(v@),
        decreases v@.len() - i,
    {
        assert(v@.skip(i as int).drop_first() == v@.skip(i + 1));
        i += 1;
    }
    assert(v@.subrange(i as int, v@.len() as int) == v@.skip(i as int));
    text::string_of(&v, i, v.len())
}

/// ARGB from "#RRGGBB" / "#AARRGGBB", not premultiplied: what
/// [`crate::render::Canvas`] draws with. Opaque white from anything else.
pub fn parse_argb(s: &str) -> (argb: [u8; 4])
    ensures
        argb@ == argb_of(s@),
{
    let hex = digits_of(s);
    let v: u64 = match text::parse_number(hex.as_str(), 16, 0xffff_ffff) {
        Some(v) => v,
        None => 0xffff_ffff,
    };
    let a: u8 = if hex.as_str().unicode_len() == 6 {
        255
    } else {
        (v / 0x100_0000 % 256) as u8
    };
    let argb = [a, (v / 0x1_0000 % 256) as u8, (v / 0x100 % 256) as u8, (v % 256) as u8];
    assert(argb@ == argb_of(s@));
    argb
}

/// Premultiplied ARGB from "#RRGGBB" / "#AARRGGBB".
pub fn parse_color(s: &str) -> (argb: [u8; 4])
    ensures
        argb@ == premultiplied_argb(argb_of(s@)),
{
    let c = parse_argb(s);
    let px = render::premul(c[0], c[1], c[2], c[3]);
    let argb = [px[3], px[2], px[1], px[0]];
    assert(argb@ == premultiplied_argb(argb_of(s@)));
    argb
}

/// The colours that the bar draws with, as [`parse_argb`] gives them.
pub struct Colors {
    pub bg: [u8; 4],
    pub fg: [u8; 4],
    pub accent: [u8; 4],
    pub muted: [u8; 4],
    pub warning: [u8; 4],
    pub charging: [u8; 4],
}

impl Colors {
    /// The colours that the settings name.
    pub open spec fn of(&self, cfg: &Config, extras: &Extras) -> bool {
        &&& self.bg@ == argb_of(cfg.background@)
        &&& self.fg@ == argb_of(cfg.foreground@)
        &&& self.accent@ == argb_of(cfg.accent@)
        &&& self.muted@ == argb_of(cfg.muted@)
        &&& self.warning@ == argb_of(cfg.warning@)
        &&& self.charging@ == argb_of(
            if text::trimmed(extras.charging@).len() == 0 {
                cfg.accent@
            } else {
                extras.charging@
            },
        )
    }

    pub fn from_config(cfg: &Config, extras: &Extras) -> (c: Self)
        ensures
            c.of(cfg, extras),
    {
        Colors {
            bg: parse_argb(cfg.background.as_str()),
            fg: parse_argb(cfg.foreground.as_str()),
            accent: parse_argb(cfg.accent.as_str()),
            muted: parse_argb(cfg.muted.as_str()),
            warning: parse_argb(cfg.warning.as_str()),
            charging: if text::trim(extras.charging.as_str()).as_str().is_empty() {
                parse_argb(cfg.accent.as_str())
            } else {
                parse_argb(extras.charging.as_str())
            },
        }
    }
}

// ---------------------------------------------------------------------------
// Geometry, and what an edit to the file changes
// ---------------------------------------------------------------------------
/// The edge of the screen that the bar is on.
#[derive(Clone, Copy, PartialEq, Eq, Debug, Structural)]
pub enum Edge {
    Top,
    Bottom,
}

/// What the compositor is asked for: full width, on one edge.
#[derive(Clone, Copy, PartialEq, Eq, Debug, Structural)]
pub struct Geometry {
    pub edge: Edge,
    pub height: u32,
    /// How much of the edge is kept clear of windows.
    pub exclusive_zone: i32,
}

/// The edge that a position names: "bottom", or the top for anything else.
pub open spec fn edge_of(position: Seq<char>) -> Edge {
    if position == "bottom"@ {
        Edge::Bottom
    } else {
        Edge::Top
    }
}

impl Config {
    /// The geometry that these settings ask for.
    pub open spec fn wants(&self) -> Geometry {
        Geometry {
            edge: edge_of(self.position@),
            height: self.height,
            exclusive_zone: if self.exclusive {
                self.height as i32
            } else {
                0
            },
        }
    }

    /// The edge that the bar is on.
    pub fn edge(&self) -> (e: Edge)
        ensures
            e == edge_of(self.position@),
    {
        if text::same(self.position.as_str(), "bottom") {
            Edge::Bottom
        } else {
            Edge::Top
        }
    }

    /// What to ask the compositor for.
    pub fn geometry(&self) -> (g: Geometry)
        ensures
            g == self.wants(),
    {
        Geometry {
            edge: self.edge(),
            height: self.height,
            exclusive_zone: if self.exclusive {
                #[verifier::truncate]
                (self.height as i32)
            } else {
                0
            },
        }
    }
}

/// A path by its components: whether it begins at the root, whether it begins
/// with a `.`, and the names in it. Doubled and trailing slashes and a `.`
/// further on say nothing.
pub struct PathView {
    pub rooted: bool,
    pub here: bool,
    pub names: Seq<Seq<char>>,
}

/// The name that stands between two slashes, if it is one.
pub open spec fn name_of(part: Seq<char>) -> Seq<Seq<char>> {
    if part.len() == 0 || part == seq!['.'] {
        seq![]
    } else {
        seq![part]
    }
}

/// The names in a path.
pub open spec fn names_in(path: Seq<char>) -> Seq<Seq<char>>
    decreases path.len(),
{
    match text::position(path, seq!['/']) {
        Some(i) => {
            proof {
                text::lemma_position_bound(path, seq!['/']);
            }
            name_of(path.take(i)) + names_in(path.skip(i + 1))
        },
        None => name_of(path),
    }
}

/// The components of a path.
pub open spec fn path_of(path: Seq<char>) -> PathView {
    PathView {
        rooted: path.len() > 0 && path[0] == '/',
        here: path.len() > 0 && path[0] == '.' && (path.len() == 1 || path[1] == '/'),
        names: names_in(path),
    }
}

/// The names in a path.
fn path_names(path: &str) -> (w: Vec<String>)
    ensures
        text::views(w@) == names_in(path@),
{
    let v = text::chars(path);
    let mut slash: Vec<char> = Vec::new();
    slash.push('/');
    let mut w: Vec<String> = Vec::new();
    let n: usize = v.len();
    let mut i: usize = 0;
    assert(slash@ == seq!['/']);
    assert(v@.skip(0) == v@);
    assert(text::views(w@) + names_in(v@) == names_in(v@));
    loop
        invariant
            i <= n,
            n == v@.len(),
            v@ == path@,
            slash@ == seq!['/'],
            text::views(w@) + names_in(v@.skip(i as int)) == names_in(path@),
        decreases v@.len() - i,
    {
        let ghost before = text::views(w@);
        let ghost rest = v@.skip(i as int);
        let found = text::find_in(&v, i, &slash);
        let end: usize = match found {
            Some(j) => j,
            None => n,
        };
        let part = text::string_of(&v, i, end);
        let plain = end == i || (end - i == 1 && v[i] == '.');
        proof {
            assert(part@ == rest.take(end - i));
            if part@ == seq!['.'] {
                assert(v@[i as int] == part@[0]);
            }
            if plain && end > i {
                assert(part@ =~= seq!['.']);
            }
        }
        if !plain {
            w.push(part);
            assert(text::views(w@) == before.push(part@));
        }
        assert(text::views(w@) =~= before + name_of(part@));
        match found {
            Some(j) => {
                proof {
                    assert(rest.skip(j - i + 1) == v@.skip(j + 1));
                    assert(names_in(rest) == name_of(part@) + names_in(v@.skip(j + 1)));
                    assert(before + names_in(rest) =~= text::views(w@) + names_in(v@.skip(j + 1)));
                }
                i = j + 1;
            },
            None => {
                proof {
                    assert(rest.take(rest.len() as int) == rest);
                }
                return w;
            },
        }
    }
}

/// Whether a path begins at the root, and whether it begins with a `.`.
fn path_start(path: &str) -> (r: (bool, bool))
    ensures
        r == (path_of(path@).rooted, path_of(path@).here),
{
    let v = text::chars(path);
    (
        v.len() > 0 && v[0] == '/',
        v.len() > 0 && v[0] == '.' && (v.len() == 1 || v[1] == '/'),
    )
}

/// Whether two paths are the same component by component.
pub fn same_path(a: &str, b: &str) -> (r: bool)
    ensures
        r == (path_of(a@) == path_of(b@)),
{
    let (rooted, here) = path_start(a);
    let (other_rooted, other_here) = path_start(b);
    rooted == other_rooted && here == other_here && text::same_list(&path_names(a), &path_names(b))
}

/// What has to be done again after an edit to the settings.
#[derive(Clone, Copy, PartialEq, Eq, Debug, Structural)]
pub struct Reload {
    /// Load the fonts again; one that does not load leaves the old ones.
    pub fonts: bool,
    /// Ask the compositor for this geometry.
    pub geometry: Option<Geometry>,
    /// Pick the audio backend again.
    pub audio: bool,
}

/// What an edit from `old` to `new` settings changes. `font_size_changed`
/// says whether the size of the type did.
pub fn reload(
    old: &Config,
    old_extras: &Extras,
    new: &Config,
    new_extras: &Extras,
    font_size_changed: bool,
) -> (r: Reload)
    ensures
        r.fonts == (path_of(new_extras.ui_font@) != path_of(old_extras.ui_font@) || path_of(
            new.font@,
        ) != path_of(old.font@) || font_size_changed),
        r.geometry == (if new.position@ != old.position@ || new.height != old.height
            || new.exclusive != old.exclusive {
            Some(new.wants())
        } else {
            None
        }),
        r.audio == (new.alsa_card@ != old.alsa_card@ || new.alsa_mixer@ != old.alsa_mixer@),
{
    let geometry = if new.position != old.position || new.height != old.height || new.exclusive
        != old.exclusive {
        Some(new.geometry())
    } else {
        None
    };
    Reload {
        fonts: !same_path(new_extras.ui_font.as_str(), old_extras.ui_font.as_str()) || !same_path(
            new.font.as_str(),
            old.font.as_str(),
        ) || font_size_changed,
        geometry,
        audio: new.alsa_card != old.alsa_card || new.alsa_mixer != old.alsa_mixer,
    }
}

// ---------------------------------------------------------------------------
// What holds of every colour
// ---------------------------------------------------------------------------
/// Text that is not a colour is opaque white, premultiplied or not.
pub proof fn law_bad_color_is_white(s: Seq<char>)
    requires
        text::number(color_digits(s), 16, 0xffff_ffff) is None,
    ensures
        argb_of(s) == seq![255u8, 255u8, 255u8, 255u8],
        premultiplied_argb(argb_of(s)) == argb_of(s),
{
    law_opaque_color_is_premultiplied(s);
}

/// A colour of six digits is opaque, and premultiplying an opaque colour
/// changes nothing.
pub proof fn law_opaque_color_is_premultiplied(s: Seq<char>)
    ensures
        color_digits(s).len() == 6 ==> argb_of(s)[0] == 255,
        argb_of(s)[0] == 255 ==> premultiplied_argb(argb_of(s)) == argb_of(s),
{
    let c = argb_of(s);
    if c[0] == 255 {
        assert(render::scaled(c[1], 255) == c[1]);
        assert(render::scaled(c[2], 255) == c[2]);
        assert(render::scaled(c[3], 255) == c[3]);
    }
}

/// No channel of a premultiplied colour exceeds its alpha.
pub proof fn law_premultiplied_within_alpha(argb: Seq<u8>)
    requires
        argb.len() == 4,
    ensures
        forall|k: int| 1 <= k < 4 ==> premultiplied_argb(argb)[k] <= argb[0],
{
    assert forall|c: u8, a: u8| #[trigger] render::scaled(c, a) <= a by {
        assert(0 <= c * a <= 255 * a) by (nonlinear_arith)
            requires
                0 <= c <= 255,
                0 <= a,
        ;
    }
}

// ---------------------------------------------------------------------------
// What holds of every setting
// ---------------------------------------------------------------------------
/// The settings are below the configuration directory where one is given,
/// whatever the home is; otherwise below `.config` in the home; always in
/// `roostbar/config.toml`, one separator before it.
pub proof fn law_config_path(dir: Seq<u8>, home: Seq<u8>, other: Option<Seq<u8>>)
    ensures
        config_path(Some(dir), Some(home)) == config_path(Some(dir), other),
        config_path(None, Some(home)) == config_path(Some(below(home, ascii(".config"@))), other),
        config_path(None, None) == config_path(Some(ascii("."@)), other),
        ({
            let tail = ascii("roostbar/config.toml"@);
            let path = config_path(Some(dir), other);
            &&& dir.len() > 0 && dir.last() != 0x2f ==> path == dir + seq![0x2fu8] + tail
            &&& dir.len() == 0 || dir.last() == 0x2f ==> path == dir + tail
        }),
{
    reveal_strlit("roostbar/config.toml");
    reveal_strlit("roostbar");
    reveal_strlit("config.toml");
    let tail = ascii("roostbar/config.toml"@);
    let a = ascii("roostbar"@);
    let b = ascii("config.toml"@);
    assert(a.len() == 8 && a.last() == 0x72u8);
    assert(tail =~= a.push(0x2f) + b);
    let path = config_path(Some(dir), other);
    let base = below(dir, a);
    assert(base.last() == a.last());
    assert(path == base.push(0x2f) + b);
    if dir.len() > 0 && dir.last() != 0x2f {
        assert(path =~= dir + seq![0x2fu8] + tail);
    } else {
        assert(path =~= dir + tail);
    }
}

/// A path that is joined begins with the one and ends in the other, with one
/// separator between them unless the one is empty or has it.
pub proof fn law_below(base: Seq<u8>, name: Seq<u8>)
    ensures
        below(Seq::empty(), name) == name,
        base.len() > 0 && base.last() == 0x2f ==> below(base, name) == base + name,
        base.len() > 0 && base.last() != 0x2f ==> below(base, name) == base + seq![0x2fu8] + name,
{
    assert(Seq::<u8>::empty() + name =~= name);
    assert(base.push(0x2f) + name =~= base + seq![0x2fu8] + name);
}

/// What is read is used as it is; anything else means the settings without a
/// file, whatever went wrong.
pub proof fn law_load(file: ConfigFile, cfg: Config)
    requires
        call_ensures(Config::load, (file,), cfg),
    ensures
        file matches ConfigFile::Parsed(read) ==> cfg == read,
        !(file is Parsed) ==> {
            &&& cfg.is_default()
            &&& cfg.position@ == "top"@ && cfg.height == 26 && cfg.exclusive
            &&& cfg.font@ == "/usr/share/fonts/JetBrainsMonoNerdFontMono-Regular.ttf"@
            &&& cfg.background@ == "#D916161F"@ && cfg.foreground@ == "#C0CAF5"@
            &&& cfg.accent@ == "#7AA2F7"@ && cfg.muted@ == "#565F89"@ && cfg.warning@ == "#F7768E"@
            &&& cfg.padding == 12 && cfg.gap == 18
            &&& cfg.clock_format@ == "%H:%M"@ && cfg.date_format@ == "%a %d %b"@ && cfg.show_date
            &&& cfg.start_pipewire && cfg.alsa_card@.len() == 0 && cfg.alsa_mixer@ == "Master"@
            &&& cfg.volume_step == 5 && cfg.bluetooth_device@.len() == 0
            &&& cfg.battery@ == "BAT0"@ && cfg.wifi_interface@.len() == 0
        },
{
}

/// The digits of a colour are what is left of it without the white space around
/// it and the number signs before it; those do not matter, however many.
pub proof fn law_color_digits(s: Seq<char>)
    ensures
        ({
            let t = text::trimmed(s);
            let d = color_digits(s);
            &&& d.len() <= t.len() && d == t.skip(t.len() - d.len())
            &&& forall|i: int| 0 <= i < t.len() - d.len() ==> #[trigger] t[i] == '#'
            &&& d.len() > 0 ==> d[0] != '#'
        }),
{
    lemma_without_signs(text::trimmed(s));
}

proof fn lemma_without_signs(t: Seq<char>)
    ensures
        ({
            let d = without_signs(t);
            &&& d.len() <= t.len() && d == t.skip(t.len() - d.len())
            &&& forall|i: int| 0 <= i < t.len() - d.len() ==> #[trigger] t[i] == '#'
            &&& d.len() > 0 ==> d[0] != '#'
        }),
    decreases t.len(),
{
    if t.len() > 0 && t[0] == '#' {
        let rest = t.drop_first();
        lemma_without_signs(rest);
        let d = without_signs(rest);
        assert(d =~= t.skip(t.len() - d.len()));
        assert forall|i: int| 0 <= i < t.len() - d.len() implies #[trigger] t[i] == '#' by {
            if i > 0 {
                assert(rest[i - 1] == t[i]);
            }
        }
    } else {
        assert(t.skip(0) =~= t);
    }
}

/// A colour is the number that its digits write: red, green and blue are its
/// last three bytes, and alpha the one before them, but for six digits, which
/// are opaque.
pub proof fn law_color_is_its_number(s: Seq<char>, v: nat)
    requires
        text::number(color_digits(s), 16, 0xffff_ffff) == Some(v),
    ensures
        ({
            let c = argb_of(s);
            &&& c.len() == 4
            &&& color_digits(s).len() == 6 ==> c[0] == 255
            &&& color_digits(s).len() != 6 ==> c[0] * 0x100_0000 + c[1] * 0x1_0000 + c[2] * 0x100
                + c[3] == v
            &&& c[1] * 0x1_0000 + c[2] * 0x100 + c[3] == v % 0x100_0000
        }),
{
    assert(v <= 0xffff_ffff);
}

/// Two texts of the same digits are the same colour, whatever white space and
/// however many number signs they have.
pub proof fn law_same_digits_same_color(s: Seq<char>, t: Seq<char>)
    requires
        color_digits(s) == color_digits(t),
    ensures
        argb_of(s) == argb_of(t),
{
}

/// Each colour that the bar draws with is that of its own setting; a charging
/// colour that is blank is the accent.
pub proof fn law_colors(cfg: &Config, extras: &Extras, c: Colors)
    requires
        call_ensures(Colors::from_config, (cfg, extras), c),
    ensures
        c.bg@ == argb_of(cfg.background@),
        c.fg@ == argb_of(cfg.foreground@),
        c.accent@ == argb_of(cfg.accent@),
        c.muted@ == argb_of(cfg.muted@),
        c.warning@ == argb_of(cfg.warning@),
        text::is_blank(extras.charging@) ==> c.charging@ == c.accent@,
        !text::is_blank(extras.charging@) ==> c.charging@ == argb_of(extras.charging@),
{
    let s = extras.charging@;
    let t = text::trimmed(s);
    text::law_trimmed(s);
    let (a, b) = choose|a: Seq<char>, b: Seq<char>|
        text::is_blank(a) && text::is_blank(b) && s == #[trigger] (a + t + b);
    if text::is_blank(s) && t.len() > 0 {
        assert(s[a.len() as int] == t[0]);
    }
    if t.len() == 0 {
        assert forall|i: int| 0 <= i < s.len() implies text::is_space(#[trigger] s[i]) by {
            if i < a.len() {
                assert(s[i] == a[i]);
            } else {
                assert(s[i] == b[i - a.len()]);
            }
        }
    }
}

/// The bar is at the bottom exactly if the setting says so; it is as high as
/// the setting says, and keeps that much clear of windows exactly if it is to.
pub proof fn law_geometry(cfg: &Config, g: Geometry)
    requires
        call_ensures(Config::geometry, (cfg,), g),
    ensures
        g.edge == Edge::Bottom <==> cfg.position@ == "bottom"@,
        g.height == cfg.height,
        !cfg.exclusive ==> g.exclusive_zone == 0,
        cfg.exclusive && cfg.height <= i32::MAX ==> g.exclusive_zone == cfg.height,
{
}

/// An edit has the geometry asked for again exactly if it changed the edge's
/// name, the height or the space that is kept, and then as it is now; the
/// backend picked again exactly if it changed the card or the mixer; and the
/// fonts loaded again exactly if it changed a file or the size. An edit that
/// changed none of these asks for nothing.
pub proof fn law_reload(
    old: &Config,
    old_extras: &Extras,
    new: &Config,
    new_extras: &Extras,
    sized: bool,
    r: Reload,
)
    requires
        call_ensures(reload, (old, old_extras, new, new_extras, sized), r),
    ensures
        r.geometry is Some <==> new.position@ != old.position@ || new.height != old.height
            || new.exclusive != old.exclusive,
        r.geometry matches Some(g) ==> g.height == new.height && g.edge == edge_of(new.position@)
            && (new.exclusive || g.exclusive_zone == 0),
        r.audio <==> new.alsa_card@ != old.alsa_card@ || new.alsa_mixer@ != old.alsa_mixer@,
        sized ==> r.fonts,
        new.font@ == old.font@ && new_extras.ui_font@ == old_extras.ui_font@ && !sized ==> !r.fonts,
        path_of(new.font@) == path_of(old.font@) && path_of(new_extras.ui_font@) == path_of(
            old_extras.ui_font@,
        ) ==> r.fonts == sized,
        path_of(new.font@) != path_of(old.font@) ==> r.fonts,
        path_of(new_extras.ui_font@) != path_of(old_extras.ui_font@) ==> r.fonts,
{
}

/// The names in a path are those before a slash and then those behind it; what
/// holds no slash is one name, unless it is empty or a dot.
pub proof fn law_path_names(a: Seq<char>, b: Seq<char>)
    ensures
        names_in(a + seq!['/'] + b) == names_in(a) + names_in(b),
        !a.contains('/') ==> names_in(a) == if a.len() == 0 || a == seq!['.'] {
            Seq::<Seq<char>>::empty()
        } else {
            seq![a]
        },
    decreases a.len(),
{
    let s = a + seq!['/'] + b;
    if !a.contains('/') {
        text::lemma_position_of(a, '/', b);
        text::lemma_no_position_of(a, '/');
        assert(s.take(a.len() as int) =~= a);
        assert(s.skip(a.len() as int + 1) =~= b);
    } else {
        text::lemma_position_bound(a, seq!['/']);
        let at = choose|k: int| 0 <= k < a.len() && a[k] == '/';
        assert(a.skip(at).take(1) =~= seq!['/']);
        assert(text::begins(a.skip(at), seq!['/']));
        assert(text::position(a, seq!['/']) is Some);
        let i = text::position(a, seq!['/']).unwrap();
        let front = a.take(i);
        let rest = a.skip(i + 1);
        assert(a.subrange(i, i + 1)[0] == '/');
        assert(a[i] == '/');
        if front.contains('/') {
            let j = choose|j: int| 0 <= j < front.len() && front[j] == '/';
            assert(a[j] == '/');
            assert(a.skip(j).take(1) =~= seq!['/']);
            assert(text::begins(a.skip(j), seq!['/']));
        }
        assert(s =~= front + seq!['/'] + (rest + seq!['/'] + b));
        text::lemma_position_of(front, '/', rest + seq!['/'] + b);
        assert(s.take(i) =~= front);
        assert(s.skip(i + 1) =~= rest + seq!['/'] + b);
        law_path_names(rest, b);
        assert(names_in(s) =~= names_in(a) + names_in(b));
    }
}

/// Doubled slashes, a trailing one, and a dot between two make no other path.
pub proof fn law_same_path(a: Seq<char>, b: Seq<char>)
    requires
        a.len() > 1,
    ensures
        path_of(a + seq!['/'] + (seq!['/'] + b)) == path_of(a + seq!['/'] + b),
        path_of(a + seq!['/']) == path_of(a),
        path_of(a + seq!['/'] + (seq!['.', '/'] + b)) == path_of(a + seq!['/'] + b),
{
    let none = Seq::<char>::empty();
    assert(!none.contains('/'));
    law_path_names(none, b);
    assert(none + seq!['/'] + b =~= seq!['/'] + b);
    assert(names_in(none) + names_in(b) =~= names_in(b));
    law_path_names(a, seq!['/'] + b);
    law_path_names(a, b);
    law_path_names(a, none);
    assert(a + seq!['/'] + none =~= a + seq!['/']);
    law_path_names(none, none);
    assert(names_in(a) + names_in(none) =~= names_in(a));
    let dot = seq!['.'];
    assert(!dot.contains('/')) by {
        assert forall|i: int| 0 <= i < dot.len() implies dot[i] != '/' by {}
    }
    law_path_names(dot, b);
    assert(dot + seq!['/'] + b =~= seq!['.', '/'] + b);
    law_path_names(a, seq!['.', '/'] + b);
    let x = path_of(a + seq!['/'] + (seq!['/'] + b));
    let y = path_of(a + seq!['/'] + b);
    let z = path_of(a + seq!['/'] + (seq!['.', '/'] + b));
    assert(x.names =~= y.names);
    assert(z.names =~= y.names);
    assert((a + seq!['/'] + (seq!['/'] + b))[1] == (a + seq!['/'] + b)[1]);
    assert(path_of(a + seq!['/']).names =~= path_of(a).names);
}

/// A premultiplied colour has the alpha of the colour, and each other channel
/// is the nearest to its share of that.
pub proof fn law_parse_color(s: &str, argb: [u8; 4], c: [u8; 4])
    requires
        call_ensures(parse_argb, (s,), c),
        call_ensures(parse_color, (s,), argb),
    ensures
        argb@[0] == c@[0],
        forall|k: int|
            1 <= k < 4 ==> -127 <= 255 * #[trigger] argb@[k] - c@[k] * c@[0] <= 127,
{
    assert forall|k: int| 1 <= k < 4 implies -127 <= 255 * #[trigger] argb@[k] - c@[k] * c@[0]
        <= 127 by {
        render::law_scaled_is_nearest(c@[k], c@[0]);
        assert(argb@[k] == render::scaled(c@[k], c@[0]));
    }
}

/// A path begins at the root exactly if its first character is a slash, and
/// with a `.` exactly if that is all of its first part: a name that begins with
/// one, such as a hidden file's, is a name.
pub proof fn law_path_start(a: Seq<char>, b: Seq<char>)
    requires
        !a.contains('/'),
    ensures
        path_of(seq!['/'] + b).rooted,
        !path_of(a).rooted,
        a.len() > 0 ==> !path_of(a + seq!['/'] + b).rooted,
        path_of(a).here <==> a == seq!['.'],
        path_of(a + seq!['/'] + b).here <==> a == seq!['.'],
{
    if a.len() > 0 {
        assert(a.contains(a[0]));
        assert((a + seq!['/'] + b)[0] == a[0]);
    }
    if a.len() > 1 {
        assert(a.contains(a[1]));
        assert((a + seq!['/'] + b)[1] == a[1]);
    }
    if a.len() == 1 && a[0] == '.' {
        assert(a =~= seq!['.']);
        assert((a + seq!['/'] + b)[1] == '/');
    }
    if a.len() == 0 {
        assert((a + seq!['/'] + b)[0] == '/');
    }
}

} // verus!
