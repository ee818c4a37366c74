//! The volume, the ALSA fallback's arithmetic, and the choice between
//! PipeWire and ALSA.
use vstd::prelude::*;

use crate::text;

verus! {

#[derive(Clone, Copy, PartialEq, Eq, Debug, Structural)]
pub struct Volume {
    pub percent: i64,
    pub muted: bool,
}

// ---------------------------------------------------------------------------
// The ALSA mixer element
// ---------------------------------------------------------------------------
/// `n / d` rounded towards zero, for a positive `d`.
pub open spec fn quotient(n: int, d: int) -> int {
    if n >= 0 {
        n / d
    } else {
        -((-n) / d)
    }
}

/// `n` kept within 0 to 100.
pub open spec fn within_percent(n: int) -> int {
    if n < 0 {
        0
    } else if n > 100 {
        100
    } else {
        n
    }
}

/// A raw volume as a percentage of the range `lo..=hi`, rounded to the
/// nearest; 0 for a range that is none.
pub open spec fn percent_of(lo: int, hi: int, v: int) -> int {
    if hi > lo {
        quotient((v - lo) * 100 + (hi - lo) / 2, hi - lo)
    } else {
        0
    }
}

/// The raw volume at a percentage of the range `lo..=hi`, rounded to the
/// nearest.
pub open spec fn raw_of(lo: int, hi: int, percent: int) -> int {
    lo + quotient((hi - lo) * percent + 50, 100)
}

/// `n` is a 64-bit number.
pub open spec fn fits(n: int) -> bool {
    i64::MIN <= n <= i64::MAX
}

/// Nothing that [`percent_of`] adds up on the way overflows.
pub open spec fn percent_fits(lo: int, hi: int, v: int) -> bool {
    hi > lo ==> fits(hi - lo) && fits(v - lo) && fits((v - lo) * 100) && fits(
        (v - lo) * 100 + (hi - lo) / 2,
    )
}

fn divide(n: i64, d: i64) -> (q: i64)
    requires
        d > 0,
    ensures
        q == quotient(n as int, d as int),
{
    n / d
}

fn wide_divide(n: i128, d: i128) -> (q: i128)
    requires
        d > 0,
    ensures
        q == quotient(n as int, d as int),
{
    n / d
}

fn is_fit(n: i128) -> (r: bool)
    ensures
        r == fits(n as int),
{
    i64::MIN as i128 <= n && n <= i64::MAX as i128
}

fn percent_is_fit(lo: i64, hi: i64, v: i64) -> (r: bool)
    ensures
        r == percent_fits(lo as int, hi as int, v as int),
{
    let range: i128 = hi as i128 - lo as i128;
    let above: i128 = v as i128 - lo as i128;
    hi <= lo || (is_fit(range) && is_fit(above) && is_fit(above * 100) && is_fit(
        above * 100 + range / 2,
    ))
}

/// The percentage that a raw volume is of its range.
pub fn alsa_percent(lo: i64, hi: i64, v: i64) -> (p: i64)
    requires
        percent_fits(lo as int, hi as int, v as int),
    ensures
        p == percent_of(lo as int, hi as int, v as int),
{
    if hi > lo {
        divide((v - lo) * 100 + (hi - lo) / 2, hi - lo)
    } else {
        0
    }
}

/// What a mixer element says: its range, its volume, and its playback switch.
/// `volume` and `switch` are `None` when they could not be read.
#[derive(Clone, Copy, PartialEq, Eq, Debug, Structural)]
pub struct Audio {
    pub lo: i64,
    pub hi: i64,
    pub volume: Option<i64>,
    pub has_switch: bool,
    pub switch: Option<i32>,
}

impl Audio {
    /// The volume that the bar shows for the element: none when it could not
    /// be read. A switch that is off means muted.
    pub open spec fn shown(self) -> Option<Volume> {
        match self.volume {
            Some(v) => Some(
                Volume {
                    percent: percent_of(self.lo as int, self.hi as int, v as int) as i64,
                    muted: self.has_switch && self.switch == Some(0i32),
                },
            ),
            None => None,
        }
    }

    /// The raw volume that a change is counted from: the bottom of the range
    /// when it could not be read.
    pub open spec fn current(self) -> int {
        match self.volume {
            Some(v) => v as int,
            None => self.lo as int,
        }
    }

    /// The percentage that a change by `delta` leads to.
    pub open spec fn target_percent(self, delta: int) -> int {
        within_percent(percent_of(self.lo as int, self.hi as int, self.current()) + delta)
    }

    /// The switch position that muting or unmuting leads to: the other one, a
    /// switch that could not be read counting as on. None without a switch.
    pub open spec fn toggled(self) -> Option<i32> {
        if !self.has_switch {
            None
        } else if self.switch == Some(0i32) {
            Some(1)
        } else {
            Some(0)
        }
    }

    /// Nothing overflows when the volume is read.
    pub open spec fn readable(self) -> bool {
        self.volume matches Some(v) ==> percent_fits(self.lo as int, self.hi as int, v as int)
    }

    /// Nothing overflows when the volume is changed by `delta`.
    pub open spec fn adjustable(self, delta: int) -> bool {
        let p = self.target_percent(delta);
        &&& percent_fits(self.lo as int, self.hi as int, self.current())
        &&& fits(percent_of(self.lo as int, self.hi as int, self.current()) + delta)
        &&& fits(self.hi - self.lo)
        &&& fits((self.hi - self.lo) * p)
        &&& fits((self.hi - self.lo) * p + 50)
        &&& fits(raw_of(self.lo as int, self.hi as int, p))
    }

    /// Whether the volume can be read without an overflow.
    pub fn can_get(&self) -> (r: bool)
        ensures
            r == self.readable(),
    {
        match self.volume {
            Some(v) => percent_is_fit(self.lo, self.hi, v),
            None => true,
        }
    }

    /// Whether the volume can be changed by `delta_percent` without an
    /// overflow.
    pub fn can_adjust(&self, delta_percent: i64) -> (r: bool)
        ensures
            r == self.adjustable(delta_percent as int),
    {
        let v: i64 = match self.volume {
            Some(v) => v,
            None => self.lo,
        };
        if !percent_is_fit(self.lo, self.hi, v) {
            return false;
        }
        let range: i128 = self.hi as i128 - self.lo as i128;
        let wanted: i128 = alsa_percent(self.lo, self.hi, v) as i128 + delta_percent as i128;
        let p: i128 = if wanted < 0 {
            0
        } else if wanted > 100 {
            100
        } else {
            wanted
        };
        assert(-0x1_0000_0000_0000_0000 * 100 <= range * p <= 0x1_0000_0000_0000_0000 * 100)
            by (nonlinear_arith)
            requires
                -0x1_0000_0000_0000_0000 <= range <= 0x1_0000_0000_0000_0000,
                0 <= p <= 100,
        ;
        let part: i128 = range * p + 50;
        let raw: i128 = self.lo as i128 + wide_divide(part, 100);
        is_fit(wanted) && is_fit(range) && is_fit(part - 50) && is_fit(part) && is_fit(raw)
    }

    /// The volume that the bar shows.
    pub fn get(&self) -> (r: Option<Volume>)
        requires
            self.readable(),
        ensures
            r == self.shown(),
    {
        match self.volume {
            Some(v) => Some(
                Volume {
                    percent: alsa_percent(self.lo, self.hi, v),
                    muted: self.has_switch && match self.switch {
                        Some(x) => x == 0,
                        None => false,
                    },
                },
            ),
            None => None,
        }
    }

    /// The raw volume to set, and the switch position if it is to be set too,
    /// for a change by `delta_percent`. Turning the volume up while muted
    /// unmutes -- that is what people mean.
    pub fn adjust(&self, delta_percent: i64) -> (r: (i64, Option<i32>))
        requires
            self.adjustable(delta_percent as int),
        ensures
            r.0 == raw_of(
                self.lo as int,
                self.hi as int,
                self.target_percent(delta_percent as int),
            ),
            r.1 == (if delta_percent > 0 && self.has_switch {
                Some(1i32)
            } else {
                None
            }),
    {
        let cur: i64 = match self.volume {
            Some(v) => v,
            None => self.lo,
        };
        let wanted: i64 = alsa_percent(self.lo, self.hi, cur) + delta_percent;
        let p: i64 = if wanted < 0 {
            0
        } else if wanted > 100 {
            100
        } else {
            wanted
        };
        let raw: i64 = self.lo + divide((self.hi - self.lo) * p + 50, 100);
        (
            raw,
            if delta_percent > 0 && self.has_switch {
                Some(1)
            } else {
                None
            },
        )
    }

    /// The switch position to set to mute or unmute.
    pub fn toggle_mute(&self) -> (r: Option<i32>)
        ensures
            r == self.toggled(),
    {
        if !self.has_switch {
            return None;
        }
        let on: i32 = match self.switch {
            Some(x) => x,
            None => 1,
        };
        Some(
            if on == 0 {
                1
            } else {
                0
            },
        )
    }
}

// ---------------------------------------------------------------------------
// Which card
// ---------------------------------------------------------------------------
/// What a card turned out to be.
#[derive(Clone, Copy, PartialEq, Eq, Debug, Structural)]
pub enum Probe {
    /// It cannot be opened, or its mixer element has no playback volume.
    Absent,
    /// It has the element.
    Plain,
    /// It has the element and a Speaker or Headphone one: the laptop codec
    /// rather than HDMI.
    Analog,
}

/// The first card in `probes` that is a `p`.
pub open spec fn first(probes: Seq<Probe>, p: Probe) -> Option<int>
    decreases probes.len(),
{
    if probes.len() == 0 {
        None
    } else {
        match first(probes.drop_last(), p) {
            Some(i) => Some(i),
            None => if probes.last() == p {
                Some(probes.len() - 1)
            } else {
                None
            },
        }
    }
}

/// The card to use: the first analog one, else the first that has the element.
pub open spec fn chosen(probes: Seq<Probe>) -> Option<int> {
    match first(probes, Probe::Analog) {
        Some(i) => Some(i),
        None => first(probes, Probe::Plain),
    }
}

/// What to do with the card that was just tried.
#[derive(Clone, Copy, PartialEq, Eq, Debug, Structural)]
pub enum Verdict {
    /// Use it, and try no more.
    Use,
    /// Keep it in case no analog one turns up.
    Keep,
    Discard,
}

/// How many cards there are to try: the configured one alone, or hw:0..hw:7
/// where none is.
pub open spec fn cards(card: Seq<char>) -> nat {
    if card.len() > 0 {
        1
    } else {
        8
    }
}

/// The `i`-th card to try.
pub open spec fn card_name(card: Seq<char>, i: nat) -> Seq<char> {
    if card.len() > 0 {
        card
    } else {
        "hw:"@ + text::decimal(i)
    }
}

/// The card to use of those that turned out to be `probes`: the configured one
/// whatever else it has, else as [`chosen`].
pub open spec fn picked(card: Seq<char>, probes: Seq<Probe>) -> Option<int> {
    if card.len() > 0 {
        if probes.len() > 0 && probes[0] != Probe::Absent {
            Some(0)
        } else {
            None
        }
    } else {
        chosen(probes)
    }
}

/// The search for a card that has the mixer element: the configured card, or
/// a scan of hw:0..hw:7 for the first one, preferring one that also has a
/// Speaker or Headphone element.
pub struct CardScan {
    /// The configured card. Empty = scan.
    pub card: String,
    /// What the cards tried so far turned out to be.
    pub probes: Vec<Probe>,
    /// A card has been kept.
    pub kept: bool,
}

impl CardScan {
    /// No card has been settled on, and the first usable one of a scan was
    /// kept.
    pub open spec fn is_open(&self) -> bool {
        &&& self.probes@.len() <= cards(self.card@)
        &&& if self.card@.len() > 0 {
            picked(self.card@, self.probes@) is None && !self.kept
        } else {
            &&& first(self.probes@, Probe::Analog) is None
            &&& self.kept == (first(self.probes@, Probe::Plain) is Some)
        }
    }

    /// No card has been tried. `card` is the configured one, if any.
    pub fn new(card: String) -> (s: Self)
        ensures
            s.is_open(),
            s.card@ == card@,
            s.probes@.len() == 0,
    {
        CardScan { card, probes: Vec::new(), kept: false }
    }

    /// The next card to try, if there is one.
    pub fn next_card(&self) -> (r: Option<String>)
        requires
            self.is_open(),
        ensures
            match r {
                Some(name) => self.probes@.len() < cards(self.card@) && name@ == card_name(
                    self.card@,
                    self.probes@.len(),
                ),
                None => self.probes@.len() == cards(self.card@),
            },
    {
        let n: usize = self.probes.len();
        if !self.card.as_str().is_empty() {
            if n == 0 {
                Some(self.card.clone())
            } else {
                None
            }
        } else if n < 8 {
            Some(text::concat("hw:", text::decimal_of(n as u64).as_str()))
        } else {
            None
        }
    }

    /// Record what the card just tried turned out to be, and say what to do
    /// with it.
    pub fn record(&mut self, p: Probe) -> (v: Verdict)
        requires
            old(self).is_open(),
            old(self).probes@.len() < cards(old(self).card@),
        ensures
            final(self).card@ == old(self).card@,
            final(self).probes@ == old(self).probes@.push(p),
            v == Verdict::Use <==> p == Probe::Analog || (p == Probe::Plain && old(
                self,
            ).card@.len() > 0),
            v == Verdict::Keep <==> p == Probe::Plain && old(self).card@.len() == 0 && first(
                old(self).probes@,
                Probe::Plain,
            ) is None,
            v != Verdict::Discard ==> picked(old(self).card@, final(self).probes@) == Some(
                old(self).probes@.len() as int,
            ),
            v == Verdict::Discard ==> picked(old(self).card@, final(self).probes@) == picked(
                old(self).card@,
                old(self).probes@,
            ),
            v != Verdict::Use ==> final(self).is_open(),
    {
        self.probes.push(p);
        assert(self.probes@.drop_last() == old(self).probes@);
        let configured = !self.card.as_str().is_empty();
        match p {
            Probe::Analog => Verdict::Use,
            Probe::Plain => {
                if configured {
                    Verdict::Use
                } else if self.kept {
                    Verdict::Discard
                } else {
                    self.kept = true;
                    Verdict::Keep
                }
            },
            Probe::Absent => Verdict::Discard,
        }
    }
}

// ---------------------------------------------------------------------------
// Which backend
// ---------------------------------------------------------------------------
/// Where the volume comes from.
#[derive(Clone, Copy, PartialEq, Eq, Debug, Structural)]
pub enum AudioBackend {
    PipeWire,
    Alsa,
    /// There is none.
    Missing,
}

impl AudioBackend {
    pub open spec fn called(self) -> Seq<char> {
        match self {
            AudioBackend::PipeWire => "PipeWire"@,
            AudioBackend::Alsa => "ALSA"@,
            AudioBackend::Missing => "none"@,
        }
    }

    pub fn name(&self) -> (s: &'static str)
        ensures
            s@ == self.called(),
    {
        match self {
            AudioBackend::PipeWire => "PipeWire",
            AudioBackend::Alsa => "ALSA",
            AudioBackend::Missing => "none",
        }
    }

    /// Pick the best backend available right now. PipeWire wins when it is
    /// running *and* actually has a sink (a daemon without pipewire-audio
    /// installed has none); otherwise plain ALSA on the laptop codec.
    pub fn select(pipewire_has_sinks: bool, alsa_opens: bool) -> (b: Self)
        ensures
            b == (if pipewire_has_sinks {
                AudioBackend::PipeWire
            } else if alsa_opens {
                AudioBackend::Alsa
            } else {
                AudioBackend::Missing
            }),
    {
        if pipewire_has_sinks {
            AudioBackend::PipeWire
        } else if alsa_opens {
            AudioBackend::Alsa
        } else {
            AudioBackend::Missing
        }
    }

    /// Whether to pick again: PipeWire may have come up (packages installed,
    /// daemon started) or gone away since the bar last looked.
    pub fn should_reselect(&self, pipewire_alive: bool, pipewire_socket: bool) -> (r: bool)
        ensures
            r == match *self {
                AudioBackend::PipeWire => !pipewire_alive,
                AudioBackend::Alsa => pipewire_socket,
                AudioBackend::Missing => true,
            },
    {
        match self {
            AudioBackend::PipeWire => !pipewire_alive,
            AudioBackend::Alsa => pipewire_socket,
            AudioBackend::Missing => true,
        }
    }

    /// Whether the newly picked `next` takes over: it is another backend, or
    /// a new connection to PipeWire.
    pub fn is_replaced_by(&self, next: AudioBackend) -> (r: bool)
        ensures
            r == (next != *self || next == AudioBackend::PipeWire),
    {
        next != *self || next == AudioBackend::PipeWire
    }
}

// ---------------------------------------------------------------------------
// `roostbar vol ...`
// ---------------------------------------------------------------------------
/// What `roostbar vol` prints: the percentage, whether it is muted, and the
/// backend.
pub open spec fn volume_line(v: Volume, backend: AudioBackend) -> Seq<char> {
    text::decimal_signed(v.percent as int) + "%"@ + (if v.muted {
        " muted"@
    } else {
        Seq::empty()
    }) + " ("@ + backend.called() + ")"@
}

/// What `roostbar vol` prints, and the code it exits with: a volume and 0, or
/// "no audio" and 1.
pub fn report(volume: Option<Volume>, backend: AudioBackend) -> (r: (String, i32))
    ensures
        match volume {
            Some(v) => r.0@ == volume_line(v, backend) && r.1 == 0,
            None => r.0@ == "no audio"@ && r.1 == 1,
        },
{
    match volume {
        Some(v) => {
            let mut s = text::decimal_of_signed(v.percent);
            s.append("%");
            if v.muted {
                s.append(" muted");
            } else {
                assert(s@ + Seq::<char>::empty() == s@);
            }
            s.append(" (");
            s.append(backend.name());
            s.append(")");
            (s, 0)
        },
        None => ("no audio".to_owned(), 1),
    }
}

// ---------------------------------------------------------------------------
// What holds of every mixer element
// ---------------------------------------------------------------------------
/// A percentage set on a range of at least a hundred steps reads back as
/// itself.
pub proof fn law_percent_round_trips(lo: int, hi: int, p: int)
    requires
        hi - lo >= 100,
        0 <= p <= 100,
    ensures
        percent_of(lo, hi, raw_of(lo, hi, p)) == p,
        lo <= raw_of(lo, hi, p) <= hi,
{
    let r = hi - lo;
    assert(0 <= r * p) by (nonlinear_arith)
        requires
            0 <= r,
            0 <= p,
    ;
    assert(r * p <= r * 100) by (nonlinear_arith)
        requires
            0 <= r,
            p <= 100,
    ;
    let x = (r * p + 50) / 100;
    assert(x * 100 <= r * p + 50 < x * 100 + 100);
    assert(raw_of(lo, hi, p) - lo == x);
    let n = x * 100 + r / 2;
    assert(p * r == r * p) by (nonlinear_arith);
    if r == 100 {
        assert(x == p);
    }
    let e = n - p * r;
    assert(0 <= e < r);
    vstd::arithmetic::div_mod::lemma_fundamental_div_mod_converse(n, r, p, e);
}

/// Turning the volume up never lowers it, turning it down never raises it,
/// and the result is within the range.
pub proof fn law_adjust_direction(e: Audio, delta: int)
    requires
        e.hi > e.lo,
        e.lo <= e.current() <= e.hi,
    ensures
        ({
            let p = percent_of(e.lo as int, e.hi as int, e.current());
            let t = e.target_percent(delta);
            &&& 0 <= p <= 100
            &&& 0 <= t <= 100
            &&& delta >= 0 ==> t >= p
            &&& delta <= 0 ==> t <= p
            &&& e.lo <= raw_of(e.lo as int, e.hi as int, t) <= e.hi
        }),
{
    let r = e.hi - e.lo;
    let d = e.current() - e.lo;
    let n = d * 100 + r / 2;
    assert(0 <= n / r <= 100) by (nonlinear_arith)
        requires
            0 <= d <= r,
            r > 0,
            n == d * 100 + r / 2,
    ;
    let t = e.target_percent(delta);
    assert(0 <= r * t <= r * 100) by (nonlinear_arith)
        requires
            0 <= r,
            0 <= t <= 100,
    ;
}

/// Muting or unmuting flips what the bar shows, and doing it twice puts a
/// switch that is on or off back where it was.
pub proof fn law_toggle_mute_twice(e: Audio)
    requires
        e.has_switch,
        e.switch == Some(0i32) || e.switch == Some(1i32),
        e.volume is Some,
    ensures
        ({
            let once = Audio { switch: e.toggled(), ..e };
            let twice = Audio { switch: once.toggled(), ..once };
            &&& once.shown().unwrap().muted == !e.shown().unwrap().muted
            &&& once.shown().unwrap().percent == e.shown().unwrap().percent
            &&& twice == e
        }),
{
}

/// Once an analog card is found, no later card is chosen instead.
pub proof fn law_analog_settles(probes: Seq<Probe>, more: Seq<Probe>)
    requires
        first(probes, Probe::Analog) is Some,
    ensures
        first(probes + more, Probe::Analog) == first(probes, Probe::Analog),
        chosen(probes + more) == chosen(probes),
    decreases more.len(),
{
    if more.len() == 0 {
        assert(probes + more == probes);
    } else {
        law_analog_settles(probes, more.drop_last());
        assert((probes + more).drop_last() == probes + more.drop_last());
    }
}

/// A configured card is the only one tried, and it is used exactly if it has
/// the mixer element.
pub proof fn law_configured_card_alone(card: Seq<char>, p: Probe)
    requires
        card.len() > 0,
    ensures
        cards(card) == 1,
        card_name(card, 0) == card,
        picked(card, seq![p]) == if p == Probe::Absent {
            None
        } else {
            Some(0int)
        },
{
}

proof fn lemma_first_is_least(probes: Seq<Probe>, p: Probe)
    ensures
        match first(probes, p) {
            Some(i) => 0 <= i < probes.len() && probes[i] == p && forall|j: int|
                0 <= j < i ==> #[trigger] probes[j] != p,
            None => forall|j: int| 0 <= j < probes.len() ==> #[trigger] probes[j] != p,
        },
    decreases probes.len(),
{
    if probes.len() > 0 {
        let front = probes.drop_last();
        lemma_first_is_least(front, p);
        assert forall|j: int| 0 <= j < front.len() implies #[trigger] probes[j] == front[j] by {}
    }
}

/// A scan ends with the least analog card, without one the least that has the
/// mixer element, and with none exactly if no card has it.
pub proof fn law_scan_finds_the_least(probes: Seq<Probe>)
    ensures
        match picked(Seq::empty(), probes) {
            Some(i) => 0 <= i < probes.len() && if exists|j: int|
                0 <= j < probes.len() && #[trigger] probes[j] == Probe::Analog {
                probes[i] == Probe::Analog && forall|j: int|
                    0 <= j < i ==> #[trigger] probes[j] != Probe::Analog
            } else {
                probes[i] != Probe::Absent && forall|j: int|
                    0 <= j < i ==> #[trigger] probes[j] == Probe::Absent
            },
            None => forall|j: int| 0 <= j < probes.len() ==> #[trigger] probes[j] == Probe::Absent,
        },
{
    lemma_first_is_least(probes, Probe::Analog);
    lemma_first_is_least(probes, Probe::Plain);
}

// ---------------------------------------------------------------------------
// What holds of every percentage
// ---------------------------------------------------------------------------
/// Kept within 0 to 100, a number is itself where it is within, and the nearer
/// end where it is not; the order of two numbers stays.
pub proof fn law_within_percent(a: int, b: int)
    ensures
        0 <= within_percent(a) <= 100,
        0 <= a <= 100 ==> within_percent(a) == a,
        a < 0 ==> within_percent(a) == 0,
        a > 100 ==> within_percent(a) == 100,
        a <= b ==> within_percent(a) <= within_percent(b),
{
}

/// A raw volume's percentage is the nearest there is: twice as far from it is
/// no more than one percent of the range. The ends are 0 and 100, and louder is
/// never less.
pub proof fn law_percent_is_nearest(lo: int, hi: int, v: int, w: int)
    requires
        lo < hi,
        lo <= v <= w,
    ensures
        ({
            let p = percent_of(lo, hi, v);
            let r = hi - lo;
            &&& -r <= 2 * (p * r - (v - lo) * 100) <= r
            &&& p <= percent_of(lo, hi, w)
        }),
        percent_of(lo, hi, lo) == 0,
        percent_of(lo, hi, hi) == 100,
        percent_of(hi, lo, v) == 0,
{
    let r = hi - lo;
    let n = (v - lo) * 100 + r / 2;
    let k = (w - lo) * 100 + r / 2;
    vstd::arithmetic::div_mod::lemma_fundamental_div_mod(n, r);
    vstd::arithmetic::div_mod::lemma_div_is_ordered(n, k, r);
    let p = n / r;
    assert(r * p == p * r) by (nonlinear_arith);
    assert(0 <= n % r < r) by (nonlinear_arith)
        requires
            r > 0,
    ;
    vstd::arithmetic::div_mod::lemma_fundamental_div_mod_converse(r / 2, r, 0, r / 2);
    vstd::arithmetic::div_mod::lemma_fundamental_div_mod_converse(r * 100 + r / 2, r, 100, r / 2);
}

/// The raw volume of a percentage is the nearest there is.
pub proof fn law_raw_is_nearest(lo: int, hi: int, p: int, q: int)
    requires
        lo <= hi,
        0 <= p <= q,
    ensures
        -50 <= (raw_of(lo, hi, p) - lo) * 100 - (hi - lo) * p <= 50,
        raw_of(lo, hi, p) <= raw_of(lo, hi, q),
        raw_of(lo, hi, 0) == lo,
        raw_of(lo, hi, 100) == hi,
{
    let r = hi - lo;
    assert(0 <= r * p <= r * q) by (nonlinear_arith)
        requires
            0 <= r,
            0 <= p <= q,
    ;
    assert(r * 0 == 0) by (nonlinear_arith);
}

/// Rounded towards zero, a quotient has the sign of what is divided, and what
/// is left over is less than the divisor and has that sign too.
pub proof fn law_quotient(n: int, d: int)
    requires
        d > 0,
    ensures
        ({
            let q = quotient(n, d);
            let rest = n - q * d;
            &&& -d < rest < d
            &&& n >= 0 ==> q >= 0 && rest >= 0
            &&& n <= 0 ==> q <= 0 && rest <= 0
        }),
        quotient(-n, d) == -quotient(n, d),
{
    let m = if n >= 0 {
        n
    } else {
        -n
    };
    vstd::arithmetic::div_mod::lemma_fundamental_div_mod(m, d);
    assert(d * (m / d) == (m / d) * d) by (nonlinear_arith);
    assert(0 <= m % d < d) by (nonlinear_arith)
        requires
            d > 0,
    ;
    assert(m / d >= 0) by (nonlinear_arith)
        requires
            m >= 0,
            d > 0,
    ;
    assert((-(m / d)) * d == -((m / d) * d)) by (nonlinear_arith);
    if n == 0 {
        assert(0int / d == 0) by (nonlinear_arith)
            requires
                d > 0,
        ;
    }
}

/// What the bar shows of a mixer element: its percentage, and that it is muted
/// exactly if it has a switch and that is off. The one does not depend on the
/// other, and a volume that cannot be read is none.
pub proof fn law_shown(e: &Audio, r: Option<Volume>)
    requires
        call_ensures(Audio::get, (e,), r),
        e.readable(),
    ensures
        r is Some <==> e.volume is Some,
        r matches Some(v) ==> (v.muted <==> e.has_switch && e.switch == Some(0i32)),
        r matches Some(v) ==> v.percent == percent_of(
            e.lo as int,
            e.hi as int,
            e.volume.unwrap() as int,
        ),
{
    if let Some(v) = e.volume {
        if e.hi > e.lo {
            lemma_quotient_fits((v - e.lo) * 100 + (e.hi - e.lo) / 2, e.hi - e.lo);
        }
    }
}

proof fn lemma_quotient_fits(n: int, d: int)
    requires
        fits(n),
        d > 0,
    ensures
        fits(quotient(n, d)),
{
    assert(n >= 0 ==> 0 <= n / d <= n) by (nonlinear_arith)
        requires
            d > 0,
    ;
    assert(n < 0 ==> 0 <= (-n) / d <= -n) by (nonlinear_arith)
        requires
            d > 0,
    ;
}

/// Turning it up turns a switch on, and turning it down leaves it alone. What is
/// set is what the percentage, changed by so much and kept within 0 to 100, is
/// on the range; an element that cannot be read counts from the bottom.
pub proof fn law_adjust(e: &Audio, delta: i64, r: (i64, Option<i32>))
    requires
        call_ensures(Audio::adjust, (e, delta), r),
        e.adjustable(delta as int),
    ensures
        ({
            let from = match e.volume {
                Some(v) => v as int,
                None => e.lo as int,
            };
            let p = percent_of(e.lo as int, e.hi as int, from) + delta;
            &&& p < 0 ==> r.0 == raw_of(e.lo as int, e.hi as int, 0)
            &&& p > 100 ==> r.0 == raw_of(e.lo as int, e.hi as int, 100)
            &&& 0 <= p <= 100 ==> r.0 == raw_of(e.lo as int, e.hi as int, p)
        }),
        r.1 is Some <==> delta > 0 && e.has_switch,
        r.1 matches Some(on) ==> on == 1,
{
}

/// To mute or unmute turns a switch on exactly if it is off, and off otherwise;
/// without a switch there is nothing to turn.
pub proof fn law_toggle(e: &Audio, r: Option<i32>)
    requires
        call_ensures(Audio::toggle_mute, (e,), r),
    ensures
        r is Some <==> e.has_switch,
        r == Some(1i32) <==> e.has_switch && e.switch == Some(0i32),
        r matches Some(x) ==> x == 0 || x == 1,
{
}

// ---------------------------------------------------------------------------
// What holds of every choice of a backend
// ---------------------------------------------------------------------------
/// PipeWire wins whenever it has a sink; ALSA is next, if it opens; and there
/// is none only without either.
pub proof fn law_select(pipewire: bool, alsa: bool, b: AudioBackend)
    requires
        call_ensures(AudioBackend::select, (pipewire, alsa), b),
    ensures
        b == AudioBackend::PipeWire <==> pipewire,
        b == AudioBackend::Alsa <==> alsa && !pipewire,
        b == AudioBackend::Missing <==> !alsa && !pipewire,
{
}

/// A backend that is gone, or is none, is looked for again; ALSA gives way as
/// soon as PipeWire is there, and a PipeWire that lives is kept.
pub proof fn law_reselect(b: &AudioBackend, alive: bool, socket: bool, r: bool)
    requires
        call_ensures(AudioBackend::should_reselect, (b, alive, socket), r),
    ensures
        *b == AudioBackend::Missing ==> r,
        *b == AudioBackend::PipeWire ==> (r <==> !alive),
        *b == AudioBackend::Alsa ==> (r <==> socket),
{
}

/// What was picked takes over where it is another, and PipeWire always does:
/// it is a new connection.
pub proof fn law_replaced(b: &AudioBackend, next: AudioBackend, r: bool)
    requires
        call_ensures(AudioBackend::is_replaced_by, (b, next), r),
    ensures
        next == AudioBackend::PipeWire ==> r,
        *b != next ==> r,
        *b == next && next != AudioBackend::PipeWire ==> !r,
{
}

/// The report says the percentage, whether it is muted and where it comes from;
/// but for " muted" it is the same either way. Without a volume it fails.
pub proof fn law_report(v: Volume, backend: AudioBackend, r: (String, i32), none: (String, i32))
    requires
        call_ensures(report, (Some(v), backend), r),
        call_ensures(report, (None, backend), none),
    ensures
        r.1 == 0 && none.1 == 1,
        r.0@ == text::decimal_signed(v.percent as int) + "%"@ + (if v.muted {
            " muted"@
        } else {
            Seq::empty()
        }) + " ("@ + backend.called() + ")"@,
        none.0@ == "no audio"@,
{
}

/// The backends are told apart by their names.
pub proof fn law_backend_names(a: AudioBackend, b: AudioBackend)
    ensures
        a.called() == b.called() ==> a == b,
{
    reveal_strlit("PipeWire");
    reveal_strlit("ALSA");
    reveal_strlit("none");
    assert("ALSA"@[0] != "none"@[0]);
    assert("PipeWire"@.len() == 8 && "ALSA"@.len() == 4 && "none"@.len() == 4);
}

/// A scan tries hw:0 to hw:7, one after the other, and a card that is
/// configured is tried alone.
pub proof fn law_cards(s: &CardScan, r: Option<String>)
    requires
        call_ensures(CardScan::next_card, (s,), r),
        s.is_open(),
    ensures
        s.card@.len() > 0 ==> (r is Some <==> s.probes@.len() == 0),
        s.card@.len() > 0 ==> (r matches Some(name) ==> name@ == s.card@),
        s.card@.len() == 0 ==> (r is Some <==> s.probes@.len() < 8),
        s.card@.len() == 0 ==> (r matches Some(name) ==> name@ == "hw:"@ + text::decimal(
            s.probes@.len(),
        )),
{
}

/// An analog card is used at once, and so is a configured one that has the
/// element; of the others the first is kept.
pub proof fn law_verdict(s: &mut CardScan, p: Probe, v: Verdict)
    requires
        call_ensures(CardScan::record, (s, p), v),
        old(s).is_open(),
        old(s).probes@.len() < cards(old(s).card@),
    ensures
        p == Probe::Absent ==> v == Verdict::Discard,
        p == Probe::Analog ==> v == Verdict::Use,
        p == Probe::Plain && old(s).card@.len() > 0 ==> v == Verdict::Use,
        p == Probe::Plain && old(s).card@.len() == 0 ==> v != Verdict::Use && (v == Verdict::Keep
            <==> !old(s).probes@.contains(Probe::Plain)),
        final(s).probes@ == old(s).probes@.push(p),
{
    lemma_first_is_least(old(s).probes@, Probe::Plain);
    if let Some(i) = first(old(s).probes@, Probe::Plain) {
        assert(old(s).probes@[i] == Probe::Plain);
    }
}

} // verus!
