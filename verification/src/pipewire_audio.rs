//! Native PipeWire volume control: what each event on a PipeWire main loop
//! does to the shared state, and what each command sends.
//!
//! The state is that of [`crate::pipewire_cli`], so the bar can't tell the
//! backends apart. A node's id is widened to its 64 bits.
use vstd::prelude::*;

use crate::pipewire_cli;
use crate::pipewire_cli::{Adjustment, Change, Sink, State};
use crate::system;
use crate::text;

verus! {

// ---------------------------------------------------------------------------
// Events
// ---------------------------------------------------------------------------
/// A property that was not given is empty.
pub open spec fn or_empty(s: Option<&str>) -> Seq<char> {
    match s {
        Some(s) => s@,
        None => Seq::empty(),
    }
}

fn owned_or_empty(s: Option<&str>) -> (r: String)
    ensures
        r@ == or_empty(s),
{
    match s {
        Some(s) => s.to_owned(),
        None => String::new(),
    }
}

/// `s` was given and is `want`.
fn is_text(s: Option<&str>, want: &str) -> (r: bool)
    ensures
        r == (system::opt_view(s) == Some(want@)),
{
    match s {
        Some(s) => text::same(s, want),
        None => false,
    }
}

/// Whether a node of this `media.class` is one to follow.
pub fn is_sink(media_class: Option<&str>) -> (r: bool)
    ensures
        r == (system::opt_view(media_class) == Some("Audio/Sink"@)),
{
    is_text(media_class, "Audio/Sink")
}

/// Whether metadata of this `metadata.name` is the one to follow.
pub fn is_default_metadata(name: Option<&str>) -> (r: bool)
    ensures
        r == (system::opt_view(name) == Some("default"@)),
{
    is_text(name, "default")
}

/// A sink appeared. Its volumes come later; its nick stands in for a
/// description that it does not have.
pub fn add_sink(
    st: &mut State,
    id: u32,
    name: Option<&str>,
    description: Option<&str>,
    nick: Option<&str>,
)
    ensures
        final(st)@ == (pipewire_cli::StateView {
            sinks: old(st)@.sinks.insert(
                id as u64,
                pipewire_cli::SinkView {
                    name: or_empty(name),
                    description: if description is Some {
                        or_empty(description)
                    } else {
                        or_empty(nick)
                    },
                    ..pipewire_cli::blank_sink()
                },
            ),
            ..old(st)@
        }),
{
    let mut s = Sink::blank();
    s.name = owned_or_empty(name);
    s.description = match description {
        Some(d) => d.to_owned(),
        None => owned_or_empty(nick),
    };
    st.put_sink(id as u64, s);
}

/// Which of a Props object's properties one is.
#[derive(Clone, Copy, PartialEq, Eq, Debug, Structural)]
pub enum PropKey {
    ChannelVolumes,
    Mute,
    Other,
}

/// A property's value.
#[derive(Debug)]
pub enum PropValue {
    /// An array of floats, by their bits.
    Floats(Vec<u32>),
    Bool(bool),
    Other,
}

/// The volumes that `properties` give, the last ones counting; empty if they
/// give none.
pub open spec fn volumes_in(properties: Seq<(PropKey, PropValue)>) -> Seq<u32>
    decreases properties.len(),
{
    if properties.len() == 0 {
        Seq::empty()
    } else {
        match properties.last() {
            (PropKey::ChannelVolumes, PropValue::Floats(v)) => v@,
            _ => volumes_in(properties.drop_last()),
        }
    }
}

/// Whether `properties` say that the sink is muted, the last one counting.
pub open spec fn mute_in(properties: Seq<(PropKey, PropValue)>) -> Option<bool>
    decreases properties.len(),
{
    if properties.len() == 0 {
        None
    } else {
        match properties.last() {
            (PropKey::Mute, PropValue::Bool(b)) => Some(b),
            _ => mute_in(properties.drop_last()),
        }
    }
}

/// The volumes and the mute that a Props object gives.
pub fn parse_props(properties: &Vec<(PropKey, PropValue)>) -> (r: (Vec<u32>, Option<bool>))
    ensures
        r.0@ == volumes_in(properties@),
        r.1 == mute_in(properties@),
{
    let mut volumes: Vec<u32> = Vec::new();
    let mut mute: Option<bool> = None;
    let mut i: usize = 0;
    while i < properties.len()
        invariant
            i <= properties@.len(),
            volumes@ == volumes_in(properties@.take(i as int)),
            mute == mute_in(properties@.take(i as int)),
        decreases properties@.len() - i,
    {
        assert(properties@.take(i + 1).drop_last() == properties@.take(i as int));
        let p = &properties[i];
        match p.0 {
            PropKey::ChannelVolumes => {
                if let PropValue::Floats(v) = &p.1 {
                    volumes = v.clone();
                    assert(volumes@ =~= v@);
                }
            },
            PropKey::Mute => {
                if let PropValue::Bool(b) = &p.1 {
                    mute = Some(*b);
                }
            },
            PropKey::Other => {},
        }
        i += 1;
    }
    assert(properties@.take(properties@.len() as int) == properties@);
    (volumes, mute)
}

/// A sink's Props changed: volumes, if there are any, and mute, if it is
/// given, replace what was known. A sink that is gone stays gone.
pub fn update_props(st: &mut State, id: u32, volumes: Vec<u32>, mute: Option<bool>)
    ensures
        final(st)@ == (if old(st)@.sinks.contains_key(id as u64) {
            let s = old(st)@.sinks[id as u64];
            pipewire_cli::StateView {
                sinks: old(st)@.sinks.insert(
                    id as u64,
                    pipewire_cli::SinkView {
                        volumes: if volumes@.len() == 0 {
                            s.volumes
                        } else {
                            volumes@
                        },
                        muted: match mute {
                            Some(m) => m,
                            None => s.muted,
                        },
                        ..s
                    },
                ),
                ..old(st)@
            }
        } else {
            old(st)@
        }),
{
    if st.has_sink(id as u64) {
        let mut s = st.take_sink(id as u64);
        if volumes.len() > 0 {
            s.volumes = volumes;
        }
        if let Some(m) = mute {
            s.muted = m;
        }
        st.put_sink(id as u64, s);
        assert(st@.sinks =~= old(st)@.sinks.insert(id as u64, s@));
    }
}

/// The name in `{ "name": "alsa_output.pci-…" }`: what stands between the two
/// quotes that follow the first `"name"`.
pub open spec fn name_in(v: Seq<char>) -> Option<Seq<char>> {
    match text::position(v, "\"name\""@) {
        Some(i) => {
            let rest = v.skip(i + 6);
            match text::position(rest, seq!['"']) {
                Some(q1) => {
                    let rest = rest.skip(q1 + 1);
                    match text::position(rest, seq!['"']) {
                        Some(q2) => Some(rest.take(q2)),
                        None => None,
                    }
                },
                None => None,
            }
        },
        None => None,
    }
}

/// `{ "name": "alsa_output.pci-…" }` -> the name. The value is one flat JSON
/// object.
pub fn json_name(v: &str) -> (r: Option<String>)
    ensures
        match r {
            Some(s) => name_in(v@) == Some(s@),
            None => name_in(v@) is None,
        },
{
    proof {
        reveal_strlit("\"name\"");
        reveal_strlit("\"");
        assert("\""@ =~= seq!['"']);
    }
    let c = text::chars(v);
    let key = text::chars("\"name\"");
    let quote = text::chars("\"");
    assert(c@.skip(0) == c@);
    let i: usize = match text::find_in(&c, 0, &key) {
        Some(i) => i,
        None => return None,
    };
    assert(c@.len() == c.len());
    let from: usize = i + 6;
    let q1: usize = match text::find_in(&c, from, &quote) {
        Some(q) => q,
        None => return None,
    };
    assert(c@.skip(from as int).skip(q1 - from + 1) == c@.skip(q1 + 1));
    let from: usize = q1 + 1;
    let q2: usize = match text::find_in(&c, from, &quote) {
        Some(q) => q,
        None => return None,
    };
    assert(c@.skip(from as int).take(q2 - from) == c@.subrange(from as int, q2 as int));
    Some(text::string_of(&c, from, q2))
}

/// A property of the default metadata changed. Says whether the bar has to
/// look again: it does when it was the default sink, whose name is empty if
/// none can be read.
pub fn update_metadata(st: &mut State, key: Option<&str>, value: Option<&str>) -> (changed: bool)
    ensures
        changed == (system::opt_view(key) == Some("default.audio.sink"@)),
        final(st)@ == (if changed {
            pipewire_cli::StateView {
                default_sink: match value {
                    Some(v) => match name_in(v@) {
                        Some(s) => s,
                        None => Seq::empty(),
                    },
                    None => Seq::empty(),
                },
                ..old(st)@
            }
        } else {
            old(st)@
        }),
{
    if is_text(key, "default.audio.sink") {
        let name = match value {
            Some(v) => json_name(v),
            None => None,
        };
        st.default_sink = match name {
            Some(s) => s,
            None => String::new(),
        };
        true
    } else {
        false
    }
}

/// An object went. Says whether the bar has to look again: only a node that
/// was followed concerns it.
pub fn remove_object(st: &mut State, id: u32, followed: bool) -> (changed: bool)
    ensures
        changed == followed,
        final(st)@ == (if followed {
            pipewire_cli::StateView {
                sinks: old(st)@.sinks.remove(id as u64),
                ..old(st)@
            }
        } else {
            old(st)@
        }),
{
    if followed {
        let _there = st.remove_sink(id as u64);
    }
    followed
}

/// An error was reported. Says whether PipeWire is gone, and notes it.
pub fn note_error(st: &mut State, message: &str) -> (lost: bool)
    ensures
        lost == text::occurs(message@, "connection error"@),
        final(st)@ == (pipewire_cli::StateView {
            connected: old(st)@.connected && !lost,
            ..old(st)@
        }),
{
    let lost = text::contains(message, "connection error");
    if lost {
        st.connected = false;
    }
    assert(st@.sinks =~= old(st)@.sinks);
    lost
}

// ---------------------------------------------------------------------------
// Commands
// ---------------------------------------------------------------------------
/// What the bar asks for.
#[derive(Clone, Copy, PartialEq, Eq, Debug, Structural)]
pub enum Cmd {
    Adjust(i64),
    ToggleMute,
}

/// What `cmd` sends to the default sink: nothing without one. The state
/// changes when PipeWire reports it. `percent` works a percentage out of a
/// volume's bits, `linear` the other way round.
pub fn plan<F: Fn(u32) -> i64, G: Fn(i64) -> u32>(
    st: &State,
    cmd: Cmd,
    percent: F,
    linear: G,
) -> (r: Option<Change>)
    requires
        forall|bits: u32| call_requires(percent, (bits,)),
        forall|p: i64| 0 <= p <= 100 ==> call_requires(linear, (p,)),
    ensures
        r is None <==> forall|k: u64| !st@.sinks.contains_key(k),
        r is Some <==> st@.default_of() is Some,
        match (r, cmd) {
            (Some(c), Cmd::Adjust(d)) => exists|a: Adjustment, level: u32|
                {
                    &&& #[trigger] st@.plans(a, d as int)
                    &&& #[trigger] pipewire_cli::moves(percent, linear, d, a.level, level)
                    &&& c.sets(a, level)
                },
            (Some(c), Cmd::ToggleMute) => {
                let s = st@.sinks[c.id];
                &&& st@.is_default(c.id)
                &&& c.volumes@ == (if s.volumes.len() == 0 {
                    seq![0x3f80_0000u32]
                } else {
                    s.volumes
                })
                &&& c.mute == !s.muted
            },
            (None, _) => true,
        },
{
    proof {
        if exists|k: u64| st@.sinks.contains_key(k) {
            let k = choose|k: u64| st@.sinks.contains_key(k);
            pipewire_cli::law_default_exists(st@, k);
        }
    }
    match cmd {
        Cmd::Adjust(d) => st.plan_change(d, percent, linear),
        Cmd::ToggleMute => st.plan_toggle(),
    }
}

// ---------------------------------------------------------------------------
// What holds of every metadata value
// ---------------------------------------------------------------------------
proof fn lemma_first_quote(a: Seq<char>, b: Seq<char>)
    requires
        !a.contains('"'),
    ensures
        text::position(a + seq!['"'] + b, seq!['"']) == Some(a.len() as int),
    decreases a.len(),
{
    let s = a + seq!['"'] + b;
    if a.len() == 0 {
        assert(s.take(1) == seq!['"']);
    } else {
        assert(s[0] == a[0]);
        assert(a.contains(a[0]));
        assert(s.take(1)[0] != '"');
        assert(s.drop_first() == a.drop_first() + seq!['"'] + b);
        assert forall|c: char| a.drop_first().contains(c) implies a.contains(c) by {
            let i = choose|i: int| 0 <= i < a.drop_first().len() && a.drop_first()[i] == c;
            assert(a[i + 1] == c);
        }
        lemma_first_quote(a.drop_first(), b);
    }
}

/// A name that was written between quotes after `"name"` is read back, as long
/// as it holds no quote itself.
pub proof fn law_name_read_back(
    front: Seq<char>,
    between: Seq<char>,
    name: Seq<char>,
    back: Seq<char>,
)
    requires
        !between.contains('"'),
        !name.contains('"'),
        text::position(
            front + "\"name\""@ + between + seq!['"'] + name + seq!['"'] + back,
            "\"name\""@,
        ) == Some(front.len() as int),
    ensures
        name_in(front + "\"name\""@ + between + seq!['"'] + name + seq!['"'] + back) == Some(name),
{
    reveal_strlit("\"name\"");
    let v = front + "\"name\""@ + between + seq!['"'] + name + seq!['"'] + back;
    let rest = v.skip(front.len() as int + 6);
    let after = name + seq!['"'] + back;
    assert(rest == between + seq!['"'] + after);
    lemma_first_quote(between, after);
    assert(rest.skip(between.len() as int + 1) == after);
    lemma_first_quote(name, back);
    assert(after.take(name.len() as int) == name);
}

/// A name that is read stands between two quotes behind the first `"name"`,
/// with no quote in it or before it.
pub proof fn law_name_is_there(v: Seq<char>)
    ensures
        name_in(v) matches Some(name) ==> exists|a: Seq<char>, b: Seq<char>, c: Seq<char>|
            v == #[trigger] (a + "\"name\""@ + b + seq!['"'] + name + seq!['"'] + c)
                && !b.contains('"') && !name.contains('"'),
        !text::occurs(v, "\"name\""@) ==> name_in(v) is None,
{
    reveal_strlit("\"name\"");
    if let Some(name) = name_in(v) {
        text::lemma_position_bound(v, "\"name\""@);
        let i = text::position(v, "\"name\""@).unwrap();
        let rest = v.skip(i + 6);
        let quote = seq!['"'];
        text::lemma_position_bound(rest, quote);
        let q1 = text::position(rest, quote).unwrap();
        let more = rest.skip(q1 + 1);
        text::lemma_position_bound(more, quote);
        let q2 = text::position(more, quote).unwrap();
        let a = v.take(i);
        let b = rest.take(q1);
        let c = more.skip(q2 + 1);
        assert(v.subrange(i, i + 6) =~= "\"name\""@);
        assert(rest.subrange(q1, q1 + 1)[0] == '"');
        assert(more.subrange(q2, q2 + 1)[0] == '"');
        assert(v =~= a + "\"name\""@ + b + seq!['"'] + name + seq!['"'] + c);
        lemma_no_quote_before(rest, q1);
        lemma_no_quote_before(more, q2);
        assert(v == a + "\"name\""@ + b + seq!['"'] + name + seq!['"'] + c);
    }
}

proof fn lemma_no_quote_before(s: Seq<char>, q: int)
    requires
        text::position(s, seq!['"']) == Some(q),
    ensures
        0 <= q <= s.len(),
        !s.take(q).contains('"'),
{
    text::lemma_position_bound(s, seq!['"']);
    if s.take(q).contains('"') {
        let j = choose|j: int| 0 <= j < q && s.take(q)[j] == '"';
        assert(s.skip(j).take(1) =~= seq!['"']);
        assert(text::begins(s.skip(j), seq!['"']));
    }
}

// ---------------------------------------------------------------------------
// What holds of every event
// ---------------------------------------------------------------------------
/// The last property of a kind counts, whatever stands around it: the volumes
/// of the last that gives any, the mute of the last that says so.
pub proof fn law_last_property_counts(
    ps: Seq<(PropKey, PropValue)>,
    p: (PropKey, PropValue),
)
    ensures
        volumes_in(ps.push(p)) == match p {
            (PropKey::ChannelVolumes, PropValue::Floats(v)) => v@,
            _ => volumes_in(ps),
        },
        mute_in(ps.push(p)) == match p {
            (PropKey::Mute, PropValue::Bool(b)) => Some(b),
            _ => mute_in(ps),
        },
        volumes_in(Seq::empty()) == Seq::<u32>::empty(),
        mute_in(Seq::empty()) is None,
{
    assert(ps.push(p).drop_last() =~= ps);
}

/// An update mutes and unmutes as it says, and leaves the mute where it does
/// not say; volumes take the place of those before, and none leave them. Only
/// the sink it is of changes, and one that is gone stays gone.
pub proof fn law_update_props(st: &mut State, id: u32, volumes: Vec<u32>, mute: Option<bool>)
    requires
        call_ensures(update_props, (st, id, volumes, mute), ()),
    ensures
        ({
            let k = id as u64;
            let before = old(st)@;
            let after = final(st)@;
            &&& after.sinks.dom() == before.sinks.dom()
            &&& after.sinks.remove(k) == before.sinks.remove(k)
            &&& after.default_sink == before.default_sink && after.connected == before.connected
            &&& before.sinks.contains_key(k) ==> {
                let s = before.sinks[k];
                let t = after.sinks[k];
                &&& (mute matches Some(b) ==> t.muted == b)
                &&& mute is None ==> t.muted == s.muted
                &&& volumes@.len() > 0 ==> t.volumes == volumes@
                &&& volumes@.len() == 0 ==> t.volumes == s.volumes
                &&& t.name == s.name && t.description == s.description
            }
        }),
{
    assert(final(st)@.sinks.dom() =~= old(st)@.sinks.dom());
    assert(final(st)@.sinks.remove(id as u64) =~= old(st)@.sinks.remove(id as u64));
}

/// A sink that appears is there, by its name and its description or nick, not
/// muted and without volumes; every other stays as it was.
pub proof fn law_sink_appears(
    st: &mut State,
    id: u32,
    name: Option<&str>,
    description: Option<&str>,
    nick: Option<&str>,
)
    requires
        call_ensures(add_sink, (st, id, name, description, nick), ()),
    ensures
        ({
            let k = id as u64;
            let s = final(st)@.sinks[k];
            &&& final(st)@.sinks.contains_key(k)
            &&& final(st)@.sinks.remove(k) == old(st)@.sinks.remove(k)
            &&& !s.muted && s.volumes.len() == 0
            &&& (name matches Some(n) ==> s.name == n@)
            &&& (description matches Some(d) ==> s.description == d@)
            &&& name is None ==> s.name.len() == 0
            &&& description is None ==> (nick matches Some(n) ==> s.description == n@)
            &&& description is None && nick is None ==> s.description.len() == 0
            &&& final(st)@.default_sink == old(st)@.default_sink
            &&& final(st)@.connected == old(st)@.connected
        }),
{
    assert(final(st)@.sinks.remove(id as u64) =~= old(st)@.sinks.remove(id as u64));
}

/// The default sink follows its own key alone: to the name in the value, or to
/// none where there is no name in it.
pub proof fn law_metadata(st: &mut State, key: Option<&str>, value: Option<&str>, changed: bool)
    requires
        call_ensures(update_metadata, (st, key, value), changed),
    ensures
        changed <==> (key matches Some(k) && k@ == "default.audio.sink"@),
        !changed ==> final(st)@ == old(st)@,
        changed ==> (value matches Some(v) ==> (name_in(v@) matches Some(n)
            ==> final(st)@.default_sink == n)),
        changed && (value is None || name_in(value.unwrap()@) is None) ==> final(st)@.default_sink.len() == 0,
        final(st)@.sinks == old(st)@.sinks && final(st)@.connected == old(st)@.connected,
{
}

/// A node that was followed is gone once its object is; any other object that
/// goes changes nothing.
pub proof fn law_object_goes(st: &mut State, id: u32, followed: bool, changed: bool)
    requires
        call_ensures(remove_object, (st, id, followed), changed),
    ensures
        changed == followed,
        followed ==> !final(st)@.sinks.contains_key(id as u64),
        final(st)@.sinks.remove(id as u64) == old(st)@.sinks.remove(id as u64),
        !followed ==> final(st)@ == old(st)@,
        final(st)@.default_sink == old(st)@.default_sink,
{
    assert(final(st)@.sinks.remove(id as u64) =~= old(st)@.sinks.remove(id as u64));
}

/// Only an error of the connection loses it, and nothing brings it back.
pub proof fn law_errors(st: &mut State, message: &str, lost: bool)
    requires
        call_ensures(note_error, (st, message), lost),
    ensures
        lost <==> text::occurs(message@, "connection error"@),
        lost ==> !final(st)@.connected,
        !lost ==> final(st)@ == old(st)@,
        final(st)@.sinks == old(st)@.sinks && final(st)@.default_sink == old(st)@.default_sink,
{
}

/// Of the nodes only sinks are followed, and of the metadata only the default.
pub proof fn law_followed(class: Option<&str>, name: Option<&str>, a: bool, b: bool)
    requires
        call_ensures(is_sink, (class,), a),
        call_ensures(is_default_metadata, (name,), b),
    ensures
        a <==> (class matches Some(c) && c@ == "Audio/Sink"@),
        b <==> (name matches Some(n) && n@ == "default"@),
{
}

/// What is sent is for the sink that is shown, and nothing is sent exactly if
/// there is no sink. To mute or unmute sends the other of the two with the
/// volumes as they are; a change of the volume sends one volume on each channel
/// that the sink has, unmutes where it turns up, and else leaves the mute.
pub proof fn law_plan<F: Fn(u32) -> i64, G: Fn(i64) -> u32>(
    st: &State,
    cmd: Cmd,
    percent: F,
    linear: G,
    r: Option<Change>,
)
    requires
        call_ensures(plan::<F, G>, (st, cmd, percent, linear), r),
    ensures
        r is None <==> forall|k: u64| !st@.sinks.contains_key(k),
        r matches Some(c) ==> {
            let s = st@.sinks[c.id];
            &&& pipewire_cli::is_shown(st@, c.id)
            &&& cmd == Cmd::ToggleMute ==> c.mute != s.muted
            &&& cmd == Cmd::ToggleMute && s.volumes.len() > 0 ==> c.volumes@ == s.volumes
            &&& (cmd matches Cmd::Adjust(d) ==> {
                &&& d > 0 ==> !c.mute
                &&& d <= 0 ==> c.mute == s.muted
                &&& s.volumes.len() > 0 ==> c.volumes@.len() == s.volumes.len()
                &&& c.volumes@.len() > 0
                &&& forall|i: int|
                    0 <= i < c.volumes@.len() ==> #[trigger] c.volumes@[i] == c.volumes@[0]
            })
        },
{
    if let Some(c) = r {
        pipewire_cli::lemma_default_is_shown(st@, c.id);
    }
    if exists|k: u64| st@.sinks.contains_key(k) {
        let k = choose|k: u64| st@.sinks.contains_key(k);
        pipewire_cli::law_default_exists(st@, k);
    }
}

} // verus!
