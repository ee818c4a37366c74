//! PipeWire volume control through PipeWire's own tools: `pw-dump -m`
//! streams every object (and every change) as JSON, and `pw-cli set-param`
//! writes Props.
//!
//! A channel's volume is a linear 32-bit float. Here it stands for itself by
//! its bits, which order non-negative floats as their values do.
use std::collections::HashMap;

use vstd::prelude::*;

use crate::audio;
use crate::audio::Volume;
use crate::json::Json;
use crate::text;

verus! {

/// An audio sink.
#[derive(Debug)]
pub struct Sink {
    pub name: String,
    pub description: String,
    /// Each channel's volume, by its bits.
    pub volumes: Vec<u32>,
    pub muted: bool,
}

/// A sink, with its strings by their characters.
pub struct SinkView {
    pub name: Seq<char>,
    pub description: Seq<char>,
    pub volumes: Seq<u32>,
    pub muted: bool,
}

impl View for Sink {
    type V = SinkView;

    open spec fn view(&self) -> SinkView {
        SinkView {
            name: self.name@,
            description: self.description@,
            volumes: self.volumes@,
            muted: self.muted,
        }
    }
}

/// What is known of PipeWire: whether it is there, which sink is the default
/// one by name, and the sinks by id.
pub struct State {
    pub connected: bool,
    pub default_sink: String,
    pub sinks: HashMap<u64, Sink>,
}

/// The state, with its strings by their characters.
#[verifier::ext_equal]
pub struct StateView {
    pub connected: bool,
    pub default_sink: Seq<char>,
    pub sinks: Map<u64, SinkView>,
}

impl View for State {
    type V = StateView;

    open spec fn view(&self) -> StateView {
        StateView {
            connected: self.connected,
            default_sink: self.default_sink@,
            sinks: self.sinks@.map_values(|s: Sink| s@),
        }
    }
}

// ---------------------------------------------------------------------------
// What a dumped object does to the state
// ---------------------------------------------------------------------------
/// A sink of which nothing is known yet.
pub open spec fn blank_sink() -> SinkView {
    SinkView {
        name: Seq::empty(),
        description: Seq::empty(),
        volumes: Seq::empty(),
        muted: false,
    }
}

/// The text named `key` in `props`; empty if there is none.
pub open spec fn prop(props: Option<Json>, key: Seq<char>) -> Seq<char> {
    match props {
        Some(p) => match p.at(key) {
            Some(v) => match v.text() {
                Some(s) => s,
                None => Seq::empty(),
            },
            None => Seq::empty(),
        },
        None => Seq::empty(),
    }
}

/// `s` with the names that `props` gives it, if there are `props`: the
/// description is the nick where there is no description.
pub open spec fn named(s: SinkView, props: Option<Json>) -> SinkView {
    if props is Some {
        let d = prop(props, "node.description"@);
        SinkView {
            name: prop(props, "node.name"@),
            description: if d.len() == 0 {
                prop(props, "node.nick"@)
            } else {
                d
            },
            ..s
        }
    } else {
        s
    }
}

/// The numbers in `v`, in order, by their bits.
pub open spec fn floats(v: Seq<Json>) -> Seq<u32>
    decreases v.len(),
{
    if v.len() == 0 {
        Seq::empty()
    } else {
        match v.last().float() {
            Some(b) => floats(v.drop_last()).push(b),
            None => floats(v.drop_last()),
        }
    }
}

/// The list named `key` in `v`.
pub open spec fn list_at(v: Json, key: Seq<char>) -> Option<Seq<Json>> {
    match v.at(key) {
        Some(x) => x.list(),
        None => None,
    }
}

/// `s` after one entry of its Props: `channelVolumes` replaces the volumes,
/// `volume` stands in for them where there are none, `mute` says whether it
/// is muted.
pub open spec fn with_entry(s: SinkView, entry: Json) -> SinkView {
    let volumes = match list_at(entry, "channelVolumes"@) {
        Some(v) => floats(v),
        None => match entry.at("volume"@) {
            Some(v) => match v.float() {
                Some(b) => if s.volumes.len() == 0 {
                    seq![b]
                } else {
                    s.volumes
                },
                None => s.volumes,
            },
            None => s.volumes,
        },
    };
    let muted = match entry.at("mute"@) {
        Some(m) => match m.boolean() {
            Some(b) => b,
            None => s.muted,
        },
        None => s.muted,
    };
    SinkView { volumes, muted, ..s }
}

/// `s` after each of `entries` in turn.
pub open spec fn with_entries(s: SinkView, entries: Seq<Json>) -> SinkView
    decreases entries.len(),
{
    if entries.len() == 0 {
        s
    } else {
        with_entry(with_entries(s, entries.drop_last()), entries.last())
    }
}

/// The entries of a node's Props.
pub open spec fn props_entries(info: Json) -> Seq<Json> {
    match info.at("params"@) {
        Some(p) => match list_at(p, "Props"@) {
            Some(v) => v,
            None => Seq::empty(),
        },
        None => Seq::empty(),
    }
}

/// The default sink's name after `items`, metadata entries, and whether it
/// changed.
pub open spec fn with_items(name: Seq<char>, items: Seq<Json>) -> (Seq<char>, bool)
    decreases items.len(),
{
    if items.len() == 0 {
        (name, false)
    } else {
        let (before, changed) = with_items(name, items.drop_last());
        let it = items.last();
        if it.at("key"@) matches Some(k) && k.text() == Some("default.audio.sink"@) {
            let next = prop(it.at("value"@), "name"@);
            (next, changed || next != before)
        } else {
            (before, changed)
        }
    }
}

/// The state after a node's `info`, and whether the bar has to look again.
pub open spec fn with_node(st: StateView, id: u64, info: Json) -> (StateView, bool) {
    let props = info.at("props"@);
    if !st.sinks.contains_key(id) && prop(props, "media.class"@) != "Audio/Sink"@ {
        (st, false)
    } else {
        let s = if st.sinks.contains_key(id) {
            st.sinks[id]
        } else {
            blank_sink()
        };
        let s = with_entries(named(s, props), props_entries(info));
        (StateView { sinks: st.sinks.insert(id, s), ..st }, true)
    }
}

/// The state after a metadata object, and whether the bar has to look again.
pub open spec fn with_metadata(st: StateView, obj: Json, info: Json) -> (StateView, bool) {
    if prop(info.at("props"@), "metadata.name"@) != "default"@ {
        (st, false)
    } else {
        let items = match list_at(obj, "metadata"@) {
            Some(v) => v,
            None => Seq::empty(),
        };
        let (name, changed) = with_items(st.default_sink, items);
        (StateView { default_sink: name, ..st }, changed)
    }
}

/// The state after a dumped object, and whether the bar has to look again. An
/// object without `info` has been removed.
pub open spec fn with_object(st: StateView, obj: Json) -> (StateView, bool) {
    let id = match obj.at("id"@) {
        Some(v) => v.unsigned(),
        None => None,
    };
    let kind = prop(Some(obj), "type"@);
    match (id, obj.at("info"@)) {
        (None, _) => (st, false),
        (Some(id), Some(info)) => if info is Null {
            (StateView { sinks: st.sinks.remove(id), ..st }, st.sinks.contains_key(id))
        } else if kind == "PipeWire:Interface:Node"@ {
            with_node(st, id, info)
        } else if kind == "PipeWire:Interface:Metadata"@ {
            with_metadata(st, obj, info)
        } else {
            (st, false)
        },
        (Some(id), None) => (
            StateView { sinks: st.sinks.remove(id), ..st },
            st.sinks.contains_key(id),
        ),
    }
}

/// The state after each of `objs` in turn, and whether the bar has to look
/// again.
pub open spec fn with_objects(st: StateView, objs: Seq<Json>) -> (StateView, bool)
    decreases objs.len(),
{
    if objs.len() == 0 {
        (st, false)
    } else {
        let (before, changed) = with_objects(st, objs.drop_last());
        let (after, more) = with_object(before, objs.last());
        (after, changed || more)
    }
}

/// The state after one item of the dump: an array of objects, or one object.
pub open spec fn with_item(st: StateView, item: Json) -> (StateView, bool) {
    match item {
        Json::List(v) => with_objects(st, v@),
        _ => with_object(st, item),
    }
}

/// The text named `key` in `props`; empty if there is none.
fn read_prop(props: Option<&Json>, key: &str) -> (s: String)
    ensures
        s@ == prop(
            match props {
                Some(p) => Some(*p),
                None => None,
            },
            key@,
        ),
{
    match props {
        Some(p) => match p.get(key) {
            Some(v) => match v.as_str() {
                Some(s) => s.to_owned(),
                None => String::new(),
            },
            None => String::new(),
        },
        None => String::new(),
    }
}

fn read_floats(v: &Vec<Json>) -> (r: Vec<u32>)
    ensures
        r@ == floats(v@),
{
    let mut r: Vec<u32> = Vec::new();
    let mut i: usize = 0;
    while i < v.len()
        invariant
            i <= v@.len(),
            r@ == floats(v@.take(i as int)),
        decreases v@.len() - i,
    {
        assert(v@.take(i + 1).drop_last() == v@.take(i as int));
        if let Some(b) = v[i].as_bits() {
            r.push(b);
        }
        i += 1;
    }
    assert(v@.take(v@.len() as int) == v@);
    r
}

impl Sink {
    pub(crate) fn blank() -> (s: Sink)
        ensures
            s@ == blank_sink(),
    {
        Sink {
            name: String::new(),
            description: String::new(),
            volumes: Vec::new(),
            muted: false,
        }
    }

    fn read_names(&mut self, props: Option<&Json>)
        ensures
            final(self)@ == named(
                old(self)@,
                match props {
                    Some(p) => Some(*p),
                    None => None,
                },
            ),
    {
        if props.is_some() {
            self.name = read_prop(props, "node.name");
            let d = read_prop(props, "node.description");
            self.description = if d.as_str().is_empty() {
                read_prop(props, "node.nick")
            } else {
                d
            };
        }
    }

    fn read_entry(&mut self, entry: &Json)
        ensures
            final(self)@ == with_entry(old(self)@, *entry),
    {
        let listed = match entry.get("channelVolumes") {
            Some(v) => v.as_array(),
            None => None,
        };
        match listed {
            Some(v) => {
                self.volumes = read_floats(v);
            },
            None => {
                let single = match entry.get("volume") {
                    Some(v) => v.as_bits(),
                    None => None,
                };
                if let Some(b) = single {
                    if self.volumes.len() == 0 {
                        let mut one: Vec<u32> = Vec::new();
                        one.push(b);
                        assert(one@ == seq![b]);
                        self.volumes = one;
                    }
                }
            },
        }
        if let Some(m) = entry.get("mute") {
            if let Some(b) = m.as_bool() {
                self.muted = b;
            }
        }
    }

    fn read_params(&mut self, info: &Json)
        ensures
            final(self)@ == with_entries(old(self)@, props_entries(*info)),
    {
        let entries = match info.get("params") {
            Some(p) => match p.get("Props") {
                Some(v) => v.as_array(),
                None => None,
            },
            None => None,
        };
        if let Some(v) = entries {
            let mut i: usize = 0;
            while i < v.len()
                invariant
                    i <= v@.len(),
                    self@ == with_entries(old(self)@, v@.take(i as int)),
                decreases v@.len() - i,
            {
                assert(v@.take(i + 1).drop_last() == v@.take(i as int));
                self.read_entry(&v[i]);
                i += 1;
            }
            assert(v@.take(v@.len() as int) == v@);
        }
    }
}

impl State {
    /// Nothing is known yet.
    pub fn new(connected: bool) -> (st: State)
        ensures
            st@ == (StateView { connected, default_sink: Seq::empty(), sinks: Map::empty() }),
    {
        let st = State { connected, default_sink: String::new(), sinks: HashMap::new() };
        assert(st@.sinks =~= Map::empty());
        st
    }

    /// Take the sink out, a blank one if there is none.
    pub(crate) fn take_sink(&mut self, id: u64) -> (s: Sink)
        ensures
            s@ == (if old(self)@.sinks.contains_key(id) {
                old(self)@.sinks[id]
            } else {
                blank_sink()
            }),
            final(self)@ == (StateView { sinks: old(self)@.sinks.remove(id), ..old(self)@ }),
    {
        broadcast use vstd::std_specs::hash::group_hash_axioms;

        let s = match self.sinks.remove(&id) {
            Some(s) => s,
            None => Sink::blank(),
        };
        assert(self@.sinks =~= old(self)@.sinks.remove(id));
        s
    }

    pub(crate) fn put_sink(&mut self, id: u64, s: Sink)
        ensures
            final(self)@ == (StateView { sinks: old(self)@.sinks.insert(id, s@), ..old(self)@ }),
    {
        broadcast use vstd::std_specs::hash::group_hash_axioms;

        self.sinks.insert(id, s);
        assert(self@.sinks =~= old(self)@.sinks.insert(id, s@));
    }

    /// Forget a sink, and say whether there was one.
    pub fn remove_sink(&mut self, id: u64) -> (there: bool)
        ensures
            final(self)@ == (StateView { sinks: old(self)@.sinks.remove(id), ..old(self)@ }),
            there == old(self)@.sinks.contains_key(id),
    {
        broadcast use vstd::std_specs::hash::group_hash_axioms;

        let there = self.sinks.remove(&id).is_some();
        assert(self@.sinks =~= old(self)@.sinks.remove(id));
        there
    }

    pub(crate) fn has_sink(&self, id: u64) -> (there: bool)
        ensures
            there == self@.sinks.contains_key(id),
    {
        broadcast use vstd::std_specs::hash::group_hash_axioms;

        self.sinks.contains_key(&id)
    }

    fn apply_node(&mut self, id: u64, info: &Json) -> (changed: bool)
        ensures
            (final(self)@, changed) == with_node(old(self)@, id, *info),
    {
        let props = info.get("props");
        let is_sink = self.has_sink(id) || text::same(
            read_prop(props, "media.class").as_str(),
            "Audio/Sink",
        );
        if !is_sink {
            return false;
        }
        let mut sink = self.take_sink(id);
        sink.read_names(props);
        sink.read_params(info);
        self.put_sink(id, sink);
        assert(self@.sinks =~= old(self)@.sinks.insert(id, sink@));
        true
    }

    fn apply_metadata(&mut self, obj: &Json, info: &Json) -> (changed: bool)
        ensures
            (final(self)@, changed) == with_metadata(old(self)@, *obj, *info),
    {
        if !text::same(read_prop(info.get("props"), "metadata.name").as_str(), "default") {
            return false;
        }
        let items = match obj.get("metadata") {
            Some(v) => v.as_array(),
            None => None,
        };
        let mut changed = false;
        if let Some(items) = items {
            let mut i: usize = 0;
            while i < items.len()
                invariant
                    i <= items@.len(),
                    (self@.default_sink, changed) == with_items(
                        old(self)@.default_sink,
                        items@.take(i as int),
                    ),
                    self@.connected == old(self)@.connected,
                    self@.sinks == old(self)@.sinks,
                decreases items@.len() - i,
            {
                assert(items@.take(i + 1).drop_last() == items@.take(i as int));
                let it = &items[i];
                let is_default = match it.get("key") {
                    Some(k) => match k.as_str() {
                        Some(k) => text::same(k, "default.audio.sink"),
                        None => false,
                    },
                    None => false,
                };
                if is_default {
                    let name = read_prop(it.get("value"), "name");
                    if name != self.default_sink {
                        self.default_sink = name;
                        changed = true;
                    }
                }
                i += 1;
            }
            assert(items@.take(items@.len() as int) == items@);
        }
        changed
    }
}

/// Bring `state` up to date with a dumped object, and say whether the bar has
/// to look again.
pub fn apply(state: &mut State, obj: &Json) -> (changed: bool)
    ensures
        (final(state)@, changed) == with_object(old(state)@, *obj),
{
    let id = match obj.get("id") {
        Some(v) => v.as_u64(),
        None => None,
    };
    let id: u64 = match id {
        Some(id) => id,
        None => return false,
    };
    let info = match obj.get("info") {
        Some(info) => info,
        None => return state.remove_sink(id),
    };
    // `"info": null` is pw-dump's removal notice.
    if info.is_null() {
        return state.remove_sink(id);
    }
    let kind = read_prop(Some(obj), "type");
    if text::same(kind.as_str(), "PipeWire:Interface:Node") {
        state.apply_node(id, info)
    } else if text::same(kind.as_str(), "PipeWire:Interface:Metadata") {
        state.apply_metadata(obj, info)
    } else {
        false
    }
}

/// Bring `state` up to date with one item of the dump, and say whether the bar
/// has to look again.
pub fn apply_item(state: &mut State, item: &Json) -> (changed: bool)
    ensures
        (final(state)@, changed) == with_item(old(state)@, *item),
{
    match item {
        Json::List(objs) => {
            let mut changed = false;
            let mut i: usize = 0;
            while i < objs.len()
                invariant
                    i <= objs@.len(),
                    (state@, changed) == with_objects(old(state)@, objs@.take(i as int)),
                decreases objs@.len() - i,
            {
                assert(objs@.take(i + 1).drop_last() == objs@.take(i as int));
                let more = apply(state, &objs[i]);
                changed = changed || more;
                i += 1;
            }
            assert(objs@.take(objs@.len() as int) == objs@);
            changed
        },
        _ => apply(state, item),
    }
}

// ---------------------------------------------------------------------------
// The sink that the bar shows, and changes to it
// ---------------------------------------------------------------------------
impl StateView {
    /// Some sink has the default sink's name.
    pub open spec fn has_named(self) -> bool {
        self.default_sink.len() > 0 && exists|k: u64|
            self.sinks.contains_key(k) && (#[trigger] self.sinks[k]).name == self.default_sink
    }

    /// The sink `id` may be the default: it has the default sink's name, or
    /// none has.
    pub open spec fn is_candidate(self, id: u64) -> bool {
        self.sinks.contains_key(id) && (self.has_named() ==> self.sinks[id].name
            == self.default_sink)
    }

    /// `id` is the sink that the bar shows: the one of the default sink's name,
    /// or any where there is none of that name; of several, the one of the
    /// least id.
    pub open spec fn is_default(self, id: u64) -> bool {
        self.is_candidate(id) && forall|k: u64| #[trigger] self.is_candidate(k) ==> id <= k
    }

    /// The sink that the bar shows, if there is any.
    pub open spec fn default_of(self) -> Option<u64> {
        if exists|id: u64| self.is_default(id) {
            Some(choose|id: u64| self.is_default(id))
        } else {
            None
        }
    }

    /// What is read of the default sink: its loudest channel, by its bits, and
    /// whether it is muted. None without PipeWire or without a sink.
    pub open spec fn reading(self) -> Option<(u32, bool)> {
        match self.default_of() {
            Some(id) => if self.connected {
                Some((loudest(self.sinks[id].volumes), self.sinks[id].muted))
            } else {
                None
            },
            None => None,
        }
    }

    /// `a` is the change of the default sink's volume by `delta`: every
    /// channel gets the new volume, at least one, and turning it up unmutes.
    pub open spec fn plans(self, a: Adjustment, delta: int) -> bool {
        let s = self.sinks[a.id];
        &&& self.is_default(a.id)
        &&& a.channels == (if s.volumes.len() == 0 {
            1
        } else {
            s.volumes.len()
        })
        &&& a.level == loudest(s.volumes)
        &&& a.mute == (delta <= 0 && s.muted)
    }
}

/// The bits of a float that is not negative and not NaN.
pub open spec fn counts(bits: u32) -> bool {
    bits <= 0x7f80_0000
}

/// The largest of `volumes`, by its bits; zero if none is above it.
pub open spec fn loudest(volumes: Seq<u32>) -> u32
    decreases volumes.len(),
{
    if volumes.len() == 0 {
        0
    } else {
        let m = loudest(volumes.drop_last());
        let b = volumes.last();
        if counts(b) && b > m {
            b
        } else {
            m
        }
    }
}

fn loudest_of(volumes: &Vec<u32>) -> (m: u32)
    ensures
        m == loudest(volumes@),
{
    let mut m: u32 = 0;
    let mut i: usize = 0;
    while i < volumes.len()
        invariant
            i <= volumes@.len(),
            m == loudest(volumes@.take(i as int)),
        decreases volumes@.len() - i,
    {
        assert(volumes@.take(i + 1).drop_last() == volumes@.take(i as int));
        let b: u32 = volumes[i];
        if b <= 0x7f80_0000 && b > m {
            m = b;
        }
        i += 1;
    }
    assert(volumes@.take(volumes@.len() as int) == volumes@);
    m
}

/// `n` channels at one volume.
pub fn all_channels(n: usize, bits: u32) -> (v: Vec<u32>)
    ensures
        v@ == Seq::new(n as nat, |i: int| bits),
{
    let mut v: Vec<u32> = Vec::new();
    let mut i: usize = 0;
    while i < n
        invariant
            i <= n,
            v@ == Seq::new(i as nat, |j: int| bits),
        decreases n - i,
    {
        v.push(bits);
        assert(v@ == Seq::new((i + 1) as nat, |j: int| bits));
        i += 1;
    }
    v
}

fn copied(v: &Vec<u32>) -> (r: Vec<u32>)
    ensures
        r@ == v@,
{
    let r = v.clone();
    assert(r@ =~= v@);
    r
}

/// A change of the default sink's volume, before it is made: the new volume is
/// a float's work.
#[derive(Clone, Copy, PartialEq, Eq, Debug, Structural)]
pub struct Adjustment {
    pub id: u64,
    /// How many channels get the new volume.
    pub channels: usize,
    /// The volume now, by its bits.
    pub level: u32,
    pub mute: bool,
}

/// What is sent to PipeWire: a sink's volumes, by their bits, and whether it
/// is muted.
#[derive(Debug)]
pub struct Change {
    pub id: u64,
    pub volumes: Vec<u32>,
    pub mute: bool,
}

impl Change {
    /// It is the change `a`, to the volume `level`.
    pub open spec fn sets(self, a: Adjustment, level: u32) -> bool {
        &&& self.id == a.id
        &&& self.volumes@ == Seq::new(a.channels as nat, |i: int| level)
        &&& self.mute == a.mute
    }
}

impl StateView {
    /// The state after the change `a`, to the volume `level`.
    pub open spec fn adjusted(self, a: Adjustment, level: u32) -> StateView {
        StateView {
            sinks: if self.sinks.contains_key(a.id) {
                self.sinks.insert(
                    a.id,
                    SinkView {
                        volumes: Seq::new(a.channels as nat, |i: int| level),
                        muted: a.mute,
                        ..self.sinks[a.id]
                    },
                )
            } else {
                self.sinks
            },
            ..self
        }
    }

    /// The state after the sink `id` was muted or unmuted.
    pub open spec fn flipped(self, id: u64) -> StateView {
        StateView {
            sinks: self.sinks.insert(
                id,
                SinkView { muted: !self.sinks[id].muted, ..self.sinks[id] },
            ),
            ..self
        }
    }
}

/// `percent` and `linear` made `level` of the volume `now`: the percentage of
/// `now`, changed by `delta` and kept within 0 to 100, as a volume again.
pub open spec fn moves<F: Fn(u32) -> i64, G: Fn(i64) -> u32>(
    percent: F,
    linear: G,
    delta: i64,
    now: u32,
    level: u32,
) -> bool {
    exists|p: i64, q: i64|
        {
            &&& #[trigger] call_ensures(percent, (now,), p)
            &&& q == audio::within_percent(p + delta)
            &&& #[trigger] call_ensures(linear, (q,), level)
        }
}

/// The volume `delta` percent from `now`, by its bits.
fn moved<F: Fn(u32) -> i64, G: Fn(i64) -> u32>(
    percent: F,
    linear: G,
    delta: i64,
    now: u32,
) -> (level: u32)
    requires
        forall|bits: u32| call_requires(percent, (bits,)),
        forall|p: i64| 0 <= p <= 100 ==> call_requires(linear, (p,)),
    ensures
        moves(percent, linear, delta, now, level),
{
    let p: i64 = percent(now);
    let sum: i128 = p as i128 + delta as i128;
    let q: i64 = if sum < 0 {
        0
    } else if sum > 100 {
        100
    } else {
        sum as i64
    };
    linear(q)
}

/// The lesser of two ids, of which the first may be missing.
fn lesser(a: Option<u64>, b: u64) -> (r: Option<u64>)
    ensures
        r == Some(
            match a {
                Some(a) => if b < a {
                    b
                } else {
                    a
                },
                None => b,
            },
        ),
{
    match a {
        Some(a) => if b < a {
            Some(b)
        } else {
            Some(a)
        },
        None => Some(b),
    }
}

impl State {
    /// The sink that the bar shows.
    pub fn default_id(&self) -> (r: Option<u64>)
        ensures
            r == self@.default_of(),
            match r {
                Some(id) => self@.is_default(id),
                None => forall|k: u64| !self@.sinks.contains_key(k),
            },
    {
        broadcast use vstd::std_specs::hash::group_hash_axioms;

        let mut named: Option<u64> = None;
        let mut least: Option<u64> = None;
        for k in it: self.sinks.keys()
            invariant
                it.seq().unref().to_set() == self.sinks@.dom(),
                least is None <==> it.index() == 0,
                least matches Some(id) ==> self.sinks@.contains_key(id),
                least matches Some(id) ==> forall|j: int|
                    0 <= j < it.index() ==> id <= *#[trigger] it.seq()[j],
                named matches Some(id) ==> self@.sinks.contains_key(id)
                    && self@.default_sink.len() > 0 && self@.sinks[id].name == self@.default_sink,
                forall|j: int|
                    0 <= j < it.index() && self@.default_sink.len() > 0
                        && self@.sinks[*#[trigger] it.seq()[j]].name == self@.default_sink
                        ==> (named matches Some(id) && id <= *it.seq()[j]),
        {
            assert(it.seq().unref().contains(*k)) by {
                assert(it.seq().unref()[it.index() as int] == *k);
            }
            assert(it.seq().unref().to_set().contains(*k));
            let sink = match self.sinks.get(k) {
                Some(s) => s,
                None => {
                    assert(false);
                    return None;
                },
            };
            if !self.default_sink.as_str().is_empty() && sink.name == self.default_sink {
                assert(self@.sinks[*k].name == self@.default_sink);
                named = lesser(named, *k);
            }
            least = lesser(least, *k);
        }
        let r = match named {
            Some(id) => Some(id),
            None => least,
        };
        proof {
            if let Some(id) = r {
                assert(self@.is_default(id));
                law_one_default(self@, id, self@.default_of().unwrap());
            } else {
                assert(forall|k: u64| !self@.sinks.contains_key(k));
            }
        }
        r
    }

    fn sink(&self, id: u64) -> (s: &Sink)
        requires
            self@.sinks.contains_key(id),
        ensures
            s@ == self@.sinks[id],
    {
        broadcast use vstd::std_specs::hash::group_hash_axioms;

        self.sinks.get(&id).unwrap()
    }

    /// Whether there is any sink.
    pub fn has_sinks(&self) -> (r: bool)
        ensures
            r == exists|k: u64| self@.sinks.contains_key(k),
    {
        match self.default_id() {
            Some(id) => true,
            None => false,
        }
    }

    /// Whether PipeWire is still there.
    pub fn alive(&self) -> (r: bool)
        ensures
            r == self@.connected,
    {
        self.connected
    }

    /// The default sink's volume, by its bits, and whether it is muted: none
    /// without PipeWire or without a sink.
    pub fn get(&self) -> (r: Option<(u32, bool)>)
        ensures
            r == self@.reading(),
            r is None <==> !self@.connected || forall|k: u64| !self@.sinks.contains_key(k),
    {
        if !self.connected {
            return None;
        }
        match self.default_id() {
            Some(id) => {
                let s = self.sink(id);
                Some((loudest_of(&s.volumes), s.muted))
            },
            None => None,
        }
    }

    /// What the default sink calls itself: its description, else its name.
    pub fn sink_description(&self) -> (r: Option<String>)
        ensures
            match self@.default_of() {
                Some(id) => r matches Some(d) && d@ == (if self@.sinks[id].description.len() == 0 {
                    self@.sinks[id].name
                } else {
                    self@.sinks[id].description
                }),
                None => r is None,
            },
    {
        match self.default_id() {
            Some(id) => {
                let s = self.sink(id);
                Some(
                    if s.description.as_str().is_empty() {
                        s.name.clone()
                    } else {
                        s.description.clone()
                    },
                )
            },
            None => None,
        }
    }

    /// The change of the default sink's volume by `delta`: every channel gets
    /// the new volume, at least one, and turning it up unmutes. None without a
    /// sink.
    pub fn plan_adjust(&self, delta: i64) -> (r: Option<Adjustment>)
        ensures
            match r {
                Some(a) => self@.plans(a, delta as int),
                None => forall|k: u64| !self@.sinks.contains_key(k),
            },
            r is Some <==> self@.default_of() is Some,
    {
        match self.default_id() {
            Some(id) => {
                let s = self.sink(id);
                let n: usize = s.volumes.len();
                Some(
                    Adjustment {
                        id,
                        channels: if n == 0 {
                            1
                        } else {
                            n
                        },
                        level: loudest_of(&s.volumes),
                        mute: if delta > 0 {
                            false
                        } else {
                            s.muted
                        },
                    },
                )
            },
            None => None,
        }
    }

    /// Make the change at once, so the bar reacts before pw-dump echoes it,
    /// and say what to send. `level` is the new volume, by its bits. The sink
    /// may have gone since the change was planned; the rest stays as it is.
    pub fn adjust(&mut self, a: Adjustment, level: u32) -> (c: Change)
        ensures
            c.sets(a, level),
            final(self)@ == old(self)@.adjusted(a, level),
    {
        let volumes = all_channels(a.channels, level);
        if self.has_sink(a.id) {
            let mut s = self.take_sink(a.id);
            s.volumes = copied(&volumes);
            s.muted = a.mute;
            self.put_sink(a.id, s);
            assert(self@.sinks =~= old(self)@.sinks.insert(a.id, s@));
        }
        Change { id: a.id, volumes, mute: a.mute }
    }

    /// The default sink's volume as a percentage, which `percent` works out of
    /// its bits.
    pub fn volume<F: Fn(u32) -> i64>(&self, percent: F) -> (r: Option<Volume>)
        requires
            forall|bits: u32| call_requires(percent, (bits,)),
        ensures
            match self@.reading() {
                Some((level, muted)) => {
                    &&& r is Some
                    &&& r.unwrap().muted == muted
                    &&& call_ensures(percent, (level,), r.unwrap().percent)
                },
                None => r is None,
            },
    {
        match self.get() {
            Some((level, muted)) => Some(Volume { percent: percent(level), muted }),
            None => None,
        }
    }

    /// What a change of the default sink's volume by `delta` percent sends:
    /// its percentage, changed and kept within 0 to 100, on every channel.
    /// `percent` works a percentage out of a volume's bits, `linear` the other
    /// way round. None without a sink.
    pub fn plan_change<F: Fn(u32) -> i64, G: Fn(i64) -> u32>(
        &self,
        delta: i64,
        percent: F,
        linear: G,
    ) -> (r: Option<Change>)
        requires
            forall|bits: u32| call_requires(percent, (bits,)),
            forall|p: i64| 0 <= p <= 100 ==> call_requires(linear, (p,)),
        ensures
            r is Some <==> self@.default_of() is Some,
            match r {
                Some(c) => exists|a: Adjustment, level: u32|
                    {
                        &&& #[trigger] self@.plans(a, delta as int)
                        &&& #[trigger] moves(percent, linear, delta, a.level, level)
                        &&& c.sets(a, level)
                    },
                None => forall|k: u64| !self@.sinks.contains_key(k),
            },
    {
        match self.plan_adjust(delta) {
            Some(a) => {
                let level: u32 = moved(percent, linear, delta, a.level);
                let c = Change { id: a.id, volumes: all_channels(a.channels, level), mute: a.mute };
                assert(c.sets(a, level));
                Some(c)
            },
            None => None,
        }
    }

    /// Change the default sink's volume by `delta` percent, at once, and say
    /// what to send.
    pub fn change_volume<F: Fn(u32) -> i64, G: Fn(i64) -> u32>(
        &mut self,
        delta: i64,
        percent: F,
        linear: G,
    ) -> (r: Option<Change>)
        requires
            forall|bits: u32| call_requires(percent, (bits,)),
            forall|p: i64| 0 <= p <= 100 ==> call_requires(linear, (p,)),
        ensures
            match r {
                Some(c) => exists|a: Adjustment, level: u32|
                    {
                        &&& #[trigger] old(self)@.plans(a, delta as int)
                        &&& #[trigger] moves(percent, linear, delta, a.level, level)
                        &&& c.sets(a, level)
                        &&& final(self)@ == old(self)@.adjusted(a, level)
                    },
                None => final(self)@ == old(self)@ && forall|k: u64|
                    !old(self)@.sinks.contains_key(k),
            },
    {
        match self.plan_adjust(delta) {
            Some(a) => {
                let level: u32 = moved(percent, linear, delta, a.level);
                Some(self.adjust(a, level))
            },
            None => None,
        }
    }

    /// What muting the default sink or unmuting it sends: its volumes as they
    /// are, full volume on one channel where it has none. None without a sink.
    pub fn plan_toggle(&self) -> (r: Option<Change>)
        ensures
            r is Some <==> self@.default_of() is Some,
            match r {
                Some(c) => {
                    let s = self@.sinks[c.id];
                    &&& self@.is_default(c.id)
                    &&& c.volumes@ == (if s.volumes.len() == 0 {
                        seq![0x3f80_0000u32]
                    } else {
                        s.volumes
                    })
                    &&& c.mute == !s.muted
                },
                None => forall|k: u64| !self@.sinks.contains_key(k),
            },
    {
        match self.default_id() {
            Some(id) => {
                let s = self.sink(id);
                let volumes = if s.volumes.len() == 0 {
                    let v = all_channels(1, 0x3f80_0000);
                    assert(v@ =~= seq![0x3f80_0000u32]);
                    v
                } else {
                    copied(&s.volumes)
                };
                Some(Change { id, volumes, mute: !s.muted })
            },
            None => None,
        }
    }

    /// Mute the default sink or unmute it, at once, and say what to send.
    pub fn toggle_mute(&mut self) -> (r: Option<Change>)
        ensures
            match r {
                Some(c) => {
                    let s = old(self)@.sinks[c.id];
                    &&& old(self)@.is_default(c.id)
                    &&& c.volumes@ == (if s.volumes.len() == 0 {
                        seq![0x3f80_0000u32]
                    } else {
                        s.volumes
                    })
                    &&& c.mute == !s.muted
                    &&& final(self)@ == old(self)@.flipped(c.id)
                },
                None => final(self)@ == old(self)@ && forall|k: u64|
                    !old(self)@.sinks.contains_key(k),
            },
    {
        let change = self.plan_toggle();
        if let Some(c) = &change {
            let mut s = self.take_sink(c.id);
            s.muted = c.mute;
            self.put_sink(c.id, s);
            assert(self@.sinks =~= old(self)@.sinks.insert(c.id, s@));
        }
        change
    }
}

/// The Props that `pw-cli set-param` is given, `volumes` being numbers written
/// out.
pub open spec fn props_text(volumes: Seq<Seq<char>>, mute: bool) -> Seq<char> {
    "{ channelVolumes: [ "@ + text::joined(volumes, ", "@) + " ], mute: "@ + (if mute {
        "true"@
    } else {
        "false"@
    }) + " }"@
}

/// The Props to give `pw-cli set-param`.
pub fn props_param(volumes: &Vec<String>, mute: bool) -> (s: String)
    ensures
        s@ == props_text(text::views(volumes@), mute),
{
    let mut s = "{ channelVolumes: [ ".to_owned();
    let listed = text::join(volumes, ", ");
    s.append(listed.as_str());
    s.append(" ], mute: ");
    s.append(
        if mute {
            "true"
        } else {
            "false"
        },
    );
    s.append(" }");
    s
}

// ---------------------------------------------------------------------------
// What holds of every state
// ---------------------------------------------------------------------------
proof fn lemma_items_unchanged(name: Seq<char>, items: Seq<Json>)
    ensures
        !with_items(name, items).1 ==> with_items(name, items).0 == name,
    decreases items.len(),
{
    if items.len() > 0 {
        lemma_items_unchanged(name, items.drop_last());
    }
}

/// An object that is said to change nothing leaves the state as it was.
pub proof fn law_no_change_no_effect(st: StateView, obj: Json)
    ensures
        !with_object(st, obj).1 ==> with_object(st, obj).0 == st,
{
    let items = match list_at(obj, "metadata"@) {
        Some(v) => v,
        None => Seq::empty(),
    };
    lemma_items_unchanged(st.default_sink, items);
    assert forall|id: u64| !st.sinks.contains_key(id) implies #[trigger] st.sinks.remove(id)
        == st.sinks by {
        assert(st.sinks.remove(id) =~= st.sinks);
    }
}

/// An update that carries only parameters, no properties, keeps the name and
/// the description of a sink that is known.
pub proof fn law_params_keep_names(st: StateView, id: u64, info: Json)
    requires
        st.sinks.contains_key(id),
        info.at("props"@) is None,
    ensures
        ({
            let after = with_node(st, id, info).0.sinks;
            &&& after.contains_key(id)
            &&& after[id].name == st.sinks[id].name
            &&& after[id].description == st.sinks[id].description
        }),
{
    lemma_entries_keep_names(st.sinks[id], props_entries(info));
}

proof fn lemma_entries_keep_names(s: SinkView, entries: Seq<Json>)
    ensures
        with_entries(s, entries).name == s.name,
        with_entries(s, entries).description == s.description,
    decreases entries.len(),
{
    if entries.len() > 0 {
        lemma_entries_keep_names(s, entries.drop_last());
    }
}

/// An object touches no sink but its own, and never whether PipeWire is there.
pub proof fn law_object_touches_own_sink(st: StateView, obj: Json, other: u64)
    requires
        obj.at("id"@) matches Some(v) ==> v.unsigned() != Some(other),
    ensures
        ({
            let after = with_object(st, obj).0;
            &&& after.connected == st.connected
            &&& after.sinks.contains_key(other) == st.sinks.contains_key(other)
            &&& st.sinks.contains_key(other) ==> after.sinks[other] == st.sinks[other]
        }),
{
}

/// After a removal notice the sink is gone.
pub proof fn law_removal_removes(st: StateView, obj: Json, id: u64)
    requires
        obj.at("id"@) matches Some(v) && v.unsigned() == Some(id),
        obj.at("info"@) is None || obj.at("info"@) == Some(Json::Null),
    ensures
        !with_object(st, obj).0.sinks.contains_key(id),
        with_object(st, obj).1 == st.sinks.contains_key(id),
{
}

/// There is one sink to show at the most.
pub proof fn law_one_default(st: StateView, a: u64, b: u64)
    requires
        st.is_default(a),
    ensures
        st.is_default(b) ==> a == b,
        st.default_of() == Some(a),
{
    let d = choose|id: u64| st.is_default(id);
    assert(st.is_default(d));
    assert(st.is_candidate(a) && st.is_candidate(d));
    assert(st.is_candidate(b) || !st.is_default(b));
}

/// There is a sink to show exactly when there is any sink.
pub proof fn law_default_exists(st: StateView, id: u64)
    requires
        st.sinks.contains_key(id),
    ensures
        exists|d: u64| st.is_default(d),
        st.default_of() is Some,
{
    if st.has_named() {
        let d = choose|k: u64|
            st.sinks.contains_key(k) && (#[trigger] st.sinks[k]).name == st.default_sink;
        assert(st.is_candidate(d));
        lemma_least(st, d);
    } else {
        assert(st.is_candidate(id));
        lemma_least(st, id);
    }
}

proof fn lemma_least(st: StateView, id: u64)
    requires
        st.is_candidate(id),
    ensures
        exists|d: u64| st.is_default(d),
    decreases id,
{
    if exists|k: u64| #[trigger] st.is_candidate(k) && k < id {
        let k = choose|k: u64| #[trigger] st.is_candidate(k) && k < id;
        lemma_least(st, k);
    } else {
        assert(st.is_default(id));
    }
}

/// The loudest channel is one of the channels, or silence, and no channel
/// that counts is louder.
pub proof fn law_loudest(volumes: Seq<u32>)
    ensures
        loudest(volumes) == 0 || volumes.contains(loudest(volumes)),
        forall|i: int|
            0 <= i < volumes.len() && counts(#[trigger] volumes[i]) ==> volumes[i] <= loudest(
                volumes,
            ),
        counts(loudest(volumes)),
    decreases volumes.len(),
{
    if volumes.len() > 0 {
        let rest = volumes.drop_last();
        law_loudest(rest);
        let m = loudest(rest);
        if rest.contains(m) {
            let i = choose|i: int| 0 <= i < rest.len() && rest[i] == m;
            assert(volumes[i] == m);
        }
        assert(volumes[volumes.len() - 1] == volumes.last());
        assert forall|i: int|
            0 <= i < volumes.len() && counts(#[trigger] volumes[i]) implies volumes[i] <= loudest(
            volumes,
        ) by {
            if i < volumes.len() - 1 {
                assert(rest[i] == volumes[i]);
            }
        }
    }
}

/// Muting flips what is read of the default sink and nothing else, and muting
/// twice gives the state back.
pub proof fn law_mute_twice(st: StateView, id: u64)
    requires
        st.is_default(id),
    ensures
        st.flipped(id).is_default(id),
        st.reading() matches Some((level, muted)) ==> st.flipped(id).reading() == Some(
            (level, !muted),
        ),
        st.reading() is None ==> st.flipped(id).reading() is None,
        st.flipped(id).flipped(id) == st,
        st.flipped(id).flipped(id).reading() == st.reading(),
        forall|k: u64|
            k != id && st.sinks.contains_key(k) ==> (#[trigger] st.flipped(id).sinks[k])
                == st.sinks[k],
        st.flipped(id).sinks[id].volumes == st.sinks[id].volumes,
{
    assert(st.flipped(id).flipped(id).sinks =~= st.sinks);
    lemma_same_names(st, st.flipped(id));
    assert(st.flipped(id).is_default(id) == st.is_default(id));
    law_one_default(st, id, id);
    law_one_default(st.flipped(id), id, id);
}

/// What is set is what is read: after a change of the volume by `delta` to a
/// level that a sink can have, that level is read, and the sink is muted if it
/// was and was not turned up. The sink is still the default and has the
/// channels it had, at least one, all at that level; every other sink stays as
/// it was.
pub proof fn law_set_is_read(st: StateView, a: Adjustment, delta: int, level: u32)
    requires
        st.plans(a, delta),
        counts(level),
    ensures
        st.reading() matches Some((_, muted)) ==> st.adjusted(a, level).reading() == Some(
            (level, muted && delta <= 0),
        ),
        st.adjusted(a, level).is_default(a.id),
        st.adjusted(a, level).default_sink == st.default_sink,
        st.adjusted(a, level).sinks[a.id].volumes == Seq::new(
            if st.sinks[a.id].volumes.len() == 0 {
                1
            } else {
                st.sinks[a.id].volumes.len()
            },
            |i: int| level,
        ),
        st.adjusted(a, level).sinks[a.id].name == st.sinks[a.id].name,
        forall|k: u64|
            k != a.id && st.sinks.contains_key(k) ==> (#[trigger] st.adjusted(a, level).sinks[k])
                == st.sinks[k],
{
    lemma_same_names(st, st.adjusted(a, level));
    assert(st.is_default(a.id) == st.adjusted(a, level).is_default(a.id));
    law_one_default(st, a.id, a.id);
    law_one_default(st.adjusted(a, level), a.id, a.id);
    let v = Seq::new(a.channels as nat, |i: int| level);
    law_loudest(v);
    assert(counts(v[0]));
    if v.contains(loudest(v)) {
        let i = choose|i: int| 0 <= i < v.len() && v[i] == loudest(v);
        assert(v[i] == level);
    }
}

/// What is asked for is what is shown: where a percentage made a volume comes
/// back as the percentage it was, a change by `delta` percent is read as the
/// percentage there was, changed by `delta` and kept within 0 to 100.
pub proof fn law_percent_is_read(
    st: StateView,
    a: Adjustment,
    delta: int,
    percent: spec_fn(u32) -> int,
    linear: spec_fn(int) -> u32,
)
    requires
        st.plans(a, delta),
        st.connected,
        forall|p: int|
            0 <= p <= 100 ==> counts(#[trigger] linear(p)) && percent(linear(p)) == p,
    ensures
        ({
            let after = st.adjusted(
                a,
                linear(audio::within_percent(percent(a.level) + delta)),
            ).reading();
            st.reading() matches Some((level, muted)) && after matches Some((then_level, then_muted))
                && percent(then_level) == audio::within_percent(percent(level) + delta) && then_muted
                == (muted && delta <= 0)
        }),
{
    let q = audio::within_percent(percent(a.level) + delta);
    assert(0 <= q <= 100);
    assert(counts(linear(q)));
    law_one_default(st, a.id, a.id);
    law_set_is_read(st, a, delta, linear(q));
}

proof fn lemma_same_names(a: StateView, b: StateView)
    requires
        a.default_sink == b.default_sink,
        forall|k: u64| a.sinks.contains_key(k) == #[trigger] b.sinks.contains_key(k),
        forall|k: u64| a.sinks.contains_key(k) ==> (#[trigger] a.sinks[k]).name == b.sinks[k].name,
    ensures
        forall|k: u64| b.is_default(k) == #[trigger] a.is_default(k),
{
    assert(a.has_named() == b.has_named()) by {
        if a.has_named() {
            let k = choose|k: u64|
                a.sinks.contains_key(k) && (#[trigger] a.sinks[k]).name == a.default_sink;
            assert(b.sinks.contains_key(k) && b.sinks[k].name == b.default_sink);
        }
        if b.has_named() {
            let k = choose|k: u64|
                b.sinks.contains_key(k) && (#[trigger] b.sinks[k]).name == b.default_sink;
            assert(a.sinks.contains_key(k) && a.sinks[k].name == a.default_sink);
        }
    }
    assert forall|k: u64| #[trigger] a.is_candidate(k) == b.is_candidate(k) by {
        assert(a.sinks.contains_key(k) == b.sinks.contains_key(k));
        if a.sinks.contains_key(k) {
            assert(a.sinks[k].name == b.sinks[k].name);
        }
    }
    assert forall|k: u64| b.is_default(k) == #[trigger] a.is_default(k) by {
        assert(a.is_candidate(k) == b.is_candidate(k));
        assert(forall|j: u64| #[trigger] b.is_candidate(j) == a.is_candidate(j));
    }
}

// ---------------------------------------------------------------------------
// What holds of every update
// ---------------------------------------------------------------------------
/// An entry that says whether the sink is muted decides it, whatever it was
/// before, and one that does not say leaves it. A list of channel volumes takes
/// the place of the volumes; a single volume stands in only where there are
/// none; an entry with neither leaves them. Names are not an entry's business.
pub proof fn law_entry_decides(s: SinkView, e: Json)
    ensures
        ({
            let after = with_entry(s, e);
            &&& after.muted == match e.at("mute"@) {
                Some(Json::Bool(b)) => b,
                _ => s.muted,
            }
            &&& (e.at("channelVolumes"@) matches Some(v) ==> (v is List ==> after.volumes == floats(
                v.list().unwrap(),
            )))
            &&& !(e.at("channelVolumes"@) matches Some(v) && v is List) ==> {
                &&& s.volumes.len() > 0 ==> after.volumes == s.volumes
                &&& s.volumes.len() == 0 ==> after.volumes == match e.at("volume"@) {
                    Some(Json::Number { bits, .. }) => seq![bits],
                    _ => s.volumes,
                }
            }
            &&& after.name == s.name
            &&& after.description == s.description
        }),
{
    if let Some(v) = e.at("channelVolumes"@) {
        if v is List {
            assert(list_at(e, "channelVolumes"@) == v.list());
        }
    }
}

/// Entries count one after the other.
pub proof fn law_entries_in_turn(s: SinkView, a: Seq<Json>, b: Seq<Json>, e: Json)
    ensures
        with_entries(s, a + b) == with_entries(with_entries(s, a), b),
        with_entries(s, seq![e]) == with_entry(s, e),
        with_entries(s, Seq::empty()) == s,
    decreases b.len(),
{
    assert(seq![e].drop_last() =~= Seq::<Json>::empty());
    assert(seq![e].last() == e);
    assert(with_entries(s, Seq::<Json>::empty()) == s);
    if b.len() == 0 {
        assert(a + b =~= a);
    } else {
        law_entries_in_turn(s, a, b.drop_last(), e);
        assert((a + b).drop_last() =~= a + b.drop_last());
    }
}

/// The volumes of a list are its numbers, in order; what is no number is left
/// out.
pub proof fn law_floats(a: Seq<Json>, b: Seq<Json>, v: Json)
    ensures
        floats(a + b) == floats(a) + floats(b),
        floats(seq![v]) == match v {
            Json::Number { bits, .. } => seq![bits],
            _ => Seq::empty(),
        },
        (forall|i: int| 0 <= i < a.len() ==> (#[trigger] a[i]) is Number) ==> floats(a).len()
            == a.len() && forall|i: int|
            0 <= i < a.len() ==> #[trigger] floats(a)[i] == a[i].float().unwrap(),
    decreases a.len() + b.len(),
{
    assert(seq![v].drop_last() =~= Seq::<Json>::empty());
    assert(floats(Seq::<Json>::empty()) == Seq::<u32>::empty());
    assert(seq![v].last() == v);
    assert(floats(seq![v]) =~= match v {
        Json::Number { bits, .. } => seq![bits],
        _ => Seq::empty(),
    });
    if b.len() == 0 {
        assert(a + b =~= a);
        assert(floats(a) + floats(b) =~= floats(a));
        if a.len() > 0 {
            let front = a.drop_last();
            law_floats(front, b, v);
            if forall|i: int| 0 <= i < a.len() ==> (#[trigger] a[i]) is Number {
                assert forall|i: int| 0 <= i < front.len() implies (#[trigger] front[i])
                    is Number by {
                    assert(front[i] == a[i]);
                }
                assert(a[a.len() - 1] is Number);
                assert forall|i: int| 0 <= i < a.len() implies #[trigger] floats(a)[i]
                    == a[i].float().unwrap() by {
                    if i < front.len() {
                        assert(floats(a)[i] == floats(front)[i]);
                    }
                }
            }
        }
    } else {
        law_floats(a, b.drop_last(), v);
        assert((a + b).drop_last() =~= a + b.drop_last());
        assert((a + b).last() == b.last());
        assert(floats(a + b) =~= floats(a) + floats(b));
    }
}

/// `e` says whether the sink is muted.
pub open spec fn says_mute(e: Json) -> bool {
    e.at("mute"@) matches Some(m) && m is Bool
}

/// The last of the entries that says so decides whether the sink is muted;
/// without one it stays as it was.
pub proof fn law_last_mute_counts(s: SinkView, entries: Seq<Json>, i: int, b: bool)
    ensures
        0 <= i < entries.len() && entries[i].at("mute"@) == Some(Json::Bool(b)) && (forall|j: int|
            i < j < entries.len() ==> !says_mute(#[trigger] entries[j])) ==> with_entries(
            s,
            entries,
        ).muted == b,
        (forall|j: int| 0 <= j < entries.len() ==> !says_mute(#[trigger] entries[j]))
            ==> with_entries(s, entries).muted == s.muted,
    decreases entries.len(),
{
    if entries.len() > 0 {
        let front = entries.drop_last();
        law_last_mute_counts(s, front, i, b);
        law_entry_decides(with_entries(s, front), entries.last());
        assert forall|j: int| 0 <= j < front.len() implies #[trigger] front[j] == entries[j] by {}
        assert(entries[entries.len() - 1] == entries.last());
    }
}

/// The object is an update of the node `id` with this `info`.
pub open spec fn updates_node(obj: Json, id: u64, info: Json) -> bool {
    &&& obj.at("id"@) matches Some(n) && n.unsigned() == Some(id)
    &&& obj.at("info"@) == Some(info) && !(info is Null)
    &&& obj.at("type"@) matches Some(k) && k.text() == Some("PipeWire:Interface:Node"@)
}

/// The Props of `info` are `entries`.
pub open spec fn has_props(info: Json, entries: Seq<Json>) -> bool {
    info.at("params"@) matches Some(p) && p.at("Props"@) matches Some(v) && v.list() == Some(
        entries,
    )
}

/// After an update of a known sink whose only Props entry says whether it is
/// muted, it is muted exactly if that says so, whatever it was before; the same
/// holds of the last entry that says so where there are several.
pub proof fn law_update_mutes_and_unmutes(
    st: StateView,
    obj: Json,
    id: u64,
    info: Json,
    entries: Seq<Json>,
    i: int,
    b: bool,
)
    requires
        st.sinks.contains_key(id),
        updates_node(obj, id, info),
        has_props(info, entries),
        0 <= i < entries.len(),
        entries[i].at("mute"@) == Some(Json::Bool(b)),
        forall|j: int| i < j < entries.len() ==> !says_mute(#[trigger] entries[j]),
    ensures
        with_object(st, obj).0.sinks.contains_key(id),
        with_object(st, obj).0.sinks[id].muted == b,
        with_object(st, obj).1,
{
    assert(props_entries(info) == entries);
    law_last_mute_counts(named(st.sinks[id], info.at("props"@)), entries, i, b);
}

/// After an update of a known sink whose only Props entry lists channel
/// volumes, those are its volumes, whatever they were before.
pub proof fn law_update_sets_volumes(
    st: StateView,
    obj: Json,
    id: u64,
    info: Json,
    e: Json,
    v: Json,
)
    requires
        st.sinks.contains_key(id),
        updates_node(obj, id, info),
        has_props(info, seq![e]),
        e.at("channelVolumes"@) == Some(v),
        v is List,
        forall|k: int|
            0 <= k < v.list().unwrap().len() ==> (#[trigger] v.list().unwrap()[k]) is Number,
    ensures
        ({
            let after = with_object(st, obj).0.sinks[id].volumes;
            &&& after.len() == v.list().unwrap().len()
            &&& forall|k: int|
                0 <= k < after.len() ==> #[trigger] after[k]
                    == v.list().unwrap()[k].float().unwrap()
        }),
{
    let s = named(st.sinks[id], info.at("props"@));
    assert(props_entries(info) == seq![e]);
    law_entries_in_turn(s, Seq::empty(), Seq::empty(), e);
    law_entry_decides(s, e);
    law_floats(v.list().unwrap(), Seq::empty(), v);
}

/// A text that is given is read, and anything else is read as empty.
pub proof fn law_prop(p: Json, key: Seq<char>, t: Seq<char>)
    ensures
        p.at(key) matches Some(v) ==> (v.text() == Some(t) ==> prop(Some(p), key) == t),
        !(p.at(key) matches Some(v) && v is Text) ==> prop(Some(p), key) == Seq::<char>::empty(),
        prop(None, key) == Seq::<char>::empty(),
{
}

/// Properties name the sink: by its own name, and by its description or, where
/// that is empty, its nick. They change nothing else, and without properties it
/// keeps the names it had.
pub proof fn law_named(s: SinkView, p: Json)
    ensures
        named(s, None) == s,
        named(s, Some(p)).name == prop(Some(p), "node.name"@),
        prop(Some(p), "node.description"@).len() > 0 ==> named(s, Some(p)).description == prop(
            Some(p),
            "node.description"@,
        ),
        prop(Some(p), "node.description"@).len() == 0 ==> named(s, Some(p)).description == prop(
            Some(p),
            "node.nick"@,
        ),
        named(s, Some(p)).volumes == s.volumes,
        named(s, Some(p)).muted == s.muted,
{
}

/// A node that is not known yet becomes a sink exactly if its class says that
/// it is one; it starts without volumes and not muted, and is then what its
/// properties and Props say. A node that is known stays one.
pub proof fn law_sinks_appear(st: StateView, obj: Json, id: u64, info: Json)
    requires
        updates_node(obj, id, info),
    ensures
        ({
            let after = with_object(st, obj).0;
            let props = info.at("props"@);
            let is_sink = props matches Some(p) && p.at("media.class"@) matches Some(c) && c.text()
                == Some("Audio/Sink"@);
            &&& after.sinks.contains_key(id) <==> st.sinks.contains_key(id) || is_sink
            &&& with_object(st, obj).1 == after.sinks.contains_key(id)
            &&& after.default_sink == st.default_sink
            &&& after.sinks.contains_key(id) && props_entries(info).len() == 0 ==> {
                let s = after.sinks[id];
                let known = st.sinks.contains_key(id);
                &&& s.volumes == if known {
                    st.sinks[id].volumes
                } else {
                    Seq::empty()
                }
                &&& s.muted == (known && st.sinks[id].muted)
                &&& (props matches Some(p) ==> s.name == prop(Some(p), "node.name"@))
            }
        }),
{
    reveal_strlit("Audio/Sink");
    assert("Audio/Sink"@.len() > 0);
}

/// Only what concerns sinks changes anything: an object without a number, or of
/// another kind, leaves all as it was; a node leaves the default sink's name,
/// and metadata leaves the sinks.
pub proof fn law_other_objects(st: StateView, obj: Json)
    ensures
        !(obj.at("id"@) matches Some(n) && n.unsigned() is Some) ==> with_object(st, obj) == (
            st,
            false,
        ),
        obj.at("info"@) matches Some(info) ==> (!(info is Null) && prop(Some(obj), "type"@)
            != "PipeWire:Interface:Node"@ && prop(Some(obj), "type"@)
            != "PipeWire:Interface:Metadata"@ ==> with_object(st, obj) == (st, false)),
        prop(Some(obj), "type"@) != "PipeWire:Interface:Metadata"@ ==> with_object(
            st,
            obj,
        ).0.default_sink == st.default_sink,
        obj.at("info"@) matches Some(info) ==> (!(info is Null) && prop(Some(obj), "type"@)
            != "PipeWire:Interface:Node"@ ==> with_object(st, obj).0.sinks == st.sinks),
        with_object(st, obj).0.connected == st.connected,
{
}

/// The item says which sink is the default.
pub open spec fn names_default(item: Json) -> bool {
    item.at("key"@) matches Some(k) && k.text() == Some("default.audio.sink"@)
}

/// Metadata items count one after the other. One that says which sink is the
/// default gives its name, and is news exactly if that is another name; any
/// other changes nothing.
pub proof fn law_items_in_turn(name: Seq<char>, a: Seq<Json>, b: Seq<Json>, item: Json)
    ensures
        with_items(name, a + b).0 == with_items(with_items(name, a).0, b).0,
        with_items(name, a + b).1 == (with_items(name, a).1 || with_items(
            with_items(name, a).0,
            b,
        ).1),
        names_default(item) ==> with_items(name, seq![item]) == (
            prop(item.at("value"@), "name"@),
            prop(item.at("value"@), "name"@) != name,
        ),
        !names_default(item) ==> with_items(name, seq![item]) == (name, false),
    decreases b.len(),
{
    assert(seq![item].drop_last() =~= Seq::<Json>::empty());
    assert(seq![item].last() == item);
    assert(with_items(name, Seq::<Json>::empty()) == (name, false));
    if b.len() == 0 {
        assert(a + b =~= a);
    } else {
        law_items_in_turn(name, a, b.drop_last(), item);
        assert((a + b).drop_last() =~= a + b.drop_last());
        assert((a + b).last() == b.last());
    }
}

/// The default sink follows the default metadata, and no other: after it, the
/// name is that of the last item that gives one.
pub proof fn law_default_follows_metadata(
    st: StateView,
    obj: Json,
    info: Json,
    items: Seq<Json>,
    i: int,
)
    requires
        obj.at("id"@) matches Some(n) && n.unsigned() is Some,
        obj.at("info"@) == Some(info) && !(info is Null),
        obj.at("type"@) matches Some(k) && k.text() == Some("PipeWire:Interface:Metadata"@),
        obj.at("metadata"@) matches Some(l) && l.list() == Some(items),
        0 <= i < items.len(),
        names_default(items[i]),
        forall|j: int| i < j < items.len() ==> !names_default(#[trigger] items[j]),
    ensures
        with_object(st, obj).0.default_sink == if prop(info.at("props"@), "metadata.name"@)
            == "default"@ {
            prop(items[i].at("value"@), "name"@)
        } else {
            st.default_sink
        },
{
    reveal_strlit("default");
    assert("default"@.len() > 0);
    reveal_strlit("PipeWire:Interface:Metadata");
    reveal_strlit("PipeWire:Interface:Node");
    assert("PipeWire:Interface:Metadata"@.len() != "PipeWire:Interface:Node"@.len());
    lemma_last_item(st.default_sink, items, i);
}

proof fn lemma_last_item(name: Seq<char>, items: Seq<Json>, i: int)
    requires
        0 <= i < items.len(),
        names_default(items[i]),
        forall|j: int| i < j < items.len() ==> !names_default(#[trigger] items[j]),
    ensures
        with_items(name, items).0 == prop(items[i].at("value"@), "name"@),
    decreases items.len(),
{
    if i < items.len() - 1 {
        assert(!names_default(items[items.len() - 1]));
        assert forall|j: int| i < j < items.drop_last().len() implies !names_default(
            #[trigger] items.drop_last()[j],
        ) by {
            assert(items.drop_last()[j] == items[j]);
        }
        lemma_last_item(name, items.drop_last(), i);
    }
}

/// A dump is its objects one after the other, and is news if any of them is.
pub proof fn law_objects_in_turn(st: StateView, a: Seq<Json>, b: Seq<Json>, obj: Json)
    ensures
        with_objects(st, a + b).0 == with_objects(with_objects(st, a).0, b).0,
        with_objects(st, a + b).1 == (with_objects(st, a).1 || with_objects(
            with_objects(st, a).0,
            b,
        ).1),
        with_objects(st, seq![obj]) == with_object(st, obj),
        !(obj is List) ==> with_item(st, obj) == with_object(st, obj),
    decreases b.len(),
{
    assert(seq![obj].drop_last() =~= Seq::<Json>::empty());
    assert(seq![obj].last() == obj);
    assert(with_objects(st, Seq::<Json>::empty()) == (st, false));
    if b.len() == 0 {
        assert(a + b =~= a);
    } else {
        law_objects_in_turn(st, a, b.drop_last(), obj);
        assert((a + b).drop_last() =~= a + b.drop_last());
        assert((a + b).last() == b.last());
    }
}

/// [`apply`] brings the state up to date: a muted sink that another program
/// unmutes is not muted any more, and the other way round.
pub proof fn law_apply_follows(
    st: &mut State,
    obj: &Json,
    changed: bool,
    id: u64,
    info: Json,
    entries: Seq<Json>,
    i: int,
    b: bool,
)
    requires
        call_ensures(apply, (st, obj), changed),
        old(st)@.sinks.contains_key(id),
        updates_node(*obj, id, info),
        has_props(info, entries),
        0 <= i < entries.len(),
        entries[i].at("mute"@) == Some(Json::Bool(b)),
        forall|j: int| i < j < entries.len() ==> !says_mute(#[trigger] entries[j]),
    ensures
        changed,
        final(st)@.sinks[id].muted == b,
        final(st)@.connected == old(st)@.connected,
        final(st)@.default_sink == old(st)@.default_sink,
        forall|k: u64|
            k != id ==> (final(st)@.sinks.contains_key(k) <==> #[trigger] old(
                st,
            )@.sinks.contains_key(k)) && (old(st)@.sinks.contains_key(k) ==> final(st)@.sinks[k]
                == old(st)@.sinks[k]),
{
    law_update_mutes_and_unmutes(old(st)@, *obj, id, info, entries, i, b);
}

// ---------------------------------------------------------------------------
// What holds of the sink that is shown
// ---------------------------------------------------------------------------
/// The sink `id` is the one to show: of the sinks that have the default sink's
/// name, or of all where none has or there is no such name, the one of the
/// least number.
pub open spec fn is_shown(st: StateView, id: u64) -> bool {
    &&& st.sinks.contains_key(id)
    &&& if st.default_sink.len() > 0 && exists|k: u64|
        st.sinks.contains_key(k) && (#[trigger] st.sinks[k]).name == st.default_sink {
        st.sinks[id].name == st.default_sink && forall|k: u64|
            st.sinks.contains_key(k) && (#[trigger] st.sinks[k]).name == st.default_sink ==> id <= k
    } else {
        forall|k: u64| #[trigger] st.sinks.contains_key(k) ==> id <= k
    }
}

pub proof fn lemma_default_is_shown(st: StateView, id: u64)
    requires
        st.is_default(id),
    ensures
        is_shown(st, id),
{
    assert forall|k: u64|
        st.sinks.contains_key(k) && (#[trigger] st.sinks[k]).name
            == st.default_sink implies id <= k by {
        assert(st.is_candidate(k));
    }
    if !st.has_named() {
        assert forall|k: u64| #[trigger] st.sinks.contains_key(k) implies id <= k by {
            assert(st.is_candidate(k));
        }
    }
}

/// The bar shows the sink of the default sink's name, and there is one to show
/// exactly if there is any.
pub proof fn law_shown_sink(st: &State, r: Option<u64>)
    requires
        call_ensures(State::default_id, (st,), r),
    ensures
        match r {
            Some(id) => is_shown(st@, id),
            None => forall|k: u64| !st@.sinks.contains_key(k),
        },
{
    if let Some(id) = r {
        lemma_default_is_shown(st@, id);
    }
}

/// What is read is of the sink that is shown: its mute, and a volume that one
/// of its channels has and no channel exceeds; silence where none counts.
pub proof fn law_reading(st: &State, r: Option<(u32, bool)>)
    requires
        call_ensures(State::get, (st,), r),
    ensures
        r is Some <==> st@.connected && exists|k: u64| st@.sinks.contains_key(k),
        r matches Some((level, muted)) ==> exists|id: u64| #[trigger]
            is_shown(st@, id) && muted == st@.sinks[id].muted && ({
                let v = st@.sinks[id].volumes;
                &&& level == 0 || v.contains(level)
                &&& forall|i: int|
                    0 <= i < v.len() && #[trigger] v[i] <= 0x7f80_0000 ==> v[i] <= level
            }),
{
    if r is Some {
        let id = st@.default_of().unwrap();
        assert(st@.is_default(id));
        lemma_default_is_shown(st@, id);
        law_loudest(st@.sinks[id].volumes);
    }
}

/// The sink is called by its description, and by its name only where that is
/// empty.
pub proof fn law_description(st: &State, r: Option<String>)
    requires
        call_ensures(State::sink_description, (st,), r),
    ensures
        r matches Some(d) ==> exists|id: u64| #[trigger]
            is_shown(st@, id) && ({
                let s = st@.sinks[id];
                &&& s.description.len() > 0 ==> d@ == s.description
                &&& s.description.len() == 0 ==> d@ == s.name
            }),
        r is None ==> st@.default_of() is None,
{
    if r is Some {
        let id = st@.default_of().unwrap();
        assert(st@.is_default(id));
        lemma_default_is_shown(st@, id);
    }
}

/// A change of the volume is of the sink that is shown, on as many channels as
/// it has, and counts from its loudest; turning it up unmutes, and turning it
/// down leaves the mute as it is.
pub proof fn law_plan(st: &State, delta: i64, r: Option<Adjustment>)
    requires
        call_ensures(State::plan_adjust, (st, delta), r),
    ensures
        r is Some <==> exists|k: u64| st@.sinks.contains_key(k),
        r matches Some(a) ==> {
            let s = st@.sinks[a.id];
            &&& is_shown(st@, a.id)
            &&& a.channels >= 1
            &&& s.volumes.len() > 0 ==> a.channels == s.volumes.len()
            &&& s.volumes.len() == 0 ==> a.channels == 1 && a.level == 0
            &&& delta > 0 ==> !a.mute
            &&& delta <= 0 ==> a.mute == s.muted
            &&& a.level == 0 || s.volumes.contains(a.level)
            &&& forall|i: int|
                0 <= i < s.volumes.len() && #[trigger] s.volumes[i] <= 0x7f80_0000 ==> s.volumes[i]
                    <= a.level
        },
{
    if let Some(a) = r {
        lemma_default_is_shown(st@, a.id);
        law_loudest(st@.sinks[a.id].volumes);
    }
    if exists|k: u64| st@.sinks.contains_key(k) {
        let k = choose|k: u64| st@.sinks.contains_key(k);
        law_default_exists(st@, k);
    }
}

/// To mute or unmute sends the other of the two, with the volumes as they are,
/// full volume on one channel where there are none; the sink that is shown is
/// then muted or not, and nothing else has changed.
pub proof fn law_toggle(st: &mut State, r: Option<Change>)
    requires
        call_ensures(State::toggle_mute, (st,), r),
    ensures
        match r {
            Some(c) => {
                let s = old(st)@.sinks[c.id];
                let t = final(st)@.sinks[c.id];
                &&& is_shown(old(st)@, c.id)
                &&& c.mute != s.muted
                &&& t.muted == c.mute
                &&& t.volumes == s.volumes && t.name == s.name && t.description == s.description
                &&& s.volumes.len() > 0 ==> c.volumes@ == s.volumes
                &&& s.volumes.len() == 0 ==> c.volumes@ == seq![0x3f80_0000u32]
                &&& final(st)@.connected == old(st)@.connected
                &&& final(st)@.default_sink == old(st)@.default_sink
                &&& final(st)@.sinks.remove(c.id) == old(st)@.sinks.remove(c.id)
            },
            None => final(st)@ == old(st)@ && forall|k: u64| !old(st)@.sinks.contains_key(k),
        },
{
    if let Some(c) = r {
        lemma_default_is_shown(old(st)@, c.id);
        assert(final(st)@.sinks.remove(c.id) =~= old(st)@.sinks.remove(c.id));
    }
}

/// A change puts the same volume on every one of its channels, in what is sent
/// as in what is kept, and touches no other sink.
pub proof fn law_adjust(st: &mut State, a: Adjustment, level: u32, c: Change)
    requires
        call_ensures(State::adjust, (st, a, level), c),
    ensures
        c.id == a.id && c.mute == a.mute,
        c.volumes@.len() == a.channels,
        forall|i: int| 0 <= i < c.volumes@.len() ==> #[trigger] c.volumes@[i] == level,
        old(st)@.sinks.contains_key(a.id) ==> final(st)@.sinks[a.id].volumes == c.volumes@
            && final(st)@.sinks[a.id].muted == c.mute && final(st)@.sinks[a.id].name == old(
            st,
        )@.sinks[a.id].name && final(st)@.sinks[a.id].description == old(st)@.sinks[a.id].description,
        final(st)@.sinks.dom() == old(st)@.sinks.dom(),
        final(st)@.sinks.remove(a.id) == old(st)@.sinks.remove(a.id),
        final(st)@.connected == old(st)@.connected,
        final(st)@.default_sink == old(st)@.default_sink,
{
    assert(final(st)@.sinks.dom() =~= old(st)@.sinks.dom());
    assert(final(st)@.sinks.remove(a.id) =~= old(st)@.sinks.remove(a.id));
    assert(old(st)@.sinks.contains_key(a.id) ==> final(st)@.sinks[a.id].volumes =~= c.volumes@);
}

/// Where `percent` and `linear` are functions, a change moves the volume by
/// `delta` of its percentage, to 0 or 100 where that would lie outside.
pub proof fn law_moves<F: Fn(u32) -> i64, G: Fn(i64) -> u32>(
    percent: F,
    linear: G,
    f: spec_fn(u32) -> int,
    g: spec_fn(int) -> u32,
    delta: i64,
    now: u32,
    level: u32,
)
    requires
        moves(percent, linear, delta, now, level),
        forall|x: u32, y: i64| #[trigger] call_ensures(percent, (x,), y) ==> y == f(x),
        forall|x: i64, y: u32| #[trigger] call_ensures(linear, (x,), y) ==> y == g(x as int),
    ensures
        0 <= f(now) + delta <= 100 ==> level == g(f(now) + delta),
        f(now) + delta < 0 ==> level == g(0),
        f(now) + delta > 100 ==> level == g(100),
{
}

/// What is sent says the volumes in order and, at its end, whether the sink is
/// to be muted; but for that it is the same either way.
pub proof fn law_props_text(volumes: Seq<Seq<char>>)
    ensures
        exists|front: Seq<char>|
            #![trigger front + "true }"@]
            props_text(volumes, true) == front + "true }"@ && props_text(volumes, false) == front
                + "false }"@ && text::begins(
                front,
                "{ channelVolumes: [ "@ + text::joined(volumes, ", "@),
            ),
{
    reveal_strlit("true");
    reveal_strlit("true }");
    reveal_strlit("false");
    reveal_strlit("false }");
    reveal_strlit(" }");
    let start = "{ channelVolumes: [ "@ + text::joined(volumes, ", "@);
    let front = start + " ], mute: "@;
    assert("true"@ + " }"@ =~= "true }"@);
    assert("false"@ + " }"@ =~= "false }"@);
    assert(props_text(volumes, true) =~= front + ("true"@ + " }"@));
    assert(props_text(volumes, false) =~= front + ("false"@ + " }"@));
    assert(front.take(start.len() as int) =~= start);
    assert(props_text(volumes, true) == front + "true }"@);
}

/// The volume that is shown is that of the sink that is shown: muted exactly if
/// that is, and the percentage of a volume that one of its channels has and no
/// channel exceeds.
pub proof fn law_volume<F: Fn(u32) -> i64>(st: &State, percent: F, r: Option<Volume>)
    requires
        call_ensures(State::volume::<F>, (st, percent), r),
    ensures
        !st@.connected ==> r is None,
        r is Some <==> st@.connected && st@.default_of() is Some,
        r matches Some(v) ==> exists|id: u64, level: u32|
            #![trigger is_shown(st@, id), call_ensures(percent, (level,), v.percent)]
            is_shown(st@, id) && call_ensures(percent, (level,), v.percent) && v.muted
                == st@.sinks[id].muted && (level == 0 || st@.sinks[id].volumes.contains(level))
                && forall|i: int|
                0 <= i < st@.sinks[id].volumes.len() && #[trigger] st@.sinks[id].volumes[i]
                    <= 0x7f80_0000 ==> st@.sinks[id].volumes[i] <= level,
{
    if let Some(v) = r {
        let id = st@.default_of().unwrap();
        let level = st@.reading().unwrap().0;
        assert(st@.is_default(id));
        lemma_default_is_shown(st@, id);
        law_loudest(st@.sinks[id].volumes);
        assert(is_shown(st@, id) && call_ensures(percent, (level,), v.percent));
    }
}

/// To plan a mute or an unmute is for the sink that is shown: the other of the
/// two, with the volumes as they are, full volume on one channel where there
/// are none.
pub proof fn law_plan_toggle(st: &State, r: Option<Change>)
    requires
        call_ensures(State::plan_toggle, (st,), r),
    ensures
        r matches Some(c) ==> {
            let s = st@.sinks[c.id];
            &&& is_shown(st@, c.id)
            &&& c.mute != s.muted
            &&& s.volumes.len() > 0 ==> c.volumes@ == s.volumes
            &&& s.volumes.len() == 0 ==> c.volumes@ == seq![0x3f80_0000u32]
        },
        r is None ==> forall|k: u64| !st@.sinks.contains_key(k),
{
    if let Some(c) = r {
        lemma_default_is_shown(st@, c.id);
    }
    if exists|k: u64| st@.sinks.contains_key(k) {
        let k = choose|k: u64| st@.sinks.contains_key(k);
        law_default_exists(st@, k);
    }
}

/// To plan a change is for the sink that is shown: one volume on each channel
/// that it has, not muted where it is turned up, and else muted exactly if it
/// is.
pub proof fn law_plan_change<F: Fn(u32) -> i64, G: Fn(i64) -> u32>(
    st: &State,
    delta: i64,
    percent: F,
    linear: G,
    r: Option<Change>,
)
    requires
        call_ensures(State::plan_change::<F, G>, (st, delta, percent, linear), r),
    ensures
        r matches Some(c) ==> {
            let s = st@.sinks[c.id];
            &&& is_shown(st@, c.id)
            &&& delta > 0 ==> !c.mute
            &&& delta <= 0 ==> c.mute == s.muted
            &&& s.volumes.len() > 0 ==> c.volumes@.len() == s.volumes.len()
            &&& s.volumes.len() == 0 ==> c.volumes@.len() == 1
            &&& forall|i: int|
                0 <= i < c.volumes@.len() ==> #[trigger] c.volumes@[i] == c.volumes@[0]
        },
        r is None ==> forall|k: u64| !st@.sinks.contains_key(k),
{
    if let Some(c) = r {
        lemma_default_is_shown(st@, c.id);
    }
    if exists|k: u64| st@.sinks.contains_key(k) {
        let k = choose|k: u64| st@.sinks.contains_key(k);
        law_default_exists(st@, k);
    }
}

/// A change at once leaves the sink that is shown with what is sent, and every
/// other as it was; without a sink nothing changes.
pub proof fn law_change_volume<F: Fn(u32) -> i64, G: Fn(i64) -> u32>(
    st: &mut State,
    delta: i64,
    percent: F,
    linear: G,
    r: Option<Change>,
)
    requires
        call_ensures(State::change_volume::<F, G>, (st, delta, percent, linear), r),
    ensures
        match r {
            Some(c) => {
                let s = old(st)@.sinks[c.id];
                let t = final(st)@.sinks[c.id];
                &&& is_shown(old(st)@, c.id)
                &&& t.volumes == c.volumes@ && t.muted == c.mute
                &&& t.name == s.name && t.description == s.description
                &&& delta > 0 ==> !c.mute
                &&& delta <= 0 ==> c.mute == s.muted
                &&& final(st)@.sinks.remove(c.id) == old(st)@.sinks.remove(c.id)
                &&& final(st)@.connected == old(st)@.connected
                &&& final(st)@.default_sink == old(st)@.default_sink
            },
            None => final(st)@ == old(st)@,
        },
{
    if let Some(c) = r {
        lemma_default_is_shown(old(st)@, c.id);
        assert(final(st)@.sinks.remove(c.id) =~= old(st)@.sinks.remove(c.id));
        assert(final(st)@.sinks[c.id].volumes =~= c.volumes@);
    }
}

/// A state begins without a sink; one that is removed is gone, says so if it
/// was there, and takes no other with it.
pub proof fn law_sinks_go(fresh: State, connected: bool, st: &mut State, id: u64, there: bool)
    requires
        call_ensures(State::new, (connected,), fresh),
        call_ensures(State::remove_sink, (st, id), there),
    ensures
        forall|k: u64| !fresh@.sinks.contains_key(k),
        fresh@.connected == connected && fresh@.default_sink.len() == 0,
        there <==> old(st)@.sinks.contains_key(id),
        !final(st)@.sinks.contains_key(id),
        forall|k: u64|
            k != id && #[trigger] old(st)@.sinks.contains_key(k) ==> final(st)@.sinks.contains_key(k)
                && final(st)@.sinks[k] == old(st)@.sinks[k],
        forall|k: u64| #[trigger]
            final(st)@.sinks.contains_key(k) ==> old(st)@.sinks.contains_key(k),
        final(st)@.connected == old(st)@.connected,
        final(st)@.default_sink == old(st)@.default_sink,
{
}

} // verus!
