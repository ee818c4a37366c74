use roostbar::audio::{AudioBackend, Volume};
use roostbar::json::Json;
use roostbar::pipewire_audio;
use roostbar::pipewire_audio::{Cmd, PropKey, PropValue};
use roostbar::pipewire_cli;
use roostbar::pipewire_cli::{apply, apply_item, State};
use serde_json::Value;

/// A parsed value as the library reads it.
fn json(v: &Value) -> Json {
    match v {
        Value::Null => Json::Null,
        Value::Bool(b) => Json::Bool(*b),
        Value::Number(n) => Json::Number {
            unsigned: n.as_u64(),
            bits: (n.as_f64().unwrap() as f32).to_bits(),
        },
        Value::String(s) => Json::Text(s.clone()),
        Value::Array(a) => Json::List(a.iter().map(json).collect()),
        Value::Object(o) => Json::Record(o.iter().map(|(k, v)| (k.clone(), json(v))).collect()),
    }
}

fn parsed(s: &str) -> Json {
    json(&serde_json::from_str::<Value>(s).unwrap())
}

fn to_percent(bits: u32) -> i64 {
    (f32::from_bits(bits).cbrt() * 100.0).round() as i64
}

fn to_linear(percent: i64) -> u32 {
    let p = percent as f32 / 100.0;
    (p * p * p).to_bits()
}

#[test]
fn parses_dump_and_updates() {
    let mut state = State::new(true);
    let dump = parsed(
        r#"[
          { "id": 40, "type": "PipeWire:Interface:Node", "info": { "props": {
              "media.class": "Audio/Sink", "node.name": "alsa_output.pci-0000_05_00.6.analog-stereo",
              "node.description": "Family 17h HD Audio Controller Speaker" },
              "params": { "Props": [ { "volume": 1.0, "mute": false, "channelVolumes": [ 0.125, 0.125 ] } ] } } },
          { "id": 41, "type": "PipeWire:Interface:Node", "info": { "props": { "media.class": "Audio/Source", "node.name": "mic" } } },
          { "id": 3, "type": "PipeWire:Interface:Metadata", "info": { "props": { "metadata.name": "default" } },
            "metadata": [ { "subject": 0, "key": "default.audio.sink", "type": "Spa:String:JSON",
                            "value": { "name": "alsa_output.pci-0000_05_00.6.analog-stereo" } } ] }
        ]"#,
    );
    for o in dump.as_array().unwrap() {
        apply(&mut state, o);
    }
    {
        assert_eq!(state.sinks.len(), 1);
        assert_eq!(state.default_id(), Some(40));
        assert_eq!(state.default_sink, "alsa_output.pci-0000_05_00.6.analog-stereo");
        let s = &state.sinks[&40];
        assert_eq!(s.description, "Family 17h HD Audio Controller Speaker");
        assert_eq!(to_percent(s.volumes[0]), 50);
        assert!(!s.muted);
    }
    // A param-only update (no props) must keep the name and change mute.
    let upd = parsed(
        r#"{ "id": 40, "type": "PipeWire:Interface:Node",
            "info": { "params": { "Props": [ { "mute": true, "channelVolumes": [ 1.0, 1.0 ] } ] } } }"#,
    );
    assert!(apply(&mut state, &upd));
    {
        let s = &state.sinks[&40];
        assert!(s.muted);
        assert_eq!(s.name, "alsa_output.pci-0000_05_00.6.analog-stereo");
        assert_eq!(to_percent(s.volumes[0]), 100);
    }
    // Removal.
    let rm = parsed(r#"{ "id": 40, "info": null }"#);
    assert!(apply(&mut state, &rm));
    assert!(state.sinks.is_empty());
}

fn with_two_sinks() -> State {
    let mut st = State::new(true);
    let changed = apply_item(
        &mut st,
        &parsed(
            r#"[
              { "id": 7, "type": "PipeWire:Interface:Node", "info": { "props": {
                  "media.class": "Audio/Sink", "node.name": "hdmi", "node.nick": "HDMI" },
                  "params": { "Props": [ { "volume": 0.5 } ] } } },
              { "id": 9, "type": "PipeWire:Interface:Node", "info": { "props": {
                  "media.class": "Audio/Sink", "node.name": "speaker" },
                  "params": { "Props": [ { "channelVolumes": [ 0.25, 0.75, 0.5 ], "mute": true } ] } } }
            ]"#,
        ),
    );
    assert!(changed);
    st
}

#[test]
fn a_dump_is_one_object_or_a_list() {
    let mut st = State::new(true);
    assert!(!apply_item(&mut st, &Json::Null));
    assert!(!apply_item(&mut st, &parsed(r#"{ "id": 1, "info": null }"#)));
    assert!(!st.has_sinks());
    assert!(!apply_item(&mut st, &parsed("[]")));
    assert_eq!(with_two_sinks().sinks.len(), 2);
}

#[test]
fn the_default_is_named_or_the_least() {
    let mut st = with_two_sinks();
    assert_eq!(st.default_id(), Some(7));
    assert_eq!(st.sink_description(), Some("HDMI".to_string()));
    assert_eq!(st.get(), Some((0.5f32.to_bits(), false)));
    let named = parsed(
        r#"{ "id": 3, "type": "PipeWire:Interface:Metadata", "info": { "props": { "metadata.name": "default" } },
             "metadata": [ { "key": "default.audio.sink", "value": { "name": "speaker" } } ] }"#,
    );
    assert!(apply(&mut st, &named));
    assert!(!apply(&mut st, &named));
    assert_eq!(st.default_id(), Some(9));
    assert_eq!(st.sink_description(), Some("speaker".to_string()));
    assert_eq!(st.get(), Some((0.75f32.to_bits(), true)));
    // Another metadata object says nothing of sinks.
    let other = parsed(
        r#"{ "id": 4, "type": "PipeWire:Interface:Metadata", "info": { "props": { "metadata.name": "settings" } },
             "metadata": [ { "key": "default.audio.sink", "value": { "name": "hdmi" } } ] }"#,
    );
    assert!(!apply(&mut st, &other));
    assert_eq!(st.default_id(), Some(9));
}

#[test]
fn only_the_named_sink_changes() {
    let mut st = with_two_sinks();
    let upd = parsed(
        r#"{ "id": 7, "type": "PipeWire:Interface:Node", "info": { "params": { "Props": [ { "mute": true } ] } } }"#,
    );
    assert!(apply(&mut st, &upd));
    assert!(st.sinks[&7].muted);
    assert_eq!(st.sinks[&7].volumes, vec![0.5f32.to_bits()]);
    assert_eq!(st.sinks[&9].volumes.len(), 3);
    assert!(apply(&mut st, &parsed(r#"{ "id": 7 }"#)));
    assert_eq!(st.default_id(), Some(9));
    assert!(!apply(&mut st, &parsed(r#"{ "id": 7 }"#)));
    // No id, no change; an unknown type neither.
    assert!(!apply(&mut st, &parsed(r#"{ "info": null }"#)));
    assert!(!apply(&mut st, &parsed(r#"{ "id": 9, "type": "PipeWire:Interface:Port", "info": {} }"#)));
    assert_eq!(st.sinks.len(), 1);
}

#[test]
fn a_louder_sink_is_unmuted() {
    let mut st = with_two_sinks();
    apply(&mut st, &parsed(r#"{ "id": 7, "info": null }"#));
    let up = st.plan_adjust(5).unwrap();
    assert_eq!((up.id, up.channels, up.level, up.mute), (9, 3, 0.75f32.to_bits(), false));
    let down = st.plan_adjust(-5).unwrap();
    assert!(down.mute);
    let level = 0.8f32.to_bits();
    let change = st.adjust(up, level);
    assert_eq!(change.volumes, vec![level; 3]);
    assert!(!change.mute);
    assert_eq!(st.sinks[&9].volumes, vec![level; 3]);
    assert_eq!(st.get(), Some((level, false)));
    assert!(State::new(true).plan_adjust(5).is_none());
}

#[test]
fn muting_twice_gives_the_sink_back() {
    let mut st = with_two_sinks();
    let first = st.toggle_mute().unwrap();
    assert_eq!((first.id, first.mute), (7, true));
    assert_eq!(first.volumes, vec![0.5f32.to_bits()]);
    assert!(st.sinks[&7].muted);
    assert!(!st.toggle_mute().unwrap().mute);
    assert!(!st.sinks[&7].muted);
    assert!(State::new(true).toggle_mute().is_none());
}

#[test]
fn a_sink_without_channels_has_one_to_set() {
    let mut st = State::new(true);
    pipewire_audio::add_sink(&mut st, 5, Some("bare"), None, None);
    assert_eq!(st.plan_adjust(5).unwrap().channels, 1);
    assert_eq!(st.get(), Some((0, false)));
    assert_eq!(st.plan_toggle().unwrap().volumes, vec![1.0f32.to_bits()]);
}

#[test]
fn a_lost_daemon_has_no_volume() {
    let mut st = with_two_sinks();
    assert!(st.alive());
    st.connected = false;
    assert!(!st.alive());
    assert_eq!(st.get(), None);
}

#[test]
fn writes_props() {
    let volumes = vec!["0.125000".to_string(), "1.000000".to_string()];
    assert_eq!(
        pipewire_cli::props_param(&volumes, true),
        "{ channelVolumes: [ 0.125000, 1.000000 ], mute: true }"
    );
    assert_eq!(
        pipewire_cli::props_param(&vec!["0.5".to_string()], false),
        "{ channelVolumes: [ 0.5 ], mute: false }"
    );
}

#[test]
fn reads_json_values() {
    let v = parsed(r#"{ "a": [ 1, -1, 2.5, true, "x", null ] }"#);
    let a = v.get("a").unwrap().as_array().unwrap();
    assert_eq!(a[0].as_u64(), Some(1));
    assert_eq!(a[1].as_u64(), None);
    assert_eq!(a[2].as_bits(), Some(2.5f32.to_bits()));
    assert_eq!(a[3].as_bool(), Some(true));
    assert_eq!(a[4].as_str(), Some("x"));
    assert!(a[5].is_null());
    assert!(v.get("b").is_none());
    assert!(a[0].get("a").is_none());
    assert!(a[0].as_array().is_none());
}

#[test]
fn native_events() {
    let mut st = State::new(true);
    assert!(pipewire_audio::is_sink(Some("Audio/Sink")));
    assert!(!pipewire_audio::is_sink(Some("Audio/Source")));
    assert!(!pipewire_audio::is_sink(None));
    assert!(pipewire_audio::is_default_metadata(Some("default")));
    assert!(!pipewire_audio::is_default_metadata(Some("settings")));

    pipewire_audio::add_sink(&mut st, 8, Some("n"), None, Some("Nick"));
    assert_eq!(st.sinks[&8].description, "Nick");
    let half = 0.5f32.to_bits();
    let (volumes, mute) = pipewire_audio::parse_props(&vec![
        (PropKey::Other, PropValue::Bool(false)),
        (PropKey::Mute, PropValue::Bool(true)),
        (PropKey::ChannelVolumes, PropValue::Floats(vec![half, half])),
        (PropKey::ChannelVolumes, PropValue::Other),
    ]);
    assert_eq!(volumes, vec![half, half]);
    assert_eq!(mute, Some(true));
    pipewire_audio::update_props(&mut st, 8, volumes, mute);
    assert_eq!(st.get(), Some((half, true)));
    pipewire_audio::update_props(&mut st, 8, Vec::new(), None);
    assert_eq!(st.get(), Some((half, true)));

    assert!(pipewire_audio::update_metadata(&mut st, Some("default.audio.sink"), Some(r#"{ "name": "n" }"#)));
    assert_eq!(st.default_sink, "n");
    assert!(!pipewire_audio::update_metadata(&mut st, Some("default.audio.source"), None));
    assert!(pipewire_audio::update_metadata(&mut st, Some("default.audio.sink"), None));
    assert_eq!(st.default_sink, "");

    assert!(!pipewire_audio::remove_object(&mut st, 8, false));
    assert!(st.has_sinks());
    assert!(pipewire_audio::remove_object(&mut st, 8, true));
    assert!(!st.has_sinks());

    assert!(!pipewire_audio::note_error(&mut st, "no such object"));
    assert!(st.alive());
    assert!(pipewire_audio::note_error(&mut st, "connection error: gone"));
    assert!(!st.alive());
}

#[test]
fn reads_a_name_out_of_metadata() {
    assert_eq!(pipewire_audio::json_name(r#"{ "name": "alsa" }"#), Some("alsa".to_string()));
    assert_eq!(pipewire_audio::json_name(r#"{ "name": "" }"#), Some(String::new()));
    assert_eq!(pipewire_audio::json_name(r#"{ "nome": "alsa" }"#), None);
    assert_eq!(pipewire_audio::json_name(r#"{ "name": "alsa }"#), None);
}

#[test]
fn native_commands() {
    let mut st = State::new(true);
    let plan = |st: &State, cmd: Cmd| pipewire_audio::plan(st, cmd, to_percent, to_linear);
    assert!(plan(&st, Cmd::ToggleMute).is_none());
    assert!(plan(&st, Cmd::Adjust(5)).is_none());
    pipewire_audio::add_sink(&mut st, 8, Some("n"), None, None);
    let up = plan(&st, Cmd::Adjust(5)).unwrap();
    assert_eq!((up.id, up.mute), (8, false));
    assert_eq!(up.volumes, vec![to_linear(5)]);
    let muted = plan(&st, Cmd::ToggleMute).unwrap();
    assert!(muted.mute);
    assert_eq!(muted.volumes, vec![1.0f32.to_bits()]);
    // Nothing changes before PipeWire says so.
    assert_eq!(st.get(), Some((0, false)));
}

#[test]
fn a_percentage_asked_for_is_a_percentage_shown() {
    for p in 0..=100 {
        assert_eq!(to_percent(to_linear(p)), p);
    }
    let mut st = with_two_sinks();
    let shown = |st: &State| st.volume(to_percent);
    // The cube root of 0.5.
    assert_eq!(shown(&st), Some(Volume { percent: 79, muted: false }));
    let change = st.change_volume(5, to_percent, to_linear).unwrap();
    assert_eq!((change.id, change.mute), (7, false));
    assert_eq!(change.volumes, vec![to_linear(84)]);
    assert_eq!(shown(&st), Some(Volume { percent: 84, muted: false }));
    st.toggle_mute();
    st.change_volume(-4, to_percent, to_linear);
    assert_eq!(shown(&st), Some(Volume { percent: 80, muted: true }));
    st.change_volume(i64::MAX, to_percent, to_linear);
    assert_eq!(shown(&st), Some(Volume { percent: 100, muted: false }));
    st.change_volume(i64::MIN, to_percent, to_linear);
    assert_eq!(shown(&st), Some(Volume { percent: 0, muted: false }));
    st.connected = false;
    assert_eq!(shown(&st), None);
    assert!(State::new(true).change_volume(5, to_percent, to_linear).is_none());
}

#[test]
fn pipewire_wins_when_it_has_a_sink() {
    assert_eq!(AudioBackend::select(true, true), AudioBackend::PipeWire);
    assert_eq!(AudioBackend::select(false, true), AudioBackend::Alsa);
    assert_eq!(AudioBackend::select(false, false), AudioBackend::Missing);
    assert_eq!(AudioBackend::PipeWire.name(), "PipeWire");
    assert_eq!(AudioBackend::Alsa.name(), "ALSA");
    assert_eq!(AudioBackend::Missing.name(), "none");
    // It is looked for again when it dies, when it comes up, or without any.
    assert!(AudioBackend::PipeWire.should_reselect(false, true));
    assert!(!AudioBackend::PipeWire.should_reselect(true, true));
    assert!(AudioBackend::Alsa.should_reselect(false, true));
    assert!(!AudioBackend::Alsa.should_reselect(false, false));
    assert!(AudioBackend::Missing.should_reselect(false, false));
    assert!(AudioBackend::PipeWire.is_replaced_by(AudioBackend::PipeWire));
    assert!(AudioBackend::Alsa.is_replaced_by(AudioBackend::Missing));
    assert!(!AudioBackend::Alsa.is_replaced_by(AudioBackend::Alsa));
}

#[test]
fn reports_the_volume() {
    let v = Volume { percent: 45, muted: false };
    assert_eq!(
        roostbar::audio::report(Some(v), AudioBackend::PipeWire),
        ("45% (PipeWire)".to_string(), 0)
    );
    let v = Volume { percent: 0, muted: true };
    assert_eq!(
        roostbar::audio::report(Some(v), AudioBackend::Alsa),
        ("0% muted (ALSA)".to_string(), 0)
    );
    assert_eq!(
        roostbar::audio::report(None, AudioBackend::Missing),
        ("no audio".to_string(), 1)
    );
}

#[test]
fn of_two_sinks_of_the_default_name_the_lesser_counts() {
    let mut st = State::new(true);
    for id in [31, 12, 25] {
        pipewire_audio::add_sink(&mut st, id, Some("twin"), None, None);
    }
    pipewire_audio::add_sink(&mut st, 4, Some("other"), None, None);
    assert_eq!(st.default_id(), Some(4));
    st.default_sink = "twin".to_string();
    assert_eq!(st.default_id(), Some(12));
    // What is set is what is read.
    let level = 0.3f32.to_bits();
    let planned = st.plan_adjust(5).unwrap();
    st.adjust(planned, level);
    assert_eq!(st.get(), Some((level, false)));
    st.toggle_mute();
    assert_eq!(st.get(), Some((level, true)));
    st.toggle_mute();
    assert_eq!(st.get(), Some((level, false)));
}
