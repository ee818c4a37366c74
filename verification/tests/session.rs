use roostbar::session;
use roostbar::session::{Attempt, Command, Launch, Running, SoundServer, Startup, VolumeAction};

fn strings(v: &[&str]) -> Vec<String> {
    v.iter().map(|s| s.to_string()).collect()
}

#[test]
fn reads_the_command_line() {
    let read = |args: &[&str]| session::command(&strings(args));
    assert_eq!(read(&["roostbar"]), Command::Run);
    assert_eq!(read(&[]), Command::Run);
    assert_eq!(read(&["roostbar", "--version"]), Command::Version);
    assert_eq!(read(&["roostbar", "bt", "-V"]), Command::Version);
    assert_eq!(read(&["roostbar", "vol"]), Command::Volume(VolumeAction::Get));
    assert_eq!(read(&["roostbar", "volume", "up"]), Command::Volume(VolumeAction::Up));
    assert_eq!(read(&["roostbar", "vol", "+"]), Command::Volume(VolumeAction::Up));
    assert_eq!(read(&["roostbar", "vol", "down"]), Command::Volume(VolumeAction::Down));
    assert_eq!(read(&["roostbar", "vol", "-"]), Command::Volume(VolumeAction::Down));
    assert_eq!(read(&["roostbar", "vol", "mute"]), Command::Volume(VolumeAction::Toggle));
    assert_eq!(read(&["roostbar", "vol", "toggle"]), Command::Volume(VolumeAction::Toggle));
    assert_eq!(read(&["roostbar", "vol", "get"]), Command::Volume(VolumeAction::Get));
    assert_eq!(
        read(&["roostbar", "vol", "louder"]),
        Command::UnknownVolume("louder".to_string())
    );
    assert_eq!(
        read(&["roostbar", "bluetooth", "pair", "AA"]),
        Command::Bluetooth(strings(&["pair", "AA"]))
    );
    assert_eq!(read(&["roostbar", "bt"]), Command::Bluetooth(Vec::new()));
    assert_eq!(read(&["roostbar", "other"]), Command::Run);
}

#[test]
fn an_action_changes_the_volume() {
    assert_eq!(VolumeAction::Up.change(5), 5);
    assert_eq!(VolumeAction::Down.change(5), -5);
    assert_eq!(VolumeAction::Get.change(5), 0);
    assert_eq!(VolumeAction::Toggle.change(5), 0);
}

#[test]
fn knows_a_process_by_its_name() {
    assert!(session::is_named("pipewire\n", "pipewire"));
    assert!(!session::is_named("pipewire-pulse\n", "pipewire"));
}

const IDLE: Running = Running { pipewire: false, wireplumber: false, pipewire_pulse: false };

fn installed() -> SoundServer {
    SoundServer {
        pipewire: true,
        wireplumber: true,
        pipewire_pulse: true,
        running: IDLE,
        plugins: true,
    }
}

#[test]
fn brings_pipewire_up() {
    let all = session::spawn_pipewire(installed());
    assert_eq!(all, Startup::Managed { pulse: true });
    assert_eq!(all.programs(), vec!["pipewire", "wireplumber", "pipewire-pulse"]);
    let two = session::spawn_pipewire(SoundServer { pipewire_pulse: false, ..installed() });
    assert_eq!(two.programs(), vec!["pipewire", "wireplumber"]);
    let alone = session::spawn_pipewire(SoundServer { wireplumber: false, ..installed() });
    assert_eq!(alone, Startup::Unmanaged);
    assert_eq!(alone.programs(), vec!["pipewire"]);
    let bare = session::spawn_pipewire(SoundServer { plugins: false, ..installed() });
    assert_eq!(bare, Startup::NoPlugins);
    assert!(bare.programs().is_empty());
    for s in [
        SoundServer { pipewire: false, ..installed() },
        SoundServer { running: Running { pipewire: true, ..IDLE }, ..installed() },
    ] {
        assert_eq!(session::spawn_pipewire(s), Startup::Leave);
        assert!(session::spawn_pipewire(s).programs().is_empty());
    }
}

const CONF: &str = "context.properties = {\n    minimal.use-pulse = true\n    minimal.use-jack-tunnel = true # true\n}\n{ name = x condition = [ { minimal.use-pulse = true } ] }\n";

#[test]
fn touches_only_property_lines() {
    assert_eq!(
        session::minimal_conf(CONF, false),
        "context.properties = {\n    minimal.use-pulse = false\n    minimal.use-jack-tunnel = false # true\n}\n{ name = x condition = [ { minimal.use-pulse = true } ] }"
    );
    // With the PulseAudio server its module stays.
    assert_eq!(
        session::minimal_conf(CONF, true),
        "context.properties = {\n    minimal.use-pulse = true\n    minimal.use-jack-tunnel = false # true\n}\n{ name = x condition = [ { minimal.use-pulse = true } ] }"
    );
    assert_eq!(session::minimal_conf("minimal.use-pulse = 1", false), "minimal.use-pulse = 1");
    assert_eq!(session::minimal_conf("", false), "");
}

#[test]
fn picks_the_first_socket() {
    let pick = |names: &[&str]| session::pick_socket(&strings(names));
    assert_eq!(
        pick(&["wayland-1.lock", "wayland-2", "pipewire-0", "wayland-1"]),
        Some("wayland-1".to_string())
    );
    assert_eq!(
        pick(&["wayland-1", "wayland-2", "wayland-1.lock"]),
        Some("wayland-1".to_string())
    );
    assert_eq!(pick(&["wayland-10", "wayland-2"]), Some("wayland-10".to_string()));
    assert_eq!(pick(&["wayland-1.lock", "bus"]), None);
    assert_eq!(pick(&[]), None);
}

#[test]
fn waits_for_the_compositor() {
    assert_eq!(session::after_attempt(true, true), Attempt::Connected);
    assert_eq!(session::after_attempt(true, false), Attempt::Connected);
    assert_eq!(session::after_attempt(false, false), Attempt::Again);
    assert_eq!(session::after_attempt(false, true), Attempt::GiveUp);
}

fn plain(program: &str) -> Launch {
    Launch { program: program.to_string(), args: Vec::new() }
}

#[test]
fn starts_only_what_does_not_run() {
    let trio = Startup::Managed { pulse: true };
    assert_eq!(
        trio.launches(IDLE, None),
        vec![plain("pipewire"), plain("wireplumber"), plain("pipewire-pulse")]
    );
    let running = Running { wireplumber: true, ..IDLE };
    assert_eq!(trio.launches(running, None), vec![plain("pipewire"), plain("pipewire-pulse")]);
    let running = Running { pipewire_pulse: true, ..IDLE };
    assert_eq!(trio.launches(running, None), vec![plain("pipewire"), plain("wireplumber")]);
    let all = Running { pipewire: true, wireplumber: true, pipewire_pulse: true };
    assert!(trio.launches(all, None).is_empty());
    assert_eq!(
        Startup::Managed { pulse: false }.launches(IDLE, Some("/run/x.conf")),
        vec![plain("pipewire"), plain("wireplumber")]
    );
    assert_eq!(
        Startup::Unmanaged.launches(IDLE, Some("/run/x.conf")),
        vec![Launch { program: "pipewire".to_string(), args: strings(&["-c", "/run/x.conf"]) }]
    );
    assert!(Startup::Unmanaged.launches(IDLE, None).is_empty());
    assert!(Startup::Unmanaged.launches(all, Some("/run/x.conf")).is_empty());
    assert!(Startup::Leave.launches(IDLE, Some("/run/x.conf")).is_empty());
    assert!(Startup::NoPlugins.launches(IDLE, Some("/run/x.conf")).is_empty());
}

#[test]
fn an_unknown_volume_action_is_quoted() {
    assert_eq!(
        session::unknown_volume("louder"),
        "roostbar vol: unknown action \"louder\" (up|down|mute|get)"
    );
    assert_eq!(
        session::unknown_volume("\\"),
        "roostbar vol: unknown action \"\\\\\" (up|down|mute|get)"
    );
    assert_eq!(
        session::unknown_volume_as("'x'"),
        "roostbar vol: unknown action 'x' (up|down|mute|get)"
    );
}
