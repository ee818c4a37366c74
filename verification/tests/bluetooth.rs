use roostbar::bluetooth;
use roostbar::bluetooth::{
    Bluetooth, BtState, Device, Discovery, Look, Object, Primary, Prop, Search, Snapshot, Step,
};
use roostbar::bluetooth_cli;
use roostbar::bluetooth_cli::{Seen, Task};

fn device(addr: &str, name: &str, paired: bool, trusted: bool, connected: bool) -> Device {
    Device {
        path: format!("/org/bluez/hci0/dev_{}", addr.replace(':', "_")),
        addr: addr.to_string(),
        name: name.to_string(),
        paired,
        trusted,
        connected,
    }
}

fn with(powered: bool, devices: Vec<Device>) -> Snapshot {
    Snapshot { adapter: Some(("/org/bluez/hci0".to_string(), powered)), discovering: false, devices }
}

fn on_bus() -> Bluetooth {
    Bluetooth::new(true)
}

#[test]
fn shows_the_state() {
    let b = on_bus();
    assert_eq!(b.state(None), BtState::NoStack);
    assert_eq!(b.state(Some(&Snapshot { adapter: None, discovering: false, devices: Vec::new() })), BtState::NoStack);
    assert_eq!(b.state(Some(&with(false, Vec::new()))), BtState::Off);
    assert_eq!(b.state(Some(&with(true, Vec::new()))), BtState::Idle);
    let s = with(true, vec![device("A", "Phones", true, true, true)]);
    assert_eq!(b.state(Some(&s)), BtState::Connected("Phones".to_string()));
    let busy = Bluetooth { activity: Some("pairing".to_string()), ..on_bus() };
    assert_eq!(busy.state(Some(&s)), BtState::Busy("pairing".to_string()));
}

#[test]
fn a_click_does_the_obvious() {
    let b = on_bus();
    let act = |s: &Snapshot, mac: &str| b.primary_action(Some(s), mac);
    assert_eq!(
        act(&with(false, Vec::new()), ""),
        Primary::PowerOn { adapter: "/org/bluez/hci0".to_string() }
    );
    let phones = device("A", "Phones", true, true, true);
    assert_eq!(
        act(&with(true, vec![device("B", "Pad", true, true, false), phones.clone()]), "B"),
        Primary::Disconnect { path: phones.path.clone() }
    );
    let trusted = device("C", "C", true, true, false);
    let paired = device("D", "D", true, false, false);
    assert_eq!(
        act(&with(true, vec![paired.clone(), trusted.clone()]), ""),
        Primary::Connect { device: trusted.clone() }
    );
    assert_eq!(
        act(&with(true, vec![paired.clone()]), ""),
        Primary::Connect { device: paired.clone() }
    );
    assert_eq!(
        act(&with(true, vec![trusted.clone(), paired.clone()]), "d"),
        Primary::Connect { device: paired.clone() }
    );
    // Named in the settings but never paired: find and pair it.
    let seen = device("E", "E", false, false, false);
    assert_eq!(
        act(&with(true, vec![trusted, seen]), "E"),
        Primary::PairNamed { adapter: "/org/bluez/hci0".to_string(), mac: "E".to_string() }
    );
    let nothing = act(&with(true, Vec::new()), "");
    assert_eq!(nothing, Primary::Nothing);
    assert!(!nothing.handled());
}

#[test]
fn a_click_may_have_to_wait() {
    let s = with(true, vec![device("A", "A", true, true, false)]);
    let busy = Bluetooth { activity: Some("pairing".to_string()), ..on_bus() };
    assert_eq!(busy.primary_action(Some(&s), ""), Primary::Wait);
    assert!(Primary::Wait.handled());
    let off = Bluetooth { on_bus: false, ..on_bus() };
    assert_eq!(off.primary_action(Some(&s), ""), Primary::Nothing);
    assert_eq!(on_bus().primary_action(None, ""), Primary::Nothing);
    let none = Snapshot { adapter: None, discovering: false, devices: Vec::new() };
    assert_eq!(on_bus().primary_action(Some(&none), ""), Primary::Nothing);
}

#[test]
fn toggles_the_power() {
    assert_eq!(
        on_bus().toggle_power(Some(&with(true, Vec::new()))),
        Some(("/org/bluez/hci0".to_string(), false))
    );
    assert_eq!(
        on_bus().toggle_power(Some(&with(false, Vec::new()))),
        Some(("/org/bluez/hci0".to_string(), true))
    );
    assert_eq!(on_bus().toggle_power(None), None);
}

fn text(k: &str, v: &str) -> (String, Prop) {
    (k.to_string(), Prop::Text(v.to_string()))
}

fn flag(k: &str, v: bool) -> (String, Prop) {
    (k.to_string(), Prop::Bool(v))
}

#[test]
fn reads_what_bluez_has() {
    let objects = vec![
        Object {
            path: "/org/bluez/hci0/dev_2".to_string(),
            adapter: None,
            device: Some(vec![text("Address", "22"), text("Alias", "zeta"), flag("Paired", false)]),
        },
        Object {
            path: "/org/bluez/hci0".to_string(),
            adapter: Some(vec![flag("Powered", true)]),
            device: None,
        },
        Object {
            path: "/org/bluez/hci0/dev_1".to_string(),
            adapter: None,
            device: Some(vec![
                text("Address", "11"),
                text("Name", "named"),
                flag("Paired", true),
                flag("Trusted", true),
                flag("Connected", true),
            ]),
        },
    ];
    let s = bluetooth::snapshot(&objects);
    assert_eq!(s.adapter, Some(("/org/bluez/hci0".to_string(), true)));
    assert_eq!(s.devices.len(), 2);
    assert_eq!(s.connected().unwrap().addr, "11");
    assert_eq!(s.by_addr("22").unwrap().name, "zeta");
    assert!(s.by_addr("33").is_none());
    assert_eq!(s.paired(true).unwrap().addr, "11");
    // Paired ones are listed first.
    assert_eq!(s.devices[0].addr, "11");
}

#[test]
fn brings_a_device_up_step_by_step() {
    let new = device("A", "Phones", false, false, false);
    assert_eq!(
        bluetooth::pair_trust_connect(&new),
        vec![
            Step::Report("pairing Phones".to_string()),
            Step::Register,
            Step::Pair,
            Step::Trust,
            Step::Report("connecting Phones".to_string()),
            Step::Connect,
        ]
    );
    let known = device("A", "Phones", true, true, false);
    assert_eq!(
        bluetooth::pair_trust_connect(&known),
        vec![Step::Report("connecting Phones".to_string()), Step::Connect]
    );
    assert_eq!(bluetooth::step_error(&Step::Pair, "no"), Some("Pair: no".to_string()));
    assert_eq!(bluetooth::step_error(&Step::Connect, "no"), Some("Connect: no".to_string()));
    assert_eq!(bluetooth::step_error(&Step::Register, "no"), Some("agent: no".to_string()));
    assert_eq!(bluetooth::step_error(&Step::Trust, "no"), None);
    assert_eq!(bluetooth::step_error(&Step::Report("a".to_string()), "no"), None);
}

#[test]
fn shortens_errors() {
    assert_eq!(
        bluetooth::short("org.bluez.Error.Failed", Some("br-connection-profile-unavailable")),
        "Failed (br-connection-profile-unavailable)"
    );
    assert_eq!(bluetooth::short("org.bluez.Error.NotReady", None), "NotReady");
    assert_eq!(bluetooth::short("org.bluez.Error.NotReady", Some("")), "NotReady");
    assert_eq!(bluetooth::short("Plain", None), "Plain");
}

#[test]
fn looks_until_it_finds() {
    assert_eq!(bluetooth::SCAN_FOR, 30);
    let look = |answers: bool, found: bool, past_deadline: bool| Look { answers, found, past_deadline };
    let mut search = Search::new();
    assert!(!search.scanning);
    // A device that is known already needs no scan, and none is turned off.
    assert_eq!(search.discover(look(true, true, false)), Discovery::Found { stop: false });
    assert_eq!(search.discover(look(true, false, true)), Discovery::Start);
    assert_eq!(search.discover(look(false, false, false)), Discovery::Start);
    assert_eq!(search.started(None), None);
    assert!(search.scanning);
    assert_eq!(search.discover(look(true, true, true)), Discovery::Found { stop: true });
    assert_eq!(search.discover(look(true, false, true)), Discovery::GiveUp);
    assert_eq!(search.discover(look(false, false, false)), Discovery::GiveUp);
    assert_eq!(search.discover(look(true, false, false)), Discovery::Wait);
}

#[test]
fn a_search_that_does_not_start_ends() {
    let mut search = Search::new();
    assert_eq!(search.started(Some("NotReady")), Some("StartDiscovery: NotReady".to_string()));
    assert!(!search.scanning);
}

#[test]
fn says_what_it_looks_for() {
    assert_eq!(bluetooth::not_seen("AA:01"), "AA:01 not seen in 30s");
    let named = Primary::PairNamed { adapter: "/a".to_string(), mac: "AA:01".to_string() };
    assert_eq!(named.activity(), Some("scanning for AA:01".to_string()));
    assert_eq!(
        named.not_seen(),
        Some("AA:01 not seen in 30s; is it in pairing mode?".to_string())
    );
    assert_eq!(Primary::Nothing.activity(), None);
    assert_eq!(Primary::Wait.not_seen(), None);
}

fn run(args: &[&str], mac: &str, s: Option<&Snapshot>) -> Task {
    let args: Vec<String> = args.iter().map(|a| a.to_string()).collect();
    bluetooth_cli::cli(&args, mac, s)
}

fn fail(msg: &str) -> Task {
    Task::Fail(msg.to_string())
}

#[test]
fn the_command_line_needs_an_adapter() {
    assert_eq!(run(&[], "", None), fail("org.bluez is not on the bus (is bluetoothd running?)"));
    let none = Snapshot { adapter: None, discovering: false, devices: Vec::new() };
    assert_eq!(run(&[], "", Some(&none)), fail("no Bluetooth adapter"));
}

#[test]
fn lists_devices() {
    let s = with(
        true,
        vec![device("A", "Phones", true, true, true), device("B", "Pad", false, false, false)],
    );
    let lines = Task::Print(vec![
        "adapter: on".to_string(),
        "A  Phones  connected,paired,trusted".to_string(),
        "B  Pad  ".to_string(),
    ]);
    assert_eq!(run(&[], "", Some(&s)), lines);
    assert_eq!(run(&["ls"], "", Some(&s)), lines);
    assert_eq!(
        run(&["list"], "", Some(&with(false, Vec::new()))),
        Task::Print(vec!["adapter: off".to_string()])
    );
}

#[test]
fn runs_every_action() {
    let s = with(true, vec![device("A", "A", true, true, false), device("B", "B", true, false, true)]);
    let off = with(false, Vec::new());
    let on_first = "adapter is off; `roostbar bt on` first";
    assert_eq!(run(&["on"], "", Some(&off)), Task::Power(true));
    assert_eq!(run(&["off"], "", Some(&s)), Task::Power(false));
    assert_eq!(run(&["scan"], "", Some(&s)), Task::Scan(15));
    assert_eq!(run(&["scan", "60"], "", Some(&s)), Task::Scan(60));
    assert_eq!(run(&["scan", "long"], "", Some(&s)), Task::Scan(15));
    assert_eq!(run(&["scan"], "", Some(&off)), fail(on_first));
    assert_eq!(run(&["pair", "C"], "D", Some(&s)), Task::Pair("C".to_string()));
    assert_eq!(run(&["pair"], "D", Some(&s)), Task::Pair("D".to_string()));
    assert_eq!(run(&["pair", "C"], "", Some(&off)), fail(on_first));
    assert_eq!(
        run(&["pair"], "", Some(&off)),
        fail("pair needs a MAC (or `bluetooth_device` in the config)")
    );
    assert_eq!(
        run(&["connect", "B"], "", Some(&s)),
        Task::Connect(device("B", "B", true, false, true))
    );
    assert_eq!(
        run(&["connect"], "", Some(&s)),
        Task::Connect(device("A", "A", true, true, false))
    );
    assert_eq!(
        run(&["connect"], "", Some(&off)),
        fail("nothing to connect: give a MAC or pair something first")
    );
    assert_eq!(
        run(&["disconnect"], "", Some(&s)),
        Task::Disconnect("/org/bluez/hci0/dev_B".to_string())
    );
    assert_eq!(run(&["disconnect"], "", Some(&off)), Task::Done);
    assert_eq!(
        run(&["forget", "A"], "", Some(&s)),
        Task::Forget("/org/bluez/hci0/dev_A".to_string())
    );
    assert_eq!(
        run(&["remove", "Z"], "", Some(&s)),
        fail("forget needs the MAC of a known device")
    );
    assert_eq!(run(&["dance"], "", Some(&s)), Task::Unknown("dance".to_string()));
}

#[test]
fn announces_a_device_and_then_its_name() {
    let known = vec![device("AA:01", "Known", true, true, false)];
    let mut seen = Seen::new(&known);
    assert!(seen.announce(&known).is_empty());
    let mut found = known.clone();
    found.push(device("AA:02", "AA-02", false, false, false));
    assert_eq!(seen.announce(&found), vec!["AA:02  (no name yet)"]);
    assert!(seen.announce(&found).is_empty());
    found[1].name = "Pad".to_string();
    assert_eq!(seen.announce(&found), vec!["AA:02  Pad"]);
    assert!(seen.announce(&found).is_empty());
}

#[test]
fn lists_connected_then_paired_then_by_name() {
    let objects: Vec<Object> = [("3", "c", false, false), ("2", "b", true, false), ("1", "a", false, true), ("4", "a", true, false)]
        .iter()
        .map(|(addr, name, paired, connected)| Object {
            path: format!("/{addr}"),
            adapter: None,
            device: Some(vec![
                text("Address", addr),
                text("Alias", name),
                flag("Paired", *paired),
                flag("Connected", *connected),
            ]),
        })
        .collect();
    let s = bluetooth::snapshot(&objects);
    let order: Vec<&str> = s.devices.iter().map(|d| d.addr.as_str()).collect();
    assert_eq!(order, vec!["1", "4", "2", "3"]);
    assert_eq!(s.adapter, None);
}

#[test]
fn the_command_line_says_what_it_does() {
    assert_eq!(Task::Scan(15).opening(), Some("scanning for 15s…".to_string()));
    assert_eq!(
        Task::Pair("AA:01".to_string()).opening(),
        Some("looking for AA:01 (put it in pairing mode)…".to_string())
    );
    assert_eq!(Task::Done.opening(), None);
    assert_eq!(bluetooth_cli::progress("pairing Phones"), "pairing Phones…");
    assert_eq!(bluetooth_cli::finish(None), (None, 0));
    assert_eq!(
        bluetooth_cli::finish(Some("no Bluetooth adapter")),
        (Some("roostbar bt: no Bluetooth adapter".to_string()), 1)
    );
}

#[test]
fn an_unknown_action_is_quoted() {
    let actions = "(list|on|off|scan [secs]|pair [MAC]|connect [MAC]|disconnect|forget MAC)";
    assert_eq!(bluetooth_cli::unknown_action("dance"), format!("unknown action \"dance\" {actions}"));
    assert_eq!(
        bluetooth_cli::unknown_action("a \"b\"\n"),
        format!("unknown action \"a \\\"b\\\"\\n\" {actions}")
    );
    assert_eq!(bluetooth_cli::unknown_as("'x'"), format!("unknown action 'x' {actions}"));
}
