//! Starting up: the command line, the sound server and the compositor.
use vstd::prelude::*;

use crate::text;

verus! {

// ---------------------------------------------------------------------------
// The command line
// ---------------------------------------------------------------------------
/// What `roostbar vol` does to the volume.
#[derive(Clone, Copy, PartialEq, Eq, Debug, Structural)]
pub enum VolumeAction {
    Up,
    Down,
    Toggle,
    /// Only report it.
    Get,
}

/// What the command line asks for.
#[derive(Debug, PartialEq, Eq)]
pub enum Command {
    /// Print the version.
    Version,
    /// Act on the volume and report it.
    Volume(VolumeAction),
    /// `roostbar vol` with an action that there is none of.
    UnknownVolume(String),
    /// `roostbar bt`, with the arguments behind it.
    Bluetooth(Vec<String>),
    /// Put the bar on the screen.
    Run,
}

/// A [`Command`], with its strings by their characters.
pub enum CommandView {
    Version,
    Volume(VolumeAction),
    UnknownVolume(Seq<char>),
    Bluetooth(Seq<Seq<char>>),
    Run,
}

impl View for Command {
    type V = CommandView;

    open spec fn view(&self) -> CommandView {
        match self {
            Command::Version => CommandView::Version,
            Command::Volume(a) => CommandView::Volume(*a),
            Command::UnknownVolume(s) => CommandView::UnknownVolume(s@),
            Command::Bluetooth(rest) => CommandView::Bluetooth(text::views(rest@)),
            Command::Run => CommandView::Run,
        }
    }
}

/// The action on the volume that `s` names.
pub open spec fn volume_action(s: Seq<char>) -> Option<VolumeAction> {
    if s == "up"@ || s == "+"@ {
        Some(VolumeAction::Up)
    } else if s == "down"@ || s == "-"@ {
        Some(VolumeAction::Down)
    } else if s == "mute"@ || s == "toggle"@ {
        Some(VolumeAction::Toggle)
    } else if s == "get"@ {
        Some(VolumeAction::Get)
    } else {
        None
    }
}

/// What the arguments `args` ask for, the program's own name first.
pub open spec fn command_in(args: Seq<Seq<char>>) -> CommandView {
    if args.contains("--version"@) || args.contains("-V"@) {
        CommandView::Version
    } else if args.len() > 1 && (args[1] == "vol"@ || args[1] == "volume"@) {
        let action = if args.len() > 2 {
            args[2]
        } else {
            "get"@
        };
        match volume_action(action) {
            Some(a) => CommandView::Volume(a),
            None => CommandView::UnknownVolume(action),
        }
    } else if args.len() > 1 && (args[1] == "bt"@ || args[1] == "bluetooth"@) {
        CommandView::Bluetooth(args.skip(2))
    } else {
        CommandView::Run
    }
}

fn is_there(args: &Vec<String>, s: &str) -> (r: bool)
    ensures
        r == text::views(args@).contains(s@),
{
    let ghost all = text::views(args@);
    let mut i: usize = 0;
    while i < args.len()
        invariant
            i <= args@.len(),
            all == text::views(args@),
            forall|j: int| 0 <= j < i ==> #[trigger] all[j] != s@,
        decreases args@.len() - i,
    {
        if text::same(args[i].as_str(), s) {
            assert(all[i as int] == s@);
            return true;
        }
        i += 1;
    }
    false
}

/// Read the command line, the program's own name first.
pub fn command(args: &Vec<String>) -> (c: Command)
    ensures
        c@ == command_in(text::views(args@)),
{
    let ghost all = text::views(args@);
    if is_there(args, "--version") || is_there(args, "-V") {
        return Command::Version;
    }
    if args.len() > 1 {
        let verb = args[1].as_str();
        assert(verb@ == all[1]);
        if text::same(verb, "vol") || text::same(verb, "volume") {
            let action: &str = if args.len() > 2 {
                args[2].as_str()
            } else {
                "get"
            };
            if text::same(action, "up") || text::same(action, "+") {
                return Command::Volume(VolumeAction::Up);
            }
            if text::same(action, "down") || text::same(action, "-") {
                return Command::Volume(VolumeAction::Down);
            }
            if text::same(action, "mute") || text::same(action, "toggle") {
                return Command::Volume(VolumeAction::Toggle);
            }
            if text::same(action, "get") {
                return Command::Volume(VolumeAction::Get);
            }
            return Command::UnknownVolume(action.to_owned());
        }
        if text::same(verb, "bt") || text::same(verb, "bluetooth") {
            let mut rest: Vec<String> = Vec::new();
            let mut i: usize = 2;
            while i < args.len()
                invariant
                    2 <= args@.len() ==> 2 <= i <= args@.len(),
                    all == text::views(args@),
                    text::views(rest@) == all.skip(2).take(i - 2),
                    args@.len() >= 2,
                decreases args@.len() - i,
            {
                let ghost before = text::views(rest@);
                rest.push(args[i].clone());
                assert(text::views(rest@) == before.push(all[i as int]));
                assert(all.skip(2).take(i + 1 - 2) == before.push(all[i as int]));
                i += 1;
            }
            assert(all.skip(2).take(args@.len() - 2) == all.skip(2));
            return Command::Bluetooth(rest);
        }
    }
    Command::Run
}

/// What is said of an action on the volume that there is none of, given it in
/// quotation marks.
pub open spec fn unknown_volume_text(quoted: Seq<char>) -> Seq<char> {
    "roostbar vol: unknown action "@ + quoted + " (up|down|mute|get)"@
}

/// What to say of an action that there is none of, given it in quotation
/// marks.
pub fn unknown_volume_as(quoted: &str) -> (s: String)
    ensures
        s@ == unknown_volume_text(quoted@),
{
    let mut s = text::concat("roostbar vol: unknown action ", quoted);
    s.append(" (up|down|mute|get)");
    s
}

/// What to say of an action on the volume that there is none of.
pub fn unknown_volume(action: &str) -> (s: String)
    ensures
        s@ == unknown_volume_text(text::quoted(action@)),
{
    let quoted = text::quote(action);
    unknown_volume_as(quoted.as_str())
}

impl VolumeAction {
    /// By how many percent the action changes the volume, with a step of
    /// `step`.
    pub fn change(&self, step: i64) -> (d: i64)
        requires
            step != i64::MIN,
        ensures
            d == match *self {
                VolumeAction::Up => step as int,
                VolumeAction::Down => -step,
                _ => 0,
            },
    {
        match *self {
            VolumeAction::Up => step,
            VolumeAction::Down => -step,
            _ => 0,
        }
    }
}

// ---------------------------------------------------------------------------
// The sound server
// ---------------------------------------------------------------------------
/// Whether the process that calls itself `comm` is `name`.
pub fn is_named(comm: &str, name: &str) -> (r: bool)
    ensures
        r == (text::trimmed(comm@) == name@),
{
    let t = text::trim(comm);
    text::same(t.as_str(), name)
}

/// Which programs of the sound server run already.
#[derive(Clone, Copy, PartialEq, Eq, Debug, Structural)]
pub struct Running {
    pub pipewire: bool,
    pub wireplumber: bool,
    pub pipewire_pulse: bool,
}

/// What is installed and what runs.
#[derive(Clone, Copy, PartialEq, Eq, Debug, Structural)]
pub struct SoundServer {
    pub pipewire: bool,
    pub wireplumber: bool,
    pub pipewire_pulse: bool,
    pub running: Running,
    /// The audio plugins are there, without which PipeWire cannot touch a
    /// sound card.
    pub plugins: bool,
}

/// How to bring PipeWire up.
#[derive(Clone, Copy, PartialEq, Eq, Debug, Structural)]
pub enum Startup {
    /// It is not installed, or runs already.
    Leave,
    /// It would only be a useless daemon.
    NoPlugins,
    /// PipeWire and its session manager, and the PulseAudio server where
    /// `pulse`.
    Managed { pulse: bool },
    /// PipeWire alone, with a configuration that enumerates the cards itself.
    Unmanaged,
}

/// How PipeWire comes up on `s`.
pub open spec fn startup_for(s: SoundServer) -> Startup {
    if !s.pipewire || s.running.pipewire {
        Startup::Leave
    } else if !s.plugins {
        Startup::NoPlugins
    } else if s.wireplumber {
        Startup::Managed { pulse: s.pipewire_pulse }
    } else {
        Startup::Unmanaged
    }
}

/// Raven has no systemd user session, so nothing starts PipeWire for us:
/// whether and how to do it. Without a session manager PipeWire exposes no
/// devices, so it is started with one where there is one.
pub fn spawn_pipewire(s: SoundServer) -> (r: Startup)
    ensures
        r == startup_for(s),
{
    if !s.pipewire || s.running.pipewire {
        Startup::Leave
    } else if !s.plugins {
        Startup::NoPlugins
    } else if s.wireplumber {
        Startup::Managed { pulse: s.pipewire_pulse }
    } else {
        Startup::Unmanaged
    }
}

/// The programs that `s` starts, in order.
pub open spec fn programs_of(s: Startup) -> Seq<Seq<char>> {
    match s {
        Startup::Managed { pulse: true } => seq!["pipewire"@, "wireplumber"@, "pipewire-pulse"@],
        Startup::Managed { pulse: false } => seq!["pipewire"@, "wireplumber"@],
        Startup::Unmanaged => seq!["pipewire"@],
        _ => seq![],
    }
}

impl Startup {
    /// The programs to start, in order.
    pub fn programs(&self) -> (p: Vec<String>)
        ensures
            text::views(p@) == programs_of(*self),
    {
        let mut p: Vec<String> = Vec::new();
        match *self {
            Startup::Managed { pulse } => {
                p.push("pipewire".to_owned());
                p.push("wireplumber".to_owned());
                if pulse {
                    p.push("pipewire-pulse".to_owned());
                }
            },
            Startup::Unmanaged => {
                p.push("pipewire".to_owned());
            },
            _ => {},
        }
        assert(text::views(p@) =~= programs_of(*self));
        p
    }
}

/// A program to start.
#[derive(Debug, PartialEq, Eq)]
pub struct Launch {
    pub program: String,
    pub args: Vec<String>,
}

/// A [`Launch`], with its strings by their characters.
pub struct LaunchView {
    pub program: Seq<char>,
    pub args: Seq<Seq<char>>,
}

impl View for Launch {
    type V = LaunchView;

    open spec fn view(&self) -> LaunchView {
        LaunchView { program: self.program@, args: text::views(self.args@) }
    }
}

/// The launches of a list.
pub open spec fn launch_views(ls: Seq<Launch>) -> Seq<LaunchView> {
    Seq::new(ls.len(), |i: int| ls[i]@)
}

/// `program` without arguments, unless `not`.
pub open spec fn unless(not: bool, program: Seq<char>) -> Seq<LaunchView> {
    if not {
        seq![]
    } else {
        seq![LaunchView { program, args: seq![] }]
    }
}

/// What `s` starts while `running` run, in order: each of its programs that
/// does not run already. Without a session manager PipeWire gets the
/// configuration at `conf`, and is not started where that could not be had.
pub open spec fn launches_of(
    s: Startup,
    running: Running,
    conf: Option<Seq<char>>,
) -> Seq<LaunchView> {
    match s {
        Startup::Managed { pulse } => unless(running.pipewire, "pipewire"@) + unless(
            running.wireplumber,
            "wireplumber"@,
        ) + unless(!pulse || running.pipewire_pulse, "pipewire-pulse"@),
        Startup::Unmanaged => match conf {
            Some(path) => if running.pipewire {
                seq![]
            } else {
                seq![LaunchView { program: "pipewire"@, args: seq!["-c"@, path] }]
            },
            None => seq![],
        },
        _ => seq![],
    }
}

fn push_unless(ls: &mut Vec<Launch>, not: bool, program: &str)
    ensures
        launch_views(final(ls)@) == launch_views(old(ls)@) + unless(not, program@),
{
    let ghost before = launch_views(ls@);
    if !not {
        let l = Launch { program: program.to_owned(), args: Vec::new() };
        assert(l@.args =~= seq![]);
        ls.push(l);
    }
    assert(launch_views(ls@) =~= before + unless(not, program@));
}

impl Startup {
    /// What to start while `running` run, in order: each of the programs that
    /// does not run already. `conf` is the path of the configuration for
    /// PipeWire without a session manager, if it could be had.
    pub fn launches(&self, running: Running, conf: Option<&str>) -> (ls: Vec<Launch>)
        ensures
            launch_views(ls@) == launches_of(*self, running, crate::system::opt_view(conf)),
    {
        let mut ls: Vec<Launch> = Vec::new();
        assert(launch_views(ls@) =~= seq![]);
        match *self {
            Startup::Managed { pulse } => {
                push_unless(&mut ls, running.pipewire, "pipewire");
                push_unless(&mut ls, running.wireplumber, "wireplumber");
                push_unless(&mut ls, !pulse || running.pipewire_pulse, "pipewire-pulse");
            },
            Startup::Unmanaged => {
                if let Some(path) = conf {
                    if !running.pipewire {
                        let mut args: Vec<String> = Vec::new();
                        args.push("-c".to_owned());
                        args.push(path.to_owned());
                        assert(text::views(args@) =~= seq!["-c"@, path@]);
                        ls.push(Launch { program: "pipewire".to_owned(), args });
                    }
                }
            },
            _ => {},
        }
        assert(launch_views(ls@) =~= launches_of(
            *self,
            running,
            crate::system::opt_view(conf),
        ));
        ls
    }
}

/// The property line `t`, less what it is indented by, switches a module on
/// that is to be off.
pub open spec fn is_switch(t: Seq<char>, has_pulse: bool) -> bool {
    ((text::begins(t, "minimal.use-pulse"@) && !has_pulse) || text::begins(
        t,
        "minimal.use-jack-tunnel"@,
    )) && text::occurs(t, "true"@)
}

/// The line `l` with its module off.
pub open spec fn switched_off(l: Seq<char>, has_pulse: bool) -> Seq<char> {
    if is_switch(text::trimmed_start(l), has_pulse) {
        text::replaced_first(l, "true"@, "false"@)
    } else {
        l
    }
}

/// The lines of the configuration `conf` with the modules off.
pub open spec fn patched(conf: Seq<char>, has_pulse: bool) -> Seq<Seq<char>> {
    text::lines(conf).map_values(|l: Seq<char>| switched_off(l, has_pulse))
}

/// PipeWire's `minimal.conf` with the jack module turned off, and the pulse
/// module too unless `has_pulse`: they need packages which may be missing.
/// Only the property lines are touched, not the `condition = [ { … } ]` lines
/// that test them.
pub fn minimal_conf(conf: &str, has_pulse: bool) -> (r: String)
    ensures
        r@ == text::joined(patched(conf@, has_pulse), "\n"@),
{
    let lines = text::split_lines(conf);
    let ghost all = patched(conf@, has_pulse);
    let mut out: Vec<String> = Vec::new();
    let mut i: usize = 0;
    while i < lines.len()
        invariant
            i <= lines@.len(),
            text::views(lines@) == text::lines(conf@),
            all == patched(conf@, has_pulse),
            text::views(out@) == all.take(i as int),
        decreases lines@.len() - i,
    {
        let l = lines[i].as_str();
        assert(l@ == text::views(lines@)[i as int]);
        let t = text::trim_start(l);
        let pulse = text::starts_with(t.as_str(), "minimal.use-pulse") && !has_pulse;
        let jack = text::starts_with(t.as_str(), "minimal.use-jack-tunnel");
        let next = if (pulse || jack) && text::contains(t.as_str(), "true") {
            text::replace_first(l, "true", "false")
        } else {
            l.to_owned()
        };
        assert(next@ == all[i as int]);
        let ghost before = text::views(out@);
        out.push(next);
        assert(text::views(out@) == before.push(next@));
        assert(all.take(i + 1) == before.push(next@));
        i += 1;
    }
    assert(all.take(lines@.len() as int) == all);
    text::join(&out, "\n")
}

// ---------------------------------------------------------------------------
// The compositor
// ---------------------------------------------------------------------------
/// `name` is a compositor's socket.
pub open spec fn is_socket(name: Seq<char>) -> bool {
    text::begins(name, "wayland-"@) && !text::ends(name, ".lock"@)
}

/// One of `names` is a compositor's socket.
pub open spec fn has_socket(names: Seq<Seq<char>>) -> bool {
    exists|i: int| 0 <= i < names.len() && is_socket(#[trigger] names[i])
}

/// Find the compositor's socket among the names in the runtime directory:
/// Huginn's is `wayland-1`, not the `wayland-0` that libwayland takes for
/// granted. The first in order, where there are several.
pub fn pick_socket(names: &Vec<String>) -> (r: Option<String>)
    ensures
        r matches Some(s) ==> text::views(names@).contains(s@) && is_socket(s@) && forall|i: int|
            0 <= i < names@.len() && is_socket(#[trigger] names@[i]@) ==> !text::comes_before(
                names@[i]@,
                s@,
            ),
        r is None ==> forall|i: int| 0 <= i < names@.len() ==> !is_socket(#[trigger] names@[i]@),
        r is Some <==> has_socket(text::views(names@)),
{
    let mut best: Option<usize> = None;
    let mut i: usize = 0;
    while i < names.len()
        invariant
            i <= names@.len(),
            best matches Some(b) ==> b < i && is_socket(names@[b as int]@) && forall|j: int|
                0 <= j < i && is_socket(#[trigger] names@[j]@) ==> !text::comes_before(
                    names@[j]@,
                    names@[b as int]@,
                ),
            best is None ==> forall|j: int| 0 <= j < i ==> !is_socket(#[trigger] names@[j]@),
        decreases names@.len() - i,
    {
        let n = names[i].as_str();
        if text::starts_with(n, "wayland-") && !text::ends_with(n, ".lock") {
            match best {
                Some(b) => {
                    let first = text::is_before(n, names[b].as_str());
                    proof {
                        text::lemma_before_irreflexive(n@);
                        if first {
                            assert forall|j: int|
                                0 <= j < i && is_socket(
                                    #[trigger] names@[j]@,
                                ) implies !text::comes_before(names@[j]@, n@) by {
                                if text::comes_before(names@[j]@, n@) {
                                    text::lemma_before_transitive(
                                        names@[j]@,
                                        n@,
                                        names@[b as int]@,
                                    );
                                }
                            }
                        }
                    }
                    if first {
                        best = Some(i);
                    }
                },
                None => {
                    proof {
                        text::lemma_before_irreflexive(n@);
                    }
                    best = Some(i);
                },
            }
        }
        i += 1;
    }
    match best {
        Some(b) => {
            assert(text::views(names@)[b as int] == names@[b as int]@);
            Some(names[b].clone())
        },
        None => None,
    }
}

/// How an attempt to connect ends.
#[derive(Clone, Copy, PartialEq, Eq, Debug, Structural)]
pub enum Attempt {
    Connected,
    /// No compositor came up in time.
    GiveUp,
    /// Forget the socket and look again in a moment.
    Again,
}

/// What follows an attempt to connect. The session script starts the bar
/// ahead of the compositor, so a failure before the deadline is no failure.
pub fn after_attempt(connected: bool, past_deadline: bool) -> (a: Attempt)
    ensures
        a == if connected {
            Attempt::Connected
        } else if past_deadline {
            Attempt::GiveUp
        } else {
            Attempt::Again
        },
{
    if connected {
        Attempt::Connected
    } else if past_deadline {
        Attempt::GiveUp
    } else {
        Attempt::Again
    }
}

// ---------------------------------------------------------------------------
// What holds of starting up
// ---------------------------------------------------------------------------
/// Nothing but a property line is touched: a line of the configuration that
/// does not begin with the name of one of the two properties, however it is
/// indented, comes out as it went in, and no line is added or lost.
pub proof fn law_only_property_lines(conf: Seq<char>, has_pulse: bool, i: int)
    requires
        0 <= i < text::lines(conf).len(),
        !text::begins(text::trimmed_start(text::lines(conf)[i]), "minimal.use-pulse"@),
        !text::begins(text::trimmed_start(text::lines(conf)[i]), "minimal.use-jack-tunnel"@),
    ensures
        patched(conf, has_pulse).len() == text::lines(conf).len(),
        patched(conf, has_pulse)[i] == text::lines(conf)[i],
{
}

/// With the PulseAudio server installed its module stays as it is.
pub proof fn law_pulse_kept(conf: Seq<char>, i: int)
    requires
        0 <= i < text::lines(conf).len(),
        text::begins(text::trimmed_start(text::lines(conf)[i]), "minimal.use-pulse"@),
    ensures
        patched(conf, true)[i] == text::lines(conf)[i],
{
    reveal_strlit("minimal.use-pulse");
    reveal_strlit("minimal.use-jack-tunnel");
    let t = text::trimmed_start(text::lines(conf)[i]);
    assert(t.take("minimal.use-pulse"@.len() as int)[12] == 'p');
    if text::begins(t, "minimal.use-jack-tunnel"@) {
        assert(t.take("minimal.use-jack-tunnel"@.len() as int)[12] == 'j');
    }
}

/// The socket that is picked does not depend on the order in which the
/// directory lists its names.
pub proof fn law_one_socket(names: Seq<Seq<char>>, a: Seq<char>, b: Seq<char>)
    requires
        names.contains(a) && is_socket(a),
        names.contains(b) && is_socket(b),
        forall|n: Seq<char>|
            names.contains(n) && #[trigger] is_socket(n) ==> !text::comes_before(n, a),
        forall|n: Seq<char>|
            names.contains(n) && #[trigger] is_socket(n) ==> !text::comes_before(n, b),
    ensures
        a == b,
{
    text::lemma_before_total(a, b);
}

/// PipeWire is only ever started where it is installed, is not running and
/// can reach a sound card. With its session manager installed, that and the
/// PulseAudio server come up too, each only if it is installed and does not
/// run already; otherwise PipeWire comes up alone, and only with a
/// configuration of its own.
pub proof fn law_started_when_useful(s: SoundServer, conf: Option<Seq<char>>)
    ensures
        programs_of(startup_for(s)).len() > 0 <==> s.pipewire && !s.running.pipewire && s.plugins,
        launches_of(startup_for(s), s.running, conf) == if !s.pipewire || s.running.pipewire
            || !s.plugins {
            seq![]
        } else if s.wireplumber {
            unless(false, "pipewire"@) + unless(s.running.wireplumber, "wireplumber"@) + unless(
                !s.pipewire_pulse || s.running.pipewire_pulse,
                "pipewire-pulse"@,
            )
        } else {
            match conf {
                Some(path) => seq![LaunchView { program: "pipewire"@, args: seq!["-c"@, path] }],
                None => seq![],
            }
        },
{
}

/// `program` runs already.
pub open spec fn runs(running: Running, program: Seq<char>) -> bool {
    ||| program == "pipewire"@ && running.pipewire
    ||| program == "wireplumber"@ && running.wireplumber
    ||| program == "pipewire-pulse"@ && running.pipewire_pulse
}

/// What is started is among the programs, and does not run already; and where
/// it is to be started at all and does not run, it is.
pub proof fn law_nothing_started_twice(s: Startup, running: Running, conf: Seq<char>, p: Seq<char>)
    ensures
        (exists|i: int|
            0 <= i < launches_of(s, running, Some(conf)).len() && (#[trigger] launches_of(
                s,
                running,
                Some(conf),
            )[i]).program == p) <==> programs_of(s).contains(p) && !runs(running, p),
{
    reveal_strlit("pipewire");
    reveal_strlit("wireplumber");
    reveal_strlit("pipewire-pulse");
    let ls = launches_of(s, running, Some(conf));
    let ps = programs_of(s);
    assert("pipewire"@.len() == 8 && "wireplumber"@.len() == 11 && "pipewire-pulse"@.len() == 14);
    if exists|i: int| 0 <= i < ls.len() && (#[trigger] ls[i]).program == p {
        if p == "pipewire"@ {
            assert(ps[0] == p);
        } else if p == "wireplumber"@ {
            assert(ps[1] == p);
        } else {
            assert(ps[2] == p);
        }
    }
    if ps.contains(p) && !runs(running, p) {
        let a = unless(running.pipewire, "pipewire"@).len() as int;
        let b = unless(running.wireplumber, "wireplumber"@).len() as int;
        if p == "pipewire"@ {
            assert(ls[0].program == p);
        } else if p == "wireplumber"@ {
            assert(ls[a].program == p);
        } else {
            assert(ls[a + b].program == p);
        }
    }
}

// ---------------------------------------------------------------------------
// What holds of every command line
// ---------------------------------------------------------------------------
/// The version is asked for exactly if one of its two flags is there, anywhere.
/// Otherwise the first argument decides: on the volume, on Bluetooth, or
/// neither, which puts the bar on the screen.
pub proof fn law_command(args: Seq<Seq<char>>)
    ensures
        ({
            let c = command_in(args);
            let verb = if args.len() > 1 {
                args[1]
            } else {
                Seq::empty()
            };
            let asks = args.contains("--version"@) || args.contains("-V"@);
            let vol = verb == "vol"@ || verb == "volume"@;
            let bt = verb == "bt"@ || verb == "bluetooth"@;
            &&& c is Version <==> asks
            &&& c is Volume || c is UnknownVolume <==> !asks && vol
            &&& c is Bluetooth <==> !asks && bt
            &&& c is Run <==> !asks && !vol && !bt
            &&& (c matches CommandView::Bluetooth(rest) ==> args == seq![args[0], args[1]] + rest)
            &&& (c matches CommandView::UnknownVolume(a) ==> args.len() > 2 && a == args[2]
                && volume_action(a) is None)
            &&& (c matches CommandView::Volume(a) ==> if args.len() > 2 {
                volume_action(args[2]) == Some(a)
            } else {
                a == VolumeAction::Get
            })
        }),
{
    reveal_strlit("vol");
    reveal_strlit("volume");
    reveal_strlit("bt");
    reveal_strlit("bluetooth");
    reveal_strlit("get");
    reveal_strlit("up");
    reveal_strlit("+");
    reveal_strlit("down");
    reveal_strlit("-");
    reveal_strlit("mute");
    reveal_strlit("toggle");
    assert("get"@.len() == 3 && "up"@.len() == 2 && "+"@.len() == 1 && "down"@.len() == 4 && "-"@.len()
        == 1 && "mute"@.len() == 4 && "toggle"@.len() == 6);
    assert("vol"@.len() == 3 && "volume"@.len() == 6 && "bt"@.len() == 2 && "bluetooth"@.len() == 9);
    if let CommandView::Bluetooth(rest) = command_in(args) {
        assert(args =~= seq![args[0], args[1]] + rest);
    }
}

/// Either name of an action is as good as the other, and no action has the name
/// of another.
pub proof fn law_volume_actions(s: Seq<char>)
    ensures
        volume_action(s) == Some(VolumeAction::Up) <==> s == "up"@ || s == "+"@,
        volume_action(s) == Some(VolumeAction::Down) <==> s == "down"@ || s == "-"@,
        volume_action(s) == Some(VolumeAction::Toggle) <==> s == "mute"@ || s == "toggle"@,
        volume_action(s) == Some(VolumeAction::Get) <==> s == "get"@,
{
    reveal_strlit("get");
    reveal_strlit("up");
    reveal_strlit("+");
    reveal_strlit("down");
    reveal_strlit("-");
    reveal_strlit("mute");
    reveal_strlit("toggle");
    assert("+"@[0] == '+' && "-"@[0] == '-');
    assert("down"@[0] == 'd' && "mute"@[0] == 'm');
    assert("get"@.len() == 3 && "up"@.len() == 2 && "+"@.len() == 1 && "down"@.len() == 4 && "-"@.len()
        == 1 && "mute"@.len() == 4 && "toggle"@.len() == 6);
}

/// Up and down change the volume by as much, the one against the other, and
/// nothing else changes it.
pub proof fn law_change(step: i64, up: i64, down: i64, toggle: i64, get: i64)
    requires
        step != i64::MIN,
        call_ensures(VolumeAction::change, (&VolumeAction::Up, step), up),
        call_ensures(VolumeAction::change, (&VolumeAction::Down, step), down),
        call_ensures(VolumeAction::change, (&VolumeAction::Toggle, step), toggle),
        call_ensures(VolumeAction::change, (&VolumeAction::Get, step), get),
    ensures
        up == step,
        up + down == 0,
        toggle == 0 && get == 0,
{
}

/// A process is known by its name, whatever white space is around it.
pub proof fn law_is_named(comm: &str, name: &str, r: bool)
    requires
        call_ensures(is_named, (comm, name), r),
    ensures
        r <==> text::trimmed(comm@) == name@,
        r && comm@.len() == name@.len() ==> comm@ == name@,
{
    text::law_trimmed(comm@);
    if r && comm@.len() == name@.len() {
        let (a, b) = choose|a: Seq<char>, b: Seq<char>|
            text::is_blank(a) && text::is_blank(b) && comm@ == #[trigger] (a + text::trimmed(comm@)
                + b);
        assert(a.len() == 0 && b.len() == 0);
        assert(a + text::trimmed(comm@) + b =~= text::trimmed(comm@));
    }
}

/// PipeWire is started with its session manager exactly if that is installed,
/// and with the PulseAudio server exactly if that is too; never where it runs,
/// is not installed, or cannot reach a sound card, and then it says so.
pub proof fn law_startup(s: SoundServer, r: Startup)
    requires
        call_ensures(spawn_pipewire, (s,), r),
    ensures
        r is Leave <==> !s.pipewire || s.running.pipewire,
        r is NoPlugins <==> s.pipewire && !s.running.pipewire && !s.plugins,
        r is Managed <==> s.pipewire && !s.running.pipewire && s.plugins && s.wireplumber,
        r matches Startup::Managed { pulse } ==> pulse == s.pipewire_pulse,
        r is Unmanaged <==> s.pipewire && !s.running.pipewire && s.plugins && !s.wireplumber,
{
}

/// The session manager comes behind PipeWire, and the PulseAudio server behind
/// both; only PipeWire without a session manager gets an argument, which is the
/// configuration that was made for it.
pub proof fn law_launch_order(s: Startup, running: Running, conf: Option<Seq<char>>, i: int, j: int)
    ensures
        ({
            let ls = launches_of(s, running, conf);
            &&& 0 <= i < j < ls.len() ==> ls[j].program != "pipewire"@ && ls[i].program
                != "pipewire-pulse"@ && ls[i].program != ls[j].program
            &&& 0 <= i < ls.len() && s is Managed ==> ls[i].args.len() == 0
            &&& s is Unmanaged && 0 <= i < ls.len() ==> ls.len() == 1 && conf is Some && ls[i].args
                == seq!["-c"@, conf.unwrap()] && ls[i].program == "pipewire"@
            &&& s is Leave || s is NoPlugins ==> ls.len() == 0
        }),
{
    reveal_strlit("pipewire");
    reveal_strlit("wireplumber");
    reveal_strlit("pipewire-pulse");
    assert("pipewire"@.len() == 8 && "wireplumber"@.len() == 11 && "pipewire-pulse"@.len() == 14);
}

/// A line that switches a module on that is to be off comes out with the first
/// "true" in it turned into "false" and all else as it was: the jack module's
/// always, the pulse module's unless the PulseAudio server is installed.
pub proof fn law_modules_switched_off(
    conf: Seq<char>,
    has_pulse: bool,
    i: int,
    a: Seq<char>,
    b: Seq<char>,
)
    requires
        0 <= i < text::lines(conf).len(),
        text::lines(conf)[i] == a + "true"@ + b,
        forall|j: int|
            0 <= j < a.len() ==> !text::begins(#[trigger] (a + "true"@ + b).skip(j), "true"@),
        ({
            let t = text::trimmed_start(text::lines(conf)[i]);
            &&& text::begins(t, "minimal.use-jack-tunnel"@) || (text::begins(
                t,
                "minimal.use-pulse"@,
            ) && !has_pulse)
            &&& text::occurs(t, "true"@)
        }),
    ensures
        patched(conf, has_pulse)[i] == a + "false"@ + b,
{
    text::law_replaced_first(a, "true"@, b, "false"@);
}

/// What is written is the lines, each on its own.
pub proof fn law_minimal_conf(conf: &str, has_pulse: bool, r: String)
    requires
        call_ensures(minimal_conf, (conf, has_pulse), r),
    ensures
        r@ == text::joined(patched(conf@, has_pulse), "\n"@),
        patched(conf@, has_pulse).len() == text::lines(conf@).len(),
{
}

/// A socket that is picked is one of the names, is a compositor's and no lock
/// of one, and no other such name comes before it; there is none exactly if no
/// name is such.
pub proof fn law_pick_socket(names: &Vec<String>, r: Option<String>)
    requires
        call_ensures(pick_socket, (names,), r),
    ensures
        r matches Some(s) ==> text::views(names@).contains(s@) && text::begins(s@, "wayland-"@)
            && !text::ends(s@, ".lock"@),
        r is Some <==> exists|i: int|
            0 <= i < names@.len() && text::begins(#[trigger] names@[i]@, "wayland-"@)
                && !text::ends(names@[i]@, ".lock"@),
        r matches Some(s) ==> forall|i: int|
            0 <= i < names@.len() && text::begins(#[trigger] names@[i]@, "wayland-"@)
                && !text::ends(names@[i]@, ".lock"@) ==> s@ == names@[i]@ || text::comes_before(
                s@,
                names@[i]@,
            ),
{
    let ns = text::views(names@);
    if let Some(s) = r {
        let k = choose|k: int|
            0 <= k < text::views(names@).len() && text::views(names@)[k] == s@;
        assert(names@[k]@ == s@);
        assert forall|i: int|
            0 <= i < names@.len() && text::begins(#[trigger] names@[i]@, "wayland-"@)
                && !text::ends(names@[i]@, ".lock"@) implies s@ == names@[i]@
            || text::comes_before(s@, names@[i]@) by {
            assert(is_socket(names@[i]@));
            text::lemma_before_total(s@, names@[i]@);
        }
    } else {
        assert forall|i: int| 0 <= i < names@.len() implies !(text::begins(
            #[trigger] names@[i]@,
            "wayland-"@,
        ) && !text::ends(names@[i]@, ".lock"@)) by {
            assert(ns[i] == names@[i]@);
            if is_socket(ns[i]) {
                assert(has_socket(ns));
            }
        }
    }
}

/// A connection is never given up; without one it is tried again until the
/// deadline, and not beyond.
pub proof fn law_attempts(connected: bool, past: bool, a: Attempt)
    requires
        call_ensures(after_attempt, (connected, past), a),
    ensures
        a == Attempt::Connected <==> connected,
        a == Attempt::Again <==> !connected && !past,
        a == Attempt::GiveUp <==> !connected && past,
{
}

/// PipeWire comes first wherever anything is started; its session manager is
/// among the programs exactly if it manages, the PulseAudio server exactly if
/// it is to come up too, and nothing is there twice.
pub proof fn law_programs(s: Startup, p: Vec<String>)
    requires
        call_ensures(Startup::programs, (&s,), p),
    ensures
        p@.len() > 0 <==> s is Managed || s is Unmanaged,
        p@.len() > 0 ==> p@[0]@ == "pipewire"@,
        text::views(p@).contains("wireplumber"@) <==> s is Managed,
        text::views(p@).contains("pipewire-pulse"@) <==> s == (Startup::Managed { pulse: true }),
        forall|i: int, j: int|
            0 <= i < j < p@.len() ==> #[trigger] text::views(p@)[i] != #[trigger] text::views(p@)[j],
{
    reveal_strlit("pipewire");
    reveal_strlit("wireplumber");
    reveal_strlit("pipewire-pulse");
    assert("pipewire"@.len() == 8 && "wireplumber"@.len() == 11 && "pipewire-pulse"@.len() == 14);
    let v = text::views(p@);
    assert(v.len() == p@.len());
    if p@.len() > 0 {
        assert(v[0] == p@[0]@);
    }
    if s is Managed {
        assert(v[1] == "wireplumber"@);
    }
    if s == (Startup::Managed { pulse: true }) {
        assert(v[2] == "pipewire-pulse"@);
    }
}

/// What is said of an action that there is none of holds the action as it is
/// quoted, between what is the same for every action.
pub proof fn law_unknown_volume(a: &str, b: &str, x: String, y: String)
    requires
        call_ensures(unknown_volume, (a,), x),
        call_ensures(unknown_volume, (b,), y),
    ensures
        exists|front: Seq<char>, back: Seq<char>|
            #![trigger front + text::quoted(a@) + back]
            x@ == front + text::quoted(a@) + back && y@ == front + text::quoted(b@) + back
                && text::begins(front, "roostbar vol: "@),
{
    reveal_strlit("roostbar vol: unknown action ");
    reveal_strlit("roostbar vol: ");
    let front = "roostbar vol: unknown action "@;
    assert(front.take("roostbar vol: "@.len() as int) =~= "roostbar vol: "@);
    assert(x@ == front + text::quoted(a@) + " (up|down|mute|get)"@);
}

} // verus!
