//! `roostbar bt ...`: the command line, for a machine without `bluetoothctl`.
use vstd::prelude::*;

use crate::bluetooth;
use crate::bluetooth::{Device, Snapshot};
use crate::text;

verus! {

/// What the command line asks for.
#[derive(Debug, PartialEq, Eq)]
pub enum Task {
    /// Print these lines.
    Print(Vec<String>),
    /// Power the adapter on or off.
    Power(bool),
    /// Look for devices for so many seconds.
    Scan(u64),
    /// Find the device of this address, and pair and connect it.
    Pair(String),
    /// Bring this device up.
    Connect(Device),
    /// Disconnect the device at this path.
    Disconnect(String),
    /// There is nothing to do.
    Done,
    /// Have the adapter forget the device at this path.
    Forget(String),
    /// Say so and fail.
    Fail(String),
    /// No such action.
    Unknown(String),
}

/// A [`Task`], with its strings by their characters.
pub enum TaskView {
    Print(Seq<Seq<char>>),
    Power(bool),
    Scan(u64),
    Pair(Seq<char>),
    Connect(bluetooth::DeviceView),
    Disconnect(Seq<char>),
    Done,
    Forget(Seq<char>),
    Fail(Seq<char>),
    Unknown(Seq<char>),
}

impl View for Task {
    type V = TaskView;

    open spec fn view(&self) -> TaskView {
        match self {
            Task::Print(lines) => TaskView::Print(text::views(lines@)),
            Task::Power(on) => TaskView::Power(*on),
            Task::Scan(secs) => TaskView::Scan(*secs),
            Task::Pair(mac) => TaskView::Pair(mac@),
            Task::Connect(d) => TaskView::Connect(d@),
            Task::Disconnect(path) => TaskView::Disconnect(path@),
            Task::Done => TaskView::Done,
            Task::Forget(path) => TaskView::Forget(path@),
            Task::Fail(msg) => TaskView::Fail(msg@),
            Task::Unknown(verb) => TaskView::Unknown(verb@),
        }
    }
}

// ---------------------------------------------------------------------------
// The list
// ---------------------------------------------------------------------------
/// What is said of a device's standing.
pub open spec fn flags(d: bluetooth::DeviceView) -> Seq<Seq<char>> {
    (if d.connected {
        seq!["connected"@]
    } else {
        Seq::empty()
    }) + (if d.paired {
        seq!["paired"@]
    } else {
        Seq::empty()
    }) + (if d.trusted {
        seq!["trusted"@]
    } else {
        Seq::empty()
    })
}

/// A device's line in the list.
pub open spec fn device_line(d: bluetooth::DeviceView) -> Seq<char> {
    d.addr + "  "@ + d.name + "  "@ + text::joined(flags(d), ","@)
}

/// The list: the adapter, then the devices.
pub open spec fn list_lines(powered: bool, ds: Seq<bluetooth::DeviceView>) -> Seq<Seq<char>> {
    seq![
        "adapter: "@ + (if powered {
            "on"@
        } else {
            "off"@
        }),
    ] + Seq::new(ds.len(), |i: int| device_line(ds[i]))
}

fn line_of(d: &Device) -> (s: String)
    ensures
        s@ == device_line(d@),
{
    let mut said: Vec<String> = Vec::new();
    if d.connected {
        said.push("connected".to_owned());
    }
    if d.paired {
        said.push("paired".to_owned());
    }
    if d.trusted {
        said.push("trusted".to_owned());
    }
    assert(text::views(said@) =~= flags(d@));
    let mut s = d.addr.clone();
    s.append("  ");
    s.append(d.name.as_str());
    s.append("  ");
    let all = text::join(&said, ",");
    s.append(all.as_str());
    s
}

fn list(powered: bool, devices: &Vec<Device>) -> (lines: Vec<String>)
    ensures
        text::views(lines@) == list_lines(powered, bluetooth::device_views(devices@)),
{
    let ghost ds = bluetooth::device_views(devices@);
    let mut lines: Vec<String> = Vec::new();
    lines.push(
        text::concat(
            "adapter: ",
            if powered {
                "on"
            } else {
                "off"
            },
        ),
    );
    let mut i: usize = 0;
    while i < devices.len()
        invariant
            i <= devices@.len(),
            ds == bluetooth::device_views(devices@),
            lines@.len() == i + 1,
            text::views(lines@) == list_lines(powered, ds).take(i + 1),
        decreases devices@.len() - i,
    {
        lines.push(line_of(&devices[i]));
        assert(text::views(lines@) =~= list_lines(powered, ds).take(i + 2));
        i += 1;
    }
    assert(list_lines(powered, ds).take(ds.len() as int + 1) =~= list_lines(powered, ds));
    lines
}

// ---------------------------------------------------------------------------
// The action
// ---------------------------------------------------------------------------
/// The address that an action is about: one from the command line, else the
/// one in the settings, else none.
pub open spec fn target_mac(arg: Option<Seq<char>>, preferred: Seq<char>) -> Option<Seq<char>> {
    match arg {
        Some(mac) => Some(mac),
        None => if preferred.len() > 0 {
            Some(preferred)
        } else {
            None
        },
    }
}

/// The known device that an action is about.
pub open spec fn target(
    ds: Seq<bluetooth::DeviceView>,
    arg: Option<Seq<char>>,
    preferred: Seq<char>,
) -> Option<bluetooth::DeviceView> {
    match target_mac(arg, preferred) {
        Some(mac) => bluetooth::first_at(ds, mac),
        None => None,
    }
}

/// What the action `verb` with the argument `arg` comes to, on an adapter that
/// is there.
pub open spec fn task_for(
    verb: Seq<char>,
    arg: Option<Seq<char>>,
    preferred: Seq<char>,
    powered: bool,
    ds: Seq<bluetooth::DeviceView>,
) -> TaskView {
    if verb == "list"@ || verb == "ls"@ {
        TaskView::Print(list_lines(powered, ds))
    } else if verb == "on"@ {
        TaskView::Power(true)
    } else if verb == "off"@ {
        TaskView::Power(false)
    } else if verb == "scan"@ {
        if powered {
            TaskView::Scan(
                match arg {
                    Some(a) => match text::number(a, 10, u64::MAX as nat) {
                        Some(n) => n as u64,
                        None => 15,
                    },
                    None => 15,
                },
            )
        } else {
            TaskView::Fail("adapter is off; `roostbar bt on` first"@)
        }
    } else if verb == "pair"@ {
        match target_mac(arg, preferred) {
            Some(mac) => if powered {
                TaskView::Pair(mac)
            } else {
                TaskView::Fail("adapter is off; `roostbar bt on` first"@)
            },
            None => TaskView::Fail("pair needs a MAC (or `bluetooth_device` in the config)"@),
        }
    } else if verb == "connect"@ {
        match (target(ds, arg, preferred), bluetooth::first_paired(ds, true)) {
            (Some(d), _) => TaskView::Connect(d),
            (None, Some(d)) => TaskView::Connect(d),
            (None, None) => TaskView::Fail(
                "nothing to connect: give a MAC or pair something first"@,
            ),
        }
    } else if verb == "disconnect"@ {
        match bluetooth::first_connected(ds) {
            Some(d) => TaskView::Disconnect(d.path),
            None => TaskView::Done,
        }
    } else if verb == "forget"@ || verb == "remove"@ {
        match target(ds, arg, preferred) {
            Some(d) => TaskView::Forget(d.path),
            None => TaskView::Fail("forget needs the MAC of a known device"@),
        }
    } else {
        TaskView::Unknown(verb)
    }
}

/// The `i`-th of `args`, if there are that many.
pub open spec fn arg_at(args: Seq<String>, i: int) -> Option<Seq<char>> {
    if i < args.len() {
        Some(args[i]@)
    } else {
        None
    }
}

fn mac_for<'a>(arg: Option<&'a str>, preferred: &'a str) -> (r: Option<&'a str>)
    ensures
        crate::system::opt_view(r) == target_mac(crate::system::opt_view(arg), preferred@),
{
    match arg {
        Some(mac) => Some(mac),
        None => if !preferred.is_empty() {
            Some(preferred)
        } else {
            None
        },
    }
}

/// What the arguments after `roostbar bt` come to, given what BlueZ has, if it
/// is on the bus.
pub fn cli(args: &Vec<String>, preferred_mac: &str, snapshot: Option<&Snapshot>) -> (t: Task)
    ensures
        t@ == match snapshot {
            Some(s) => match s.adapter {
                Some((_, powered)) => task_for(
                    match arg_at(args@, 0) {
                        Some(verb) => verb,
                        None => "list"@,
                    },
                    arg_at(args@, 1),
                    preferred_mac@,
                    powered,
                    bluetooth::device_views(s.devices@),
                ),
                None => TaskView::Fail("no Bluetooth adapter"@),
            },
            None => TaskView::Fail("org.bluez is not on the bus (is bluetoothd running?)"@),
        },
{
    let s = match snapshot {
        Some(s) => s,
        None => return Task::Fail(
            "org.bluez is not on the bus (is bluetoothd running?)".to_owned(),
        ),
    };
    let powered = match &s.adapter {
        Some((_, powered)) => *powered,
        None => return Task::Fail("no Bluetooth adapter".to_owned()),
    };
    let verb: &str = if args.len() > 0 {
        args[0].as_str()
    } else {
        "list"
    };
    let arg: Option<&str> = if args.len() > 1 {
        Some(args[1].as_str())
    } else {
        None
    };
    if text::same(verb, "list") || text::same(verb, "ls") {
        return Task::Print(list(powered, &s.devices));
    }
    if text::same(verb, "on") {
        return Task::Power(true);
    }
    if text::same(verb, "off") {
        return Task::Power(false);
    }
    if text::same(verb, "scan") {
        if !powered {
            return Task::Fail("adapter is off; `roostbar bt on` first".to_owned());
        }
        let secs: u64 = match arg {
            Some(a) => match text::parse_number(a, 10, u64::MAX) {
                Some(n) => n,
                None => 15,
            },
            None => 15,
        };
        return Task::Scan(secs);
    }
    let mac = mac_for(arg, preferred_mac);
    if text::same(verb, "pair") {
        return match mac {
            Some(mac) => if powered {
                Task::Pair(mac.to_owned())
            } else {
                Task::Fail("adapter is off; `roostbar bt on` first".to_owned())
            },
            None => Task::Fail("pair needs a MAC (or `bluetooth_device` in the config)".to_owned()),
        };
    }
    let known = match mac {
        Some(mac) => s.by_addr(mac),
        None => None,
    };
    if text::same(verb, "connect") {
        return match known {
            Some(d) => Task::Connect(d.clone()),
            None => match s.paired(true) {
                Some(d) => Task::Connect(d.clone()),
                None => Task::Fail(
                    "nothing to connect: give a MAC or pair something first".to_owned(),
                ),
            },
        };
    }
    if text::same(verb, "disconnect") {
        return match s.connected() {
            Some(d) => Task::Disconnect(d.path.clone()),
            None => Task::Done,
        };
    }
    if text::same(verb, "forget") || text::same(verb, "remove") {
        return match known {
            Some(d) => Task::Forget(d.path.clone()),
            None => Task::Fail("forget needs the MAC of a known device".to_owned()),
        };
    }
    Task::Unknown(verb.to_owned())
}

// ---------------------------------------------------------------------------
// What is said
// ---------------------------------------------------------------------------
impl Task {
    /// What is said before the task begins, if anything is.
    pub fn opening(&self) -> (r: Option<String>)
        ensures
            match self@ {
                TaskView::Scan(secs) => r matches Some(s) && s@ == "scanning for "@ + text::decimal(
                    secs as nat,
                ) + "s…"@,
                TaskView::Pair(mac) => r matches Some(s) && s@ == "looking for "@ + mac
                    + " (put it in pairing mode)…"@,
                _ => r is None,
            },
    {
        match self {
            Task::Scan(secs) => {
                let mut s = "scanning for ".to_owned();
                text::push_decimal(&mut s, *secs);
                s.append("s…");
                Some(s)
            },
            Task::Pair(mac) => {
                let mut s = text::concat("looking for ", mac.as_str());
                s.append(" (put it in pairing mode)…");
                Some(s)
            },
            _ => None,
        }
    }
}

/// What is printed of a step that is under way.
pub fn progress(what: &str) -> (s: String)
    ensures
        s@ == what@ + "…"@,
{
    text::concat(what, "…")
}

/// What is said of an action that there is none of, given it in quotation
/// marks.
pub open spec fn unknown_text(quoted: Seq<char>) -> Seq<char> {
    "unknown action "@ + quoted
        + " (list|on|off|scan [secs]|pair [MAC]|connect [MAC]|disconnect|forget MAC)"@
}

/// What to say of an action that there is none of, given it in quotation
/// marks.
pub fn unknown_as(quoted: &str) -> (s: String)
    ensures
        s@ == unknown_text(quoted@),
{
    let mut s = text::concat("unknown action ", quoted);
    s.append(" (list|on|off|scan [secs]|pair [MAC]|connect [MAC]|disconnect|forget MAC)");
    s
}

/// What to say of an action that there is none of.
pub fn unknown_action(verb: &str) -> (s: String)
    ensures
        s@ == unknown_text(text::quoted(verb@)),
{
    let quoted = text::quote(verb);
    unknown_as(quoted.as_str())
}

/// How the command ends: what is said of an error, if there was one, and the
/// code it exits with.
pub fn finish(error: Option<&str>) -> (r: (Option<String>, i32))
    ensures
        match error {
            Some(e) => r.0 matches Some(s) && s@ == "roostbar bt: "@ + e@ && r.1 == 1,
            None => r.0 is None && r.1 == 0,
        },
{
    match error {
        Some(e) => (Some(text::concat("roostbar bt: ", e)), 1),
        None => (None, 0),
    }
}

// ---------------------------------------------------------------------------
// The scan
// ---------------------------------------------------------------------------
/// What has been printed for each address. A device is announced when it first
/// appears and again once its name arrives: BlueZ creates the object from the
/// advertisement, with the address as a stand-in alias, and fills the name in
/// a beat later.
#[derive(Debug)]
pub struct Seen {
    /// Addresses and names, the last entry of an address being the one that
    /// counts.
    pub entries: Vec<(String, String)>,
}

/// The name that counts for each address.
pub open spec fn names(entries: Seq<(String, String)>) -> Map<Seq<char>, Seq<char>>
    decreases entries.len(),
{
    if entries.len() == 0 {
        Map::empty()
    } else {
        names(entries.drop_last()).insert(entries.last().0@, entries.last().1@)
    }
}

impl View for Seen {
    type V = Map<Seq<char>, Seq<char>>;

    open spec fn view(&self) -> Map<Seq<char>, Seq<char>> {
        names(self.entries@)
    }
}

/// `seen` with every device of `ds`.
pub open spec fn with_all(
    seen: Map<Seq<char>, Seq<char>>,
    ds: Seq<bluetooth::DeviceView>,
) -> Map<Seq<char>, Seq<char>>
    decreases ds.len(),
{
    if ds.len() == 0 {
        seen
    } else {
        with_all(seen, ds.drop_last()).insert(ds.last().addr, ds.last().name)
    }
}

/// The device has not been printed under this name.
pub open spec fn is_news(
    seen: Map<Seq<char>, Seq<char>>,
    d: bluetooth::DeviceView,
) -> bool {
    !seen.contains_key(d.addr) || seen[d.addr] != d.name
}

/// `s` with each dash replaced by a colon.
pub open spec fn colons(s: Seq<char>) -> Seq<char> {
    Seq::new(
        s.len(),
        |i: int|
            if s[i] == '-' {
                ':'
            } else {
                s[i]
            },
    )
}

/// What is printed for a device: its address and its name, unless that is only
/// the address again.
pub open spec fn announcement(d: bluetooth::DeviceView) -> Seq<char> {
    d.addr + "  "@ + (if colons(d.name) == d.addr {
        "(no name yet)"@
    } else {
        d.name
    })
}

/// What is printed for `ds`, in order, after `seen` was.
pub open spec fn announcements(
    seen: Map<Seq<char>, Seq<char>>,
    ds: Seq<bluetooth::DeviceView>,
) -> Seq<Seq<char>>
    decreases ds.len(),
{
    if ds.len() == 0 {
        Seq::empty()
    } else {
        let rest = announcements(seen, ds.drop_last());
        if is_news(with_all(seen, ds.drop_last()), ds.last()) {
            rest.push(announcement(ds.last()))
        } else {
            rest
        }
    }
}

fn with_colons(s: &str) -> (r: String)
    ensures
        r@ == colons(s@),
{
    let v = text::chars(s);
    let mut r = String::new();
    let mut i: usize = 0;
    while i < v.len()
        invariant
            i <= v@.len(),
            v@ == s@,
            r@ == colons(s@).take(i as int),
        decreases v@.len() - i,
    {
        let c: char = if v[i] == '-' {
            ':'
        } else {
            v[i]
        };
        r.push(c);
        assert(colons(s@).take(i + 1) == colons(s@).take(i as int).push(c));
        i += 1;
    }
    assert(colons(s@).take(s@.len() as int) == colons(s@));
    r
}

impl Seen {
    /// Everything that is known when a scan begins counts as printed.
    pub fn new(devices: &Vec<Device>) -> (s: Self)
        ensures
            s@ == with_all(Map::empty(), bluetooth::device_views(devices@)),
    {
        let ghost ds = bluetooth::device_views(devices@);
        let mut s = Seen { entries: Vec::new() };
        let mut i: usize = 0;
        while i < devices.len()
            invariant
                i <= devices@.len(),
                ds == bluetooth::device_views(devices@),
                s@ == with_all(Map::empty(), ds.take(i as int)),
            decreases devices@.len() - i,
        {
            let d = &devices[i];
            s.note(d);
            assert(ds.take(i + 1).drop_last() == ds.take(i as int));
            i += 1;
        }
        assert(ds.take(ds.len() as int) == ds);
        s
    }

    fn note(&mut self, d: &Device)
        ensures
            final(self)@ == old(self)@.insert(d@.addr, d@.name),
    {
        self.entries.push((d.addr.clone(), d.name.clone()));
        assert(self.entries@.drop_last() == old(self).entries@);
    }

    fn is_news(&self, d: &Device) -> (r: bool)
        ensures
            r == is_news(self@, d@),
    {
        let mut i: usize = self.entries.len();
        assert(self.entries@.take(self.entries@.len() as int) == self.entries@);
        while i > 0
            invariant
                i <= self.entries@.len(),
                self@.contains_key(d@.addr) == names(self.entries@.take(i as int)).contains_key(
                    d@.addr,
                ),
                self@[d@.addr] == names(self.entries@.take(i as int))[d@.addr]
                    || !self@.contains_key(d@.addr),
            decreases i,
        {
            let entry = &self.entries[i - 1];
            assert(self.entries@.take(i as int).drop_last() == self.entries@.take(i - 1));
            if entry.0 == d.addr {
                return entry.1 != d.name;
            }
            i -= 1;
        }
        true
    }

    /// Print what is new of `devices`: the lines, in order.
    pub fn announce(&mut self, devices: &Vec<Device>) -> (lines: Vec<String>)
        ensures
            final(self)@ == with_all(old(self)@, bluetooth::device_views(devices@)),
            text::views(lines@) == announcements(old(self)@, bluetooth::device_views(devices@)),
    {
        let ghost ds = bluetooth::device_views(devices@);
        let mut lines: Vec<String> = Vec::new();
        let mut i: usize = 0;
        assert(text::views(lines@) == Seq::<Seq<char>>::empty());
        while i < devices.len()
            invariant
                i <= devices@.len(),
                ds == bluetooth::device_views(devices@),
                self@ == with_all(old(self)@, ds.take(i as int)),
                text::views(lines@) == announcements(old(self)@, ds.take(i as int)),
            decreases devices@.len() - i,
        {
            let d = &devices[i];
            let ghost before = text::views(lines@);
            assert(ds.take(i + 1).drop_last() == ds.take(i as int));
            if self.is_news(d) {
                let mut line = text::concat(d.addr.as_str(), "  ");
                if with_colons(d.name.as_str()) == d.addr {
                    line.append("(no name yet)");
                } else {
                    line.append(d.name.as_str());
                }
                assert(line@ == announcement(d@));
                lines.push(line);
                assert(text::views(lines@) == before.push(line@));
                self.note(d);
            } else {
                assert(self@.insert(d@.addr, d@.name) =~= self@);
            }
            i += 1;
        }
        assert(ds.take(ds.len() as int) == ds);
        lines
    }
}

// ---------------------------------------------------------------------------
// What holds of every scan
// ---------------------------------------------------------------------------
/// The last device of its address in `ds`, from the `i`-th on, has the name
/// that the `i`-th has.
pub open spec fn settled(ds: Seq<bluetooth::DeviceView>, i: int) -> bool {
    forall|j: int| i <= j < ds.len() && (#[trigger] ds[j]).addr == ds[i].addr ==> ds[j].name
        == ds[i].name
}

/// Nothing is announced twice: of the same devices, each address under one
/// name, a second look prints nothing.
pub proof fn law_announced_once(
    seen: Map<Seq<char>, Seq<char>>,
    ds: Seq<bluetooth::DeviceView>,
)
    requires
        forall|i: int| 0 <= i < ds.len() ==> #[trigger] settled(ds, i),
    ensures
        announcements(with_all(seen, ds), ds) == Seq::<Seq<char>>::empty(),
        with_all(with_all(seen, ds), ds) == with_all(seen, ds),
{
    let after = with_all(seen, ds);
    assert forall|i: int| 0 <= i < ds.len() implies after.contains_key((#[trigger] ds[i]).addr)
        && after[ds[i].addr] == ds[i].name by {
        assert(settled(ds, i));
        lemma_with_all_has(seen, ds, i);
    }
    lemma_nothing_new(after, ds, ds.len() as int);
    assert(ds.take(ds.len() as int) == ds);
}

proof fn lemma_with_all_has(
    seen: Map<Seq<char>, Seq<char>>,
    ds: Seq<bluetooth::DeviceView>,
    i: int,
)
    requires
        0 <= i < ds.len(),
        settled(ds, i),
    ensures
        with_all(seen, ds).contains_key(ds[i].addr),
        with_all(seen, ds)[ds[i].addr] == ds[i].name,
    decreases ds.len(),
{
    if i < ds.len() - 1 {
        let front = ds.drop_last();
        assert(front[i] == ds[i]);
        assert forall|j: int| i <= j < front.len() && (#[trigger] front[j]).addr
            == front[i].addr implies front[j].name == front[i].name by {
            assert(front[j] == ds[j]);
        }
        lemma_with_all_has(seen, front, i);
        if ds.last().addr == ds[i].addr {
            assert(ds[ds.len() - 1].name == ds[i].name);
        }
    }
}

proof fn lemma_nothing_new(
    after: Map<Seq<char>, Seq<char>>,
    ds: Seq<bluetooth::DeviceView>,
    n: int,
)
    requires
        0 <= n <= ds.len(),
        forall|i: int|
            0 <= i < ds.len() ==> after.contains_key((#[trigger] ds[i]).addr) && after[ds[i].addr]
                == ds[i].name,
    ensures
        with_all(after, ds.take(n)) == after,
        announcements(after, ds.take(n)) == Seq::<Seq<char>>::empty(),
    decreases n,
{
    if n > 0 {
        lemma_nothing_new(after, ds, n - 1);
        assert(ds.take(n).drop_last() == ds.take(n - 1));
        assert(ds.take(n).last() == ds[n - 1]);
        assert(after.insert(ds[n - 1].addr, ds[n - 1].name) =~= after);
    }
}

// ---------------------------------------------------------------------------
// What holds of every command
// ---------------------------------------------------------------------------
/// An address on the command line is the one that counts, whatever the
/// settings say; only without one do they come in. The known device that an
/// action is about has that address, in any case, and is the first that has.
pub proof fn law_given_address_counts(
    ds: Seq<bluetooth::DeviceView>,
    mac: Seq<char>,
    p: Seq<char>,
    q: Seq<char>,
)
    ensures
        target_mac(Some(mac), p) == Some(mac),
        target(ds, Some(mac), p) == target(ds, Some(mac), q),
        mac.len() > 0 ==> target(ds, None, mac) == target(ds, Some(mac), p),
        target(ds, None, Seq::empty()) is None,
        match target(ds, Some(mac), p) {
            Some(d) => text::same_ignoring_case(d.addr, mac) && exists|i: int|
                bluetooth::leads_at(ds, mac, i) && d == #[trigger] ds[i],
            None => forall|i: int|
                0 <= i < ds.len() ==> !text::same_ignoring_case((#[trigger] ds[i]).addr, mac),
        },
{
    bluetooth::law_first_at(ds, mac);
}

proof fn lemma_verbs_differ()
    ensures
        "list"@ != "on"@ && "list"@ != "off"@ && "list"@ != "scan"@ && "list"@ != "pair"@,
        "list"@ != "connect"@ && "list"@ != "disconnect"@ && "list"@ != "forget"@ && "list"@
            != "remove"@,
        "ls"@ != "on"@ && "ls"@ != "off"@ && "ls"@ != "scan"@ && "ls"@ != "pair"@,
        "ls"@ != "connect"@ && "ls"@ != "disconnect"@ && "ls"@ != "forget"@ && "ls"@ != "remove"@,
        "on"@ != "off"@ && "on"@ != "scan"@ && "on"@ != "pair"@ && "on"@ != "connect"@ && "on"@
            != "disconnect"@ && "on"@ != "forget"@ && "on"@ != "remove"@,
        "off"@ != "scan"@ && "off"@ != "pair"@ && "off"@ != "connect"@ && "off"@ != "disconnect"@
            && "off"@ != "forget"@ && "off"@ != "remove"@,
        "scan"@ != "pair"@ && "scan"@ != "connect"@ && "scan"@ != "disconnect"@ && "scan"@
            != "forget"@ && "scan"@ != "remove"@,
        "pair"@ != "connect"@ && "pair"@ != "disconnect"@ && "pair"@ != "forget"@ && "pair"@
            != "remove"@,
        "connect"@ != "disconnect"@ && "connect"@ != "forget"@ && "connect"@ != "remove"@,
        "disconnect"@ != "forget"@ && "disconnect"@ != "remove"@,
{
    reveal_strlit("list");
    reveal_strlit("ls");
    reveal_strlit("on");
    reveal_strlit("off");
    reveal_strlit("scan");
    reveal_strlit("pair");
    reveal_strlit("connect");
    reveal_strlit("disconnect");
    reveal_strlit("forget");
    reveal_strlit("remove");
    assert("list"@[0] == 'l' && "ls"@[0] == 'l' && "on"@[0] == 'o' && "off"@[0] == 'o');
    assert("on"@.len() == 2 && "off"@.len() == 3);
    assert("scan"@[0] == 's' && "pair"@[0] == 'p' && "connect"@[0] == 'c');
    assert("disconnect"@[0] == 'd' && "forget"@[0] == 'f' && "remove"@[0] == 'r');
}

/// The verb of the arguments: the list without one.
pub open spec fn verb_of(args: Seq<String>) -> Seq<char> {
    if args.len() > 0 {
        args[0]@
    } else {
        "list"@
    }
}

/// The address that the arguments are about: the one given, else the one in
/// the settings; empty without either.
pub open spec fn address_of(args: Seq<String>, preferred: Seq<char>) -> Seq<char> {
    if args.len() > 1 {
        args[1]@
    } else {
        preferred
    }
}

/// The arguments are about an address.
pub open spec fn has_address(args: Seq<String>, preferred: Seq<char>) -> bool {
    args.len() > 1 || preferred.len() > 0
}

/// Which verb leads to which task, on an adapter that is there, and on which
/// device:
/// - the device that is forgotten is the first of the address;
/// - the device that is connected is the first of the address; only where no
///   device has it, or none is meant, the first that is paired and trusted;
/// - the device that is disconnected is the first that is connected;
/// - the address that is paired is the one meant, and only an adapter that is
///   on pairs or scans.
pub proof fn law_command_hits_its_device(
    args: &Vec<String>,
    preferred: &str,
    s: &Snapshot,
    t: Task,
)
    requires
        call_ensures(cli, (args, preferred, Some(s)), t),
        s.adapter is Some,
    ensures
        ({
            let ds = bluetooth::device_views(s.devices@);
            let verb = verb_of(args@);
            let mac = address_of(args@, preferred@);
            let meant = has_address(args@, preferred@);
            let on = s.adapter.unwrap().1;
            let known = meant && exists|i: int| bluetooth::leads_at(ds, mac, i);
            &&& t@ is Forget <==> (verb == "forget"@ || verb == "remove"@) && known
            &&& (t@ matches TaskView::Forget(path) ==> exists|i: int|
                bluetooth::leads_at(ds, mac, i) && path == (#[trigger] ds[i]).path)
            &&& t@ is Connect <==> verb == "connect"@ && (known || exists|i: int|
                bluetooth::leads_paired(ds, true, i))
            &&& (t@ matches TaskView::Connect(d) ==> exists|i: int|
                d == #[trigger] ds[i] && if known {
                    bluetooth::leads_at(ds, mac, i)
                } else {
                    bluetooth::leads_paired(ds, true, i)
                })
            &&& t@ is Disconnect <==> verb == "disconnect"@ && exists|i: int|
                bluetooth::leads_connected(ds, i)
            &&& (t@ matches TaskView::Disconnect(path) ==> exists|i: int|
                bluetooth::leads_connected(ds, i) && path == (#[trigger] ds[i]).path)
            &&& t@ is Done ==> verb == "disconnect"@
            &&& t@ is Pair <==> verb == "pair"@ && meant && on
            &&& (t@ matches TaskView::Pair(m) ==> m == mac)
            &&& t@ is Scan <==> verb == "scan"@ && on
            &&& (t@ matches TaskView::Power(p) ==> p == (verb == "on"@))
            &&& t@ is Power <==> verb == "on"@ || verb == "off"@
            &&& t@ is Print <==> verb == "list"@ || verb == "ls"@
            &&& (t@ matches TaskView::Unknown(v) ==> v == verb)
            &&& t@ is Unknown <==> !(verb == "list"@ || verb == "ls"@ || verb == "on"@ || verb
                == "off"@ || verb == "scan"@ || verb == "pair"@ || verb == "connect"@ || verb
                == "disconnect"@ || verb == "forget"@ || verb == "remove"@)
        }),
{
    let ds = bluetooth::device_views(s.devices@);
    let mac = address_of(args@, preferred@);
    lemma_verbs_differ();
    bluetooth::law_first_at(ds, mac);
    bluetooth::law_first_paired(ds, true);
    bluetooth::law_first_connected(ds);
}

/// Where an address is given, the settings change nothing of what the command
/// comes to.
pub proof fn law_settings_only_stand_in(
    args: &Vec<String>,
    p: &str,
    q: &str,
    s: Option<&Snapshot>,
    tp: Task,
    tq: Task,
)
    requires
        call_ensures(cli, (args, p, s), tp),
        call_ensures(cli, (args, q, s), tq),
        args@.len() > 1,
    ensures
        tp@ == tq@,
{
}

/// A scan takes as long as the number on the command line says, and a quarter
/// of a minute where that is no number or there is none.
pub proof fn law_scan_time(args: &Vec<String>, preferred: &str, s: &Snapshot, t: Task, n: u64)
    requires
        call_ensures(cli, (args, preferred, Some(s)), t),
        t@ == TaskView::Scan(n),
    ensures
        args@.len() <= 1 ==> n == 15,
        args@.len() > 1 ==> match text::number(args@[1]@, 10, u64::MAX as nat) {
            Some(secs) => n == secs,
            None => n == 15,
        },
{
    lemma_verbs_differ();
}

/// The list is one line for the adapter and one for each device, in order. A
/// device's line holds its address, its name and its standing, of which each
/// word is there exactly if it is so.
pub proof fn law_list(powered: bool, ds: Seq<bluetooth::DeviceView>, i: int)
    requires
        0 <= i < ds.len(),
    ensures
        list_lines(powered, ds).len() == ds.len() + 1,
        list_lines(powered, ds)[0] != list_lines(!powered, ds)[0],
        list_lines(powered, ds)[i + 1] == list_lines(!powered, ds)[i + 1],
        list_lines(powered, ds)[i + 1] == ds[i].addr + "  "@ + ds[i].name + "  "@ + text::joined(
            flags(ds[i]),
            ","@,
        ),
        flags(ds[i]).contains("connected"@) <==> ds[i].connected,
        flags(ds[i]).contains("paired"@) <==> ds[i].paired,
        flags(ds[i]).contains("trusted"@) <==> ds[i].trusted,
        flags(ds[i]).no_duplicates(),
        forall|w: Seq<char>| #[trigger]
            flags(ds[i]).contains(w) ==> w == "connected"@ || w == "paired"@ || w == "trusted"@,
{
    reveal_strlit("adapter: ");
    reveal_strlit("on");
    reveal_strlit("off");
    reveal_strlit("connected");
    reveal_strlit("paired");
    reveal_strlit("trusted");
    let d = ds[i];
    let f = flags(d);
    assert("connected"@.len() == 9 && "paired"@.len() == 6 && "trusted"@.len() == 7);
    assert(list_lines(powered, ds)[0].len() == 9 + if powered {
        2int
    } else {
        3
    });
    assert(list_lines(!powered, ds)[0].len() == 9 + if powered {
        3int
    } else {
        2
    });
    let a: int = if d.connected {
        1
    } else {
        0
    };
    let b: int = if d.paired {
        1
    } else {
        0
    };
    if d.connected {
        assert(f[0] == "connected"@);
    }
    if d.paired {
        assert(f[a] == "paired"@);
    }
    if d.trusted {
        assert(f[a + b] == "trusted"@);
    }
    assert forall|k: int| 0 <= k < f.len() implies (f[k] == "connected"@ && d.connected && k == 0)
        || (f[k] == "paired"@ && d.paired && k == a) || (f[k] == "trusted"@ && d.trusted && k == a
        + b) by {}
}

/// Without BlueZ or without an adapter every command fails, and says the same
/// whatever it was.
pub proof fn law_no_adapter(
    args: &Vec<String>,
    more: &Vec<String>,
    p: &str,
    q: &str,
    s: Option<&Snapshot>,
    ta: Task,
    tb: Task,
)
    requires
        call_ensures(cli, (args, p, s), ta),
        call_ensures(cli, (more, q, s), tb),
        s matches Some(s) ==> s.adapter is None,
    ensures
        ta@ is Fail,
        ta@ == tb@,
{
}

// ---------------------------------------------------------------------------
// What holds of every announcement
// ---------------------------------------------------------------------------
/// A device is announced on one line when its address has not been printed or
/// was printed under another name, and not at all otherwise; then its name is
/// remembered, and nothing else changes.
pub proof fn law_announced_when_new(
    seen: Map<Seq<char>, Seq<char>>,
    d: bluetooth::DeviceView,
)
    ensures
        announcements(seen, seq![d]) == if seen.contains_key(d.addr) && seen[d.addr] == d.name {
            Seq::<Seq<char>>::empty()
        } else {
            seq![announcement(d)]
        },
        with_all(seen, seq![d]) == seen.insert(d.addr, d.name),
{
    let one = seq![d];
    assert(one.drop_last() =~= Seq::<bluetooth::DeviceView>::empty());
    assert(one.last() == d);
    assert(with_all(seen, one.drop_last()) == seen);
    assert(announcements(seen, one.drop_last()) == Seq::<Seq<char>>::empty());
    assert(announcements(seen, one) =~= if is_news(seen, d) {
        seq![announcement(d)]
    } else {
        Seq::<Seq<char>>::empty()
    });
}

/// Devices are announced one after the other, each against what was printed
/// before it.
pub proof fn law_announced_in_turn(
    seen: Map<Seq<char>, Seq<char>>,
    a: Seq<bluetooth::DeviceView>,
    b: Seq<bluetooth::DeviceView>,
)
    ensures
        announcements(seen, a + b) == announcements(seen, a) + announcements(with_all(seen, a), b),
        with_all(seen, a + b) == with_all(with_all(seen, a), b),
    decreases b.len(),
{
    if b.len() == 0 {
        assert(a + b =~= a);
        assert(announcements(seen, a) + Seq::<Seq<char>>::empty() =~= announcements(seen, a));
    } else {
        law_announced_in_turn(seen, a, b.drop_last());
        assert((a + b).drop_last() =~= a + b.drop_last());
        assert((a + b).last() == b.last());
        assert(announcements(seen, a + b) =~= announcements(seen, a) + announcements(
            with_all(seen, a),
            b,
        ));
    }
}

/// An announcement is the address, two spaces and the name; a name that is
/// only the address over again, with dashes for its colons, is none.
pub proof fn law_announcement(d: bluetooth::DeviceView)
    ensures
        ({
            let only_the_address = d.name.len() == d.addr.len() && forall|i: int|
                0 <= i < d.name.len() ==> #[trigger] d.addr[i] == d.name[i] && d.name[i] != '-'
                    || d.addr[i] == ':' && d.name[i] == '-';
            announcement(d) == d.addr + "  "@ + if only_the_address {
                "(no name yet)"@
            } else {
                d.name
            }
        }),
{
    let only_the_address = d.name.len() == d.addr.len() && forall|i: int|
        0 <= i < d.name.len() ==> #[trigger] d.addr[i] == d.name[i] && d.name[i] != '-' || d.addr[i]
            == ':' && d.name[i] == '-';
    if only_the_address {
        assert forall|i: int| 0 <= i < d.name.len() implies colons(d.name)[i] == d.addr[i] by {
            assert(d.addr[i] == d.addr[i]);
        }
        assert(colons(d.name) =~= d.addr);
    } else if colons(d.name) == d.addr {
        assert forall|i: int| 0 <= i < d.name.len() implies #[trigger] d.addr[i] == d.name[i]
            && d.name[i] != '-' || d.addr[i] == ':' && d.name[i] == '-' by {
            assert(colons(d.name)[i] == d.addr[i]);
        }
    }
}

/// What a scan prints is what is new, and what it remembers is every device it
/// was shown.
pub proof fn law_scan(s: &mut Seen, devices: &Vec<Device>, lines: Vec<String>)
    requires
        call_ensures(Seen::announce, (s, devices), lines),
    ensures
        text::views(lines@) == announcements(old(s)@, bluetooth::device_views(devices@)),
        final(s)@ == with_all(old(s)@, bluetooth::device_views(devices@)),
        lines@.len() <= devices@.len(),
{
    lemma_announcements_len(old(s)@, bluetooth::device_views(devices@));
    assert(text::views(lines@).len() == lines@.len());
}

proof fn lemma_announcements_len(
    seen: Map<Seq<char>, Seq<char>>,
    ds: Seq<bluetooth::DeviceView>,
)
    ensures
        announcements(seen, ds).len() <= ds.len(),
    decreases ds.len(),
{
    if ds.len() > 0 {
        lemma_announcements_len(seen, ds.drop_last());
    }
}

/// A command ends well exactly if there was no error; an error is said whole,
/// behind the command's name.
pub proof fn law_finish(error: Option<&str>, r: (Option<String>, i32))
    requires
        call_ensures(finish, (error,), r),
    ensures
        r.1 == 0 <==> error is None,
        r.0 is Some <==> error is Some,
        error matches Some(e) ==> text::ends(r.0.unwrap()@, e@) && r.1 == 1,
{
    if let Some(e) = error {
        let s = r.0.unwrap()@;
        assert(s.skip(s.len() - e@.len()) =~= e@);
    }
}

/// What is said before a task is said of a search alone, and names how long it
/// takes or what it looks for.
pub proof fn law_opening(t: &Task, r: Option<String>)
    requires
        call_ensures(Task::opening, (t,), r),
    ensures
        r is Some <==> t@ is Scan || t@ is Pair,
        t@ matches TaskView::Scan(n) ==> text::begins(
            r.unwrap()@,
            "scanning for "@ + text::decimal(n as nat) + "s"@,
        ),
        t@ matches TaskView::Pair(mac) ==> text::begins(r.unwrap()@, "looking for "@ + mac),
{
    reveal_strlit("s…");
    reveal_strlit("s");
    if let TaskView::Scan(n) = t@ {
        let front = "scanning for "@ + text::decimal(n as nat) + "s"@;
        assert(r.unwrap()@.take(front.len() as int) =~= front);
    }
    if let TaskView::Pair(mac) = t@ {
        let front = "looking for "@ + mac;
        assert(r.unwrap()@.take(front.len() as int) =~= front);
    }
}

/// What counts for an address is the name that was noted last, and noting one
/// leaves every other address as it was.
pub proof fn law_names(entries: Seq<(String, String)>, e: (String, String))
    ensures
        names(Seq::empty()) == Map::<Seq<char>, Seq<char>>::empty(),
        names(entries.push(e)) == names(entries).insert(e.0@, e.1@),
{
    assert(entries.push(e).drop_last() =~= entries);
}

/// What is under way is said with an ellipsis behind it.
pub proof fn law_progress(what: &str, s: String)
    requires
        call_ensures(progress, (what,), s),
    ensures
        s@.len() == what@.len() + 1,
        s@.last() == '…',
        s@.drop_last() == what@,
{
    reveal_strlit("…");
    assert(s@.drop_last() =~= what@);
}

/// What is said of an action that there is none of holds the action as it is
/// quoted, between what is the same for every action.
pub proof fn law_unknown_action(a: &str, b: &str, x: String, y: String)
    requires
        call_ensures(unknown_as, (a,), x),
        call_ensures(unknown_as, (b,), y),
    ensures
        exists|front: Seq<char>, back: Seq<char>|
            #![trigger front + a@ + back]
            x@ == front + a@ + back && y@ == front + b@ + back && front == "unknown action "@,
{
    let front = "unknown action "@;
    let back = " (list|on|off|scan [secs]|pair [MAC]|connect [MAC]|disconnect|forget MAC)"@;
    assert(x@ == front + a@ + back && y@ == front + b@ + back);
}

} // verus!
