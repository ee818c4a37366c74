//! Bluetooth over BlueZ's D-Bus API: what BlueZ's objects say, and what the
//! bar does about it. The bus is the caller's; objects and their properties
//! come in as plain values, and actions go out as such.
use vstd::prelude::*;

use crate::text;

verus! {

/// How long a click's discovery waits for the configured device to show up,
/// in seconds.
pub const SCAN_FOR: u64 = 30;

#[derive(Clone, Debug, PartialEq, Eq)]
pub enum BtState {
    /// BlueZ is not on the bus at all (not installed or bluetoothd not running).
    NoStack,
    /// Adapter present but powered off.
    Off,
    /// Powered on, nothing connected.
    Idle,
    Connected(String),
    /// A click's pairing is in flight; the text says what stage it is at.
    Busy(String),
}

/// A [`BtState`], with its strings by their characters.
pub enum BtStateView {
    NoStack,
    Off,
    Idle,
    Connected(Seq<char>),
    Busy(Seq<char>),
}

impl View for BtState {
    type V = BtStateView;

    open spec fn view(&self) -> BtStateView {
        match self {
            BtState::NoStack => BtStateView::NoStack,
            BtState::Off => BtStateView::Off,
            BtState::Idle => BtStateView::Idle,
            BtState::Connected(name) => BtStateView::Connected(name@),
            BtState::Busy(what) => BtStateView::Busy(what@),
        }
    }
}

/// One device BlueZ knows about, paired or merely seen.
#[derive(Debug, PartialEq, Eq)]
pub struct Device {
    pub path: String,
    pub addr: String,
    pub name: String,
    pub paired: bool,
    pub trusted: bool,
    pub connected: bool,
}

/// A [`Device`], with its strings by their characters.
pub struct DeviceView {
    pub path: Seq<char>,
    pub addr: Seq<char>,
    pub name: Seq<char>,
    pub paired: bool,
    pub trusted: bool,
    pub connected: bool,
}

impl View for Device {
    type V = DeviceView;

    open spec fn view(&self) -> DeviceView {
        DeviceView {
            path: self.path@,
            addr: self.addr@,
            name: self.name@,
            paired: self.paired,
            trusted: self.trusted,
            connected: self.connected,
        }
    }
}

impl Clone for Device {
    fn clone(&self) -> (d: Device)
        ensures
            d@ == self@,
    {
        Device {
            path: self.path.clone(),
            addr: self.addr.clone(),
            name: self.name.clone(),
            paired: self.paired,
            trusted: self.trusted,
            connected: self.connected,
        }
    }
}

/// The devices of a list, each by its view.
pub open spec fn device_views(v: Seq<Device>) -> Seq<DeviceView> {
    Seq::new(v.len(), |i: int| v[i]@)
}

// ---------------------------------------------------------------------------
// BlueZ's objects
// ---------------------------------------------------------------------------
/// A D-Bus property's value, as far as it is read.
#[derive(Debug)]
pub enum Prop {
    Bool(bool),
    Text(String),
    Other,
}

/// One of BlueZ's objects: its path, and the properties of its adapter and
/// device interfaces, if it has them.
#[derive(Debug)]
pub struct Object {
    pub path: String,
    pub adapter: Option<Vec<(String, Prop)>>,
    pub device: Option<Vec<(String, Prop)>>,
}

/// The value of the first property named `k`.
pub open spec fn property(m: Seq<(String, Prop)>, k: Seq<char>) -> Option<Prop>
    decreases m.len(),
{
    if m.len() == 0 {
        None
    } else if m[0].0@ == k {
        Some(m[0].1)
    } else {
        property(m.drop_first(), k)
    }
}

/// The boolean property named `k`; false if there is none.
pub open spec fn bool_of(m: Seq<(String, Prop)>, k: Seq<char>) -> bool {
    property(m, k) == Some(Prop::Bool(true))
}

/// The text property named `k`; empty if there is none.
pub open spec fn text_of(m: Seq<(String, Prop)>, k: Seq<char>) -> Seq<char> {
    match property(m, k) {
        Some(Prop::Text(s)) => s@,
        _ => Seq::empty(),
    }
}

fn find_property<'a>(m: &'a Vec<(String, Prop)>, k: &str) -> (r: Option<&'a Prop>)
    ensures
        match r {
            Some(p) => property(m@, k@) == Some(*p),
            None => property(m@, k@) is None,
        },
{
    let mut i: usize = 0;
    assert(m@.skip(0) == m@);
    while i < m.len()
        invariant
            i <= m@.len(),
            property(m@, k@) == property(m@.skip(i as int), k@),
        decreases m@.len() - i,
    {
        let entry = &m[i];
        assert(m@.skip(i as int)[0] == *entry);
        if text::same(entry.0.as_str(), k) {
            return Some(&entry.1);
        }
        assert(m@.skip(i as int).drop_first() == m@.skip(i + 1));
        i += 1;
    }
    None
}

/// The boolean property named `k`; false if there is none.
pub fn get_bool(m: &Vec<(String, Prop)>, k: &str) -> (b: bool)
    ensures
        b == bool_of(m@, k@),
{
    match find_property(m, k) {
        Some(Prop::Bool(b)) => *b,
        _ => false,
    }
}

/// The text property named `k`; empty if there is none.
pub fn get_str(m: &Vec<(String, Prop)>, k: &str) -> (s: String)
    ensures
        s@ == text_of(m@, k@),
{
    match find_property(m, k) {
        Some(Prop::Text(s)) => s.clone(),
        _ => String::new(),
    }
}

/// The device that properties describe: it is called by its alias, else its
/// name, else its address.
pub open spec fn device_of(path: Seq<char>, d: Seq<(String, Prop)>) -> DeviceView {
    let addr = text_of(d, "Address"@);
    let alias = text_of(d, "Alias"@);
    let name = text_of(d, "Name"@);
    DeviceView {
        path,
        addr,
        name: if alias.len() > 0 {
            alias
        } else if name.len() > 0 {
            name
        } else {
            addr
        },
        paired: bool_of(d, "Paired"@),
        trusted: bool_of(d, "Trusted"@),
        connected: bool_of(d, "Connected"@),
    }
}

/// The devices among `objs`, in their order.
pub open spec fn devices_in(objs: Seq<Object>) -> Seq<DeviceView>
    decreases objs.len(),
{
    if objs.len() == 0 {
        Seq::empty()
    } else {
        let rest = devices_in(objs.drop_last());
        match objs.last().device {
            Some(d) => rest.push(device_of(objs.last().path@, d@)),
            None => rest,
        }
    }
}

/// The first adapter among `objs`.
pub open spec fn adapter_in(objs: Seq<Object>) -> Option<Object>
    decreases objs.len(),
{
    if objs.len() == 0 {
        None
    } else {
        match adapter_in(objs.drop_last()) {
            Some(o) => Some(o),
            None => if objs.last().adapter is Some {
                Some(objs.last())
            } else {
                None
            },
        }
    }
}

/// The order that devices are listed in: connected ones first, then paired
/// ones, then by name.
pub open spec fn listed_before(a: DeviceView, b: DeviceView) -> bool {
    if a.connected != b.connected {
        a.connected
    } else if a.paired != b.paired {
        a.paired
    } else {
        text::comes_before(a.name, b.name)
    }
}

/// `ds`, which is in order, with `d` put behind the last device that `d` is
/// not listed before.
pub open spec fn placed(ds: Seq<DeviceView>, d: DeviceView) -> Seq<DeviceView>
    decreases ds.len(),
{
    if ds.len() == 0 || !listed_before(d, ds.last()) {
        ds.push(d)
    } else {
        placed(ds.drop_last(), d).push(ds.last())
    }
}

/// `ds` in order. Devices of which neither is listed before the other stay in
/// the order they came in.
pub open spec fn in_order(ds: Seq<DeviceView>) -> Seq<DeviceView>
    decreases ds.len(),
{
    if ds.len() == 0 {
        ds
    } else {
        placed(in_order(ds.drop_last()), ds.last())
    }
}

fn is_listed_before(a: &Device, b: &Device) -> (r: bool)
    ensures
        r == listed_before(a@, b@),
{
    if a.connected != b.connected {
        a.connected
    } else if a.paired != b.paired {
        a.paired
    } else {
        text::is_before(a.name.as_str(), b.name.as_str())
    }
}

proof fn lemma_placed_at(ds: Seq<DeviceView>, d: DeviceView, j: int)
    requires
        0 <= j <= ds.len(),
        j > 0 ==> !listed_before(d, ds[j - 1]),
        forall|k: int| j <= k < ds.len() ==> listed_before(d, #[trigger] ds[k]),
    ensures
        placed(ds, d) == ds.insert(j, d),
    decreases ds.len(),
{
    if j == ds.len() {
        assert(ds.insert(j, d) == ds.push(d));
    } else {
        assert(listed_before(d, ds[ds.len() - 1]));
        lemma_placed_at(ds.drop_last(), d, j);
        assert(ds.insert(j, d) == ds.drop_last().insert(j, d).push(ds.last()));
    }
}

fn place(ds: &mut Vec<Device>, d: Device)
    ensures
        device_views(final(ds)@) == placed(device_views(old(ds)@), d@),
{
    let mut j: usize = ds.len();
    while j > 0 && is_listed_before(&d, &ds[j - 1])
        invariant
            j <= ds@.len(),
            ds@ == old(ds)@,
            forall|k: int| j <= k < ds@.len() ==> listed_before(d@, #[trigger] ds@[k]@),
        decreases j,
    {
        j -= 1;
    }
    proof {
        let v = device_views(ds@);
        assert forall|k: int| j <= k < v.len() implies listed_before(d@, #[trigger] v[k]) by {
            assert(listed_before(d@, ds@[k]@));
        }
        lemma_placed_at(v, d@, j as int);
        assert(device_views(ds@.insert(j as int, d)) == v.insert(j as int, d@));
    }
    ds.insert(j, d);
}

/// What BlueZ has: its adapter and whether it is powered, whether it is
/// looking for devices, and the devices in the order that they are listed in.
#[derive(Debug)]
pub struct Snapshot {
    pub adapter: Option<(String, bool)>,
    pub discovering: bool,
    pub devices: Vec<Device>,
}

/// The snapshot of BlueZ's objects, given in any order. With several adapters,
/// the first is the one that counts.
pub fn snapshot(objs: &Vec<Object>) -> (s: Snapshot)
    ensures
        device_views(s.devices@) == in_order(devices_in(objs@)),
        match adapter_in(objs@) {
            Some(o) => s.adapter matches Some((path, powered)) && path@ == o.path@ && powered
                == bool_of(o.adapter.unwrap()@, "Powered"@) && s.discovering == bool_of(
                o.adapter.unwrap()@,
                "Discovering"@,
            ),
            None => s.adapter is None && !s.discovering,
        },
{
    let mut s = Snapshot { adapter: None, discovering: false, devices: Vec::new() };
    let mut i: usize = 0;
    assert(device_views(s.devices@) == Seq::<DeviceView>::empty());
    while i < objs.len()
        invariant
            i <= objs@.len(),
            device_views(s.devices@) == in_order(devices_in(objs@.take(i as int))),
            match adapter_in(objs@.take(i as int)) {
                Some(o) => s.adapter matches Some((path, powered)) && path@ == o.path@ && powered
                    == bool_of(o.adapter.unwrap()@, "Powered"@) && s.discovering == bool_of(
                    o.adapter.unwrap()@,
                    "Discovering"@,
                ),
                None => s.adapter is None && !s.discovering,
            },
        decreases objs@.len() - i,
    {
        let o = &objs[i];
        proof {
            assert(objs@.take(i + 1).drop_last() == objs@.take(i as int));
        }
        if let Some(a) = &o.adapter {
            if s.adapter.is_none() {
                s.adapter = Some((o.path.clone(), get_bool(a, "Powered")));
                s.discovering = get_bool(a, "Discovering");
            }
        }
        if let Some(d) = &o.device {
            let addr = get_str(d, "Address");
            let alias = get_str(d, "Alias");
            let name = if alias.as_str().is_empty() {
                get_str(d, "Name")
            } else {
                alias
            };
            let name = if name.as_str().is_empty() {
                addr.clone()
            } else {
                name
            };
            let dev = Device {
                path: o.path.clone(),
                addr,
                name,
                paired: get_bool(d, "Paired"),
                trusted: get_bool(d, "Trusted"),
                connected: get_bool(d, "Connected"),
            };
            proof {
                let before = devices_in(objs@.take(i as int));
                assert(dev@ == device_of(o.path@, d@));
                assert(before.push(dev@).drop_last() == before);
            }
            place(&mut s.devices, dev);
        }
        i += 1;
    }
    assert(objs@.take(objs@.len() as int) == objs@);
    s
}

/// The first of `ds` that is connected.
pub open spec fn first_connected(ds: Seq<DeviceView>) -> Option<DeviceView>
    decreases ds.len(),
{
    if ds.len() == 0 {
        None
    } else if ds[0].connected {
        Some(ds[0])
    } else {
        first_connected(ds.drop_first())
    }
}

/// The first of `ds` that has the address `mac`, in any case.
pub open spec fn first_at(ds: Seq<DeviceView>, mac: Seq<char>) -> Option<DeviceView>
    decreases ds.len(),
{
    if ds.len() == 0 {
        None
    } else if text::same_ignoring_case(ds[0].addr, mac) {
        Some(ds[0])
    } else {
        first_at(ds.drop_first(), mac)
    }
}

/// The first of `ds` that is paired, and trusted too if `trusted` is asked
/// for.
pub open spec fn first_paired(ds: Seq<DeviceView>, trusted: bool) -> Option<DeviceView>
    decreases ds.len(),
{
    if ds.len() == 0 {
        None
    } else if ds[0].paired && (trusted ==> ds[0].trusted) {
        Some(ds[0])
    } else {
        first_paired(ds.drop_first(), trusted)
    }
}

/// An optional device by its view.
pub open spec fn opt_device(d: Option<&Device>) -> Option<DeviceView> {
    match d {
        Some(d) => Some(d@),
        None => None,
    }
}

impl Snapshot {
    /// The device that is connected, the first if there are several.
    pub fn connected(&self) -> (r: Option<&Device>)
        ensures
            opt_device(r) == first_connected(device_views(self.devices@)),
    {
        let ghost all = device_views(self.devices@);
        let mut i: usize = 0;
        assert(all.skip(0) == all);
        while i < self.devices.len()
            invariant
                i <= self.devices@.len(),
                all == device_views(self.devices@),
                first_connected(all) == first_connected(all.skip(i as int)),
            decreases self.devices@.len() - i,
        {
            let d = &self.devices[i];
            assert(all.skip(i as int)[0] == d@);
            if d.connected {
                return Some(d);
            }
            assert(all.skip(i as int).drop_first() == all.skip(i + 1));
            i += 1;
        }
        None
    }

    /// The device of the address `mac`, in any case.
    pub fn by_addr(&self, mac: &str) -> (r: Option<&Device>)
        ensures
            opt_device(r) == first_at(device_views(self.devices@), mac@),
    {
        let ghost all = device_views(self.devices@);
        let mut i: usize = 0;
        assert(all.skip(0) == all);
        while i < self.devices.len()
            invariant
                i <= self.devices@.len(),
                all == device_views(self.devices@),
                first_at(all, mac@) == first_at(all.skip(i as int), mac@),
            decreases self.devices@.len() - i,
        {
            let d = &self.devices[i];
            assert(all.skip(i as int)[0] == d@);
            if text::eq_ignore_case(d.addr.as_str(), mac) {
                return Some(d);
            }
            assert(all.skip(i as int).drop_first() == all.skip(i + 1));
            i += 1;
        }
        None
    }

    /// A device that is paired, and trusted too if `trusted` is asked for.
    pub fn paired(&self, trusted: bool) -> (r: Option<&Device>)
        ensures
            opt_device(r) == first_paired(device_views(self.devices@), trusted),
    {
        let ghost all = device_views(self.devices@);
        let mut i: usize = 0;
        assert(all.skip(0) == all);
        while i < self.devices.len()
            invariant
                i <= self.devices@.len(),
                all == device_views(self.devices@),
                first_paired(all, trusted) == first_paired(all.skip(i as int), trusted),
            decreases self.devices@.len() - i,
        {
            let d = &self.devices[i];
            assert(all.skip(i as int)[0] == d@);
            if d.paired && (!trusted || d.trusted) {
                return Some(d);
            }
            assert(all.skip(i as int).drop_first() == all.skip(i + 1));
            i += 1;
        }
        None
    }
}

// ---------------------------------------------------------------------------
// What the bar shows
// ---------------------------------------------------------------------------
/// The bar's side of the bus.
#[derive(Debug)]
pub struct Bluetooth {
    /// There is a connection to the bus.
    pub on_bus: bool,
    /// What a background action is doing, if one is in flight.
    pub activity: Option<String>,
}

impl Bluetooth {
    /// Nothing is going on yet.
    pub fn new(on_bus: bool) -> (b: Self)
        ensures
            b.on_bus == on_bus,
            b.activity is None,
    {
        Bluetooth { on_bus, activity: None }
    }

    /// What the bar shows, given what BlueZ has, if it answers.
    pub fn state(&self, snapshot: Option<&Snapshot>) -> (r: BtState)
        ensures
            r@ == match (self.activity, snapshot) {
                (Some(a), _) => BtStateView::Busy(a@),
                (None, Some(s)) => match s.adapter {
                    None => BtStateView::NoStack,
                    Some((_, false)) => BtStateView::Off,
                    Some((_, true)) => match first_connected(device_views(s.devices@)) {
                        Some(d) => BtStateView::Connected(d.name),
                        None => BtStateView::Idle,
                    },
                },
                (None, None) => BtStateView::NoStack,
            },
    {
        if let Some(a) = &self.activity {
            return BtState::Busy(a.clone());
        }
        let s = match snapshot {
            Some(s) => s,
            None => return BtState::NoStack,
        };
        let powered = match &s.adapter {
            Some((_, powered)) => *powered,
            None => return BtState::NoStack,
        };
        if !powered {
            return BtState::Off;
        }
        match s.connected() {
            Some(d) => BtState::Connected(d.name.clone()),
            None => BtState::Idle,
        }
    }
}

// ---------------------------------------------------------------------------
// A click
// ---------------------------------------------------------------------------
/// What a click does.
#[derive(Debug, PartialEq, Eq)]
pub enum Primary {
    /// There is nothing the bar can do by itself, so the caller can open the
    /// panel that has a device list.
    Nothing,
    /// A click mid-pairing is a click that waits.
    Wait,
    /// Power the adapter on.
    PowerOn { adapter: String },
    /// Disconnect the device.
    Disconnect { path: String },
    /// Find the device of this address, pair it, trust it and connect it.
    PairNamed { adapter: String, mac: String },
    /// Connect the device.
    Connect { device: Device },
}

/// A [`Primary`], with its strings by their characters.
pub enum PrimaryView {
    Nothing,
    Wait,
    PowerOn { adapter: Seq<char> },
    Disconnect { path: Seq<char> },
    PairNamed { adapter: Seq<char>, mac: Seq<char> },
    Connect { device: DeviceView },
}

impl View for Primary {
    type V = PrimaryView;

    open spec fn view(&self) -> PrimaryView {
        match self {
            Primary::Nothing => PrimaryView::Nothing,
            Primary::Wait => PrimaryView::Wait,
            Primary::PowerOn { adapter } => PrimaryView::PowerOn { adapter: adapter@ },
            Primary::Disconnect { path } => PrimaryView::Disconnect { path: path@ },
            Primary::PairNamed { adapter, mac } => PrimaryView::PairNamed {
                adapter: adapter@,
                mac: mac@,
            },
            Primary::Connect { device } => PrimaryView::Connect { device: device@ },
        }
    }
}

/// The device that a click on an idle adapter connects: the one the settings
/// name if it is paired; without a name there, a paired and trusted one, else
/// any paired one.
pub open spec fn picked(ds: Seq<DeviceView>, mac: Seq<char>) -> Option<DeviceView> {
    if mac.len() > 0 {
        match first_at(ds, mac) {
            Some(d) => if d.paired {
                Some(d)
            } else {
                None
            },
            None => None,
        }
    } else {
        match first_paired(ds, true) {
            Some(d) => Some(d),
            None => first_paired(ds, false),
        }
    }
}

/// What a click does to a powered adapter.
pub open spec fn powered_action(
    adapter: Seq<char>,
    ds: Seq<DeviceView>,
    mac: Seq<char>,
) -> PrimaryView {
    match (first_connected(ds), picked(ds, mac)) {
        (Some(d), _) => PrimaryView::Disconnect { path: d.path },
        (None, Some(d)) => PrimaryView::Connect { device: d },
        (None, None) => if mac.len() > 0 {
            PrimaryView::PairNamed { adapter, mac }
        } else {
            PrimaryView::Nothing
        },
    }
}

/// What is said of a device that did not turn up.
pub open spec fn not_seen_text(mac: Seq<char>) -> Seq<char> {
    mac + " not seen in "@ + text::decimal(SCAN_FOR as nat) + "s"@
}

/// What to say of a device that did not turn up.
pub fn not_seen(mac: &str) -> (s: String)
    ensures
        s@ == not_seen_text(mac@),
{
    let mut s = text::concat(mac, " not seen in ");
    text::push_decimal(&mut s, SCAN_FOR);
    s.append("s");
    s
}

impl Primary {
    /// What the bar shows while the device that was named is looked for.
    pub fn activity(&self) -> (r: Option<String>)
        ensures
            match self@ {
                PrimaryView::PairNamed { mac, .. } => r matches Some(s) && s@ == "scanning for "@
                    + mac,
                _ => r is None,
            },
    {
        match self {
            Primary::PairNamed { mac, .. } => Some(text::concat("scanning for ", mac.as_str())),
            _ => None,
        }
    }

    /// What is said when the device that was named does not turn up.
    pub fn not_seen(&self) -> (r: Option<String>)
        ensures
            match self@ {
                PrimaryView::PairNamed { mac, .. } => r matches Some(s) && s@ == not_seen_text(mac)
                    + "; is it in pairing mode?"@,
                _ => r is None,
            },
    {
        match self {
            Primary::PairNamed { mac, .. } => {
                let mut s = not_seen(mac.as_str());
                s.append("; is it in pairing mode?");
                Some(s)
            },
            _ => None,
        }
    }

    /// Whether the click was taken care of.
    pub fn handled(&self) -> (r: bool)
        ensures
            r == (self@ != PrimaryView::Nothing),
    {
        match self {
            Primary::Nothing => false,
            _ => true,
        }
    }
}

impl Bluetooth {
    /// Left click: connected -> disconnect; off -> power on; idle -> connect to
    /// the preferred device (config MAC, else a trusted paired one, else any
    /// paired one), pairing the config MAC first if it never has been.
    ///
    /// `snapshot` is what BlueZ has, if it answers.
    pub fn primary_action(&self, snapshot: Option<&Snapshot>, preferred_mac: &str) -> (r: Primary)
        ensures
            r@ == (if !self.on_bus {
                PrimaryView::Nothing
            } else if self.activity is Some {
                PrimaryView::Wait
            } else {
                match snapshot {
                    Some(s) => match s.adapter {
                        Some((adapter, false)) => PrimaryView::PowerOn { adapter: adapter@ },
                        Some((adapter, true)) => powered_action(
                            adapter@,
                            device_views(s.devices@),
                            preferred_mac@,
                        ),
                        None => PrimaryView::Nothing,
                    },
                    None => PrimaryView::Nothing,
                }
            }),
    {
        if !self.on_bus {
            return Primary::Nothing;
        }
        if self.activity.is_some() {
            return Primary::Wait;
        }
        let s = match snapshot {
            Some(s) => s,
            None => return Primary::Nothing,
        };
        let (adapter, powered) = match &s.adapter {
            Some((adapter, powered)) => (adapter.clone(), *powered),
            None => return Primary::Nothing,
        };
        if !powered {
            return Primary::PowerOn { adapter };
        }
        if let Some(d) = s.connected() {
            return Primary::Disconnect { path: d.path.clone() };
        }
        if !preferred_mac.is_empty() {
            if let Some(d) = s.by_addr(preferred_mac) {
                if d.paired {
                    // Named in the config and already paired: connect it.
                    return Primary::Connect { device: d.clone() };
                }
            }
            // Named in the config but never paired: find and pair it.
            return Primary::PairNamed { adapter, mac: preferred_mac.to_owned() };
        }
        if let Some(d) = s.paired(true) {
            return Primary::Connect { device: d.clone() };
        }
        match s.paired(false) {
            Some(d) => Primary::Connect { device: d.clone() },
            None => Primary::Nothing,
        }
    }

    /// Toggle adapter power: the adapter, and whether it is to be powered. None
    /// without an adapter.
    pub fn toggle_power(&self, snapshot: Option<&Snapshot>) -> (r: Option<(String, bool)>)
        ensures
            match snapshot {
                Some(s) => match s.adapter {
                    Some((adapter, powered)) => r matches Some((path, on)) && path@ == adapter@ && on
                        == !powered,
                    None => r is None,
                },
                None => r is None,
            },
    {
        match snapshot {
            Some(s) => match &s.adapter {
                Some((adapter, powered)) => Some((adapter.clone(), !*powered)),
                None => None,
            },
            None => None,
        }
    }
}

// ---------------------------------------------------------------------------
// Pairing and discovery, step by step
// ---------------------------------------------------------------------------
/// A step of bringing a device up.
#[derive(Debug, PartialEq, Eq)]
pub enum Step {
    /// Say what is being done.
    Report(String),
    /// Register the pairing agent for as long as the next step takes, or give
    /// up.
    Register,
    /// Pair, or give up.
    Pair,
    /// Mark it trusted; whether that works does not matter.
    Trust,
    /// Connect, or give up.
    Connect,
}

/// A [`Step`], with its string by its characters.
pub enum StepView {
    Report(Seq<char>),
    Register,
    Pair,
    Trust,
    Connect,
}

impl View for Step {
    type V = StepView;

    open spec fn view(&self) -> StepView {
        match self {
            Step::Report(s) => StepView::Report(s@),
            Step::Register => StepView::Register,
            Step::Pair => StepView::Pair,
            Step::Trust => StepView::Trust,
            Step::Connect => StepView::Connect,
        }
    }
}

/// The steps of a list, each by its view.
pub open spec fn step_views(v: Seq<Step>) -> Seq<StepView> {
    Seq::new(v.len(), |i: int| v[i]@)
}

/// What it takes to bring `d` up.
pub open spec fn steps_for(d: DeviceView) -> Seq<StepView> {
    (if d.paired {
        Seq::empty()
    } else {
        seq![StepView::Report("pairing "@ + d.name), StepView::Register, StepView::Pair]
    }) + (if d.trusted {
        Seq::empty()
    } else {
        seq![StepView::Trust]
    }) + seq![StepView::Report("connecting "@ + d.name), StepView::Connect]
}

/// Pair `dev` if it is not already, mark it trusted so it may reconnect on its
/// own, then connect: the steps, in order.
pub fn pair_trust_connect(dev: &Device) -> (steps: Vec<Step>)
    ensures
        step_views(steps@) == steps_for(dev@),
{
    let mut steps: Vec<Step> = Vec::new();
    if !dev.paired {
        steps.push(Step::Report(text::concat("pairing ", dev.name.as_str())));
        steps.push(Step::Register);
        steps.push(Step::Pair);
    }
    if !dev.trusted {
        steps.push(Step::Trust);
    }
    steps.push(Step::Report(text::concat("connecting ", dev.name.as_str())));
    steps.push(Step::Connect);
    assert(step_views(steps@) =~= steps_for(dev@));
    steps
}

/// What is said when `step` fails with `error`, which ends it all; nothing
/// when that does not matter.
pub open spec fn failure(step: StepView, error: Seq<char>) -> Option<Seq<char>> {
    match step {
        StepView::Register => Some("agent: "@ + error),
        StepView::Pair => Some("Pair: "@ + error),
        StepView::Connect => Some("Connect: "@ + error),
        _ => None,
    }
}

/// What to say when a step fails, which ends it all; nothing when that does
/// not matter.
pub fn step_error(step: &Step, error: &str) -> (r: Option<String>)
    ensures
        match failure(step@, error@) {
            Some(msg) => r matches Some(s) && s@ == msg,
            None => r is None,
        },
{
    match step {
        Step::Register => Some(text::concat("agent: ", error)),
        Step::Pair => Some(text::concat("Pair: ", error)),
        Step::Connect => Some(text::concat("Connect: ", error)),
        _ => None,
    }
}

/// What comes of `steps` when the `i`-th ends in `errors[i]`, or works where
/// that is none: the steps that are taken, and what is said of the one that
/// ends it all.
pub open spec fn taken(steps: Seq<StepView>, errors: Seq<Option<Seq<char>>>) -> (
    Seq<StepView>,
    Option<Seq<char>>,
)
    decreases steps.len(),
{
    if steps.len() == 0 {
        (seq![], None)
    } else {
        let said = match errors[0] {
            Some(e) => failure(steps[0], e),
            None => None,
        };
        if said is Some {
            (seq![steps[0]], said)
        } else {
            let (rest, msg) = taken(steps.drop_first(), errors.drop_first());
            (seq![steps[0]] + rest, msg)
        }
    }
}

/// What one look at BlueZ during a discovery shows: whether it answers,
/// whether the device is there, and whether the deadline has passed.
#[derive(Clone, Copy, PartialEq, Eq, Debug, Structural)]
pub struct Look {
    pub answers: bool,
    pub found: bool,
    pub past_deadline: bool,
}

/// What to do next in a discovery.
#[derive(Clone, Copy, PartialEq, Eq, Debug, Structural)]
pub enum Discovery {
    /// Turn discovery on.
    Start,
    /// Wait a little and look again.
    Wait,
    /// The device is there: turn discovery off if `stop`, and end.
    Found { stop: bool },
    /// The device was not seen: turn discovery off, and end.
    GiveUp,
}

/// A discovery. Turn it on, wait until the device is found or the deadline
/// passes, turn it off again. Already-known devices count too: a device paired
/// elsewhere and then forgotten by the remote still shows up without a scan.
#[derive(Clone, Copy, PartialEq, Eq, Debug, Structural)]
pub struct Search {
    /// Discovery has been turned on.
    pub scanning: bool,
}

/// What a look leads to.
pub open spec fn after_look(scanning: bool, look: Look) -> Discovery {
    if look.answers && look.found {
        Discovery::Found { stop: scanning }
    } else if !scanning {
        Discovery::Start
    } else if !look.answers || look.past_deadline {
        Discovery::GiveUp
    } else {
        Discovery::Wait
    }
}

impl Search {
    /// A discovery that has not been turned on.
    pub fn new() -> (s: Self)
        ensures
            !s.scanning,
    {
        Search { scanning: false }
    }

    /// What to do after a look.
    pub fn discover(&self, look: Look) -> (d: Discovery)
        ensures
            d == after_look(self.scanning, look),
    {
        if look.answers && look.found {
            Discovery::Found { stop: self.scanning }
        } else if !self.scanning {
            Discovery::Start
        } else if !look.answers || look.past_deadline {
            Discovery::GiveUp
        } else {
            Discovery::Wait
        }
    }

    /// Discovery was turned on, or that failed with `error`: what to say then,
    /// which ends the search without turning it off.
    pub fn started(&mut self, error: Option<&str>) -> (r: Option<String>)
        ensures
            match error {
                Some(e) => r matches Some(s) && s@ == "StartDiscovery: "@ + e@ && *final(self)
                    == *old(self),
                None => r is None && *final(self) == (Search { scanning: true }),
            },
    {
        match error {
            Some(e) => Some(text::concat("StartDiscovery: ", e)),
            None => {
                self.scanning = true;
                None
            },
        }
    }
}

/// What a discovery asks of the adapter.
pub enum Call {
    StartDiscovery,
    StopDiscovery,
}

/// How a discovery ends.
pub enum SearchEnd {
    /// The look at this index found the device.
    Found(int),
    /// The look at this index had no answer or came past the deadline.
    GaveUp(int),
    Failed(Seq<char>),
    /// It goes on after the last look.
    GoesOn,
}

/// A discovery that sees `looks`, from the `i`-th on: the calls that it makes,
/// and how it ends. `error` is what turning it on fails with, if it does.
pub open spec fn searched(
    scanning: bool,
    looks: Seq<Look>,
    i: int,
    error: Option<Seq<char>>,
) -> (Seq<Call>, SearchEnd)
    decreases looks.len() - i,
{
    if i >= looks.len() {
        (seq![], SearchEnd::GoesOn)
    } else {
        match after_look(scanning, looks[i]) {
            Discovery::Found { stop } => (
                if stop {
                    seq![Call::StopDiscovery]
                } else {
                    seq![]
                },
                SearchEnd::Found(i),
            ),
            Discovery::GiveUp => (seq![Call::StopDiscovery], SearchEnd::GaveUp(i)),
            Discovery::Wait => searched(scanning, looks, i + 1, error),
            Discovery::Start => match error {
                Some(e) => (
                    seq![Call::StartDiscovery],
                    SearchEnd::Failed("StartDiscovery: "@ + e),
                ),
                None => {
                    let (calls, end) = searched(true, looks, i + 1, error);
                    (seq![Call::StartDiscovery] + calls, end)
                },
            },
        }
    }
}

/// What follows the last dot of `s`; all of it if it has none.
pub open spec fn last_part(s: Seq<char>) -> Seq<char>
    decreases s.len(),
{
    if s.len() == 0 || s.last() == '.' {
        Seq::empty()
    } else {
        last_part(s.drop_last()).push(s.last())
    }
}

/// BlueZ's errors come as `org.bluez.Error.Failed:
/// br-connection-profile-unavailable`; the part after the last dot of the name
/// plus the message is what a person wants to read.
pub fn short(name: &str, message: Option<&str>) -> (r: String)
    ensures
        r@ == match message {
            Some(m) => if m@.len() > 0 {
                last_part(name@) + " ("@ + m@ + ")"@
            } else {
                last_part(name@)
            },
            None => last_part(name@),
        },
{
    let v = text::chars(name);
    let mut i: usize = v.len();
    assert(v@.take(v@.len() as int) == v@);
    assert(v@.subrange(v@.len() as int, v@.len() as int) == Seq::<char>::empty());
    assert(last_part(v@) + Seq::<char>::empty() == last_part(v@));
    while i > 0 && v[i - 1] != '.'
        invariant
            i <= v@.len(),
            last_part(v@) == last_part(v@.take(i as int)) + v@.subrange(
                i as int,
                v@.len() as int,
            ),
        decreases i,
    {
        assert(v@.take(i as int).drop_last() == v@.take(i - 1));
        assert(last_part(v@.take(i - 1)).push(v@[i - 1]) + v@.subrange(i as int, v@.len() as int)
            == last_part(v@.take(i - 1)) + v@.subrange(i - 1, v@.len() as int));
        i -= 1;
    }
    let mut r = text::string_of(&v, i, v.len());
    assert(last_part(v@.take(i as int)) == Seq::<char>::empty());
    assert(r@ == last_part(name@));
    if let Some(m) = message {
        if !m.is_empty() {
            r.append(" (");
            r.append(m);
            r.append(")");
        }
    }
    r
}

// ---------------------------------------------------------------------------
// What holds of every list of devices
// ---------------------------------------------------------------------------
/// Neither device is listed before the other.
pub open spec fn listed_equal(a: DeviceView, b: DeviceView) -> bool {
    !listed_before(a, b) && !listed_before(b, a)
}

/// The order of devices is a strict weak order: no device is listed before
/// itself, it is transitive, and devices of which neither is listed before the
/// other differ in nothing that it looks at.
pub proof fn law_listing_is_an_order(a: DeviceView, b: DeviceView, c: DeviceView)
    ensures
        !listed_before(a, a),
        listed_before(a, b) && listed_before(b, c) ==> listed_before(a, c),
        listed_before(a, b) ==> !listed_before(b, a),
        listed_equal(a, b) <==> a.connected == b.connected && a.paired == b.paired && a.name
            == b.name,
{
    text::lemma_before_irreflexive(a.name);
    text::lemma_before_total(a.name, b.name);
    if text::comes_before(a.name, b.name) && text::comes_before(b.name, c.name) {
        text::lemma_before_transitive(a.name, b.name, c.name);
    }
    if text::comes_before(a.name, b.name) && text::comes_before(b.name, a.name) {
        text::lemma_before_transitive(a.name, b.name, a.name);
    }
}

/// Devices are listed in order: none is listed before one that is ahead of it.
pub proof fn law_listing_is_sorted(ds: Seq<DeviceView>)
    ensures
        forall|i: int, j: int|
            0 <= i < j < in_order(ds).len() ==> !listed_before(
                #[trigger] in_order(ds)[j],
                #[trigger] in_order(ds)[i],
            ),
    decreases ds.len(),
{
    if ds.len() > 0 {
        law_listing_is_sorted(ds.drop_last());
        lemma_placed_sorted(in_order(ds.drop_last()), ds.last());
    }
}

spec fn sorted(ds: Seq<DeviceView>) -> bool {
    forall|i: int, j: int|
        0 <= i < j < ds.len() ==> !listed_before(#[trigger] ds[j], #[trigger] ds[i])
}

proof fn lemma_placed_len(ds: Seq<DeviceView>, d: DeviceView)
    ensures
        placed(ds, d).len() == ds.len() + 1,
        forall|i: int|
            0 <= i < placed(ds, d).len() ==> #[trigger] placed(ds, d)[i] == d || ds.contains(
                placed(ds, d)[i],
            ),
    decreases ds.len(),
{
    if ds.len() > 0 && listed_before(d, ds.last()) {
        let front = ds.drop_last();
        lemma_placed_len(front, d);
        let out = placed(ds, d);
        assert forall|i: int| 0 <= i < out.len() implies #[trigger] out[i] == d || ds.contains(
            out[i],
        ) by {
            if i < out.len() - 1 {
                assert(out[i] == placed(front, d)[i]);
                if front.contains(out[i]) {
                    let k = choose|k: int| 0 <= k < front.len() && front[k] == out[i];
                    assert(ds[k] == out[i]);
                }
            } else {
                assert(ds[ds.len() - 1] == out[i]);
            }
        }
    } else {
        let out = placed(ds, d);
        assert forall|i: int| 0 <= i < out.len() implies #[trigger] out[i] == d || ds.contains(
            out[i],
        ) by {
            if i < ds.len() {
                assert(ds[i] == out[i]);
            }
        }
    }
}

proof fn lemma_placed_sorted(ds: Seq<DeviceView>, d: DeviceView)
    requires
        sorted(ds),
    ensures
        sorted(placed(ds, d)),
    decreases ds.len(),
{
    let out = placed(ds, d);
    if ds.len() == 0 {
    } else if !listed_before(d, ds.last()) {
        assert forall|i: int, j: int| 0 <= i < j < out.len() implies !listed_before(
            #[trigger] out[j],
            #[trigger] out[i],
        ) by {
            if j == ds.len() && i < ds.len() - 1 {
                let e = ds.last();
                assert(!listed_before(ds[ds.len() - 1], ds[i]));
                lemma_not_before_chain(d, e, ds[i]);
            }
        }
    } else {
        let front = ds.drop_last();
        lemma_placed_sorted(front, d);
        lemma_placed_len(front, d);
        assert forall|i: int, j: int| 0 <= i < j < out.len() implies !listed_before(
            #[trigger] out[j],
            #[trigger] out[i],
        ) by {
            let p = placed(front, d);
            if j < p.len() {
                assert(out[i] == p[i] && out[j] == p[j]);
            } else {
                assert(out[i] == p[i]);
                law_listing_is_an_order(d, ds.last(), d);
                if p[i] != d {
                    let k = choose|k: int| 0 <= k < front.len() && front[k] == p[i];
                    assert(!listed_before(ds[ds.len() - 1], ds[k]));
                }
            }
        }
    }
}

/// Not being listed before carries over: if `a` is not listed before `b`, nor
/// `b` before `c`, then `a` is not listed before `c`.
proof fn lemma_not_before_chain(a: DeviceView, b: DeviceView, c: DeviceView)
    requires
        !listed_before(a, b),
        !listed_before(b, c),
    ensures
        !listed_before(a, c),
{
    text::lemma_before_total(a.name, b.name);
    text::lemma_before_total(b.name, c.name);
    text::lemma_before_irreflexive(a.name);
    if text::comes_before(b.name, a.name) && text::comes_before(c.name, b.name) {
        text::lemma_before_transitive(c.name, b.name, a.name);
    }
    if text::comes_before(a.name, c.name) && text::comes_before(c.name, a.name) {
        text::lemma_before_transitive(a.name, c.name, a.name);
    }
}

/// Listing loses no device and makes none up.
pub proof fn law_listing_keeps_devices(ds: Seq<DeviceView>)
    ensures
        in_order(ds).to_multiset() == ds.to_multiset(),
        in_order(ds).len() == ds.len(),
    decreases ds.len(),
{
    broadcast use vstd::seq_lib::group_to_multiset_ensures;

    if ds.len() > 0 {
        law_listing_keeps_devices(ds.drop_last());
        lemma_placed_multiset(in_order(ds.drop_last()), ds.last());
        assert(ds.drop_last().push(ds.last()) == ds);
    }
}

proof fn lemma_placed_multiset(ds: Seq<DeviceView>, d: DeviceView)
    ensures
        placed(ds, d).to_multiset() == ds.to_multiset().insert(d),
        placed(ds, d).len() == ds.len() + 1,
    decreases ds.len(),
{
    broadcast use vstd::seq_lib::group_to_multiset_ensures;

    if ds.len() > 0 && listed_before(d, ds.last()) {
        lemma_placed_multiset(ds.drop_last(), d);
        assert(ds.drop_last().push(ds.last()) == ds);
        assert(ds.drop_last().to_multiset().insert(d).insert(ds.last())
            =~= ds.drop_last().to_multiset().insert(ds.last()).insert(d));
    }
}

/// Listing is stable: devices of which none is listed before another keep the
/// order they came in.
pub proof fn law_listing_is_stable(ds: Seq<DeviceView>, d: DeviceView)
    ensures
        in_order(ds).filter(|e: DeviceView| listed_equal(e, d)) == ds.filter(
            |e: DeviceView| listed_equal(e, d),
        ),
    decreases ds.len(),
{
    let same = |e: DeviceView| listed_equal(e, d);
    if ds.len() > 0 {
        law_listing_is_stable(ds.drop_last(), d);
        lemma_placed_filter(in_order(ds.drop_last()), ds.last(), d);
        reveal(Seq::filter);
        assert(ds.filter(same) == if same(ds.last()) {
            ds.drop_last().filter(same).push(ds.last())
        } else {
            ds.drop_last().filter(same)
        });
    }
}

proof fn lemma_placed_filter(ds: Seq<DeviceView>, e: DeviceView, d: DeviceView)
    ensures
        ({
            let same = |x: DeviceView| listed_equal(x, d);
            placed(ds, e).filter(same) == if same(e) {
                ds.filter(same).push(e)
            } else {
                ds.filter(same)
            }
        }),
    decreases ds.len(),
{
    let same = |x: DeviceView| listed_equal(x, d);
    reveal(Seq::filter);
    if ds.len() == 0 || !listed_before(e, ds.last()) {
        assert(ds.push(e).drop_last() == ds);
    } else {
        let front = ds.drop_last();
        lemma_placed_filter(front, e, d);
        let out = placed(front, e).push(ds.last());
        assert(out.drop_last() == placed(front, e));
        if same(e) {
            law_listing_is_an_order(e, d, e);
            law_listing_is_an_order(ds.last(), d, e);
            law_listing_is_an_order(e, ds.last(), e);
            assert(!same(ds.last()));
        }
    }
}

/// A click is taken care of whenever there is something to do: a device named
/// in the settings, or one that is paired, on an adapter.
pub proof fn law_click_does_something(adapter: Seq<char>, ds: Seq<DeviceView>, mac: Seq<char>)
    ensures
        powered_action(adapter, ds, mac) == PrimaryView::Nothing <==> mac.len() == 0
            && first_connected(ds) is None && forall|i: int|
            0 <= i < ds.len() ==> !(#[trigger] ds[i]).paired,
{
    lemma_none_paired(ds);
    if mac.len() == 0 && first_paired(ds, true) is Some {
        lemma_trusted_is_paired(ds);
    }
}

proof fn lemma_none_paired(ds: Seq<DeviceView>)
    ensures
        first_paired(ds, false) is None <==> forall|i: int|
            0 <= i < ds.len() ==> !(#[trigger] ds[i]).paired,
    decreases ds.len(),
{
    if ds.len() > 0 {
        let rest = ds.drop_first();
        lemma_none_paired(rest);
        if !ds[0].paired {
            if first_paired(rest, false) is None {
                assert forall|i: int| 0 <= i < ds.len() implies !(#[trigger] ds[i]).paired by {
                    if i > 0 {
                        assert(rest[i - 1] == ds[i]);
                    }
                }
            } else {
                let i = choose|i: int| 0 <= i < rest.len() && (#[trigger] rest[i]).paired;
                assert(ds[i + 1].paired);
            }
        }
    }
}

proof fn lemma_trusted_is_paired(ds: Seq<DeviceView>)
    requires
        first_paired(ds, true) is Some,
    ensures
        first_paired(ds, false) is Some,
    decreases ds.len(),
{
    if !(ds[0].paired && ds[0].trusted) {
        lemma_trusted_is_paired(ds.drop_first());
    }
}

/// The steps taken are the first of them; all of them, and nothing is said,
/// exactly if none failed in a way that matters; otherwise they end with the
/// first that did, and what is said is of that one.
pub proof fn law_first_failure_ends(steps: Seq<StepView>, errors: Seq<Option<Seq<char>>>)
    requires
        errors.len() == steps.len(),
    ensures
        ({
            let (done, msg) = taken(steps, errors);
            &&& done.len() <= steps.len()
            &&& done == steps.take(done.len() as int)
            &&& msg is None ==> done == steps
            &&& msg is None <==> forall|i: int|
                0 <= i < steps.len() ==> match #[trigger] errors[i] {
                    Some(e) => failure(steps[i], e) is None,
                    None => true,
                }
            &&& msg is Some ==> done.len() > 0 && errors[done.len() - 1] is Some && msg == failure(
                steps[done.len() - 1],
                errors[done.len() - 1].unwrap(),
            )
        }),
    decreases steps.len(),
{
    if steps.len() > 0 {
        let said = match errors[0] {
            Some(e) => failure(steps[0], e),
            None => None,
        };
        let (done, msg) = taken(steps, errors);
        if said is Some {
            assert(done =~= steps.take(1));
        } else {
            let rest = steps.drop_first();
            let after = errors.drop_first();
            law_first_failure_ends(rest, after);
            let (d, m) = taken(rest, after);
            assert(done =~= steps.take(done.len() as int));
            if m is None {
                assert(done =~= steps);
                assert forall|i: int| 0 <= i < steps.len() implies match #[trigger] errors[i] {
                    Some(e) => failure(steps[i], e) is None,
                    None => true,
                } by {
                    if i > 0 {
                        assert(after[i - 1] == errors[i] && rest[i - 1] == steps[i]);
                    }
                }
            } else {
                let i = d.len() as int;
                assert(after[i - 1] == errors[i] && rest[i - 1] == steps[i]);
            }
        }
    }
}

/// A device that could not be paired, for want of an agent or otherwise, is
/// neither trusted nor connected, and says "agent: " or "Pair: " and why.
pub proof fn law_unpaired_is_not_connected(
    d: DeviceView,
    errors: Seq<Option<Seq<char>>>,
    e: Seq<char>,
)
    requires
        !d.paired,
        errors.len() == steps_for(d).len(),
        errors[1] == Some(e) || (errors[1] is None && errors[2] == Some(e)),
    ensures
        taken(steps_for(d), errors).1 == Some(
            if errors[1] is Some {
                "agent: "@ + e
            } else {
                "Pair: "@ + e
            },
        ),
        !taken(steps_for(d), errors).0.contains(StepView::Trust),
        !taken(steps_for(d), errors).0.contains(StepView::Connect),
{
    let steps = steps_for(d);
    assert(steps[0] == StepView::Report("pairing "@ + d.name));
    assert(steps[1] == StepView::Register);
    assert(steps[2] == StepView::Pair);
    let one = steps.drop_first();
    let two = one.drop_first();
    let after_one = errors.drop_first();
    let after_two = after_one.drop_first();
    assert(one[0] == steps[1] && two[0] == steps[2]);
    assert(after_one[0] == errors[1] && after_two[0] == errors[2]);
    reveal_with_fuel(taken, 4);
    let done = taken(steps, errors).0;
    assert(forall|i: int|
        0 <= i < done.len() ==> done[i] != StepView::Trust && done[i] != StepView::Connect);
}

/// The `n`-th look is the first from the `i`-th on that ends a search: it shows
/// the device, has no answer, or comes past the deadline.
pub open spec fn is_first_end(looks: Seq<Look>, i: int, n: int) -> bool {
    &&& i <= n < looks.len()
    &&& (looks[n].found || !looks[n].answers || looks[n].past_deadline)
    &&& forall|j: int|
        i <= j < n ==> (#[trigger] looks[j]).answers && !looks[j].found && !looks[j].past_deadline
}

proof fn lemma_searched_on(looks: Seq<Look>, i: int, error: Option<Seq<char>>)
    requires
        0 <= i,
    ensures
        ({
            let (calls, end) = searched(true, looks, i, error);
            &&& end is GoesOn || end is GaveUp || end is Found
            &&& calls == if end is GoesOn {
                seq![]
            } else {
                seq![Call::StopDiscovery]
            }
            &&& end matches SearchEnd::Found(n) ==> is_first_end(looks, i, n)
                && looks[n].answers && looks[n].found
            &&& end matches SearchEnd::GaveUp(n) ==> is_first_end(looks, i, n) && !(
            looks[n].answers && looks[n].found)
        }),
    decreases looks.len() - i,
{
    if i < looks.len() && after_look(true, looks[i]) == Discovery::Wait {
        lemma_searched_on(looks, i + 1, error);
    }
}

/// A device that is known already is found without turning discovery on.
/// Otherwise it is turned on once; where that fails the search ends there, and
/// discovery is not turned off; where it works, it is turned off exactly once
/// before the search ends, whether the device was found or not.
pub proof fn law_discovery_is_turned_off(looks: Seq<Look>, error: Option<Seq<char>>)
    requires
        looks.len() > 0,
    ensures
        ({
            let (calls, end) = searched(false, looks, 0, error);
            if looks[0].answers && looks[0].found {
                calls == Seq::<Call>::empty() && end == SearchEnd::Found(0)
            } else {
                match error {
                    Some(e) => calls == seq![Call::StartDiscovery] && end == SearchEnd::Failed(
                        "StartDiscovery: "@ + e,
                    ),
                    None => {
                        &&& calls == if end is GoesOn {
                            seq![Call::StartDiscovery]
                        } else {
                            seq![Call::StartDiscovery, Call::StopDiscovery]
                        }
                        &&& end is GoesOn || end is GaveUp || end is Found
                        &&& end matches SearchEnd::Found(n) ==> is_first_end(looks, 1, n)
                            && looks[n].answers && looks[n].found
                        &&& end matches SearchEnd::GaveUp(n) ==> is_first_end(looks, 1, n) && !(
                        looks[n].answers && looks[n].found)
                    },
                }
            }
        }),
{
    lemma_searched_on(looks, 1, error);
    let (calls, end) = searched(true, looks, 1, error);
    assert(searched(false, looks, 0, error).0 =~= if looks[0].answers && looks[0].found {
        seq![]
    } else if error is Some || end is GoesOn {
        seq![Call::StartDiscovery]
    } else {
        seq![Call::StartDiscovery, Call::StopDiscovery]
    });
}

// ---------------------------------------------------------------------------
// What holds of every device that is looked up
// ---------------------------------------------------------------------------
/// The device at `i` is the first of `ds` that is connected.
pub open spec fn leads_connected(ds: Seq<DeviceView>, i: int) -> bool {
    &&& 0 <= i < ds.len() && ds[i].connected
    &&& forall|j: int| 0 <= j < i ==> !(#[trigger] ds[j]).connected
}

/// The device at `i` is the first of `ds` of the address `mac`, in any case.
pub open spec fn leads_at(ds: Seq<DeviceView>, mac: Seq<char>, i: int) -> bool {
    &&& 0 <= i < ds.len() && text::same_ignoring_case(ds[i].addr, mac)
    &&& forall|j: int| 0 <= j < i ==> !text::same_ignoring_case((#[trigger] ds[j]).addr, mac)
}

/// The device at `i` is the first of `ds` that is paired and, if `trusted` is
/// asked for, trusted.
pub open spec fn leads_paired(ds: Seq<DeviceView>, trusted: bool, i: int) -> bool {
    &&& 0 <= i < ds.len() && ds[i].paired && (ds[i].trusted || !trusted)
    &&& forall|j: int|
        0 <= j < i ==> !((#[trigger] ds[j]).paired && (ds[j].trusted || !trusted))
}

/// Of the connected devices the first counts, and there is one exactly if some
/// device is connected.
pub proof fn law_first_connected(ds: Seq<DeviceView>)
    ensures
        match first_connected(ds) {
            Some(d) => exists|i: int| leads_connected(ds, i) && d == #[trigger] ds[i],
            None => forall|i: int| 0 <= i < ds.len() ==> !(#[trigger] ds[i]).connected,
        },
    decreases ds.len(),
{
    if ds.len() > 0 {
        let rest = ds.drop_first();
        law_first_connected(rest);
        if ds[0].connected {
            assert(leads_connected(ds, 0) && ds[0] == ds[0]);
        } else if first_connected(rest) is Some {
            let i = choose|i: int|
                leads_connected(rest, i) && first_connected(rest).unwrap() == #[trigger] rest[i];
            assert forall|j: int| 0 <= j < i + 1 implies !(#[trigger] ds[j]).connected by {
                if j > 0 {
                    assert(rest[j - 1] == ds[j]);
                }
            }
            assert(leads_connected(ds, i + 1) && rest[i] == ds[i + 1]);
        } else {
            assert forall|i: int| 0 <= i < ds.len() implies !(#[trigger] ds[i]).connected by {
                if i > 0 {
                    assert(rest[i - 1] == ds[i]);
                }
            }
        }
    }
}

/// A device found by its address has that address, in any case; it is the
/// first such, and there is none exactly if no device has the address.
pub proof fn law_first_at(ds: Seq<DeviceView>, mac: Seq<char>)
    ensures
        match first_at(ds, mac) {
            Some(d) => exists|i: int| leads_at(ds, mac, i) && d == #[trigger] ds[i],
            None => forall|i: int|
                0 <= i < ds.len() ==> !text::same_ignoring_case((#[trigger] ds[i]).addr, mac),
        },
    decreases ds.len(),
{
    if ds.len() > 0 {
        let rest = ds.drop_first();
        law_first_at(rest, mac);
        if text::same_ignoring_case(ds[0].addr, mac) {
            assert(leads_at(ds, mac, 0) && ds[0] == ds[0]);
        } else if first_at(rest, mac) is Some {
            let i = choose|i: int|
                leads_at(rest, mac, i) && first_at(rest, mac).unwrap() == #[trigger] rest[i];
            assert forall|j: int| 0 <= j < i + 1 implies !text::same_ignoring_case(
                (#[trigger] ds[j]).addr,
                mac,
            ) by {
                if j > 0 {
                    assert(rest[j - 1] == ds[j]);
                }
            }
            assert(leads_at(ds, mac, i + 1) && rest[i] == ds[i + 1]);
        } else {
            assert forall|i: int| 0 <= i < ds.len() implies !text::same_ignoring_case(
                (#[trigger] ds[i]).addr,
                mac,
            ) by {
                if i > 0 {
                    assert(rest[i - 1] == ds[i]);
                }
            }
        }
    }
}

/// A paired device that is asked for is paired, and trusted where that was
/// asked for; it is the first such, and there is none exactly if no device is.
pub proof fn law_first_paired(ds: Seq<DeviceView>, trusted: bool)
    ensures
        match first_paired(ds, trusted) {
            Some(d) => exists|i: int| leads_paired(ds, trusted, i) && d == #[trigger] ds[i],
            None => forall|i: int|
                0 <= i < ds.len() ==> !((#[trigger] ds[i]).paired && (ds[i].trusted || !trusted)),
        },
    decreases ds.len(),
{
    if ds.len() > 0 {
        let rest = ds.drop_first();
        law_first_paired(rest, trusted);
        if ds[0].paired && (ds[0].trusted || !trusted) {
            assert(leads_paired(ds, trusted, 0) && ds[0] == ds[0]);
        } else if first_paired(rest, trusted) is Some {
            let i = choose|i: int|
                leads_paired(rest, trusted, i) && first_paired(rest, trusted).unwrap()
                    == #[trigger] rest[i];
            assert forall|j: int| 0 <= j < i + 1 implies !((#[trigger] ds[j]).paired && (
            ds[j].trusted || !trusted)) by {
                if j > 0 {
                    assert(rest[j - 1] == ds[j]);
                }
            }
            assert(leads_paired(ds, trusted, i + 1) && rest[i] == ds[i + 1]);
        } else {
            assert forall|i: int| 0 <= i < ds.len() implies !((#[trigger] ds[i]).paired && (
            ds[i].trusted || !trusted)) by {
                if i > 0 {
                    assert(rest[i - 1] == ds[i]);
                }
            }
        }
    }
}

/// What [`Snapshot::by_addr`], [`Snapshot::connected`] and
/// [`Snapshot::paired`] give is a device of the snapshot: the first of the
/// address, the first that is connected, the first that is paired.
pub proof fn law_lookups(
    s: &Snapshot,
    mac: &str,
    trusted: bool,
    at: Option<&Device>,
    connected: Option<&Device>,
    paired: Option<&Device>,
)
    requires
        call_ensures(Snapshot::by_addr, (s, mac), at),
        call_ensures(Snapshot::connected, (s,), connected),
        call_ensures(Snapshot::paired, (s, trusted), paired),
    ensures
        ({
            let ds = device_views(s.devices@);
            &&& match at {
                Some(d) => exists|i: int| leads_at(ds, mac@, i) && d@ == #[trigger] ds[i],
                None => forall|i: int| !leads_at(ds, mac@, i),
            }
            &&& match connected {
                Some(d) => exists|i: int| leads_connected(ds, i) && d@ == #[trigger] ds[i],
                None => forall|i: int| !leads_connected(ds, i),
            }
            &&& match paired {
                Some(d) => exists|i: int| leads_paired(ds, trusted, i) && d@ == #[trigger] ds[i],
                None => forall|i: int| !leads_paired(ds, trusted, i),
            }
        }),
{
    let ds = device_views(s.devices@);
    law_first_at(ds, mac@);
    law_first_connected(ds);
    law_first_paired(ds, trusted);
}

proof fn lemma_leads_at_once(ds: Seq<DeviceView>, mac: Seq<char>, i: int, j: int)
    requires
        leads_at(ds, mac, i),
        leads_at(ds, mac, j),
    ensures
        i == j,
{
    if i < j {
        assert(!text::same_ignoring_case(ds[i].addr, mac));
    } else if j < i {
        assert(!text::same_ignoring_case(ds[j].addr, mac));
    }
}

/// With an address in the settings and nothing connected, a click on a powered
/// adapter concerns that address and no other: it finds and pairs it, or
/// connects a paired device that has it. It is found and paired exactly if the
/// first device of that address, if there is any, is not paired.
pub proof fn law_click_keeps_to_the_settings(
    adapter: Seq<char>,
    ds: Seq<DeviceView>,
    mac: Seq<char>,
)
    requires
        mac.len() > 0,
        forall|i: int| 0 <= i < ds.len() ==> !(#[trigger] ds[i]).connected,
    ensures
        ({
            let a = powered_action(adapter, ds, mac);
            &&& a == (PrimaryView::PairNamed { adapter, mac }) || (a matches PrimaryView::Connect {
                device,
            } && device.paired && text::same_ignoring_case(device.addr, mac) && exists|i: int|
                leads_at(ds, mac, i) && device == #[trigger] ds[i])
            &&& a is PairNamed <==> forall|i: int|
                leads_at(ds, mac, i) ==> !(#[trigger] ds[i]).paired
        }),
{
    law_first_connected(ds);
    law_first_at(ds, mac);
    if first_at(ds, mac) is Some {
        let i = choose|i: int| leads_at(ds, mac, i) && first_at(ds, mac).unwrap() == #[trigger] ds[i];
        assert forall|j: int| leads_at(ds, mac, j) implies (#[trigger] ds[j]) == ds[i] by {
            lemma_leads_at_once(ds, mac, i, j);
        }
    } else {
        assert forall|i: int| !leads_at(ds, mac, i) by {}
    }
}

/// Without an address in the settings and with nothing connected, a click on a
/// powered adapter connects a paired device, the first that is trusted too if
/// any is, and does nothing exactly if none is paired. It never pairs.
pub proof fn law_click_prefers_trusted(adapter: Seq<char>, ds: Seq<DeviceView>)
    requires
        forall|i: int| 0 <= i < ds.len() ==> !(#[trigger] ds[i]).connected,
    ensures
        match powered_action(adapter, ds, Seq::empty()) {
            PrimaryView::Connect { device } => if exists|i: int|
                0 <= i < ds.len() && (#[trigger] ds[i]).paired && ds[i].trusted {
                exists|i: int| leads_paired(ds, true, i) && device == #[trigger] ds[i]
            } else {
                exists|i: int| leads_paired(ds, false, i) && device == #[trigger] ds[i]
            },
            PrimaryView::Nothing => forall|i: int|
                0 <= i < ds.len() ==> !(#[trigger] ds[i]).paired,
            _ => false,
        },
{
    law_first_connected(ds);
    law_first_paired(ds, true);
    law_first_paired(ds, false);
}

/// A connected device is what a click disconnects, whatever the settings say:
/// the first, if there are several.
pub proof fn law_click_disconnects(
    adapter: Seq<char>,
    ds: Seq<DeviceView>,
    mac: Seq<char>,
    i: int,
)
    requires
        leads_connected(ds, i),
    ensures
        powered_action(adapter, ds, mac) == (PrimaryView::Disconnect { path: ds[i].path }),
{
    law_first_connected(ds);
    let k = choose|k: int|
        leads_connected(ds, k) && first_connected(ds).unwrap() == #[trigger] ds[k];
    if k < i {
        assert(!ds[k].connected);
    } else if i < k {
        assert(!ds[i].connected);
    }
}

/// What a click comes to, from the outside in: nothing without the bus, an
/// answer or an adapter; it waits while something is in flight; it powers an
/// adapter on that is off; and on one that is on it disconnects what is
/// connected, or else keeps to the settings, or else to what is paired.
pub proof fn law_click(b: &Bluetooth, s: Option<&Snapshot>, mac: &str, r: Primary)
    requires
        call_ensures(Bluetooth::primary_action, (b, s, mac), r),
    ensures
        r@ is Wait <==> b.on_bus && b.activity is Some,
        !b.on_bus || (b.activity is None && (s is None || s.unwrap().adapter is None)) ==> r@
            is Nothing,
        b.on_bus && b.activity is None ==> (s matches Some(s) ==> (s.adapter matches Some(
            (adapter, powered),
        ) ==> {
            let ds = device_views(s.devices@);
            &&& r@ is PowerOn <==> !powered
            &&& (r@ matches PrimaryView::PowerOn { adapter: a } ==> a == adapter@)
            &&& r@ is Disconnect <==> powered && exists|i: int|
                0 <= i < ds.len() && (#[trigger] ds[i]).connected
            &&& (r@ matches PrimaryView::Disconnect { path } ==> exists|i: int|
                leads_connected(ds, i) && path == (#[trigger] ds[i]).path)
            &&& (r@ matches PrimaryView::PairNamed { adapter: a, mac: m } ==> a == adapter@ && m
                == mac@ && m.len() > 0 && forall|i: int|
                leads_at(ds, mac@, i) ==> !(#[trigger] ds[i]).paired)
            &&& (r@ matches PrimaryView::Connect { device } ==> device.paired && !device.connected
                && exists|i: int|
                0 <= i < ds.len() && device == #[trigger] ds[i] && if mac@.len() > 0 {
                    leads_at(ds, mac@, i)
                } else {
                    leads_paired(ds, true, i) || (leads_paired(ds, false, i) && forall|j: int|
                        !leads_paired(ds, true, j))
                })
            &&& r@ is Nothing <==> powered && mac@.len() == 0 && forall|i: int|
                0 <= i < ds.len() ==> !(#[trigger] ds[i]).connected && !ds[i].paired
        })),
{
    if b.on_bus && b.activity is None && s is Some && s.unwrap().adapter is Some {
        let snap = s.unwrap();
        let adapter = snap.adapter.unwrap().0@;
        let ds = device_views(snap.devices@);
        law_first_connected(ds);
        law_click_does_something(adapter, ds, mac@);
        if snap.adapter.unwrap().1 {
            if first_connected(ds) is Some {
                let i = choose|i: int|
                    leads_connected(ds, i) && first_connected(ds).unwrap() == #[trigger] ds[i];
                law_click_disconnects(adapter, ds, mac@, i);
            } else if mac@.len() > 0 {
                law_click_keeps_to_the_settings(adapter, ds, mac@);
            } else {
                assert(mac@ =~= Seq::empty());
                law_click_prefers_trusted(adapter, ds);
            }
        }
    }
}

/// The bar says that it is busy exactly while something is in flight, and with
/// what; otherwise it names the first connected device of an adapter that is
/// on, and tells an adapter that is off from one that is not there.
pub proof fn law_state(b: &Bluetooth, s: Option<&Snapshot>, r: BtState)
    requires
        call_ensures(Bluetooth::state, (b, s), r),
    ensures
        r@ is Busy <==> b.activity is Some,
        r@ matches BtStateView::Busy(what) ==> what == b.activity.unwrap()@,
        b.activity is None ==> {
            &&& r@ is NoStack <==> s is None || s.unwrap().adapter is None
            &&& r@ is Off <==> (s matches Some(s) && s.adapter matches Some((_, on)) && !on)
            &&& r@ is Idle <==> (s matches Some(s) && s.adapter matches Some((_, on)) && on
                && forall|i: int| 0 <= i < s.devices@.len() ==> !(#[trigger] s.devices@[i]).connected)
            &&& (r@ matches BtStateView::Connected(name) ==> (s matches Some(s) && exists|i: int|
                leads_connected(device_views(s.devices@), i) && name
                    == (#[trigger] s.devices@[i]).name@))
        },
{
    if b.activity is None && s is Some {
        let ds = device_views(s.unwrap().devices@);
        law_first_connected(ds);
        assert forall|i: int| 0 <= i < ds.len() implies (#[trigger] ds[i]).connected
            == s.unwrap().devices@[i].connected by {}
        if first_connected(ds) is Some {
            let i = choose|i: int|
                leads_connected(ds, i) && first_connected(ds).unwrap() == #[trigger] ds[i];
            assert(ds[i].name == s.unwrap().devices@[i].name@);
            assert(s.unwrap().devices@[i].connected);
        } else if s.unwrap().adapter is Some && s.unwrap().adapter.unwrap().1 {
            assert forall|i: int| 0 <= i < s.unwrap().devices@.len() implies !(
            #[trigger] s.unwrap().devices@[i]).connected by {
                assert(!ds[i].connected);
            }
        }
    }
}

/// To toggle the power asks for the power the adapter does not have, of that
/// adapter.
pub proof fn law_power_toggles(b: &Bluetooth, s: &Snapshot, r: Option<(String, bool)>)
    requires
        call_ensures(Bluetooth::toggle_power, (b, Some(s)), r),
    ensures
        r is Some <==> s.adapter is Some,
        r matches Some((path, on)) ==> path@ == s.adapter.unwrap().0@ && on
            != s.adapter.unwrap().1,
{
}

// ---------------------------------------------------------------------------
// What holds of every reading of BlueZ's objects
// ---------------------------------------------------------------------------
/// The entry at `i` is the first of `m` named `k`.
pub open spec fn leads_named(m: Seq<(String, Prop)>, k: Seq<char>, i: int) -> bool {
    &&& 0 <= i < m.len() && m[i].0@ == k
    &&& forall|j: int| 0 <= j < i ==> (#[trigger] m[j]).0@ != k
}

/// The first property of a name is the one that counts, and there is none
/// exactly if no property has the name.
pub proof fn law_first_property(m: Seq<(String, Prop)>, k: Seq<char>)
    ensures
        match property(m, k) {
            Some(p) => exists|i: int| leads_named(m, k, i) && p == (#[trigger] m[i]).1,
            None => forall|i: int| 0 <= i < m.len() ==> (#[trigger] m[i]).0@ != k,
        },
    decreases m.len(),
{
    if m.len() > 0 {
        let rest = m.drop_first();
        law_first_property(rest, k);
        if m[0].0@ == k {
            assert(leads_named(m, k, 0) && m[0].1 == m[0].1);
        } else if property(rest, k) is Some {
            let i = choose|i: int|
                leads_named(rest, k, i) && property(rest, k).unwrap() == (#[trigger] rest[i]).1;
            assert forall|j: int| 0 <= j < i + 1 implies (#[trigger] m[j]).0@ != k by {
                if j > 0 {
                    assert(rest[j - 1] == m[j]);
                }
            }
            assert(leads_named(m, k, i + 1) && rest[i] == m[i + 1]);
        } else {
            assert forall|i: int| 0 <= i < m.len() implies (#[trigger] m[i]).0@ != k by {
                if i > 0 {
                    assert(rest[i - 1] == m[i]);
                }
            }
        }
    }
}

proof fn lemma_leads_named_once(m: Seq<(String, Prop)>, k: Seq<char>, i: int, j: int)
    requires
        leads_named(m, k, i),
        leads_named(m, k, j),
    ensures
        i == j,
{
    if i < j {
        assert(m[i].0@ != k);
    } else if j < i {
        assert(m[j].0@ != k);
    }
}

/// A boolean property is true exactly if the first of its name is the boolean
/// true; a text property is the text of the first of its name, and empty where
/// that is no text.
pub proof fn law_properties_read(m: &Vec<(String, Prop)>, k: &str, b: bool, s: String)
    requires
        call_ensures(get_bool, (m, k), b),
        call_ensures(get_str, (m, k), s),
    ensures
        b <==> exists|i: int| leads_named(m@, k@, i) && (#[trigger] m@[i]).1 == Prop::Bool(true),
        forall|i: int|
            leads_named(m@, k@, i) ==> s@ == match (#[trigger] m@[i]).1 {
                Prop::Text(t) => t@,
                _ => Seq::empty(),
            },
        (forall|i: int| !leads_named(m@, k@, i)) ==> s@ == Seq::<char>::empty(),
{
    law_first_property(m@, k@);
    if property(m@, k@) is Some {
        let i = choose|i: int|
            leads_named(m@, k@, i) && property(m@, k@).unwrap() == (#[trigger] m@[i]).1;
        assert forall|j: int| leads_named(m@, k@, j) implies (#[trigger] m@[j]) == m@[i] by {
            lemma_leads_named_once(m@, k@, i, j);
        }
    }
}

/// A device is called by its alias, without one by its name, without either by
/// its address; it has the path of its object, and is paired, trusted or
/// connected exactly if that property is true.
pub proof fn law_device_of(path: Seq<char>, d: Seq<(String, Prop)>)
    ensures
        ({
            let dev = device_of(path, d);
            let said = |k: Seq<char>| text_of(d, k).len() > 0;
            &&& dev.path == path
            &&& dev.addr == text_of(d, "Address"@)
            &&& said("Alias"@) ==> dev.name == text_of(d, "Alias"@)
            &&& !said("Alias"@) && said("Name"@) ==> dev.name == text_of(d, "Name"@)
            &&& !said("Alias"@) && !said("Name"@) ==> dev.name == dev.addr
            &&& dev.paired <==> property(d, "Paired"@) == Some(Prop::Bool(true))
            &&& dev.trusted <==> property(d, "Trusted"@) == Some(Prop::Bool(true))
            &&& dev.connected <==> property(d, "Connected"@) == Some(Prop::Bool(true))
        }),
{
}

/// Of several adapters the first counts, and there is one exactly if some
/// object is one. Objects that come later never take its place.
pub proof fn law_first_adapter(objs: Seq<Object>)
    ensures
        match adapter_in(objs) {
            Some(o) => exists|i: int|
                0 <= i < objs.len() && o == #[trigger] objs[i] && o.adapter is Some && forall|j: int|
                    0 <= j < i ==> (#[trigger] objs[j]).adapter is None,
            None => forall|i: int| 0 <= i < objs.len() ==> (#[trigger] objs[i]).adapter is None,
        },
    decreases objs.len(),
{
    if objs.len() > 0 {
        let front = objs.drop_last();
        law_first_adapter(front);
        assert forall|j: int| 0 <= j < front.len() implies #[trigger] objs[j] == front[j] by {}
        if adapter_in(front) is Some {
            let i = choose|i: int|
                0 <= i < front.len() && adapter_in(front).unwrap() == #[trigger] front[i]
                    && adapter_in(front).unwrap().adapter is Some && forall|j: int|
                    0 <= j < i ==> (#[trigger] front[j]).adapter is None;
            assert(objs[i] == front[i]);
        } else if objs.last().adapter is Some {
            assert(objs[objs.len() - 1] == objs.last());
        }
    }
}

/// Every object that is a device is one, in the order of the objects, and
/// nothing else is: the devices of two lists of objects are those of the one
/// and then those of the other.
pub proof fn law_devices_of_both(a: Seq<Object>, b: Seq<Object>)
    ensures
        devices_in(a + b) == devices_in(a) + devices_in(b),
        forall|o: Object| #[trigger]
            devices_in(seq![o]) == match o.device {
                Some(d) => seq![device_of(o.path@, d@)],
                None => Seq::empty(),
            },
    decreases b.len(),
{
    assert forall|o: Object| #[trigger]
        devices_in(seq![o]) == match o.device {
            Some(d) => seq![device_of(o.path@, d@)],
            None => Seq::empty(),
        } by {
        let one = seq![o];
        assert(one.drop_last() =~= Seq::<Object>::empty());
        assert(devices_in(Seq::<Object>::empty()) == Seq::<DeviceView>::empty());
        assert(one.last() == o);
        if o.device is Some {
            assert(devices_in(one) =~= seq![device_of(o.path@, o.device.unwrap()@)]);
        }
    }
    if b.len() == 0 {
        assert(a + b =~= a);
        assert(devices_in(a) + devices_in(b) =~= devices_in(a));
    } else {
        law_devices_of_both(a, b.drop_last());
        assert((a + b).drop_last() =~= a + b.drop_last());
        assert((a + b).last() == b.last());
        assert(devices_in(a + b) =~= devices_in(a) + devices_in(b));
    }
}

/// A snapshot has as many devices as there are objects that are one, each
/// once, the connected before the others and the paired before the rest; its
/// adapter is the first, powered and looking for devices as that one says.
pub proof fn law_snapshot(objs: &Vec<Object>, s: Snapshot)
    requires
        call_ensures(snapshot, (objs,), s),
    ensures
        ({
            let ds = device_views(s.devices@);
            &&& ds.to_multiset() == devices_in(objs@).to_multiset()
            &&& forall|i: int, j: int|
                0 <= i < j < ds.len() ==> {
                    &&& (#[trigger] ds[j]).connected ==> (#[trigger] ds[i]).connected
                    &&& ds[i].connected == ds[j].connected && ds[j].paired ==> ds[i].paired
                    &&& ds[i].connected == ds[j].connected && ds[i].paired == ds[j].paired
                        ==> !text::comes_before(ds[j].name, ds[i].name)
                }
            &&& s.adapter is Some <==> exists|i: int|
                0 <= i < objs@.len() && (#[trigger] objs@[i]).adapter is Some
            &&& s.adapter is None ==> !s.discovering
            &&& forall|i: int|
                0 <= i < objs@.len() && (#[trigger] objs@[i]).adapter is Some && (forall|j: int|
                    0 <= j < i ==> (#[trigger] objs@[j]).adapter is None) ==> {
                    let a = objs@[i].adapter.unwrap()@;
                    &&& s.adapter.unwrap().0@ == objs@[i].path@
                    &&& s.adapter.unwrap().1 == bool_of(a, "Powered"@)
                    &&& s.discovering == bool_of(a, "Discovering"@)
                }
        }),
{
    let ds = device_views(s.devices@);
    law_listing_keeps_devices(devices_in(objs@));
    law_listing_is_sorted(devices_in(objs@));
    assert forall|i: int, j: int| 0 <= i < j < ds.len() implies {
        &&& (#[trigger] ds[j]).connected ==> (#[trigger] ds[i]).connected
        &&& ds[i].connected == ds[j].connected && ds[j].paired ==> ds[i].paired
        &&& ds[i].connected == ds[j].connected && ds[i].paired == ds[j].paired
            ==> !text::comes_before(ds[j].name, ds[i].name)
    } by {
        assert(!listed_before(ds[j], ds[i]));
    }
    law_first_adapter(objs@);
    if adapter_in(objs@) is Some {
        let k = choose|i: int|
            0 <= i < objs@.len() && adapter_in(objs@).unwrap() == #[trigger] objs@[i]
                && adapter_in(objs@).unwrap().adapter is Some && forall|j: int|
                0 <= j < i ==> (#[trigger] objs@[j]).adapter is None;
        assert forall|i: int|
            0 <= i < objs@.len() && (#[trigger] objs@[i]).adapter is Some && (forall|j: int|
                0 <= j < i ==> (#[trigger] objs@[j]).adapter is None) implies i == k by {
            if k < i {
                assert(objs@[k].adapter is None);
            }
        }
    }
}

// ---------------------------------------------------------------------------
// What holds of every pairing, every search and every error
// ---------------------------------------------------------------------------
/// The steps end with "connecting" and the connection; a device that is not
/// paired is first announced, then gets an agent, then is paired; one that is
/// not trusted is trusted right before the end. There is no other step.
pub proof fn law_steps(dev: &Device, steps: Vec<Step>)
    requires
        call_ensures(pair_trust_connect, (dev,), steps),
    ensures
        ({
            let v = step_views(steps@);
            let n = v.len() as int;
            &&& n == 2 + (if dev.paired {
                0int
            } else {
                3
            }) + (if dev.trusted {
                0int
            } else {
                1
            })
            &&& v[n - 1] is Connect
            &&& v[n - 2] == StepView::Report("connecting "@ + dev.name@)
            &&& !dev.trusted ==> v[n - 3] is Trust
            &&& !dev.paired ==> v[0] == StepView::Report("pairing "@ + dev.name@) && v[1]
                is Register && v[2] is Pair
        }),
{
}

/// What goes wrong matters exactly where there is no going on without it: the
/// agent, the pairing and the connection. Then the error is said last, whatever
/// it is, behind words that depend on the step alone.
pub proof fn law_failures(step: StepView, e: Seq<char>, f: Seq<char>)
    ensures
        failure(step, e) is Some <==> step is Register || step is Pair || step is Connect,
        failure(step, e) is Some ==> exists|front: Seq<char>|
            failure(step, e) == Some(#[trigger] (front + e)) && failure(step, f) == Some(front + f),
{
    if failure(step, e) is Some {
        let front = match step {
            StepView::Register => "agent: "@,
            StepView::Pair => "Pair: "@,
            _ => "Connect: "@,
        };
        assert(failure(step, e) == Some(front + e) && failure(step, f) == Some(front + f));
    }
}

/// A search that goes on has seen nothing that ends one: every look but the
/// first had an answer, did not show the device and came before the deadline.
pub proof fn law_search_goes_on(looks: Seq<Look>)
    requires
        looks.len() > 0,
    ensures
        searched(false, looks, 0, None).1 is GoesOn <==> !(looks[0].answers && looks[0].found)
            && forall|j: int|
            1 <= j < looks.len() ==> (#[trigger] looks[j]).answers && !looks[j].found
                && !looks[j].past_deadline,
{
    lemma_goes_on(looks, 1);
}

proof fn lemma_goes_on(looks: Seq<Look>, i: int)
    requires
        0 <= i,
    ensures
        searched(true, looks, i, None).1 is GoesOn <==> forall|j: int|
            i <= j < looks.len() ==> (#[trigger] looks[j]).answers && !looks[j].found
                && !looks[j].past_deadline,
    decreases looks.len() - i,
{
    if i < looks.len() {
        lemma_goes_on(looks, i + 1);
        assert(looks[i] == looks[i]);
    }
}

/// What a search does after a look is what the look calls for: it ends with
/// the device where that is there, and has something to turn off exactly if it
/// was turned on; without the device it is turned on first, and then goes on
/// until the deadline or until BlueZ does not answer.
pub proof fn law_looks(s: &Search, look: Look, d: Discovery)
    requires
        call_ensures(Search::discover, (s, look), d),
    ensures
        d is Found <==> look.answers && look.found,
        d matches Discovery::Found { stop } ==> stop == s.scanning,
        d is Start <==> !s.scanning && !(look.answers && look.found),
        d is Wait <==> s.scanning && look.answers && !look.found && !look.past_deadline,
        d is GiveUp ==> s.scanning && (look.past_deadline || !look.answers),
{
}

/// The last part of a name is its end, holds no dot, and has a dot right
/// before it unless it is the whole name.
pub proof fn law_last_part(s: Seq<char>)
    ensures
        ({
            let t = last_part(s);
            &&& t.len() <= s.len()
            &&& t == s.skip(s.len() - t.len())
            &&& !t.contains('.')
            &&& t.len() < s.len() ==> s[s.len() - t.len() - 1] == '.'
        }),
    decreases s.len(),
{
    if s.len() == 0 || s.last() == '.' {
        assert(s.skip(s.len() as int) =~= Seq::<char>::empty());
    } else {
        law_last_part(s.drop_last());
        let u = last_part(s.drop_last());
        let t = last_part(s);
        assert(t =~= s.skip(s.len() - t.len()));
        assert forall|i: int| 0 <= i < t.len() implies t[i] != '.' by {
            if i < u.len() {
                assert(u.contains(u[i]));
            }
        }
    }
}

/// A short error is the last part of its name, and says why in brackets
/// exactly if there is a reason.
pub proof fn law_short(name: &str, message: Option<&str>, r: String)
    requires
        call_ensures(short, (name, message), r),
    ensures
        ({
            let why = match message {
                Some(m) => m@,
                None => Seq::empty(),
            };
            r@ == last_part(name@) + (if why.len() > 0 {
                " ("@ + why + ")"@
            } else {
                Seq::empty()
            })
        }),
{
    let why = match message {
        Some(m) => m@,
        None => Seq::empty(),
    };
    if why.len() > 0 {
        assert(last_part(name@) + " ("@ + why + ")"@ =~= last_part(name@) + (" ("@ + why + ")"@));
    } else {
        assert(last_part(name@) + Seq::<char>::empty() =~= last_part(name@));
    }
}

/// What is said of a device that was not seen is its address and words that
/// are the same for every device; of a click it is that and a hint.
pub proof fn law_not_seen(a: &str, b: &str, ra: String, rb: String, p: &Primary, rp: Option<String>)
    requires
        call_ensures(not_seen, (a,), ra),
        call_ensures(not_seen, (b,), rb),
        call_ensures(Primary::not_seen, (p,), rp),
        p@ matches PrimaryView::PairNamed { mac, .. } ==> mac == a@,
    ensures
        exists|words: Seq<char>| ra@ == #[trigger] (a@ + words) && rb@ == b@ + words,
        rp is Some <==> p@ is PairNamed,
        rp matches Some(s) ==> s@ == ra@ + "; is it in pairing mode?"@,
{
    let words = " not seen in "@ + text::decimal(SCAN_FOR as nat) + "s"@;
    assert(ra@ =~= a@ + words && rb@ =~= b@ + words);
}

/// A search turns discovery on once: when that worked it has something to turn
/// off, and when it failed it is as it was and says why.
pub proof fn law_started(s: &mut Search, fresh: Search, error: Option<&str>, r: Option<String>)
    requires
        call_ensures(Search::new, (), fresh),
        call_ensures(Search::started, (s, error), r),
    ensures
        !fresh.scanning,
        r is Some <==> error is Some,
        error is None ==> final(s).scanning,
        error is Some ==> *final(s) == *old(s),
        error matches Some(e) ==> (r matches Some(t) && text::ends(t@, e@)),
{
    reveal_strlit("StartDiscovery: ");
    if let Some(e) = error {
        let t = r.unwrap()@;
        assert(t.skip(t.len() - e@.len()) =~= e@);
    }
}

/// What is said of a step that failed ends in the error, and is said of those
/// steps alone that there is no going on without.
pub proof fn law_step_error(step: &Step, error: &str, r: Option<String>)
    requires
        call_ensures(step_error, (step, error), r),
    ensures
        r is Some <==> step@ is Register || step@ is Pair || step@ is Connect,
        r matches Some(s) ==> text::ends(s@, error@),
{
    if let Some(s) = r {
        assert(s@.skip(s@.len() - error@.len()) =~= error@);
    }
}

/// Only a click that looks for a device that was named shows what it does while
/// it does and has something to say when that does not turn up, both with its
/// address; and a click that comes to nothing is the only one that is left to
/// others.
pub proof fn law_activity(p: &Primary, a: Option<String>, n: Option<String>, h: bool)
    requires
        call_ensures(Primary::activity, (p,), a),
        call_ensures(Primary::not_seen, (p,), n),
        call_ensures(Primary::handled, (p,), h),
    ensures
        a is Some <==> p@ is PairNamed,
        n is Some <==> p@ is PairNamed,
        p@ matches PrimaryView::PairNamed { mac, .. } ==> (a matches Some(s) && s@
            == "scanning for "@ + mac) && (n matches Some(t) && text::begins(t@, mac)),
        h <==> !(p@ is Nothing),
{
    if let PrimaryView::PairNamed { mac, .. } = p@ {
        let t = n.unwrap()@;
        assert(t.take(mac.len() as int) =~= mac);
    }
}

/// A stack begins with nothing in flight.
pub proof fn law_fresh(on_bus: bool, b: Bluetooth)
    requires
        call_ensures(Bluetooth::new, (on_bus,), b),
    ensures
        b.on_bus == on_bus && b.activity is None,
{
}

} // verus!
