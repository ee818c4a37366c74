//! Battery (sysfs) and Wi-Fi (CAW's `caw status`).
use vstd::prelude::*;

use crate::text;

verus! {

#[derive(Clone, Copy, Debug, PartialEq, Eq, Structural)]
pub struct Battery {
    pub percent: u32,
    pub charging: bool,
    pub full: bool,
}

/// The battery that the `capacity` and `status` files of a power supply
/// describe: none without a capacity that is a number.
pub open spec fn battery_of(capacity: Option<Seq<char>>, status: Seq<char>) -> Option<Battery> {
    let digits = match capacity {
        Some(c) => text::number(text::trimmed(c), 10, u32::MAX as nat),
        None => None,
    };
    let status = text::trimmed(status);
    match digits {
        Some(p) => Some(
            Battery {
                percent: p as u32,
                charging: status == "Charging"@,
                full: status == "Full"@ || (status == "Not charging"@ && p >= 95),
            },
        ),
        None => None,
    }
}

/// An optional string by its characters.
pub open spec fn opt_view(s: Option<&str>) -> Option<Seq<char>> {
    match s {
        Some(s) => Some(s@),
        None => None,
    }
}

/// The battery, from the text of its `capacity` and `status` files, `None`
/// for one that could not be read.
pub fn battery(capacity: Option<&str>, status: Option<&str>) -> (b: Option<Battery>)
    ensures
        b == battery_of(
            opt_view(capacity),
            match status {
                Some(s) => s@,
                None => Seq::empty(),
            },
        ),
{
    let percent: u32 = match capacity {
        Some(c) => match text::parse_number(text::trim(c).as_str(), 10, u32::MAX as u64) {
            Some(p) => p as u32,
            None => return None,
        },
        None => return None,
    };
    let status = match status {
        Some(s) => text::trim(s),
        None => {
            assert(text::trimmed(Seq::<char>::empty()) == Seq::<char>::empty());
            String::new()
        },
    };
    Some(
        Battery {
            percent,
            charging: text::same(status.as_str(), "Charging"),
            full: text::same(status.as_str(), "Full") || (text::same(
                status.as_str(),
                "Not charging",
            ) && percent >= 95),
        },
    )
}

#[derive(Clone, Debug, PartialEq, Eq)]
pub enum Wifi {
    Unavailable,
    Disconnected,
    Connected(String),
}

/// The Wi-Fi, with the network's name by its characters.
pub enum WifiView {
    Unavailable,
    Disconnected,
    Connected(Seq<char>),
}

impl View for Wifi {
    type V = WifiView;

    open spec fn view(&self) -> WifiView {
        match self {
            Wifi::Unavailable => WifiView::Unavailable,
            Wifi::Disconnected => WifiView::Disconnected,
            Wifi::Connected(name) => WifiView::Connected(name@),
        }
    }
}

/// The value of `key` in `lines`: the second word of the last line whose first
/// word it is, and the words after that one; empty if there is none.
pub open spec fn field(lines: Seq<Seq<char>>, key: Seq<char>) -> Seq<Seq<char>>
    decreases lines.len(),
{
    if lines.len() == 0 {
        seq![]
    } else {
        let w = text::words(lines.last());
        if w.len() >= 2 && w[0] == key {
            w.skip(1)
        } else {
            field(lines.drop_last(), key)
        }
    }
}

/// What the output of `caw status` says: connected when the state is
/// "connected", in any case, and a network is named.
pub open spec fn wifi_of(status: Seq<char>) -> WifiView {
    let lines = text::lines(status);
    let state = field(lines, "state"@);
    let network = field(lines, "network"@);
    if state.len() > 0 && text::same_ignoring_case(state[0], "connected"@) && network.len() > 0 {
        WifiView::Connected(text::joined(network, seq![' ']))
    } else {
        WifiView::Disconnected
    }
}

/// Some word of the joined words shows that they are not empty.
proof fn lemma_joined_not_empty(parts: Seq<Seq<char>>, sep: Seq<char>)
    requires
        parts.len() > 0,
        parts[0].len() > 0,
    ensures
        text::joined(parts, sep).len() > 0,
    decreases parts.len(),
{
    if parts.len() > 1 {
        lemma_joined_not_empty(parts.drop_last(), sep);
    }
}

/// No word is empty.
pub proof fn lemma_words_not_empty(s: Seq<char>)
    ensures
        forall|i: int| 0 <= i < text::words(s).len() ==> (#[trigger] text::words(s)[i]).len() > 0,
    decreases s.len(),
{
    let t = text::trimmed_start(s);
    text::lemma_trimmed_start_len(s);
    if t.len() > 0 {
        text::lemma_word_len_bound(t);
        let n = text::word_len(t) as int;
        lemma_words_not_empty(t.skip(n));
        assert(t.take(n).len() == n);
        assert forall|i: int| 0 <= i < text::words(s).len() implies (#[trigger] text::words(
            s,
        )[i]).len() > 0 by {
            if i > 0 {
                assert(text::words(s)[i] == text::words(t.skip(n))[i - 1]);
            }
        }
    }
}

/// The Wi-Fi, from the output of `caw status`, `None` when it could not be run
/// or failed.
pub fn wifi(status: Option<&str>) -> (w: Wifi)
    ensures
        w@ == match status {
            Some(s) => wifi_of(s@),
            None => WifiView::Unavailable,
        },
{
    let status = match status {
        Some(s) => s,
        None => return Wifi::Unavailable,
    };
    let lines = text::split_lines(status);
    let ghost all = text::views(lines@);
    let mut state = String::new();
    let mut network = String::new();
    let mut has_state = false;
    let mut has_network = false;
    let mut i: usize = 0;
    while i < lines.len()
        invariant
            i <= lines@.len(),
            all == text::views(lines@),
            has_state == (field(all.take(i as int), "state"@).len() > 0),
            has_state ==> state@ == field(all.take(i as int), "state"@)[0],
            !has_state ==> state@.len() == 0,
            has_network == (field(all.take(i as int), "network"@).len() > 0),
            has_network ==> network@ == text::joined(
                field(all.take(i as int), "network"@),
                seq![' '],
            ) && network@.len() > 0,
            !has_network ==> network@.len() == 0,
        decreases lines@.len() - i,
    {
        let w = text::split_words(lines[i].as_str());
        let ghost next = all.take(i + 1);
        proof {
            assert(next.drop_last() == all.take(i as int));
            assert(next.last() == lines@[i as int]@);
            lemma_words_not_empty(lines@[i as int]@);
            assert(text::views(w@) == text::words(next.last()));
            reveal_strlit("state");
            reveal_strlit("network");
            reveal_strlit(" ");
            assert(" "@ == seq![' ']);
            assert("state"@.len() != "network"@.len());
        }
        if w.len() >= 2 {
            assert(w@[0]@ == text::views(w@)[0]);
            assert(w@[1]@ == text::views(w@)[1]);
            if text::same(w[0].as_str(), "state") {
                state = w[1].clone();
                has_state = true;
            } else if text::same(w[0].as_str(), "network") {
                proof {
                    let values = text::views(w@).skip(1);
                    assert(values[0] == text::words(next.last())[1]);
                    lemma_joined_not_empty(values, seq![' ']);
                }
                network = text::join_from(&w, 1, " ");
                has_network = true;
            }
        }
        i += 1;
    }
    assert(all.take(all.len() as int) == all);
    proof {
        reveal_strlit("connected");
    }
    if text::eq_ignore_case(state.as_str(), "connected") && !network.as_str().is_empty() {
        Wifi::Connected(network)
    } else {
        Wifi::Disconnected
    }
}

// ---------------------------------------------------------------------------
// What holds of every reading
// ---------------------------------------------------------------------------
/// The battery has the percentage that its file says, and there is none exactly
/// if that says no number; white space around either file does not matter.
pub proof fn law_battery_percent(capacity: Seq<char>, status: Seq<char>, n: u32)
    ensures
        battery_of(Some(capacity), status) is Some <==> text::number(
            text::trimmed(capacity),
            10,
            u32::MAX as nat,
        ) is Some,
        text::trimmed(capacity) == text::decimal(n as nat) ==> (battery_of(Some(capacity), status)
            matches Some(b) && b.percent == n),
        battery_of(None, status) is None,
        battery_of(Some(text::trimmed(capacity)), text::trimmed(status)) == battery_of(
            Some(capacity),
            status,
        ),
{
    text::law_number(n as nat, capacity, 10, u32::MAX as nat);
    text::law_trimmed(capacity);
    text::law_trimmed(status);
}

/// The battery fills exactly if its status says so, and is full exactly if it
/// says so or does not charge at 95 percent and more; it is never both, and the
/// percentage does not depend on it.
pub proof fn law_battery_status(capacity: Seq<char>, status: Seq<char>, other: Seq<char>)
    requires
        battery_of(Some(capacity), status) is Some,
    ensures
        ({
            let b = battery_of(Some(capacity), status).unwrap();
            let s = text::trimmed(status);
            &&& b.charging <==> s == "Charging"@
            &&& b.full ==> s == "Full"@ || s == "Not charging"@
            &&& s == "Full"@ ==> b.full
            &&& s == "Not charging"@ ==> (b.full <==> b.percent >= 95)
            &&& !(b.charging && b.full)
            &&& battery_of(Some(capacity), other) matches Some(o) && o.percent == b.percent
        }),
{
    reveal_strlit("Charging");
    reveal_strlit("Full");
    reveal_strlit("Not charging");
    assert("Charging"@.len() == 8 && "Full"@.len() == 4 && "Not charging"@.len() == 12);
}

/// The line gives the field a value: it has two words at least, and the first
/// is the field.
pub open spec fn gives(line: Seq<char>, key: Seq<char>) -> bool {
    text::words(line).len() >= 2 && text::words(line)[0] == key
}

/// The last line that gives a field its value is the one that counts, with all
/// of its words but the first; a field that no line gives has no value.
pub proof fn law_last_line_counts(lines: Seq<Seq<char>>, key: Seq<char>, i: int)
    ensures
        0 <= i < lines.len() && gives(lines[i], key) && (forall|j: int|
            i < j < lines.len() ==> !gives(#[trigger] lines[j], key)) ==> field(lines, key)
            == text::words(lines[i]).skip(1),
        (forall|j: int| 0 <= j < lines.len() ==> !gives(#[trigger] lines[j], key)) ==> field(
            lines,
            key,
        ).len() == 0,
    decreases lines.len(),
{
    if lines.len() > 0 {
        let front = lines.drop_last();
        law_last_line_counts(front, key, i);
        assert forall|j: int| 0 <= j < front.len() implies #[trigger] front[j] == lines[j] by {}
        assert(lines[lines.len() - 1] == lines.last());
    }
}

/// The Wi-Fi is connected exactly if the last line of a state says "connected",
/// in any case, and some line names a network; it is then called by all the
/// words of the last such line.
pub proof fn law_wifi(status: Seq<char>, i: int, k: int)
    requires
        ({
            let ls = text::lines(status);
            &&& 0 <= i < ls.len() && gives(ls[i], "state"@) && forall|j: int|
                i < j < ls.len() ==> !gives(#[trigger] ls[j], "state"@)
            &&& 0 <= k < ls.len() && gives(ls[k], "network"@) && forall|j: int|
                k < j < ls.len() ==> !gives(#[trigger] ls[j], "network"@)
        }),
    ensures
        wifi_of(status) == if text::same_ignoring_case(
            text::words(text::lines(status)[i])[1],
            "connected"@,
        ) {
            WifiView::Connected(text::joined(text::words(text::lines(status)[k]).skip(1), " "@))
        } else {
            WifiView::Disconnected
        },
{
    reveal_strlit(" ");
    assert(" "@ =~= seq![' ']);
    let ls = text::lines(status);
    law_last_line_counts(ls, "state"@, i);
    law_last_line_counts(ls, "network"@, k);
}

/// Without a line of a state, or without one of a network, nothing is
/// connected.
pub proof fn law_wifi_needs_both(status: Seq<char>, key: Seq<char>)
    requires
        key == "state"@ || key == "network"@,
        forall|j: int|
            0 <= j < text::lines(status).len() ==> !gives(#[trigger] text::lines(status)[j], key),
    ensures
        wifi_of(status) is Disconnected,
{
    law_last_line_counts(text::lines(status), key, 0);
}

/// The Wi-Fi cannot be had exactly if its status could not.
pub proof fn law_wifi_unavailable(status: Option<&str>, w: Wifi)
    requires
        call_ensures(wifi, (status,), w),
    ensures
        w@ is Unavailable <==> status is None,
        status matches Some(s) ==> w@ == wifi_of(s@),
{
}

} // verus!
