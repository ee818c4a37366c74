//! The clock panel's notifications, from Huginn's notification centre.
//!
//! Huginn is the notification server. Beside `org.freedesktop.Notifications`
//! it serves `org.raven.Notifications` on the same object: `List` for what is
//! open and what recently closed, `Remove` and `Clear`, and a `Changed`
//! signal.
use vstd::prelude::*;

verus! {

/// How many seconds to wait before trying the session bus again.
pub const RETRY: u64 = 5;

/// One notification, as the panel shows it.
#[derive(Debug, PartialEq, Eq)]
pub struct Entry {
    pub id: u32,
    pub app_name: String,
    pub summary: String,
    /// Plain text; Huginn has already taken the markup out.
    pub body: String,
    /// Unix seconds.
    pub arrived: i64,
    /// Still open, rather than closed and kept in Huginn's history.
    pub open: bool,
}

/// An [`Entry`], with its strings by their characters.
pub struct EntryView {
    pub id: u32,
    pub app_name: Seq<char>,
    pub summary: Seq<char>,
    pub body: Seq<char>,
    pub arrived: i64,
    pub open: bool,
}

impl View for Entry {
    type V = EntryView;

    open spec fn view(&self) -> EntryView {
        EntryView {
            id: self.id,
            app_name: self.app_name@,
            summary: self.summary@,
            body: self.body@,
            arrived: self.arrived,
            open: self.open,
        }
    }
}

impl Clone for Entry {
    fn clone(&self) -> (e: Self)
        ensures
            e@ == self@,
    {
        Entry {
            id: self.id,
            app_name: self.app_name.clone(),
            summary: self.summary.clone(),
            body: self.body.clone(),
            arrived: self.arrived,
            open: self.open,
        }
    }
}

/// The notifications of a list.
pub open spec fn entry_views(es: Seq<Entry>) -> Seq<EntryView> {
    Seq::new(es.len(), |i: int| es[i]@)
}

/// One item of `List`'s reply.
#[derive(Debug)]
pub struct Listed {
    pub id: u32,
    pub app_name: String,
    pub icon: String,
    pub summary: String,
    pub body: String,
    pub arrived: i64,
    pub open: bool,
}

/// The notification that an item of the reply stands for: all of it but the
/// icon.
pub open spec fn entry_of(l: Listed) -> EntryView {
    EntryView {
        id: l.id,
        app_name: l.app_name@,
        summary: l.summary@,
        body: l.body@,
        arrived: l.arrived,
        open: l.open,
    }
}

/// The centre's list, or nothing if it could not be had.
pub fn list(reply: Option<Vec<Listed>>) -> (es: Vec<Entry>)
    ensures
        entry_views(es@) == match reply {
            Some(ls) => Seq::new(ls@.len(), |i: int| entry_of(ls@[i])),
            None => Seq::empty(),
        },
{
    let mut es: Vec<Entry> = Vec::new();
    if let Some(ls) = reply {
        let ghost all = Seq::new(ls@.len(), |i: int| entry_of(ls@[i]));
        let mut i: usize = 0;
        while i < ls.len()
            invariant
                i <= ls@.len(),
                es@.len() == i,
                all == Seq::new(ls@.len(), |i: int| entry_of(ls@[i])),
                forall|j: int| 0 <= j < i ==> #[trigger] es@[j]@ == all[j],
            decreases ls@.len() - i,
        {
            let l = &ls[i];
            es.push(
                Entry {
                    id: l.id,
                    app_name: l.app_name.clone(),
                    summary: l.summary.clone(),
                    body: l.body.clone(),
                    arrived: l.arrived,
                    open: l.open,
                },
            );
            i += 1;
        }
        assert(entry_views(es@) == all);
    } else {
        assert(entry_views(es@) == Seq::<EntryView>::empty());
    }
    es
}

fn is_same(a: &Entry, b: &Entry) -> (r: bool)
    ensures
        r == (a@ == b@),
{
    a.id == b.id && a.app_name == b.app_name && a.summary == b.summary && a.body == b.body
        && a.arrived == b.arrived && a.open == b.open
}

/// Whether two lists are the same.
pub fn same(a: &Vec<Entry>, b: &Vec<Entry>) -> (r: bool)
    ensures
        r == (entry_views(a@) == entry_views(b@)),
{
    let ghost x = entry_views(a@);
    let ghost y = entry_views(b@);
    if a.len() != b.len() {
        assert(x.len() != y.len());
        return false;
    }
    let mut i: usize = 0;
    while i < a.len()
        invariant
            i <= a@.len() == b@.len(),
            x == entry_views(a@),
            y == entry_views(b@),
            forall|j: int| 0 <= j < i ==> #[trigger] x[j] == y[j],
        decreases a@.len() - i,
    {
        if !is_same(&a[i], &b[i]) {
            assert(x[i as int] != y[i as int]);
            return false;
        }
        i += 1;
    }
    assert(x =~= y);
    true
}

/// The list without the notifications of the number `id`.
pub open spec fn without(es: Seq<EntryView>, id: u32) -> Seq<EntryView> {
    es.filter(|e: EntryView| e.id != id)
}

/// Take the notifications of the number `id` out of the list.
pub fn remove(es: &mut Vec<Entry>, id: u32)
    ensures
        entry_views(final(es)@) == without(entry_views(old(es)@), id),
{
    let ghost all = entry_views(es@);
    let ghost keeps = |e: EntryView| e.id != id;
    let mut kept: Vec<Entry> = Vec::new();
    let mut i: usize = 0;
    assert(all.take(0).filter(keeps) == Seq::<EntryView>::empty()) by {
        reveal(Seq::filter);
    }
    assert(entry_views(kept@) == Seq::<EntryView>::empty());
    while i < es.len()
        invariant
            i <= es@.len(),
            *es == *old(es),
            all == entry_views(es@),
            keeps == (|e: EntryView| e.id != id),
            entry_views(kept@) == all.take(i as int).filter(keeps),
        decreases es@.len() - i,
    {
        let ghost before = entry_views(kept@);
        proof {
            reveal(Seq::filter);
            assert(all.take(i + 1).drop_last() == all.take(i as int));
        }
        if es[i].id != id {
            kept.push(es[i].clone());
            assert(entry_views(kept@) == before.push(all[i as int]));
        }
        i += 1;
    }
    assert(all.take(es@.len() as int) == all);
    *es = kept;
}

/// What a thread that follows the centre has come to.
#[derive(Clone, Copy, PartialEq, Eq, Debug, Structural)]
pub enum Event {
    /// There is no session bus, or no centre on it.
    Unreachable,
    /// It hears of changes from now on.
    Subscribed,
    /// The list changed.
    Changed,
    /// It was handed to the bar, or the bar's loop is gone.
    Sent { heard: bool },
    /// The bus is gone.
    Ended,
}

/// What it does next.
#[derive(Clone, Copy, PartialEq, Eq, Debug, Structural)]
pub enum Step {
    /// Let go of the bus, wait [`RETRY`] seconds, and connect again.
    Reconnect,
    /// Share the bus with the clicks, then send the list.
    ShareAndSend,
    /// Send the list.
    Send,
    /// Wait for the next change.
    Wait,
    /// Return.
    Stop,
}

/// Send a list now and after every change, reconnecting when the bus goes.
/// The subscription comes before the first list, so that a change in between
/// is not missed.
pub fn follow(event: Event) -> (step: Step)
    ensures
        step == match event {
            Event::Unreachable | Event::Ended => Step::Reconnect,
            Event::Subscribed => Step::ShareAndSend,
            Event::Changed => Step::Send,
            Event::Sent { heard: true } => Step::Wait,
            Event::Sent { heard: false } => Step::Stop,
        },
{
    match event {
        Event::Unreachable | Event::Ended => Step::Reconnect,
        Event::Subscribed => Step::ShareAndSend,
        Event::Changed => Step::Send,
        Event::Sent { heard } => if heard {
            Step::Wait
        } else {
            Step::Stop
        },
    }
}

/// A removed notification is gone, every other one stays, and removing it
/// again changes nothing.
pub proof fn law_removed_is_gone(es: Seq<EntryView>, id: u32)
    ensures
        forall|i: int| 0 <= i < without(es, id).len() ==> (#[trigger] without(es, id)[i]).id != id,
        forall|e: EntryView| e.id != id ==> (#[trigger] without(es, id).contains(e) <==> es.contains(
            e,
        )),
        without(without(es, id), id) == without(es, id),
        without(es, id).len() <= es.len(),
    decreases es.len(),
{
    reveal(Seq::filter);
    if es.len() > 0 {
        let front = es.drop_last();
        law_removed_is_gone(front, id);
        let kept = without(front, id);
        let last = es.last();
        assert forall|e: EntryView| e.id != id implies (#[trigger] without(es, id).contains(e)
            <==> es.contains(e)) by {
            if es.contains(e) {
                let i = es.index_of(e);
                if i < es.len() - 1 {
                    assert(front[i] == e);
                    assert(kept.contains(e));
                    let j = kept.index_of(e);
                    assert(without(es, id)[j] == e);
                } else {
                    assert(without(es, id).last() == e);
                }
            }
            if without(es, id).contains(e) {
                let i = without(es, id).index_of(e);
                if i < kept.len() {
                    assert(kept[i] == e);
                    assert(kept.contains(e));
                    assert(front.contains(e));
                    assert(es[front.index_of(e)] == e);
                } else {
                    assert(es[es.len() - 1] == e);
                }
            }
        }
        if last.id != id {
            assert(without(es, id) == kept.push(last));
            assert(kept.push(last).drop_last() == kept);
        }
    }
}

/// The rest keeps its order: what is left of two lists is what is left of the
/// one and then of the other, and of a single notification it is itself or
/// nothing.
pub proof fn law_removal_keeps_order(a: Seq<EntryView>, b: Seq<EntryView>, e: EntryView, id: u32)
    ensures
        without(a + b, id) == without(a, id) + without(b, id),
        without(seq![e], id) == if e.id == id {
            Seq::<EntryView>::empty()
        } else {
            seq![e]
        },
    decreases b.len(),
{
    reveal(Seq::filter);
    let keeps = |e: EntryView| e.id != id;
    assert(seq![e].drop_last() =~= Seq::<EntryView>::empty());
    assert(seq![e].last() == e);
    assert(Seq::<EntryView>::empty().filter(keeps) =~= Seq::<EntryView>::empty());
    assert(without(seq![e], id) =~= if e.id == id {
        Seq::<EntryView>::empty()
    } else {
        seq![e]
    });
    if b.len() == 0 {
        assert(a + b =~= a);
        assert(b.filter(keeps) =~= Seq::<EntryView>::empty());
        assert(without(a, id) + without(b, id) =~= without(a, id));
    } else {
        law_removal_keeps_order(a, b.drop_last(), e, id);
        assert((a + b).drop_last() =~= a + b.drop_last());
        assert((a + b).last() == b.last());
        assert(without(a + b, id) =~= without(a, id) + without(b, id));
    }
}

/// The list has every item of the reply, in its order and with all that it
/// says but the icon; without a reply it is empty.
pub proof fn law_list(reply: Option<Vec<Listed>>, es: Vec<Entry>)
    requires
        call_ensures(list, (reply,), es),
    ensures
        reply is None ==> es@.len() == 0,
        reply matches Some(ls) ==> es@.len() == ls@.len() && forall|i: int|
            0 <= i < ls@.len() ==> {
                let e = #[trigger] es@[i];
                let l = ls@[i];
                &&& e.id == l.id && e.arrived == l.arrived && e.open == l.open
                &&& e.app_name@ == l.app_name@ && e.summary@ == l.summary@ && e.body@ == l.body@
            },
{
    let views = entry_views(es@);
    assert(views.len() == es@.len());
    if let Some(ls) = reply {
        assert forall|i: int| 0 <= i < ls@.len() implies {
            let e = #[trigger] es@[i];
            let l = ls@[i];
            &&& e.id == l.id && e.arrived == l.arrived && e.open == l.open
            &&& e.app_name@ == l.app_name@ && e.summary@ == l.summary@ && e.body@ == l.body@
        } by {
            assert(views[i] == es@[i]@);
            assert(views[i] == entry_of(ls@[i]));
        }
    }
}

/// Two lists are the same exactly if they are in every field of every
/// notification.
pub proof fn law_same(a: &Vec<Entry>, b: &Vec<Entry>, r: bool)
    requires
        call_ensures(same, (a, b), r),
    ensures
        r <==> a@.len() == b@.len() && forall|i: int|
            0 <= i < a@.len() ==> {
                let x = #[trigger] a@[i];
                let y = b@[i];
                &&& x.id == y.id && x.arrived == y.arrived && x.open == y.open
                &&& x.app_name@ == y.app_name@ && x.summary@ == y.summary@ && x.body@ == y.body@
            },
{
    let x = entry_views(a@);
    let y = entry_views(b@);
    assert(x.len() == a@.len() && y.len() == b@.len());
    if r {
        assert forall|i: int| 0 <= i < a@.len() implies (#[trigger] a@[i])@ == b@[i]@ by {
            assert(x[i] == y[i]);
        }
    } else if a@.len() == b@.len() && forall|i: int|
        0 <= i < a@.len() ==> {
            let x = #[trigger] a@[i];
            let y = b@[i];
            &&& x.id == y.id && x.arrived == y.arrived && x.open == y.open
            &&& x.app_name@ == y.app_name@ && x.summary@ == y.summary@ && x.body@ == y.body@
        } {
        assert forall|i: int| 0 <= i < a@.len() implies x[i] == y[i] by {
            assert(a@[i]@ == b@[i]@);
        }
        assert(x =~= y);
    }
}

/// The list is sent once after every subscription and every change and never
/// otherwise; a bus that is not there or goes is tried again, and the thread
/// ends only when nobody listens.
pub proof fn law_follow(event: Event, step: Step)
    requires
        call_ensures(follow, (event,), step),
    ensures
        step is Stop <==> event == (Event::Sent { heard: false }),
        step is Wait <==> event == (Event::Sent { heard: true }),
        step is ShareAndSend <==> event is Subscribed,
        step is Send <==> event is Changed,
        step is Reconnect <==> event is Unreachable || event is Ended,
{
}

/// What is taken out of the list is every notification of the number and no
/// other: each that is left was there, and each of another number is left.
pub proof fn law_remove(es: &mut Vec<Entry>, id: u32, e: EntryView)
    requires
        call_ensures(remove, (es, id), ()),
    ensures
        entry_views(final(es)@).contains(e) <==> entry_views(old(es)@).contains(e) && e.id != id,
{
    let keeps = |e: EntryView| e.id != id;
    let all = entry_views(old(es)@);
    let left = all.filter(keeps);
    if left.contains(e) {
        let k = choose|k: int| 0 <= k < left.len() && left[k] == e;
        all.lemma_filter_contains_rev(keeps, e);
        all.lemma_filter_pred(keeps, k);
    }
    if all.contains(e) && e.id != id {
        let k = choose|k: int| 0 <= k < all.len() && all[k] == e;
        all.lemma_filter_contains(keeps, k);
    }
}

} // verus!
