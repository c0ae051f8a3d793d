//! The reconciliation engine: from watch events to the minimal insert / remove
//! diff against the set of addresses already handed downstream.
use vstd::prelude::*;

use crate::address::{Address, AddressSet};
use crate::config::{Port, PortSpec};
use crate::revision::{extract_ready_endpoints, ready_addresses, Revision, RevisionView};

verus! {

/// An event of the watch on the workload's endpoint objects.
#[derive(Clone, Debug)]
pub enum WatchEvent {
    /// An object was created or changed.
    Apply(Revision),
    /// An object was listed while the watch (re)started.
    InitApply(Revision),
    /// An object was deleted; the revision is its last state.
    Delete(Revision),
    /// A (re)start of the watch begins.
    Init,
    /// A (re)start of the watch is complete.
    InitDone,
}

/// The mathematical value of a [`WatchEvent`].
pub enum EventView {
    Apply(RevisionView),
    InitApply(RevisionView),
    Delete(RevisionView),
    Init,
    InitDone,
}

impl View for WatchEvent {
    type V = EventView;

    open spec fn view(&self) -> EventView {
        match self {
            WatchEvent::Apply(r) => EventView::Apply(r@),
            WatchEvent::InitApply(r) => EventView::InitApply(r@),
            WatchEvent::Delete(r) => EventView::Delete(r@),
            WatchEvent::Init => EventView::Init,
            WatchEvent::InitDone => EventView::InitDone,
        }
    }
}

/// One unit of the diff sent downstream.
#[derive(Clone, Copy, Debug, PartialEq, Eq, Structural)]
pub enum EndpointAction {
    Insert(Address),
    Remove(Address),
}

/// The ready addresses that `ev` reports on `port` (none for a marker).
pub open spec fn event_addresses(ev: EventView, port: PortSpec) -> Set<Address> {
    match ev {
        EventView::Apply(r) => ready_addresses(r, port),
        EventView::InitApply(r) => ready_addresses(r, port),
        EventView::Delete(r) => ready_addresses(r, port),
        _ => Set::empty(),
    }
}

/// Whether `ev` adds addresses: an apply of either kind.
pub open spec fn is_upsert(ev: EventView) -> bool {
    ev is Apply || ev is InitApply
}

/// The known set after `ev`: an apply adds the addresses it reports, a
/// delete takes them away, a marker changes nothing.
pub open spec fn next_known(known: Set<Address>, ev: EventView, port: PortSpec) -> Set<Address> {
    if is_upsert(ev) {
        known.union(event_addresses(ev, port))
    } else if ev is Delete {
        known.difference(event_addresses(ev, port))
    } else {
        known
    }
}

/// The actions owed for `ev` against `known`: an insert for each reported
/// address not yet known, a remove for each deleted address still known.
pub open spec fn owed_actions(known: Set<Address>, ev: EventView, port: PortSpec) -> Set<
    EndpointAction,
> {
    Set::new(
        |act: EndpointAction|
            match act {
                EndpointAction::Insert(a) => is_upsert(ev) && event_addresses(ev, port).contains(a)
                    && !known.contains(a),
                EndpointAction::Remove(a) => ev is Delete && event_addresses(ev, port).contains(a)
                    && known.contains(a),
            },
    )
}

proof fn lemma_push_contains<A>(s: Seq<A>, x: A, y: A)
    ensures
        s.push(x).contains(y) <==> (s.contains(y) || y == x),
{
    if s.push(x).contains(y) {
        let k = choose|k: int| 0 <= k < s.len() + 1 && s.push(x)[k] == y;
        if k < s.len() {
            assert(s[k] == y);
        }
    }
    if s.contains(y) {
        let k = choose|k: int| 0 <= k < s.len() && s[k] == y;
        assert(s.push(x)[k] == y);
    }
    assert(s.push(x)[s.len() as int] == x);
}

/// Applies `event` to `known` and returns the actions that bring a consumer
/// that saw the old set up to date: each owed action once, in no promised
/// order.
pub fn process_event(event: &WatchEvent, known: &mut AddressSet, port: &Port) -> (actions: Vec<
    EndpointAction,
>)
    requires
        old(known).wf(),
    ensures
        final(known).wf(),
        final(known)@ == next_known(old(known)@, event@, port@),
        actions@.no_duplicates(),
        actions@.to_set() == owed_actions(old(known)@, event@, port@),
{
    let ghost start = known@;
    match event {
        WatchEvent::Apply(slice) | WatchEvent::InitApply(slice) => {
            let current = extract_ready_endpoints(slice, port);
            let addrs = current.addresses();
            let mut actions: Vec<EndpointAction> = Vec::new();
            let mut i: usize = 0;
            while i < addrs.len()
                invariant
                    known.wf(),
                    i <= addrs@.len(),
                    addrs@.no_duplicates(),
                    addrs@.to_set() == event_addresses(event@, port@),
                    is_upsert(event@),
                    known@ == start.union(addrs@.subrange(0, i as int).to_set()),
                    actions@.no_duplicates(),
                    forall|act: EndpointAction| #[trigger]
                        actions@.contains(act) <==> (act matches EndpointAction::Insert(a)
                            && addrs@.subrange(0, i as int).contains(a) && !start.contains(a)),
                decreases addrs@.len() - i,
            {
                let a = addrs[i];
                let ghost before = actions@;
                let ghost seen = addrs@.subrange(0, i as int);
                assert(addrs@.subrange(0, i + 1) == seen.push(a));
                proof {
                    seen.lemma_push_to_set_commute(a);
                }
                let added = known.insert(a);
                if added {
                    actions.push(EndpointAction::Insert(a));
                    proof {
                        assert forall|j: int, k: int|
                            0 <= j < k < actions@.len() implies actions@[j] != actions@[k] by {
                            if k == before.len() {
                                assert(before.contains(before[j]));
                            }
                        }
                    }
                }
                assert(known@ =~= start.union(addrs@.subrange(0, i + 1).to_set()));
                proof {
                    assert(!seen.contains(a)) by {
                        if seen.contains(a) {
                            let k = choose|k: int| 0 <= k < seen.len() && seen[k] == a;
                            assert(addrs@[k] == addrs@[i as int]);
                        }
                    }
                    assert forall|act: EndpointAction| #[trigger]
                        actions@.contains(act) <==> (act matches EndpointAction::Insert(b)
                            && seen.push(a).contains(b) && !start.contains(b)) by {
                        match act {
                            EndpointAction::Insert(b) => {
                                lemma_push_contains(seen, a, b);
                                if added {
                                    lemma_push_contains(before, EndpointAction::Insert(a), act);
                                }
                            },
                            _ => {
                                if added {
                                    lemma_push_contains(before, EndpointAction::Insert(a), act);
                                }
                            },
                        }
                    }
                }
                i = i + 1;
            }
            assert(addrs@.subrange(0, addrs@.len() as int) == addrs@);
            assert(known@ =~= next_known(start, event@, port@));
            assert(actions@.to_set() =~= owed_actions(start, event@, port@));
            actions
        },
        WatchEvent::Delete(slice) => {
            let removed = extract_ready_endpoints(slice, port);
            let addrs = removed.addresses();
            let mut actions: Vec<EndpointAction> = Vec::new();
            let mut i: usize = 0;
            while i < addrs.len()
                invariant
                    known.wf(),
                    i <= addrs@.len(),
                    addrs@.no_duplicates(),
                    addrs@.to_set() == event_addresses(event@, port@),
                    event@ is Delete,
                    known@ == start.difference(addrs@.subrange(0, i as int).to_set()),
                    actions@.no_duplicates(),
                    forall|act: EndpointAction| #[trigger]
                        actions@.contains(act) <==> (act matches EndpointAction::Remove(a)
                            && addrs@.subrange(0, i as int).contains(a) && start.contains(a)),
                decreases addrs@.len() - i,
            {
                let a = addrs[i];
                let ghost before = actions@;
                let ghost seen = addrs@.subrange(0, i as int);
                assert(addrs@.subrange(0, i + 1) == seen.push(a));
                proof {
                    seen.lemma_push_to_set_commute(a);
                }
                let added = known.remove(&a);
                if added {
                    actions.push(EndpointAction::Remove(a));
                    proof {
                        assert forall|j: int, k: int|
                            0 <= j < k < actions@.len() implies actions@[j] != actions@[k] by {
                            if k == before.len() {
                                assert(before.contains(before[j]));
                            }
                        }
                    }
                }
                assert(known@ =~= start.difference(addrs@.subrange(0, i + 1).to_set()));
                proof {
                    assert(!seen.contains(a)) by {
                        if seen.contains(a) {
                            let k = choose|k: int| 0 <= k < seen.len() && seen[k] == a;
                            assert(addrs@[k] == addrs@[i as int]);
                        }
                    }
                    assert forall|act: EndpointAction| #[trigger]
                        actions@.contains(act) <==> (act matches EndpointAction::Remove(b)
                            && seen.push(a).contains(b) && start.contains(b)) by {
                        match act {
                            EndpointAction::Remove(b) => {
                                lemma_push_contains(seen, a, b);
                                if added {
                                    lemma_push_contains(before, EndpointAction::Remove(a), act);
                                }
                            },
                            _ => {
                                if added {
                                    lemma_push_contains(before, EndpointAction::Remove(a), act);
                                }
                            },
                        }
                    }
                }
                i = i + 1;
            }
            assert(addrs@.subrange(0, addrs@.len() as int) == addrs@);
            assert(known@ =~= next_known(start, event@, port@));
            assert(actions@.to_set() =~= owed_actions(start, event@, port@));
            actions
        },
        WatchEvent::Init | WatchEvent::InitDone => {
            let actions: Vec<EndpointAction> = Vec::new();
            assert(actions@.to_set() =~= owed_actions(start, event@, port@));
            actions
        },
    }
}

} // verus!

verus! {

/// Delivering the same apply event a second time changes nothing and owes no
/// action: every action comes with the first delivery.
pub proof fn lemma_apply_idempotent(known: Set<Address>, ev: EventView, port: PortSpec)
    requires
        is_upsert(ev),
    ensures
        next_known(next_known(known, ev, port), ev, port) == next_known(known, ev, port),
        owed_actions(next_known(known, ev, port), ev, port) == Set::<EndpointAction>::empty(),
{
    let once = next_known(known, ev, port);
    assert(next_known(once, ev, port) =~= once);
    assert(owed_actions(once, ev, port) =~= Set::<EndpointAction>::empty());
}

/// The known set after `events`, starting from the empty set.
pub open spec fn known_after(events: Seq<EventView>, port: PortSpec) -> Set<Address>
    decreases events.len(),
{
    if events.len() == 0 {
        Set::empty()
    } else {
        next_known(known_after(events.drop_last(), port), events.last(), port)
    }
}

/// The objects still live after `events`, where `ids[k]` names the object that
/// `events[k]` is about: each maps to the ready addresses of its latest
/// revision.
pub open spec fn live_after(ids: Seq<int>, events: Seq<EventView>, port: PortSpec) -> Map<
    int,
    Set<Address>,
>
    decreases events.len(),
{
    if events.len() == 0 {
        Map::empty()
    } else {
        let live = live_after(ids.drop_last(), events.drop_last(), port);
        let ev = events.last();
        if is_upsert(ev) {
            live.insert(ids.last(), event_addresses(ev, port))
        } else if ev is Delete {
            live.remove(ids.last())
        } else {
            live
        }
    }
}

/// The union of the address sets in `live`.
pub open spec fn union_of(live: Map<int, Set<Address>>) -> Set<Address> {
    Set::new(|a: Address| exists|id: int| live.contains_key(id) && #[trigger] live[id].contains(a))
}

/// An apply or delete of object `id` reports at least the addresses that the
/// object's live revision carries.
pub open spec fn keeps_live(live: Map<int, Set<Address>>, id: int, ev: EventView, port: PortSpec) -> bool {
    (is_upsert(ev) || ev is Delete) && live.contains_key(id) ==> live[id].subset_of(
        event_addresses(ev, port),
    )
}

proof fn lemma_live_from_events(ids: Seq<int>, events: Seq<EventView>, port: PortSpec)
    requires
        ids.len() == events.len(),
    ensures
        forall|id: int| #[trigger]
            live_after(ids, events, port).contains_key(id) ==> exists|k: int|
                0 <= k < events.len() && ids[k] == id && live_after(ids, events, port)[id]
                    == event_addresses(events[k], port),
    decreases events.len(),
{
    if events.len() > 0 {
        let pi = ids.drop_last();
        let pe = events.drop_last();
        lemma_live_from_events(pi, pe, port);
        let live = live_after(pi, pe, port);
        assert forall|id: int| #[trigger]
            live_after(ids, events, port).contains_key(id) implies exists|k: int|
                0 <= k < events.len() && ids[k] == id && live_after(ids, events, port)[id]
                    == event_addresses(events[k], port) by {
            let n = events.len() - 1;
            if id == ids[n] && is_upsert(events[n]) {
                assert(live_after(ids, events, port)[id] == event_addresses(events[n], port));
            } else {
                assert(live.contains_key(id));
                let k = choose|k: int|
                    0 <= k < pe.len() && pi[k] == id && live[id] == event_addresses(pe[k], port);
                assert(ids[k] == id && events[k] == pe[k]);
            }
        }
    }
}

/// After any run of events from an empty known set, the known set is the union
/// of the ready addresses of the latest revision of every object still live,
/// provided that distinct objects never report a common address and that no
/// apply or delete of an object drops an address its live revision carries.
pub proof fn lemma_known_is_union_of_live(ids: Seq<int>, events: Seq<EventView>, port: PortSpec)
    requires
        ids.len() == events.len(),
        forall|i: int, j: int|
            0 <= i < events.len() && 0 <= j < events.len() && ids[i] != ids[j] ==> event_addresses(
                #[trigger] events[i],
                port,
            ).disjoint(event_addresses(#[trigger] events[j], port)),
        forall|k: int|
            0 <= k < events.len() ==> keeps_live(
                live_after(ids.subrange(0, k), events.subrange(0, k), port),
                ids[k],
                #[trigger] events[k],
                port,
            ),
    ensures
        known_after(events, port) == union_of(live_after(ids, events, port)),
    decreases events.len(),
{
    if events.len() > 0 {
        let n = events.len() - 1;
        let pi = ids.drop_last();
        let pe = events.drop_last();
        assert forall|k: int| 0 <= k < pe.len() implies keeps_live(
            live_after(pi.subrange(0, k), pe.subrange(0, k), port),
            pi[k],
            #[trigger] pe[k],
            port,
        ) by {
            assert(pi.subrange(0, k) == ids.subrange(0, k));
            assert(pe.subrange(0, k) == events.subrange(0, k));
            assert(pe[k] == events[k]);
        }
        assert forall|i: int, j: int|
            0 <= i < pe.len() && 0 <= j < pe.len() && pi[i] != pi[j] implies event_addresses(
                #[trigger] pe[i],
                port,
            ).disjoint(event_addresses(#[trigger] pe[j], port)) by {
            assert(pe[i] == events[i] && pe[j] == events[j]);
        }
        lemma_known_is_union_of_live(pi, pe, port);
        let live = live_after(pi, pe, port);
        let known = known_after(pe, port);
        let x = ids[n];
        let ev = events[n];
        let s = event_addresses(ev, port);
        assert(pi == ids.subrange(0, n) && pe == events.subrange(0, n));
        assert(keeps_live(live, x, ev, port));
        if is_upsert(ev) {
            let after = live.insert(x, s);
            assert forall|a: Address| known.union(s).contains(a) <==> union_of(after).contains(a) by {
                if s.contains(a) {
                    assert(after.contains_key(x) && after[x].contains(a));
                } else if known.contains(a) {
                    let y = choose|y: int| live.contains_key(y) && #[trigger] live[y].contains(a);
                    assert(after.contains_key(y) && after[y].contains(a));
                }
                if union_of(after).contains(a) {
                    let y = choose|y: int| after.contains_key(y) && #[trigger] after[y].contains(a);
                    if y != x {
                        assert(live.contains_key(y) && live[y].contains(a));
                    }
                }
            }
            assert(known.union(s) =~= union_of(after));
        } else if ev is Delete {
            let after = live.remove(x);
            lemma_live_from_events(pi, pe, port);
            assert forall|a: Address| known.difference(s).contains(a) <==> union_of(after).contains(
                a,
            ) by {
                if known.difference(s).contains(a) {
                    let y = choose|y: int| live.contains_key(y) && #[trigger] live[y].contains(a);
                    assert(y != x);
                    assert(after.contains_key(y) && after[y].contains(a));
                }
                if union_of(after).contains(a) {
                    let y = choose|y: int| after.contains_key(y) && #[trigger] after[y].contains(a);
                    assert(live.contains_key(y) && live[y].contains(a));
                    let k = choose|k: int|
                        0 <= k < pe.len() && pi[k] == y && live[y] == event_addresses(pe[k], port);
                    assert(ids[k] != ids[n] && events[k] == pe[k]);
                    assert(event_addresses(events[k], port).disjoint(s));
                }
            }
            assert(known.difference(s) =~= union_of(after));
        }
    }
}

} // verus!
