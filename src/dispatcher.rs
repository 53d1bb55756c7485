use vstd::prelude::*;
use crate::peers::{addrs_view, copy_bytes, ExplicitPeerSet, PeerAddr};
use crate::record::{RecordView, User};
use crate::store::RecordStore;

verus! {

/// A gossip delivery as the pub/sub engine hands it over, with the outcome
/// of decoding its payload into a record.
pub struct InboundMessage {
    /// The peer that forwarded the message.
    pub source: PeerAddr,
    /// The raw payload bytes.
    pub data: Vec<u8>,
    /// Whether the signature was verified against the claimed sender.
    pub authenticated: bool,
    /// The record the payload decodes to, if it decodes.
    pub decoded: Option<User>,
}

/// One event of the merged event source.
pub enum NodeEvent {
    /// The network listener reports a bound address (its text).
    ListenerBound(String),
    /// Local discovery found these peers.
    Discovered(Vec<PeerAddr>),
    /// Local discovery lost these peers.
    Expired(Vec<PeerAddr>),
    /// A message arrived on the topic.
    Gossip(InboundMessage),
}

/// What the surrounding node must do after an event.
pub enum Action {
    /// Report the bound listener address.
    ReportListening(String),
    /// Force the peer into the mesh view of the pub/sub engine.
    AddExplicitPeer(PeerAddr),
    /// Drop the peer from the mesh view of the pub/sub engine.
    RemoveExplicitPeer(PeerAddr),
    /// Write the whole record store back to its file.
    PersistStore,
    /// A message without a valid signature was dropped.
    DropUnauthenticated,
    /// A message whose payload is not a record was dropped.
    DropUndecodable,
}

/// Lifecycle of the dispatcher.
#[derive(PartialEq, Eq, Structural, Clone, Copy, Debug)]
pub enum Phase {
    Bootstrapping,
    Listening,
    Running,
}

pub ghost enum EventView {
    Listener(Seq<char>),
    Discovered(Seq<Seq<u8>>),
    Expired(Seq<Seq<u8>>),
    Gossip { authenticated: bool, decoded: Option<RecordView> },
}

pub ghost enum ActionView {
    ReportListening(Seq<char>),
    AddExplicitPeer(Seq<u8>),
    RemoveExplicitPeer(Seq<u8>),
    PersistStore,
    DropUnauthenticated,
    DropUndecodable,
}

impl View for NodeEvent {
    type V = EventView;

    open spec fn view(&self) -> EventView {
        match self {
            NodeEvent::ListenerBound(a) => EventView::Listener(a@),
            NodeEvent::Discovered(ps) => EventView::Discovered(addrs_view(ps@)),
            NodeEvent::Expired(ps) => EventView::Expired(addrs_view(ps@)),
            NodeEvent::Gossip(m) => EventView::Gossip {
                authenticated: m.authenticated,
                decoded: match m.decoded {
                    Some(u) => Some(u@),
                    None => None,
                },
            },
        }
    }
}

impl View for Action {
    type V = ActionView;

    open spec fn view(&self) -> ActionView {
        match self {
            Action::ReportListening(a) => ActionView::ReportListening(a@),
            Action::AddExplicitPeer(p) => ActionView::AddExplicitPeer(p@),
            Action::RemoveExplicitPeer(p) => ActionView::RemoveExplicitPeer(p@),
            Action::PersistStore => ActionView::PersistStore,
            Action::DropUnauthenticated => ActionView::DropUnauthenticated,
            Action::DropUndecodable => ActionView::DropUndecodable,
        }
    }
}

/// The actions of a list, as mathematical values.
pub open spec fn actions_view(acts: Seq<Action>) -> Seq<ActionView> {
    acts.map_values(|a: Action| a@)
}

/// The state of the dispatcher as a mathematical value.
pub ghost struct DispatcherView {
    pub phase: Phase,
    pub peers: Set<Seq<u8>>,
    pub records: Seq<RecordView>,
}

/// Phase after an event: a bound listener ends bootstrapping, and the first
/// other event after that starts the running phase.
pub open spec fn phase_after(p: Phase, e: EventView) -> Phase {
    match e {
        EventView::Listener(_) => if p == Phase::Bootstrapping { Phase::Listening } else { p },
        _ => if p == Phase::Listening { Phase::Running } else { p },
    }
}

/// Explicit peers after an event: discovered ones join, expired ones leave.
pub open spec fn peers_after(s: Set<Seq<u8>>, e: EventView) -> Set<Seq<u8>> {
    match e {
        EventView::Discovered(ps) => s.union(ps.to_set()),
        EventView::Expired(ps) => s.difference(ps.to_set()),
        _ => s,
    }
}

/// Whether an event is a signed delivery whose payload decodes to a record.
pub open spec fn is_accepted_delivery(e: EventView) -> bool {
    e matches EventView::Gossip { authenticated: true, decoded: Some(_) }
}

/// The record that an accepted delivery carries.
pub open spec fn delivered_record(e: EventView) -> RecordView
    recommends
        is_accepted_delivery(e),
{
    match e {
        EventView::Gossip { decoded: Some(r), .. } => r,
        _ => arbitrary(),
    }
}

/// Records after an event: only an accepted delivery appends, at the end.
pub open spec fn records_after(rs: Seq<RecordView>, e: EventView) -> Seq<RecordView> {
    if is_accepted_delivery(e) {
        rs.push(delivered_record(e))
    } else {
        rs
    }
}

/// What the node is asked to do after an event.
pub open spec fn actions_for(e: EventView) -> Seq<ActionView> {
    match e {
        EventView::Listener(a) => seq![ActionView::ReportListening(a)],
        EventView::Discovered(ps) => ps.map_values(|p: Seq<u8>| ActionView::AddExplicitPeer(p)),
        EventView::Expired(ps) => ps.map_values(|p: Seq<u8>| ActionView::RemoveExplicitPeer(p)),
        EventView::Gossip { authenticated, decoded } => if !authenticated {
            seq![ActionView::DropUnauthenticated]
        } else if decoded is None {
            seq![ActionView::DropUndecodable]
        } else {
            seq![ActionView::PersistStore]
        },
    }
}

/// The dispatcher's state after one event.
pub open spec fn dispatch_after(d: DispatcherView, e: EventView) -> DispatcherView {
    DispatcherView {
        phase: phase_after(d.phase, e),
        peers: peers_after(d.peers, e),
        records: records_after(d.records, e),
    }
}

/// The dispatcher's state after a sequence of events, handled in order.
pub open spec fn dispatch_all(d: DispatcherView, es: Seq<EventView>) -> DispatcherView
    decreases es.len(),
{
    if es.len() == 0 {
        d
    } else {
        dispatch_after(dispatch_all(d, es.drop_last()), es.last())
    }
}

/// Discovering a peer a second time leaves the explicit-peer set as the first
/// discovery left it; its expiry then removes it, and a second expiry of the
/// same peer changes nothing.
pub proof fn lemma_peer_set_idempotent(d: DispatcherView, p: Seq<u8>)
    ensures
        ({
            let d1 = dispatch_after(d, EventView::Discovered(seq![p]));
            let d2 = dispatch_after(d1, EventView::Discovered(seq![p]));
            let d3 = dispatch_after(d2, EventView::Expired(seq![p]));
            let d4 = dispatch_after(d3, EventView::Expired(seq![p]));
            &&& d1.peers == d.peers.insert(p)
            &&& d2.peers == d1.peers
            &&& d3.peers == d1.peers.remove(p)
            &&& !d3.peers.contains(p)
            &&& d4.peers == d3.peers
        }),
{
    let one = seq![p];
    assert(one.to_set() =~= Set::empty().insert(p)) by {
        assert(one[0] == p);
    }
    let d1 = dispatch_after(d, EventView::Discovered(one));
    let d2 = dispatch_after(d1, EventView::Discovered(one));
    let d3 = dispatch_after(d2, EventView::Expired(one));
    let d4 = dispatch_after(d3, EventView::Expired(one));
    assert(d1.peers =~= d.peers.insert(p));
    assert(d2.peers =~= d1.peers);
    assert(d3.peers =~= d1.peers.remove(p));
    assert(d4.peers =~= d3.peers);
}

/// A delivery whose signature was not verified never reaches the record
/// store, whatever its payload decodes to.
pub proof fn lemma_unauthenticated_not_stored(d: DispatcherView, decoded: Option<RecordView>)
    ensures
        dispatch_after(d, EventView::Gossip { authenticated: false, decoded }).records
            == d.records,
        dispatch_after(d, EventView::Gossip { authenticated: false, decoded }).records.len()
            == d.records.len(),
{
}

/// Accepted deliveries are appended to the store in the order in which they
/// are handled.
pub proof fn lemma_append_ordering(d: DispatcherView, es: Seq<EventView>)
    requires
        forall|k: int| 0 <= k < es.len() ==> is_accepted_delivery(#[trigger] es[k]),
    ensures
        dispatch_all(d, es).records
            == d.records + es.map_values(|e: EventView| delivered_record(e)),
    decreases es.len(),
{
    let f = |e: EventView| delivered_record(e);
    if es.len() == 0 {
        assert(d.records + es.map_values(f) =~= d.records);
    } else {
        let init = es.drop_last();
        assert forall|k: int| 0 <= k < init.len() implies is_accepted_delivery(#[trigger] init[k]) by {
            assert(init[k] == es[k]);
        }
        lemma_append_ordering(d, init);
        assert(is_accepted_delivery(es[es.len() - 1]));
        assert(d.records + es.map_values(f) =~= (d.records + init.map_values(f)).push(
            delivered_record(es.last()),
        ));
    }
}

/// The single event loop's decisions: it owns the explicit-peer set and the
/// record store, and handles one event to completion at a time.
pub struct Dispatcher {
    phase: Phase,
    peers: ExplicitPeerSet,
    store: RecordStore,
}

impl View for Dispatcher {
    type V = DispatcherView;

    closed spec fn view(&self) -> DispatcherView {
        DispatcherView { phase: self.phase, peers: self.peers@, records: self.store@ }
    }
}

proof fn lemma_take_push_to_set(ps: Seq<Seq<u8>>, i: int)
    requires
        0 <= i < ps.len(),
    ensures
        ps.take(i + 1).to_set() == ps.take(i).to_set().insert(ps[i]),
{
    let a = ps.take(i + 1);
    let b = ps.take(i);
    assert forall|x: Seq<u8>| a.contains(x) <==> b.to_set().insert(ps[i]).contains(x) by {
        if a.contains(x) {
            let j = choose|j: int| 0 <= j < a.len() && a[j] == x;
            if j < i {
                assert(b[j] == x);
            }
        }
        if b.contains(x) {
            let j = choose|j: int| 0 <= j < b.len() && b[j] == x;
            assert(a[j] == x);
        }
        if x == ps[i] {
            assert(a[i] == x);
        }
    }
    assert(a.to_set() =~= b.to_set().insert(ps[i]));
}

impl Dispatcher {
    /// Well-formedness of the owned peer set.
    pub closed spec fn wf(&self) -> bool {
        self.peers.wf()
    }

    /// A dispatcher at start-up, over the store that bootstrap prepared.
    pub fn new(store: RecordStore) -> (r: Dispatcher)
        ensures
            r.wf(),
            r@ == (DispatcherView {
                phase: Phase::Bootstrapping,
                peers: Set::empty(),
                records: store@,
            }),
    {
        Dispatcher { phase: Phase::Bootstrapping, peers: ExplicitPeerSet::new(), store }
    }

    /// The current phase.
    pub fn phase(&self) -> (r: Phase)
        ensures
            r == self@.phase,
    {
        self.phase
    }

    /// The explicit-peer set.
    pub fn peers(&self) -> (r: &ExplicitPeerSet)
        requires
            self.wf(),
        ensures
            r.wf(),
            r@ == self@.peers,
    {
        &self.peers
    }

    /// The record store.
    pub fn store(&self) -> (r: &RecordStore)
        ensures
            r@ == self@.records,
    {
        &self.store
    }

    /// Handles one event to completion and says what the node must do.
    pub fn handle(&mut self, event: NodeEvent) -> (actions: Vec<Action>)
        requires
            old(self).wf(),
        ensures
            final(self).wf(),
            final(self)@ == dispatch_after(old(self)@, event@),
            actions_view(actions@) == actions_for(event@),
    {
        let ghost ev = event@;
        let mut actions: Vec<Action> = Vec::new();
        let is_listener = match &event {
            NodeEvent::ListenerBound(_) => true,
            _ => false,
        };
        if is_listener {
            if self.phase == Phase::Bootstrapping {
                self.phase = Phase::Listening;
            }
        } else if self.phase == Phase::Listening {
            self.phase = Phase::Running;
        }
        let ghost ph = self.phase;
        let ghost st = self.store@;
        assert(ph == phase_after(old(self)@.phase, ev));
        match event {
            NodeEvent::ListenerBound(a) => {
                actions.push(Action::ReportListening(a));
                assert(actions_view(actions@) =~= actions_for(ev));
            },
            NodeEvent::Discovered(ps) => {
                let ghost pv = addrs_view(ps@);
                let ghost start = self.peers@;
                let mut i: usize = 0;
                while i < ps.len()
                    invariant
                        self.peers.wf(),
                        self.phase == ph,
                        self.store@ == st,
                        i <= ps@.len(),
                        pv == addrs_view(ps@),
                        self.peers@ == start.union(pv.take(i as int).to_set()),
                        actions_view(actions@) == pv.take(i as int).map_values(
                            |p: Seq<u8>| ActionView::AddExplicitPeer(p),
                        ),
                    decreases ps@.len() - i,
                {
                    let p = copy_bytes(&ps[i]);
                    let q = copy_bytes(&ps[i]);
                    self.peers.insert(p);
                    let ghost before = actions_view(actions@);
                    actions.push(Action::AddExplicitPeer(q));
                    proof {
                        assert(actions_view(actions@) =~= before.push(ActionView::AddExplicitPeer(pv[i as int])));
                        assert(pv.take(i + 1) =~= pv.take(i as int).push(pv[i as int]));
                        lemma_take_push_to_set(pv, i as int);
                        assert(pv[i as int] == ps@[i as int]@);
                        assert(self.peers@ =~= start.union(pv.take(i + 1).to_set()));
                        assert(actions_view(actions@) =~= pv.take(i + 1).map_values(
                            |p: Seq<u8>| ActionView::AddExplicitPeer(p),
                        ));
                    }
                    i += 1;
                }
                assert(pv.take(pv.len() as int) =~= pv);
            },
            NodeEvent::Expired(ps) => {
                let ghost pv = addrs_view(ps@);
                let ghost start = self.peers@;
                let mut i: usize = 0;
                while i < ps.len()
                    invariant
                        self.peers.wf(),
                        self.phase == ph,
                        self.store@ == st,
                        i <= ps@.len(),
                        pv == addrs_view(ps@),
                        self.peers@ == start.difference(pv.take(i as int).to_set()),
                        actions_view(actions@) == pv.take(i as int).map_values(
                            |p: Seq<u8>| ActionView::RemoveExplicitPeer(p),
                        ),
                    decreases ps@.len() - i,
                {
                    let q = copy_bytes(&ps[i]);
                    self.peers.remove(&ps[i]);
                    let ghost before = actions_view(actions@);
                    actions.push(Action::RemoveExplicitPeer(q));
                    proof {
                        assert(actions_view(actions@) =~= before.push(ActionView::RemoveExplicitPeer(pv[i as int])));
                        assert(pv.take(i + 1) =~= pv.take(i as int).push(pv[i as int]));
                        lemma_take_push_to_set(pv, i as int);
                        assert(pv[i as int] == ps@[i as int]@);
                        assert(self.peers@ =~= start.difference(pv.take(i + 1).to_set()));
                        assert(actions_view(actions@) =~= pv.take(i + 1).map_values(
                            |p: Seq<u8>| ActionView::RemoveExplicitPeer(p),
                        ));
                    }
                    i += 1;
                }
                assert(pv.take(pv.len() as int) =~= pv);
            },
            NodeEvent::Gossip(m) => {
                if !m.authenticated {
                    actions.push(Action::DropUnauthenticated);
                } else {
                    match m.decoded {
                        Some(u) => {
                            self.store.append(u);
                            actions.push(Action::PersistStore);
                        },
                        None => {
                            actions.push(Action::DropUndecodable);
                        },
                    }
                }
                assert(actions_view(actions@) =~= actions_for(ev));
            },
        }
        assert(self@.peers =~= peers_after(old(self)@.peers, ev));
        assert(self@.phase == phase_after(old(self)@.phase, ev));
        assert(self@.records == records_after(old(self)@.records, ev));
        actions
    }
}

} // verus!
