//! The policy glue around the identify protocol: a model of the node's
//! network state (peer registry, peer store, observed-address sink, public
//! addresses) and the callback that applies network-level effects.

use vstd::prelude::*;

use crate::addr::{
    addr_global, cand_views, candidate_of, views_of, AddrComponent, Multiaddr, SessionType,
};
use crate::flags::{Flags, FULL_NODE_FLAG};
use crate::identify::{
    payload_accepted, BanReason, Callback, Command, Effects, Identify, Misbehavior,
    MisbehaveResult, SessionInfo, BAN_ON_NOT_SAME_NET_MS,
};
use crate::keymap::KeyMap;
use crate::seqs::{filtered, lemma_filtered_step};
use crate::wire::dec_payload;

verus! {

/// The protocol id of the feeler probe protocol; it is the one protocol
/// opened on probe-only sessions and withheld from full sessions.
pub const FEELER_PROTOCOL_ID: u64 = 2;

/// How many public addresses are advertised to a peer.
pub const MAX_RETURN_LISTEN_ADDRS: usize = 10;

/// The selection invariant of the advertised listen set: each emitted
/// address pairs with a score it carries in the served prefix (the first
/// twenty public addresses), the scores never increase along the list
/// (best quality first), and every served pair scoring strictly above the
/// last emitted score was selected — the list is the top ten by score, with
/// ties at the boundary broken arbitrarily.
pub open spec fn selection_scored(
    r: Seq<Multiaddr>,
    scores: Seq<u64>,
    publics: Seq<(Multiaddr, u64)>,
) -> bool {
    let served = if publics.len() < 2 * MAX_RETURN_LISTEN_ADDRS {
        publics.len() as int
    } else {
        2 * MAX_RETURN_LISTEN_ADDRS as int
    };
    &&& scores.len() == r.len()
    &&& (forall|i: int, j: int| 0 <= i < j < scores.len() ==> scores[i] >= scores[j])
    &&& (forall|i: int|
        0 <= i < r.len() ==> from_publics_scored(
            (#[trigger] r[i])@,
            scores[i],
            publics,
            served,
        ))
    &&& (forall|q: int|
        0 <= q < served && scores.len() > 0 && (#[trigger] publics[q]).1 > scores.last()
            ==> pair_selected(r, scores, publics[q].0@, publics[q].1))
}

/// The pair is still waiting in the working list.
pub open spec fn pair_in_work(
    work: Seq<(Multiaddr, u64)>,
    v: Seq<AddrComponent>,
    score: u64,
) -> bool {
    exists|w: int| 0 <= w < work.len() && (#[trigger] work[w]).0@ == v && work[w].1 == score
}

/// The pair occurs among the selected addresses and their scores.
pub open spec fn pair_selected(
    r: Seq<Multiaddr>,
    scores: Seq<u64>,
    v: Seq<AddrComponent>,
    score: u64,
) -> bool {
    exists|i: int| 0 <= i < r.len() && i < scores.len() && (#[trigger] r[i])@ == v && scores[i]
        == score
}

/// Some public address has this view.
pub open spec fn from_publics(v: Seq<AddrComponent>, publics: Seq<(Multiaddr, u64)>) -> bool {
    exists|q: int| 0 <= q < publics.len() && v == (#[trigger] publics[q]).0@
}

/// Some public address among the first `served` has this view and this
/// score.
pub open spec fn from_publics_scored(
    v: Seq<AddrComponent>,
    score: u64,
    publics: Seq<(Multiaddr, u64)>,
    served: int,
) -> bool {
    exists|q: int|
        0 <= q < served && q < publics.len() && (#[trigger] publics[q]).0@ == v && publics[q].1
            == score
}

/// The view arises from `base` by substituting some local TCP port.
pub open spec fn is_candidate(v: Seq<AddrComponent>, base: Seq<AddrComponent>) -> bool {
    exists|port: u16| v == candidate_of(base, port)
}

/// A peer record in the registry, keyed by session id.
#[derive(Debug)]
pub struct Peer {
    /// The peer's identity token.
    pub peer_id: u64,
    /// The client version the peer reported, once identified.
    pub identify_info: Option<Vec<u8>>,
    /// The listen addresses the peer reported.
    pub listened_addrs: Vec<Multiaddr>,
    /// Whether this session is a reachability probe.
    pub is_feeler: bool,
}

/// The node's network state, as the identify policy reads and writes it:
/// the session-keyed peer registry, the persistent peer store, the
/// observed-address sink, our own scored public addresses, and the set of
/// local protocols.
pub struct NetworkState {
    peers: KeyMap<Peer>,
    peer_store: Vec<(u64, Multiaddr)>,
    observed_addrs: Vec<Multiaddr>,
    public_addrs: Vec<(Multiaddr, u64)>,
    protocol_ids: Vec<u64>,
}

impl NetworkState {
    #[verifier::type_invariant]
    spec fn inv(self) -> bool {
        forall|i: int|
            0 <= i < self.public_addrs@.len() ==> (#[trigger] self.public_addrs@[i]).0@.len()
                < 0x1_0000_0000
    }

    /// The peer registry, session id to record.
    pub closed spec fn peers(self) -> Map<u64, Peer> {
        self.peers@
    }

    /// The persistent peer store: (peer id, address) pairs, in arrival order.
    pub closed spec fn store(self) -> Seq<(u64, Multiaddr)> {
        self.peer_store@
    }

    /// Addresses handed to the observed-address ingestion, in order.
    pub closed spec fn observed(self) -> Seq<Multiaddr> {
        self.observed_addrs@
    }

    /// Our public addresses with their quality scores.
    pub closed spec fn publics(self) -> Seq<(Multiaddr, u64)> {
        self.public_addrs@
    }

    /// The local protocol ids, the feeler protocol among them.
    pub closed spec fn protocols(self) -> Seq<u64> {
        self.protocol_ids@
    }

    pub fn new(public_addrs: Vec<(Multiaddr, u64)>, protocol_ids: Vec<u64>) -> (r: NetworkState)
        requires
            forall|i: int|
                0 <= i < public_addrs@.len() ==> (#[trigger] public_addrs@[i]).0@.len()
                    < 0x1_0000_0000,
        ensures
            r.peers() == Map::<u64, Peer>::empty(),
            r.store() == Seq::<(u64, Multiaddr)>::empty(),
            r.observed() == Seq::<Multiaddr>::empty(),
            r.publics() == public_addrs@,
            r.protocols() == protocol_ids@,
    {
        NetworkState {
            peers: KeyMap::new(),
            peer_store: Vec::new(),
            observed_addrs: Vec::new(),
            public_addrs,
            protocol_ids,
        }
    }

    /// Put a session's peer record into the registry.
    pub fn register_peer(&mut self, session_id: u64, peer_id: u64, is_feeler: bool)
        ensures
            final(self).peers().dom() == old(self).peers().dom().insert(session_id),
            forall|k: u64|
                old(self).peers().contains_key(k) && k != session_id ==> final(self).peers()[k]
                    == old(self).peers()[k],
            final(self).peers()[session_id].peer_id == peer_id,
            final(self).peers()[session_id].is_feeler == is_feeler,
            final(self).peers()[session_id].identify_info is None,
            final(self).peers()[session_id].listened_addrs@.len() == 0,
            final(self).store() == old(self).store(),
            final(self).observed() == old(self).observed(),
            final(self).publics() == old(self).publics(),
            final(self).protocols() == old(self).protocols(),
    {
        proof {
            use_type_invariant(&*self);
        }
        let mut peers = KeyMap::new();
        std::mem::swap(&mut peers, &mut self.peers);
        peers.insert(
            session_id,
            Peer { peer_id, identify_info: None, listened_addrs: Vec::new(), is_feeler },
        );
        self.peers = peers;
    }

    /// Read a session's peer record.
    pub fn get_peer(&self, session_id: u64) -> (r: Option<&Peer>)
        ensures
            match r {
                Some(p) => self.peers().contains_key(session_id) && *p == self.peers()[session_id],
                None => !self.peers().contains_key(session_id),
            },
    {
        self.peers.get(session_id)
    }

    /// How many addresses the peer store holds.
    pub fn store_len(&self) -> (r: usize)
        ensures
            r == self.store().len(),
    {
        self.peer_store.len()
    }

    /// One peer-store entry.
    pub fn store_at(&self, i: usize) -> (r: &(u64, Multiaddr))
        requires
            i < self.store().len(),
        ensures
            *r == self.store()[i as int],
    {
        &self.peer_store[i]
    }

    /// How many observed addresses were ingested.
    pub fn observed_len(&self) -> (r: usize)
        ensures
            r == self.observed().len(),
    {
        self.observed_addrs.len()
    }

    /// One ingested observed address.
    pub fn observed_at(&self, i: usize) -> (r: &Multiaddr)
        requires
            i < self.observed().len(),
        ensures
            *r == self.observed()[i as int],
    {
        &self.observed_addrs[i]
    }

    /// Whether some session of this peer is marked as a feeler probe.
    #[verifier::loop_isolation(false)]
    fn is_feeler(&self, peer_id: u64) -> (r: bool)
        ensures
            r == exists|k: u64|
                self.peers().contains_key(k) && (#[trigger] self.peers()[k]).peer_id == peer_id
                    && self.peers()[k].is_feeler,
    {
        let n = self.peers.len();
        let mut i: usize = 0;
        while i < n
            invariant
                i <= n,
                forall|j: int|
                    0 <= j < i ==> !((#[trigger] self.peers()[self.peers.key_seq()[j]]).peer_id
                        == peer_id && self.peers()[self.peers.key_seq()[j]].is_feeler),
            decreases n - i,
        {
            let k = self.peers.key_at(i);
            match self.peers.get(k) {
                Some(p) => {
                    if p.peer_id == peer_id && p.is_feeler {
                        return true;
                    }
                },
                None => {
                    // the key came from the map's own key order
                    proof {
                        assert(false);
                    }
                },
            }
            i = i + 1;
        }
        proof {
            assert forall|k: u64|
                self.peers().contains_key(k) implies !((#[trigger] self.peers()[k]).peer_id
                == peer_id && self.peers()[k].is_feeler) by {
                let ks = self.peers.key_seq();
                assert(ks.contains(k));
                let j = choose|j: int| 0 <= j < ks.len() && ks[j] == k;
            }
        }
        false
    }

    /// The session id under which this peer is registered, if any.
    #[verifier::loop_isolation(false)]
    fn get_key_by_peer_id(&self, peer_id: u64) -> (r: Option<u64>)
        ensures
            match r {
                Some(k) => self.peers().contains_key(k) && self.peers()[k].peer_id == peer_id,
                None => forall|k: u64|
                    self.peers().contains_key(k) ==> (#[trigger] self.peers()[k]).peer_id
                        != peer_id,
            },
    {
        let n = self.peers.len();
        let mut i: usize = 0;
        while i < n
            invariant
                i <= n,
                forall|j: int|
                    0 <= j < i ==> (#[trigger] self.peers()[self.peers.key_seq()[j]]).peer_id
                        != peer_id,
            decreases n - i,
        {
            let k = self.peers.key_at(i);
            match self.peers.get(k) {
                Some(p) => {
                    if p.peer_id == peer_id {
                        return Some(k);
                    }
                },
                None => {
                    // the key came from the map's own key order
                    proof {
                        assert(false);
                    }
                },
            }
            i = i + 1;
        }
        proof {
            assert forall|k: u64|
                self.peers().contains_key(k) implies (#[trigger] self.peers()[k]).peer_id
                != peer_id by {
                let ks = self.peers.key_seq();
                assert(ks.contains(k));
                let j = choose|j: int| 0 <= j < ks.len() && ks[j] == k;
            }
        }
        None
    }

    /// Record a session's reported client version, if it is registered.
    fn set_identify_info(&mut self, session_id: u64, client_version: Vec<u8>)
        ensures
            final(self).peers().dom() == old(self).peers().dom(),
            forall|k: u64|
                old(self).peers().contains_key(k) && k != session_id ==> final(self).peers()[k]
                    == old(self).peers()[k],
            old(self).peers().contains_key(session_id) ==> {
                let oldp = old(self).peers()[session_id];
                let newp = final(self).peers()[session_id];
                &&& newp.peer_id == oldp.peer_id
                &&& newp.is_feeler == oldp.is_feeler
                &&& newp.listened_addrs == oldp.listened_addrs
                &&& newp.identify_info == Some(client_version)
            },
            final(self).store() == old(self).store(),
            final(self).observed() == old(self).observed(),
            final(self).publics() == old(self).publics(),
            final(self).protocols() == old(self).protocols(),
    {
        proof {
            use_type_invariant(&*self);
        }
        let mut peers = KeyMap::new();
        std::mem::swap(&mut peers, &mut self.peers);
        match peers.remove(session_id) {
            Some(mut peer) => {
                peer.identify_info = Some(client_version);
                peers.insert(session_id, peer);
                proof {
                    assert(peers@.dom() =~= old(self).peers@.dom());
                }
            },
            None => {},
        }
        self.peers = peers;
    }
}

/// The identify policy: the local identity plus the network state it acts
/// on.
pub struct IdentifyCallback {
    /// The network state the policy reads and updates.
    pub network_state: NetworkState,
    /// The local identity advertised to peers.
    pub identify: Identify,
}

impl IdentifyCallback {
    pub fn new(network_state: NetworkState, name: Vec<u8>, client_version: Vec<u8>) -> (r:
        IdentifyCallback)
        requires
            name@.len() < 0x1000_0000,
            client_version@.len() < 0x1000_0000,
        ensures
            r.identify.spec_name() == name@,
            r.identify.spec_client_version() == client_version@,
            r.identify.spec_flags().0 == FULL_NODE_FLAG,
            r.network_state == network_state,
    {
        let flags = Flags(FULL_NODE_FLAG);
        IdentifyCallback { network_state, identify: Identify::new(name, flags, client_version) }
    }

    /// The best ten public addresses, highest score first: the advertised
    /// listen set is drawn from the first twenty of the node's own scored
    /// addresses and emitted in descending score order.
    #[verifier::loop_isolation(false)]
    fn listen_addrs(&self) -> (r: Vec<Multiaddr>)
        ensures
            r@.len() <= MAX_RETURN_LISTEN_ADDRS,
            r@.len() == if self.network_state.publics().len() < MAX_RETURN_LISTEN_ADDRS {
                self.network_state.publics().len() as int
            } else {
                MAX_RETURN_LISTEN_ADDRS as int
            },
            forall|i: int|
                0 <= i < r@.len() ==> from_publics(
                    (#[trigger] r@[i])@,
                    self.network_state.publics(),
                ),
            forall|i: int| 0 <= i < r@.len() ==> (#[trigger] r@[i])@.len() < 0x1_0000_0000,
            exists|scores: Seq<u64>| selection_scored(r@, scores, self.network_state.publics()),
    {
        proof {
            use_type_invariant(&self.network_state);
        }
        let ghost publics = self.network_state.publics();
        // working copy of the best-scored prefix the store would serve
        let mut work: Vec<(Multiaddr, u64)> = Vec::new();
        let cap = 2 * MAX_RETURN_LISTEN_ADDRS;
        let n = self.network_state.public_addrs.len();
        let mut i: usize = 0;
        while i < n && i < cap
            invariant
                i <= n,
                i <= cap,
                work@.len() == i,
                forall|j: int|
                    0 <= j < work@.len() ==> (#[trigger] work@[j]).0@ == (publics[j]).0@
                        && work@[j].1 == publics[j].1,
            decreases n - i,
        {
            let entry = &self.network_state.public_addrs[i];
            work.push((entry.0.clone(), entry.1));
            i = i + 1;
        }
        proof {
            assert forall|j: int|
                0 <= j < work@.len() implies from_publics((#[trigger] work@[j]).0@, publics) by {
                assert(0 <= j < publics.len() && work@[j].0@ == publics[j].0@);
            }
        }
        let ghost served = work@.len() as int;
        proof {
            assert forall|j: int|
                0 <= j < work@.len() implies from_publics_scored(
                (#[trigger] work@[j]).0@,
                work@[j].1,
                publics,
                served,
            ) by {
                assert(0 <= j < publics.len() && work@[j].0@ == publics[j].0@ && work@[j].1
                    == publics[j].1);
            }
            assert forall|q: int|
                0 <= q < served implies pair_in_work(
                work@,
                (#[trigger] publics[q]).0@,
                publics[q].1,
            ) by {
                assert(work@[q].0@ == publics[q].0@ && work@[q].1 == publics[q].1);
            }
        }
        // select the highest-scored entries, best first
        let mut out: Vec<Multiaddr> = Vec::new();
        let ghost mut scores: Seq<u64> = Seq::empty();
        while out.len() < MAX_RETURN_LISTEN_ADDRS && work.len() > 0
            invariant
                out@.len() <= MAX_RETURN_LISTEN_ADDRS,
                out@.len() + work@.len() == served,
                scores.len() == out@.len(),
                forall|i: int, j: int| 0 <= i < j < scores.len() ==> scores[i] >= scores[j],
                forall|i: int|
                    0 <= i < out@.len() ==> from_publics_scored(
                        (#[trigger] out@[i])@,
                        scores[i],
                        publics,
                        served,
                    ),
                forall|j: int|
                    scores.len() > 0 && 0 <= j < work@.len() ==> scores.last() >= (
                    #[trigger] work@[j]).1,
                forall|j: int|
                    0 <= j < work@.len() ==> from_publics_scored(
                        (#[trigger] work@[j]).0@,
                        work@[j].1,
                        publics,
                        served,
                    ),
                forall|j: int|
                    0 <= j < work@.len() ==> from_publics((#[trigger] work@[j]).0@, publics),
                forall|j: int|
                    0 <= j < out@.len() ==> from_publics((#[trigger] out@[j])@, publics),
                forall|q: int|
                    0 <= q < served ==> pair_selected(
                        out@,
                        scores,
                        (#[trigger] publics[q]).0@,
                        publics[q].1,
                    ) || pair_in_work(work@, publics[q].0@, publics[q].1),
            decreases MAX_RETURN_LISTEN_ADDRS - out.len(),
        {
            let mut best: usize = 0;
            let mut t: usize = 1;
            while t < work.len()
                invariant
                    best < work@.len(),
                    t <= work@.len(),
                    forall|u: int| 0 <= u < t ==> work@[best as int].1 >= (#[trigger] work@[u]).1,
                decreases work@.len() - t,
            {
                if work[t].1 > work[best].1 {
                    best = t;
                }
                t = t + 1;
            }
            let ghost work0 = work@;
            let ghost out0 = out@;
            let ghost scores0 = scores;
            let (addr, score) = work.remove(best);
            out.push(addr);
            proof {
                scores = scores.push(score);
                assert(from_publics(addr@, publics));
                assert(from_publics_scored(addr@, score, publics, served));
                assert forall|j: int|
                    0 <= j < work@.len() implies from_publics(
                    (#[trigger] work@[j]).0@,
                    publics,
                ) && from_publics_scored(work@[j].0@, work@[j].1, publics, served)
                    && scores.last() >= work@[j].1 by {
                    if j < best {
                        assert(work@[j] == work0[j]);
                    } else {
                        assert(work@[j] == work0[j + 1]);
                    }
                }
                assert forall|q: int|
                    0 <= q < served implies pair_selected(
                    out@,
                    scores,
                    (#[trigger] publics[q]).0@,
                    publics[q].1,
                ) || pair_in_work(work@, publics[q].0@, publics[q].1) by {
                    if pair_selected(out0, scores0, publics[q].0@, publics[q].1) {
                        let i = choose|i: int|
                            0 <= i < out0.len() && i < scores0.len() && (#[trigger] out0[i])@
                                == publics[q].0@ && scores0[i] == publics[q].1;
                        assert(out@[i] == out0[i] && scores[i] == scores0[i]);
                        assert(pair_selected(out@, scores, publics[q].0@, publics[q].1));
                    } else if pair_in_work(work0, publics[q].0@, publics[q].1) {
                        let w = choose|w: int|
                            0 <= w < work0.len() && (#[trigger] work0[w]).0@ == publics[q].0@
                                && work0[w].1 == publics[q].1;
                        if w == best {
                            assert(out@[out0.len() as int]@ == work0[best as int].0@);
                            assert(scores[scores0.len() as int] == work0[best as int].1);
                            assert(pair_selected(out@, scores, publics[q].0@, publics[q].1));
                        } else if w < best {
                            assert(work@[w] == work0[w]);
                            assert(pair_in_work(work@, publics[q].0@, publics[q].1));
                        } else {
                            assert(work@[w - 1] == work0[w]);
                            assert(pair_in_work(work@, publics[q].0@, publics[q].1));
                        }
                    }
                }
            }
        }
        proof {
            assert forall|t: int|
                0 <= t < out@.len() implies (#[trigger] out@[t])@.len() < 0x1_0000_0000 by {
                assert(from_publics(out@[t]@, publics));
                let q = choose|q: int|
                    0 <= q < publics.len() && out@[t]@ == (#[trigger] publics[q]).0@;
            }
            assert(served == (if publics.len() < 2 * MAX_RETURN_LISTEN_ADDRS {
                publics.len() as int
            } else {
                2 * MAX_RETURN_LISTEN_ADDRS as int
            }));
            assert forall|q: int|
                0 <= q < served && scores.len() > 0 && (#[trigger] publics[q]).1 > scores.last()
                    implies pair_selected(out@, scores, publics[q].0@, publics[q].1) by {
                if pair_in_work(work@, publics[q].0@, publics[q].1) {
                    let w = choose|w: int|
                        0 <= w < work@.len() && (#[trigger] work@[w]).0@ == publics[q].0@
                            && work@[w].1 == publics[q].1;
                    assert(scores.last() >= work@[w].1);
                }
            }
            assert(selection_scored(out@, scores, publics));
        }
        out
    }

    /// The identify policy proper. On a payload from another network: ban
    /// for five minutes and disconnect. On a valid payload: open the feeler
    /// protocol for outbound feeler peers; open every non-feeler protocol
    /// for outbound peers whose flags cover ours, recording their client
    /// version; disconnect outbound peers with insufficient flags; record
    /// the client version of inbound peers.
    pub fn do_received_identify(
        &mut self,
        session: &SessionInfo,
        identify: &Vec<u8>,
        effects: &mut Effects,
    ) -> (r: MisbehaveResult)
        ensures
            final(self).identify.spec_name() == old(self).identify.spec_name(),
            final(self).identify.spec_flags() == old(self).identify.spec_flags(),
            final(self).network_state.store() == old(self).network_state.store(),
            final(self).network_state.observed() == old(self).network_state.observed(),
            final(self).network_state.publics() == old(self).network_state.publics(),
            final(self).network_state.protocols() == old(self).network_state.protocols(),
            final(effects).reports@ == old(effects).reports@,
            !payload_accepted(old(self).identify.spec_name(), identify@) ==> {
                &&& r is Disconnect
                &&& final(effects).commands@ == old(effects).commands@.push(
                    Command::Ban(session.id, BAN_ON_NOT_SAME_NET_MS, BanReason::NotSameNetwork),
                )
                &&& final(self).network_state.peers() == old(self).network_state.peers()
            },
            payload_accepted(old(self).identify.spec_name(), identify@) ==> {
                let flag = dec_payload(identify@)->Some_0.1;
                let cv = dec_payload(identify@)->Some_0.2;
                let peers0 = old(self).network_state.peers();
                let peers1 = final(self).network_state.peers();
                &&& final(effects).commands@.len() >= old(effects).commands@.len()
                &&& if session.ty is Outbound {
                    match session.remote_pubkey {
                      Some(pid) => if exists|k: u64|
                            peers0.contains_key(k) && (#[trigger] peers0[k]).peer_id == pid
                                && peers0[k].is_feeler {
                            // feeler probe: open exactly the feeler protocol
                            &&& r is Continue
                            &&& peers1 == peers0
                            &&& final(effects).commands@ == old(effects).commands@.push(
                                Command::OpenProtocols(
                                    session.id,
                                    crate::identify::TargetProtocol::Single(FEELER_PROTOCOL_ID),
                                ),
                            )
                        } else if flag & old(self).identify.spec_flags().0 == old(self).identify.spec_flags().0 {
                            // full support: open every non-feeler protocol
                            &&& r is Continue
                            &&& peers1.dom() == peers0.dom()
                            &&& (peers0.contains_key(session.id) ==> (peers1[session.id].identify_info matches Some(v)
                                && v@ == cv))
                            &&& final(effects).commands@.len() == old(effects).commands@.len()
                                + 1
                            &&& (forall|t: int|
                                0 <= t < old(effects).commands@.len()
                                    ==> final(effects).commands@[t] == old(
                                    effects,
                                ).commands@[t])
                            &&& final(effects).commands@.last() matches Command::OpenProtocols(
                                sid,
                                tp,
                            ) && sid == session.id && (tp matches
                                crate::identify::TargetProtocol::Multi(ids) && ids@ == filtered(
                                old(self).network_state.protocols(),
                                |id: u64| id != FEELER_PROTOCOL_ID,
                            ))
                        } else {
                            // the remote cannot serve our flags
                            &&& r is Disconnect
                            &&& peers1 == peers0
                            &&& final(effects).commands@ == old(effects).commands@
                        },
                      None => r is Disconnect,
                    }
                } else {
                    &&& r is Continue
                    &&& peers1.dom() == peers0.dom()
                    &&& (peers0.contains_key(session.id) ==> (peers1[session.id].identify_info matches Some(v)
                                && v@ == cv))
                    &&& final(effects).commands@ == old(effects).commands@
                }
            },
    {
        let verdict = self.identify.verify(identify);
        match verdict {
            None => {
                effects.commands.push(
                    Command::Ban(session.id, BAN_ON_NOT_SAME_NET_MS, BanReason::NotSameNetwork),
                );
                MisbehaveResult::Disconnect
            },
            Some((flags, client_version)) => {
                if session.ty.is_outbound() {
                    let pid = match session.remote_pubkey {
                        Some(pid) => pid,
                        None => {
                            // an unauthenticated outbound session cannot be
                            // attributed to a peer; give it up
                            return MisbehaveResult::Disconnect;
                        },
                    };
                    if self.network_state.is_feeler(pid) {
                        effects.commands.push(
                            Command::OpenProtocols(
                                session.id,
                                crate::identify::TargetProtocol::Single(FEELER_PROTOCOL_ID),
                            ),
                        );
                        MisbehaveResult::Continue
                    } else if flags.contains(self.identify_flags()) {
                        self.network_state.set_identify_info(session.id, client_version);
                        let protos = self.non_feeler_protocols();
                        effects.commands.push(
                            Command::OpenProtocols(
                                session.id,
                                crate::identify::TargetProtocol::Multi(protos),
                            ),
                        );
                        MisbehaveResult::Continue
                    } else {
                        MisbehaveResult::Disconnect
                    }
                } else {
                    self.network_state.set_identify_info(session.id, client_version);
                    MisbehaveResult::Continue
                }
            },
        }
    }

    /// The local capability flags.
    fn identify_flags(&self) -> (r: Flags)
        ensures
            r == self.identify.spec_flags(),
    {
        Flags(self.identify_flags_bits())
    }

    fn identify_flags_bits(&self) -> (r: u64)
        ensures
            r == self.identify.spec_flags().0,
    {
        self.identify.flags_value().0
    }

    /// Every local protocol but the feeler probe.
    #[verifier::loop_isolation(false)]
    fn non_feeler_protocols(&self) -> (r: Vec<u64>)
        ensures
            r@ == filtered(
                self.network_state.protocols(),
                |id: u64| id != FEELER_PROTOCOL_ID,
            ),
    {
        let ghost p = |id: u64| id != FEELER_PROTOCOL_ID;
        let n = self.network_state.protocols_len();
        let mut r: Vec<u64> = Vec::new();
        let mut i: usize = 0;
        while i < n
            invariant
                i <= n,
                r@ == filtered(self.network_state.protocols().take(i as int), p),
            decreases n - i,
        {
            proof {
                lemma_filtered_step(self.network_state.protocols(), p, i as int);
            }
            let id = self.network_state.protocol_at(i);
            if id != FEELER_PROTOCOL_ID {
                r.push(id);
            }
            i = i + 1;
        }
        proof {
            assert(self.network_state.protocols().take(n as int) =~= self.network_state.protocols());
        }
        r
    }
}

impl NetworkState {
    /// How many local protocols there are.
    pub fn protocols_len(&self) -> (r: usize)
        ensures
            r == self.protocols().len(),
    {
        self.protocol_ids.len()
    }

    /// One local protocol id.
    pub fn protocol_at(&self, i: usize) -> (r: u64)
        requires
            i < self.protocols().len(),
        ensures
            r == self.protocols()[i as int],
    {
        self.protocol_ids[i]
    }
}

impl Callback for IdentifyCallback {
    fn received_identify(
        &mut self,
        session: &SessionInfo,
        identify: &Vec<u8>,
        effects: &mut Effects,
    ) -> MisbehaveResult {
        self.do_received_identify(session, identify, effects)
    }

    fn identify(&mut self) -> (r: Vec<u8>)
        ensures
            r@.len() < 0x1_0000_0000,
    {
        self.identify.encode()
    }

    fn local_listen_addrs(&mut self) -> (r: Vec<Multiaddr>)
        ensures
            forall|i: int| 0 <= i < r@.len() ==> (#[trigger] r@[i])@.len() < 0x1_0000_0000,
    {
        self.listen_addrs()
    }

    fn add_remote_listen_addrs(&mut self, peer: u64, addrs: Vec<Multiaddr>) {
        self.do_add_remote_listen_addrs(peer, addrs)
    }

    fn add_observed_addr(
        &mut self,
        peer: u64,
        addr: Multiaddr,
        ty: SessionType,
    ) -> MisbehaveResult {
        self.do_add_observed_addr(peer, addr, ty)
    }

    fn misbehave(&mut self, peer: u64, kind: Misbehavior) -> MisbehaveResult {
        self.do_misbehave(peer, kind)
    }
}

impl IdentifyCallback {
    /// The default misbehavior policy: every kind of fault disconnects the
    /// peer, and nothing else changes.
    pub fn do_misbehave(&mut self, peer: u64, kind: Misbehavior) -> (r: MisbehaveResult)
        ensures
            r is Disconnect,
            *final(self) == *old(self),
    {
        let _ = peer;
        let _ = kind;
        MisbehaveResult::Disconnect
    }

    /// Record a peer's reported listen addresses: the store gains one
    /// `(peer, addr)` pair per address, in order, and if some session is
    /// registered under this peer id, the first such session's listened set
    /// is replaced by the given list. Store errors never propagate.
    #[verifier::loop_isolation(false)]
    pub fn do_add_remote_listen_addrs(&mut self, peer: u64, addrs: Vec<Multiaddr>)
        ensures
            final(self).identify == old(self).identify,
            final(self).network_state.observed() == old(self).network_state.observed(),
            final(self).network_state.publics() == old(self).network_state.publics(),
            final(self).network_state.protocols() == old(self).network_state.protocols(),
            final(self).network_state.store().len() == old(self).network_state.store().len()
                + addrs@.len(),
            forall|i: int|
                0 <= i < old(self).network_state.store().len() ==> final(self).network_state.store()[i] == old(self).network_state.store()[i],
            forall|j: int|
                0 <= j < addrs@.len() ==> final(self).network_state.store()[old(self).network_state.store().len() + j] == (peer, addrs@[j]),
            (forall|k: u64|
                old(self).network_state.peers().contains_key(k) ==> (#[trigger] old(self).network_state.peers()[k]).peer_id != peer) ==> final(self).network_state.peers()
                == old(self).network_state.peers(),
            (exists|k: u64|
                old(self).network_state.peers().contains_key(k) && (#[trigger] old(self).network_state.peers()[k]).peer_id == peer) ==> exists|k: u64|
                listened_replaced(
                    old(self).network_state.peers(),
                    final(self).network_state.peers(),
                    k,
                    peer,
                    views_of(addrs@),
                ),
    {
        let ghost orig = addrs@;
        let mut addrs = addrs;
        match self.network_state.get_key_by_peer_id(peer) {
            Some(session_id) => {
                let handed = crate::addr::clone_addrs(&addrs);
                self.network_state.replace_listened(session_id, handed);
                proof {
                    assert(listened_replaced(
                        old(self).network_state.peers(),
                        self.network_state.peers(),
                        session_id,
                        peer,
                        views_of(orig),
                    ));
                }
            },
            None => {},
        }
        let ghost store0 = self.network_state.store();
        let ghost peers_after = self.network_state.peers();
        while addrs.len() > 0
            invariant
                addrs@.len() <= orig.len(),
                addrs@ == orig.skip(orig.len() - addrs@.len()),
                self.identify == old(self).identify,
                self.network_state.peers() == peers_after,
                self.network_state.observed() == old(self).network_state.observed(),
                self.network_state.publics() == old(self).network_state.publics(),
                self.network_state.protocols() == old(self).network_state.protocols(),
                self.network_state.store().len() == store0.len() + orig.len() - addrs@.len(),
                forall|i: int|
                    0 <= i < store0.len() ==> self.network_state.store()[i] == store0[i],
                forall|j: int|
                    0 <= j < orig.len() - addrs@.len() ==> self.network_state.store()[store0.len()
                        + j] == (peer, orig[j]),
            decreases addrs@.len(),
        {
            let ghost before = addrs@;
            let ghost done = orig.len() - addrs@.len();
            let addr = addrs.remove(0);
            proof {
                assert(addr == before[0]);
                assert(before[0] == orig[done as int]);
                assert(addrs@ =~= orig.skip(orig.len() - addrs@.len()));
            }
            self.network_state.add_addr(peer, addr);
        }
        proof {
            assert(orig.len() - addrs@.len() == orig.len());
        }
    }
}

/// The registry after a peer's listened set was replaced: session `k` of
/// peer `peer` carries the new list (up to copying), every other record is
/// untouched.
pub open spec fn listened_replaced(
    peers0: Map<u64, Peer>,
    peers1: Map<u64, Peer>,
    k: u64,
    peer: u64,
    listened: Seq<Seq<AddrComponent>>,
) -> bool {
    &&& peers0.contains_key(k) && peers0[k].peer_id == peer
    &&& peers1.dom() == peers0.dom()
    &&& forall|k2: u64| peers0.contains_key(k2) && k2 != k ==> peers1[k2] == peers0[k2]
    &&& peers1[k].peer_id == peers0[k].peer_id
    &&& peers1[k].is_feeler == peers0[k].is_feeler
    &&& peers1[k].identify_info == peers0[k].identify_info
    &&& views_of(peers1[k].listened_addrs@) == listened
}

impl NetworkState {
    /// Replace a registered session's reported listen addresses.
    pub fn replace_listened(&mut self, session_id: u64, addrs: Vec<Multiaddr>)
        ensures
            final(self).peers().dom() == old(self).peers().dom(),
            forall|k: u64|
                old(self).peers().contains_key(k) && k != session_id ==> final(self).peers()[k]
                    == old(self).peers()[k],
            old(self).peers().contains_key(session_id) ==> {
                let oldp = old(self).peers()[session_id];
                let newp = final(self).peers()[session_id];
                &&& newp.peer_id == oldp.peer_id
                &&& newp.is_feeler == oldp.is_feeler
                &&& newp.identify_info == oldp.identify_info
                &&& newp.listened_addrs == addrs
            },
            final(self).store() == old(self).store(),
            final(self).observed() == old(self).observed(),
            final(self).publics() == old(self).publics(),
            final(self).protocols() == old(self).protocols(),
    {
        proof {
            use_type_invariant(&*self);
        }
        let mut peers = KeyMap::new();
        std::mem::swap(&mut peers, &mut self.peers);
        match peers.remove(session_id) {
            Some(mut peer) => {
                peer.listened_addrs = addrs;
                peers.insert(session_id, peer);
                proof {
                    assert(peers@.dom() =~= old(self).peers@.dom());
                }
            },
            None => {},
        }
        self.peers = peers;
    }

    /// Add one address for a peer to the persistent store.
    pub fn add_addr(&mut self, peer_id: u64, addr: Multiaddr)
        ensures
            final(self).store() == old(self).store().push((peer_id, addr)),
            final(self).peers() == old(self).peers(),
            final(self).observed() == old(self).observed(),
            final(self).publics() == old(self).publics(),
            final(self).protocols() == old(self).protocols(),
    {
        proof {
            use_type_invariant(&*self);
        }
        let mut store: Vec<(u64, Multiaddr)> = Vec::new();
        std::mem::swap(&mut store, &mut self.peer_store);
        store.push((peer_id, addr));
        self.peer_store = store;
    }

    /// Hand one address to the observed-address ingestion.
    pub fn add_observed(&mut self, addr: Multiaddr)
        ensures
            final(self).observed() == old(self).observed().push(addr),
            final(self).peers() == old(self).peers(),
            final(self).store() == old(self).store(),
            final(self).publics() == old(self).publics(),
            final(self).protocols() == old(self).protocols(),
    {
        proof {
            use_type_invariant(&*self);
        }
        let mut observed: Vec<Multiaddr> = Vec::new();
        std::mem::swap(&mut observed, &mut self.observed_addrs);
        observed.push(addr);
        self.observed_addrs = observed;
    }
}

impl IdentifyCallback {
    /// Observed-address handling: inbound reports and unroutable addresses
    /// are ignored; otherwise, for each local listen address with a TCP
    /// port, the observed host is combined with that port and ingested.
    #[verifier::loop_isolation(false)]
    pub fn do_add_observed_addr(
        &mut self,
        peer: u64,
        addr: Multiaddr,
        ty: SessionType,
    ) -> (r: MisbehaveResult)
        ensures
            r is Continue,
            final(self).identify == old(self).identify,
            final(self).network_state.peers() == old(self).network_state.peers(),
            final(self).network_state.store() == old(self).network_state.store(),
            final(self).network_state.publics() == old(self).network_state.publics(),
            final(self).network_state.protocols() == old(self).network_state.protocols(),
            ty is Inbound || !addr_global(addr@) ==> final(self).network_state.observed() == old(self).network_state.observed(),
            final(self).network_state.observed().len() >= old(self).network_state.observed().len(),
            forall|i: int|
                old(self).network_state.observed().len() <= i < final(self).network_state.observed().len() ==> is_candidate(
                    (#[trigger] final(self).network_state.observed()[i])@,
                    addr@,
                ),
            ty is Outbound && addr_global(addr@) ==> exists|las: Seq<Multiaddr>| {
                &&& las.len() == (if old(self).network_state.publics().len()
                    < MAX_RETURN_LISTEN_ADDRS {
                    old(self).network_state.publics().len() as int
                } else {
                    MAX_RETURN_LISTEN_ADDRS as int
                })
                &&& (forall|t: int|
                    0 <= t < las.len() ==> from_publics(
                        (#[trigger] las[t])@,
                        old(self).network_state.publics(),
                    ))
                &&& views_of(final(self).network_state.observed()) == views_of(
                    old(self).network_state.observed(),
                ) + cand_views(las, addr@)
            },
    {
        let _ = peer;
        if ty.is_inbound() {
            return MisbehaveResult::Continue;
        }
        if !addr.is_global() {
            return MisbehaveResult::Continue;
        }
        let listens = self.listen_addrs();
        let n = listens.len();
        let mut i: usize = 0;
        while i < n
            invariant
                i <= n,
                self.identify == old(self).identify,
                self.network_state.peers() == old(self).network_state.peers(),
                self.network_state.store() == old(self).network_state.store(),
                self.network_state.publics() == old(self).network_state.publics(),
                self.network_state.protocols() == old(self).network_state.protocols(),
                self.network_state.observed().len() >= old(self).network_state.observed().len(),
                forall|t: int|
                    old(self).network_state.observed().len() <= t
                        < self.network_state.observed().len() ==> is_candidate(
                        (#[trigger] self.network_state.observed()[t])@,
                        addr@,
                    ),
                views_of(self.network_state.observed()) == views_of(
                    old(self).network_state.observed(),
                ) + cand_views(listens@.take(i as int), addr@),
            decreases n - i,
        {
            proof {
                assert(listens@.take(i + 1).drop_last() =~= listens@.take(i as int));
                assert(listens@.take(i + 1).last() == listens@[i as int]);
            }
            match listens[i].socket() {
                Some((_, port)) => {
                    let candidate = addr.candidate(port);
                    let ghost obs0 = self.network_state.observed();
                    self.network_state.add_observed(candidate);
                    proof {
                        let obs = self.network_state.observed();
                        assert(obs[obs.len() - 1]@ == candidate_of(addr@, port));
                        assert(is_candidate(obs[obs.len() - 1]@, addr@));
                        assert forall|t: int|
                            old(self).network_state.observed().len() <= t < obs.len()
                                implies is_candidate((#[trigger] obs[t])@, addr@) by {
                            if t < obs.len() - 1 {
                                assert(obs[t] == obs0[t]);
                            }
                        }
                        assert(views_of(obs) =~= views_of(obs0).push(
                            candidate_of(addr@, port),
                        ));
                        assert(views_of(obs) =~= views_of(old(self).network_state.observed())
                            + cand_views(listens@.take(i + 1), addr@));
                    }
                },
                None => {},
            }
            i = i + 1;
        }
        proof {
            assert(listens@.take(n as int) =~= listens@);
            let ghost las = listens@;
            assert(views_of(self.network_state.observed()) == views_of(
                old(self).network_state.observed(),
            ) + cand_views(las, addr@));
        }
        MisbehaveResult::Continue
    }
}

} // verus!
