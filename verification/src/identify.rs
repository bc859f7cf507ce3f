//! The peer identification protocol: per-session handshake state, the
//! event-driven state machine, and the misbehavior policy interface.
//!
//! The machine is pure: transport actions (disconnect, send, open, ban) come
//! back to the caller as `Command` values, and misbehavior reports are
//! recorded alongside them, so every handler's effect is stated in its
//! contract.

use vstd::prelude::*;

use crate::addr::{
    addr_reachable, lemma_reachable_views_commute, reachable_views, stripped_p2p, views_of,
    AddrComponent, Multiaddr, SessionType,
};
use crate::flags::Flags;
use crate::keymap::KeyMap;
use crate::seqs::{filtered, lemma_filtered_props, lemma_filtered_step};
use crate::wire::{
    dec_payload, enc_message, enc_payload, encode_payload, IdentifyMessage,
};
use crate::bytes::{bytes_eq, copy_bytes};

verus! {

/// How many listen addresses are honoured per message, and sent per hello.
pub const MAX_ADDRS: usize = 10;

/// A session must deliver its identify data within this long of connecting.
pub const DEFAULT_TIMEOUT_MS: u64 = 8_000;

/// How often pending sessions are checked for timeout.
pub const CHECK_TIMEOUT_INTERVAL_MS: u64 = 1_000;

/// The notify token under which the timeout check ticks.
pub const CHECK_TIMEOUT_TOKEN: u64 = 100;

/// How long a peer on another network is banned for.
pub const BAN_ON_NOT_SAME_NET_MS: u64 = 300_000;

/// The misbehavior to report to the policy layer.
#[derive(Copy, Clone, Debug, PartialEq, Eq, Structural)]
pub enum Misbehavior {
    /// Repeat send of listen addresses.
    DuplicateListenAddrs,
    /// Repeat send of the observed address.
    DuplicateObservedAddr,
    /// Timeout reached.
    Timeout,
    /// Remote peer sent invalid data.
    InvalidData,
    /// Too many addresses in one listen-address message.
    TooManyAddresses(usize),
}

/// What the policy layer decides about a misbehaving peer.
#[derive(Copy, Clone, Debug, PartialEq, Eq, Structural)]
pub enum MisbehaveResult {
    /// Continue to run.
    Continue,
    /// Disconnect this peer.
    Disconnect,
}

impl MisbehaveResult {
    pub fn is_disconnect(&self) -> (r: bool)
        ensures
            r == (*self is Disconnect),
    {
        match self {
            MisbehaveResult::Disconnect => true,
            _ => false,
        }
    }
}

/// Why a peer was banned.
#[derive(Copy, Clone, Debug, PartialEq, Eq, Structural)]
pub enum BanReason {
    /// The peers are not on the same network.
    NotSameNetwork,
}

/// Which protocols to open over a session.
#[derive(Clone, Debug, PartialEq, Eq)]
pub enum TargetProtocol {
    /// A single protocol.
    Single(u64),
    /// A given set of protocols.
    Multi(Vec<u64>),
}

/// A transport action requested by the protocol; the surrounding program
/// performs it.
#[derive(Clone, Debug, PartialEq, Eq)]
pub enum Command {
    /// Close the session.
    Disconnect(u64),
    /// Send these bytes on the session, out of band.
    QuickSend(u64, Vec<u8>),
    /// Open follow-on protocols over the session.
    OpenProtocols(u64, TargetProtocol),
    /// Schedule a periodic notify tick (interval in milliseconds, token).
    SetNotify(u64, u64),
    /// Ban the session's peer (duration in milliseconds).
    Ban(u64, u64, BanReason),
}

/// What a handler did: misbehavior reports, by session, and transport
/// commands, in order.
pub struct Effects {
    pub reports: Vec<(u64, Misbehavior)>,
    pub commands: Vec<Command>,
}

impl Effects {
    pub fn new() -> (r: Effects)
        ensures
            r.reports@.len() == 0,
            r.commands@.len() == 0,
    {
        Effects { reports: Vec::new(), commands: Vec::new() }
    }
}

/// What the transport knows of a session. The public key is carried as an
/// opaque token; the peer id is derived from it.
#[derive(Debug)]
pub struct SessionInfo {
    /// The transport's session id.
    pub id: u64,
    /// Inbound or outbound.
    pub ty: SessionType,
    /// The remote address of the session.
    pub address: Multiaddr,
    /// The authenticated remote key, if the transport authenticated one.
    pub remote_pubkey: Option<u64>,
}

/// Per-session handshake state.
#[derive(Debug)]
pub struct RemoteInfo {
    /// The peer id derived from the session's public key.
    pub peer_id: u64,
    /// The session this state belongs to.
    pub session: SessionInfo,
    /// When the session connected, in milliseconds.
    pub connected_at: u64,
    /// How long the remote has to deliver its identify data.
    pub timeout: u64,
    /// The remote's listen addresses, once received.
    pub listen_addrs: Option<Vec<Multiaddr>>,
    /// The address the remote observed us at, once received.
    pub observed_addr: Option<Multiaddr>,
}

/// The state `connected` creates for a session.
pub open spec fn fresh_info(session: SessionInfo, now: u64) -> RemoteInfo {
    RemoteInfo {
        peer_id: session.remote_pubkey->0,
        session,
        connected_at: now,
        timeout: DEFAULT_TIMEOUT_MS,
        listen_addrs: None,
        observed_addr: None,
    }
}

impl RemoteInfo {
    /// Handshake state for a session that authenticated a key.
    pub fn new(session: SessionInfo, timeout: u64, now: u64) -> (r: RemoteInfo)
        requires
            session.remote_pubkey is Some,
        ensures
            r == (RemoteInfo {
                peer_id: session.remote_pubkey->0,
                session,
                connected_at: now,
                timeout,
                listen_addrs: None,
                observed_addr: None,
            }),
    {
        let peer_id = match session.remote_pubkey {
            Some(k) => k,
            None => 0,  // excluded by the precondition
        };
        RemoteInfo {
            peer_id,
            session,
            connected_at: now,
            timeout,
            listen_addrs: None,
            observed_addr: None,
        }
    }
}

/// A session that has still not delivered both halves of its identify data
/// by `now`, its deadline passed.
pub open spec fn timed_out(info: RemoteInfo, now: u64) -> bool {
    &&& (info.listen_addrs is None || info.observed_addr is None)
    &&& info.connected_at + info.timeout <= now
}

/// The policy layer the protocol reports to and queries.
pub trait Callback: Sized {
    /// Handle the remote's identify payload; commands (ban, open) go into
    /// `effects`.
    fn received_identify(
        &mut self,
        session: &SessionInfo,
        identify: &Vec<u8>,
        effects: &mut Effects,
    ) -> MisbehaveResult;

    /// The encoded local identity to advertise.
    fn identify(&mut self) -> (r: Vec<u8>)
        ensures
            r@.len() < 0x1_0000_0000,
    ;

    /// The local listen addresses, best first.
    fn local_listen_addrs(&mut self) -> (r: Vec<Multiaddr>)
        ensures
            forall|i: int| 0 <= i < r@.len() ==> (#[trigger] r@[i])@.len() < 0x1_0000_0000,
    ;

    /// Record the remote peer's listen addresses.
    fn add_remote_listen_addrs(&mut self, peer: u64, addrs: Vec<Multiaddr>);

    /// Record the address the remote observed us at.
    fn add_observed_addr(
        &mut self,
        peer: u64,
        addr: Multiaddr,
        ty: SessionType,
    ) -> MisbehaveResult;

    /// Decide what to do about a misbehaving peer.
    fn misbehave(&mut self, peer: u64, kind: Misbehavior) -> MisbehaveResult;
}

/// The identify protocol instance: per-session handshake state plus the
/// policy callback.
pub struct IdentifyProtocol<T> {
    /// The policy layer.
    pub callback: T,
    /// Handshake state, one entry per live session.
    pub remote_infos: KeyMap<RemoteInfo>,
    /// Cleared when a session without an authenticated key connects; the
    /// whole instance then stops handling events.
    pub secio_enabled: bool,
    /// Whether only globally routable addresses are admitted.
    pub global_ip_only: bool,
}

impl<T: Callback> IdentifyProtocol<T> {
    pub fn new(callback: T) -> (r: IdentifyProtocol<T>)
        ensures
            r.callback == callback,
            r.remote_infos@ == Map::<u64, RemoteInfo>::empty(),
            r.secio_enabled,
            r.global_ip_only,
    {
        IdentifyProtocol {
            callback,
            remote_infos: KeyMap::new(),
            secio_enabled: true,
            global_ip_only: true,
        }
    }

    /// Protocol start: ask the transport for a periodic timeout tick.
    pub fn init(&mut self) -> (r: Command)
        ensures
            r == Command::SetNotify(CHECK_TIMEOUT_INTERVAL_MS, CHECK_TIMEOUT_TOKEN),
            *final(self) == *old(self),
    {
        Command::SetNotify(CHECK_TIMEOUT_INTERVAL_MS, CHECK_TIMEOUT_TOKEN)
    }

    /// A session connected. Without an authenticated key it is disconnected
    /// at once and no handshake state is created; otherwise handshake state
    /// is registered and the local identify message is sent out of band.
    #[verifier::loop_isolation(false)]
    pub fn connected(&mut self, session: SessionInfo, now: u64) -> (r: Effects)
        requires
            session.remote_pubkey is Some ==> !old(self).remote_infos@.contains_key(session.id),
            session.address@.len() < 0x1_0000_0000,
        ensures
            final(self).global_ip_only == old(self).global_ip_only,
            r.reports@.len() == 0,
            session.remote_pubkey is None ==> {
                &&& final(self).remote_infos == old(self).remote_infos
                &&& !final(self).secio_enabled
                &&& final(self).callback == old(self).callback
                &&& r.commands@ =~= seq![Command::Disconnect(session.id)]
            },
            session.remote_pubkey is Some ==> {
                &&& final(self).secio_enabled == old(self).secio_enabled
                &&& final(self).remote_infos@ == old(self).remote_infos@.insert(
                    session.id,
                    fresh_info(session, now),
                )
                &&& r.commands@.len() == 1
                &&& r.commands@[0] matches Command::QuickSend(sid, payload) && sid == session.id
                    && (exists|la: Seq<Multiaddr>, ib: Seq<u8>|
                    payload@ == enc_message(
                        views_of(
                            sent_listens(la, old(self).global_ip_only),
                        ),
                        stripped_p2p(session.address@),
                        ib,
                    ))
            },
    {
        let mut effects = Effects::new();
        if session.remote_pubkey.is_none() {
            effects.commands.push(Command::Disconnect(session.id));
            self.secio_enabled = false;
            return effects;
        }

        let observed_addr = session.address.strip_p2p();
        let remote_info = RemoteInfo::new(session, DEFAULT_TIMEOUT_MS, now);
        let sid = remote_info.session.id;
        let g = self.global_ip_only;

        let all = self.callback.local_listen_addrs();
        let ghost la = all@;
        let ghost p = |a: Multiaddr| addr_reachable(a@, g);
        let n = all.len();
        let mut listen_addrs: Vec<Multiaddr> = Vec::new();
        let mut i: usize = 0;
        while i < n && listen_addrs.len() < MAX_ADDRS
            invariant
                i <= n,
                views_of(listen_addrs@) == views_of(filtered(la.take(i as int), p)),
                listen_addrs@.len() == filtered(la.take(i as int), p).len(),
                listen_addrs@.len() <= MAX_ADDRS,
                forall|j: int|
                    0 <= j < listen_addrs@.len() ==> (#[trigger] listen_addrs@[j])@.len()
                        < 0x1_0000_0000,
            decreases n - i,
        {
            proof {
                lemma_filtered_step(la, p, i as int);
            }
            if all[i].reachable(g) {
                let ghost r0 = listen_addrs@;
                listen_addrs.push(all[i].clone());
                proof {
                    let fv = filtered(la.take(i + 1), p);
                    assert(fv == filtered(la.take(i as int), p).push(la[i as int]));
                    assert forall|j: int|
                        0 <= j < listen_addrs@.len() implies (#[trigger] views_of(
                        listen_addrs@,
                    )[j]) == views_of(fv)[j] by {
                        assert(views_of(listen_addrs@)[j] == listen_addrs@[j]@);
                        assert(views_of(fv)[j] == fv[j]@);
                        if j < r0.len() {
                            assert(listen_addrs@[j] == r0[j]);
                            assert(views_of(r0)[j] == r0[j]@);
                            assert(fv[j] == filtered(la.take(i as int), p)[j]);
                            assert(views_of(filtered(la.take(i as int), p))[j] == fv[j]@);
                        } else {
                            assert(listen_addrs@[j]@ == la[i as int]@);
                            assert(fv[j] == la[i as int]);
                        }
                    }
                    assert(views_of(listen_addrs@) =~= views_of(fv));
                }
            }
            i = i + 1;
        }
        proof {
            let f = filtered(la, p);
            let pre = filtered(la.take(i as int), p);
            if i < n {
                // stopped because ten addresses were collected
                crate::seqs::lemma_filtered_concat(la.take(i as int), la.skip(i as int), p);
                assert(la.take(i as int) + la.skip(i as int) =~= la);
                assert(f =~= pre + filtered(la.skip(i as int), p));
                assert(f.take(MAX_ADDRS as int) =~= pre);
                assert(views_of(listen_addrs@) == views_of(sent_listens(la, g)));
            } else {
                assert(la.take(n as int) =~= la);
                assert(views_of(listen_addrs@) == views_of(sent_listens(la, g)));
            }
        }

        let identify = self.callback.identify();
        let message = IdentifyMessage::new(listen_addrs, observed_addr, identify);
        proof {
            lemma_filtered_props(session.address@, |c: AddrComponent| !(c is P2p));
            assert(views_of(message.listen_addrs@).len() <= MAX_ADDRS);
            assert forall|j: int|
                0 <= j < views_of(message.listen_addrs@).len() implies (#[trigger] views_of(
                message.listen_addrs@,
            )[j]).len() < 0x1_0000_0000 by {
                assert(views_of(message.listen_addrs@)[j] == message.listen_addrs@[j]@);
            }
        }
        let data = message.encode();
        self.remote_infos.insert(sid, remote_info);
        effects.commands.push(Command::QuickSend(sid, data));
        proof {
            let ghost lw = la;
            let ghost ib = message.identify@;
            assert(message.enc() == enc_message(
                views_of(sent_listens(lw, g)),
                stripped_p2p(session.address@),
                ib,
            ));
        }
        effects
    }

    /// A session disconnected: its handshake state is dropped.
    pub fn disconnected(&mut self, session_id: u64)
        requires
            old(self).secio_enabled ==> old(self).remote_infos@.contains_key(session_id),
        ensures
            final(self).secio_enabled == old(self).secio_enabled,
            final(self).global_ip_only == old(self).global_ip_only,
            final(self).callback == old(self).callback,
            old(self).secio_enabled ==> final(self).remote_infos@ == old(self).remote_infos@.remove(session_id),
            !old(self).secio_enabled ==> final(self).remote_infos == old(self).remote_infos,
    {
        if self.secio_enabled {
            let _ = self.remote_infos.remove(session_id);
        }
    }

    /// The remote's listen addresses arrived: report a duplicate or an
    /// oversized list, else store and forward the reachable ones.
    pub fn process_listens(
        &mut self,
        session: &SessionInfo,
        listens: Vec<Multiaddr>,
        effects: &mut Effects,
    ) -> (r: MisbehaveResult)
        requires
            old(self).remote_infos@.contains_key(session.id),
        ensures
            final(self).secio_enabled == old(self).secio_enabled,
            final(self).global_ip_only == old(self).global_ip_only,
            final(self).remote_infos@.dom() == old(self).remote_infos@.dom(),
            forall|k: u64|
                old(self).remote_infos@.contains_key(k) && k != session.id ==> final(self).remote_infos@[k] == old(self).remote_infos@[k],
            final(effects).commands@ == old(effects).commands@,
            ({
                let oldi = old(self).remote_infos@[session.id];
                let newi = final(self).remote_infos@[session.id];
                &&& newi.peer_id == oldi.peer_id
                &&& newi.session == oldi.session
                &&& newi.connected_at == oldi.connected_at
                &&& newi.timeout == oldi.timeout
                &&& newi.observed_addr == oldi.observed_addr
                &&& if oldi.listen_addrs is Some {
                    &&& newi.listen_addrs == oldi.listen_addrs
                    &&& final(effects).reports@ == old(effects).reports@.push(
                        (session.id, Misbehavior::DuplicateListenAddrs),
                    )
                } else if listens@.len() > MAX_ADDRS {
                    &&& newi.listen_addrs is None
                    &&& final(effects).reports@ == old(effects).reports@.push(
                        (session.id, Misbehavior::TooManyAddresses(listens@.len() as usize)),
                    )
                } else {
                    &&& r is Continue
                    &&& newi.listen_addrs matches Some(v) && views_of(v@) == views_of(
                        filtered(
                            listens@,
                            |a: Multiaddr| addr_reachable(a@, old(self).global_ip_only),
                        ),
                    )
                    &&& final(effects).reports@ == old(effects).reports@
                }
            }),
    {
        let g = self.global_ip_only;
        let mut info = match self.remote_infos.remove(session.id) {
            Some(i) => i,
            None => {
                // the precondition keeps this session registered
                proof {
                    assert(false);
                }
                return MisbehaveResult::Continue;
            },
        };
        let pid = info.peer_id;
        let sid = session.id;

        if info.listen_addrs.is_some() {
            self.remote_infos.insert(sid, info);
            proof {
                assert(self.remote_infos@ =~= old(self).remote_infos@);
            }
            effects.reports.push((sid, Misbehavior::DuplicateListenAddrs));
            self.callback.misbehave(pid, Misbehavior::DuplicateListenAddrs)
        } else if listens.len() > MAX_ADDRS {
            let count = listens.len();
            self.remote_infos.insert(sid, info);
            proof {
                assert(self.remote_infos@ =~= old(self).remote_infos@);
            }
            effects.reports.push((sid, Misbehavior::TooManyAddresses(count)));
            self.callback.misbehave(pid, Misbehavior::TooManyAddresses(count))
        } else {
            let reachable_addrs = filter_reachable(&listens, g);
            let handed = crate::addr::clone_addrs(&reachable_addrs);
            self.callback.add_remote_listen_addrs(pid, handed);
            info.listen_addrs = Some(reachable_addrs);
            self.remote_infos.insert(sid, info);
            proof {
                assert(self.remote_infos@.dom() =~= old(self).remote_infos@.dom());
            }
            MisbehaveResult::Continue
        }
    }

    /// The remote's observed address arrived: report a duplicate, else hand
    /// a reachable one to the policy layer and store it.
    pub fn process_observed(
        &mut self,
        session: &SessionInfo,
        observed: Multiaddr,
        effects: &mut Effects,
    ) -> (r: MisbehaveResult)
        requires
            old(self).remote_infos@.contains_key(session.id),
        ensures
            final(self).secio_enabled == old(self).secio_enabled,
            final(self).global_ip_only == old(self).global_ip_only,
            final(self).remote_infos@.dom() == old(self).remote_infos@.dom(),
            forall|k: u64|
                old(self).remote_infos@.contains_key(k) && k != session.id ==> final(self).remote_infos@[k] == old(self).remote_infos@[k],
            ({
                let oldi = old(self).remote_infos@[session.id];
                let newi = final(self).remote_infos@[session.id];
                &&& newi.peer_id == oldi.peer_id
                &&& newi.session == oldi.session
                &&& newi.connected_at == oldi.connected_at
                &&& newi.timeout == oldi.timeout
                &&& newi.listen_addrs == oldi.listen_addrs
                &&& if oldi.observed_addr is Some {
                    &&& newi.observed_addr == oldi.observed_addr
                    &&& final(effects).reports@ == old(effects).reports@.push(
                        (session.id, Misbehavior::DuplicateObservedAddr),
                    )
                } else {
                    &&& final(effects).reports@ == old(effects).reports@
                    &&& (r is Disconnect ==> newi.observed_addr is None && addr_reachable(
                        observed@,
                        old(self).global_ip_only,
                    ))
                    &&& (r is Continue ==> newi.observed_addr == Some(observed))
                    &&& (!addr_reachable(observed@, old(self).global_ip_only) ==> r is Continue)
                }
            }),
    {
        let g = self.global_ip_only;
        let mut info = match self.remote_infos.remove(session.id) {
            Some(i) => i,
            None => {
                // the precondition keeps this session registered
                proof {
                    assert(false);
                }
                return MisbehaveResult::Continue;
            },
        };
        let pid = info.peer_id;
        let sid = session.id;

        if info.observed_addr.is_some() {
            self.remote_infos.insert(sid, info);
            proof {
                assert(self.remote_infos@ =~= old(self).remote_infos@);
            }
            effects.reports.push((sid, Misbehavior::DuplicateObservedAddr));
            self.callback.misbehave(pid, Misbehavior::DuplicateObservedAddr)
        } else {
            let ty = info.session.ty;
            if observed.reachable(g) && self.callback.add_observed_addr(
                pid,
                observed.clone(),
                ty,
            ).is_disconnect() {
                self.remote_infos.insert(sid, info);
                proof {
                    assert(self.remote_infos@ =~= old(self).remote_infos@);
                }
                return MisbehaveResult::Disconnect;
            }
            info.observed_addr = Some(observed);
            self.remote_infos.insert(sid, info);
            proof {
                assert(self.remote_infos@.dom() =~= old(self).remote_infos@.dom());
            }
            MisbehaveResult::Continue
        }
    }

    /// A message arrived on a session: decode it and run the handshake
    /// steps, stopping at the first step whose verdict is to disconnect.
    pub fn received(&mut self, session: &SessionInfo, data: &Vec<u8>) -> (r: Effects)
        requires
            old(self).secio_enabled ==> old(self).remote_infos@.contains_key(session.id),
        ensures
            final(self).secio_enabled == old(self).secio_enabled,
            final(self).global_ip_only == old(self).global_ip_only,
            !old(self).secio_enabled ==> {
                &&& *final(self) == *old(self)
                &&& r.reports@.len() == 0
                &&& r.commands@.len() == 0
            },
            old(self).secio_enabled && crate::wire::dec_message(data@) is None ==> {
                &&& final(self).remote_infos == old(self).remote_infos
                &&& r.reports@.len() == 1
                &&& r.reports@[0] == (session.id, Misbehavior::InvalidData)
                &&& r.commands@.len() <= 1
                &&& (forall|i: int|
                    0 <= i < r.commands@.len() ==> r.commands@[i] == Command::Disconnect(
                        session.id,
                    ))
            },
            old(self).secio_enabled && crate::wire::dec_message(data@) is Some ==> {
                &&& final(self).remote_infos@.dom() == old(self).remote_infos@.dom()
                &&& forall|k: u64|
                    old(self).remote_infos@.contains_key(k) && k != session.id ==> final(self).remote_infos@[k] == old(self).remote_infos@[k]
                &&& ({
                    let decoded = crate::wire::dec_message(data@)->Some_0;
                    let oldi = old(self).remote_infos@[session.id];
                    let newi = final(self).remote_infos@[session.id];
                    &&& newi.peer_id == oldi.peer_id
                    &&& newi.connected_at == oldi.connected_at
                    &&& newi.timeout == oldi.timeout
                    &&& (oldi.listen_addrs is Some ==> newi.listen_addrs == oldi.listen_addrs)
                    &&& (oldi.observed_addr is Some ==> newi.observed_addr == oldi.observed_addr)
                    &&& (newi.listen_addrs == oldi.listen_addrs || (oldi.listen_addrs is None
                        && (newi.listen_addrs matches Some(v) && views_of(v@)
                        == reachable_views(decoded.0, old(self).global_ip_only))))
                    &&& (newi.observed_addr == oldi.observed_addr || (oldi.observed_addr is None
                        && (newi.observed_addr matches Some(o) && o@ == decoded.1)))
                })
            },
    {
        let mut effects = Effects::new();
        if !self.secio_enabled {
            return effects;
        }

        match IdentifyMessage::decode(data) {
            Some(message) => {
                let IdentifyMessage { listen_addrs, observed_addr, identify } = message;
                let ghost ls = listen_addrs@;
                proof {
                    lemma_reachable_views_commute(ls, self.global_ip_only);
                }
                let mut disconnect = self.callback.received_identify(
                    session,
                    &identify,
                    &mut effects,
                ).is_disconnect();
                if !disconnect {
                    disconnect = self.process_listens(
                        session,
                        listen_addrs,
                        &mut effects,
                    ).is_disconnect();
                }
                if !disconnect {
                    disconnect = self.process_observed(
                        session,
                        observed_addr,
                        &mut effects,
                    ).is_disconnect();
                }
                if disconnect {
                    effects.commands.push(Command::Disconnect(session.id));
                }
            },
            None => {
                let pid = match self.remote_infos.get(session.id) {
                    Some(info) => info.peer_id,
                    None => {
                        // the precondition keeps this session registered
                        proof {
                            assert(false);
                        }
                        0
                    },
                };
                effects.reports.push((session.id, Misbehavior::InvalidData));
                if self.callback.misbehave(pid, Misbehavior::InvalidData).is_disconnect() {
                    effects.commands.push(Command::Disconnect(session.id));
                }
            },
        }
        effects
    }

    /// The periodic tick: report every session that is still incomplete past
    /// its deadline, and disconnect those the policy gives up on.
    #[verifier::loop_isolation(false)]
    pub fn notify(&mut self, now: u64) -> (r: Effects)
        ensures
            final(self).secio_enabled == old(self).secio_enabled,
            final(self).global_ip_only == old(self).global_ip_only,
            final(self).remote_infos == old(self).remote_infos,
            !old(self).secio_enabled ==> r.reports@.len() == 0 && r.commands@.len() == 0,
            old(self).secio_enabled ==> {
                &&& forall|k: u64|
                    old(self).remote_infos@.contains_key(k) && timed_out(
                        #[trigger] old(self).remote_infos@[k],
                        now,
                    ) ==> r.reports@.contains((k, Misbehavior::Timeout))
                &&& forall|i: int|
                    0 <= i < r.reports@.len() ==> (#[trigger] r.reports@[i]).1 is Timeout && old(self).remote_infos@.contains_key(r.reports@[i].0) && timed_out(
                        old(self).remote_infos@[r.reports@[i].0],
                        now,
                    )
                &&& forall|i: int|
                    0 <= i < r.commands@.len() ==> ((#[trigger] r.commands@[i]) matches
                        Command::Disconnect(k) && r.reports@.contains(
                        (k, Misbehavior::Timeout),
                    ))
            },
    {
        let mut effects = Effects::new();
        if !self.secio_enabled {
            return effects;
        }
        let n = self.remote_infos.len();
        let mut i: usize = 0;
        while i < n
            invariant
                i <= n,
                n == self.remote_infos.key_seq().len(),
                self.remote_infos == old(self).remote_infos,
                self.secio_enabled == old(self).secio_enabled,
                self.global_ip_only == old(self).global_ip_only,
                forall|j: int|
                    0 <= j < i && timed_out(
                        self.remote_infos@[#[trigger] self.remote_infos.key_seq()[j]],
                        now,
                    ) ==> effects.reports@.contains(
                        (self.remote_infos.key_seq()[j], Misbehavior::Timeout),
                    ),
                forall|t: int|
                    0 <= t < effects.reports@.len() ==> (#[trigger] effects.reports@[t]).1
                        is Timeout && self.remote_infos@.contains_key(effects.reports@[t].0)
                        && timed_out(self.remote_infos@[effects.reports@[t].0], now),
                forall|t: int|
                    0 <= t < effects.commands@.len() ==> ((#[trigger] effects.commands@[t])
                        matches Command::Disconnect(k) && effects.reports@.contains(
                        (k, Misbehavior::Timeout),
                    )),
            decreases n - i,
        {
            let sid = self.remote_infos.key_at(i);
            let (pid, expired) = match self.remote_infos.get(sid) {
                Some(info) => {
                    let incomplete = info.listen_addrs.is_none() || info.observed_addr.is_none();
                    let deadline_passed = now >= info.connected_at && now - info.connected_at
                        >= info.timeout;
                    proof {
                        if info.connected_at + info.timeout <= now {
                            assert(deadline_passed);
                        }
                    }
                    (info.peer_id, incomplete && deadline_passed)
                },
                None => {
                    // the key came from the map's own key order
                    proof {
                        assert(false);
                    }
                    (0, false)
                },
            };
            proof {
                let info = self.remote_infos@[sid];
                assert(expired == timed_out(info, now));
            }
            if expired {
                let ghost before = effects.reports@;
                effects.reports.push((sid, Misbehavior::Timeout));
                proof {
                    assert(effects.reports@ == before.push((sid, Misbehavior::Timeout)));
                    assert(effects.reports@[before.len() as int] == (sid, Misbehavior::Timeout));
                    assert(effects.reports@.contains((sid, Misbehavior::Timeout)));
                    assert forall|q: (u64, Misbehavior)| before.contains(q) implies effects.reports@.contains(q) by {
                        let t = choose|t: int| 0 <= t < before.len() && before[t] == q;
                        assert(effects.reports@[t] == q);
                    }
                }
                if self.callback.misbehave(pid, Misbehavior::Timeout).is_disconnect() {
                    effects.commands.push(Command::Disconnect(sid));
                }
            }
            i = i + 1;
        }
        proof {
            assert forall|k: u64|
                self.remote_infos@.contains_key(k) && timed_out(
                    #[trigger] self.remote_infos@[k],
                    now,
                ) implies effects.reports@.contains((k, Misbehavior::Timeout)) by {
                let ks = self.remote_infos.key_seq();
                assert(ks.contains(k));
                let j = choose|j: int| 0 <= j < ks.len() && ks[j] == k;
                assert(timed_out(self.remote_infos@[ks[j]], now));
            }
        }
        effects
    }
}

/// What `connected` advertises from a candidate list: the reachable
/// addresses, capped at ten.
pub open spec fn sent_listens(la: Seq<Multiaddr>, global_only: bool) -> Seq<Multiaddr> {
    let f = filtered(la, |a: Multiaddr| addr_reachable(a@, global_only));
    if f.len() > MAX_ADDRS {
        f.take(MAX_ADDRS as int)
    } else {
        f
    }
}

/// The reachable subsequence of a list of addresses, each kept address an
/// equal-view copy.
#[verifier::loop_isolation(false)]
fn filter_reachable(listens: &Vec<Multiaddr>, global_only: bool) -> (r: Vec<Multiaddr>)
    ensures
        views_of(r@) == views_of(
            filtered(listens@, |a: Multiaddr| addr_reachable(a@, global_only)),
        ),
        r@.len() == filtered(listens@, |a: Multiaddr| addr_reachable(a@, global_only)).len(),
{
    let ghost p = |a: Multiaddr| addr_reachable(a@, global_only);
    let n = listens.len();
    let mut r: Vec<Multiaddr> = Vec::new();
    let mut i: usize = 0;
    while i < n
        invariant
            i <= n,
            views_of(r@) == views_of(filtered(listens@.take(i as int), p)),
            r@.len() == filtered(listens@.take(i as int), p).len(),
        decreases n - i,
    {
        proof {
            lemma_filtered_step(listens@, p, i as int);
        }
        if listens[i].reachable(global_only) {
            let ghost r0 = r@;
            r.push(listens[i].clone());
            proof {
                let fv = filtered(listens@.take(i + 1), p);
                assert(fv == filtered(listens@.take(i as int), p).push(listens@[i as int]));
                assert forall|j: int| 0 <= j < r@.len() implies (#[trigger] views_of(r@)[j])
                    == views_of(fv)[j] by {
                    assert(views_of(r@)[j] == r@[j]@);
                    assert(views_of(fv)[j] == fv[j]@);
                    if j < r0.len() {
                        assert(r@[j] == r0[j]);
                        assert(views_of(r0)[j] == r0[j]@);
                        assert(fv[j] == filtered(listens@.take(i as int), p)[j]);
                        assert(views_of(filtered(listens@.take(i as int), p))[j] == fv[j]@);
                    } else {
                        assert(r@[j]@ == listens@[i as int]@);
                        assert(fv[j] == listens@[i as int]);
                    }
                }
                assert(views_of(r@) =~= views_of(fv));
            }
        }
        i = i + 1;
    }
    proof {
        assert(listens@.take(n as int) =~= listens@);
    }
    r
}

/// The local identity: what this node advertises, with its encoding cached.
pub struct Identify {
    name: Vec<u8>,
    client_version: Vec<u8>,
    flags: Flags,
    encode_data: Vec<u8>,
}

/// Whether an identify payload is accepted by a node with this `name`: it
/// must decode, carry the same network name, and a non-zero flag.
pub open spec fn payload_accepted(name: Seq<u8>, data: Seq<u8>) -> bool {
    match dec_payload(data) {
        Some((n, f, _)) => n == name && f != 0,
        None => false,
    }
}

impl Identify {
    #[verifier::type_invariant]
    spec fn inv(self) -> bool {
        &&& self.name@.len() < 0x1000_0000
        &&& self.client_version@.len() < 0x1000_0000
        &&& (self.encode_data@.len() == 0 || self.encode_data@ == enc_payload(
            self.name@,
            self.flags.0,
            self.client_version@,
        ))
    }

    /// The network name this node belongs to.
    pub closed spec fn spec_name(self) -> Seq<u8> {
        self.name@
    }

    /// The client version this node advertises.
    pub closed spec fn spec_client_version(self) -> Seq<u8> {
        self.client_version@
    }

    /// The capability flags this node advertises.
    pub closed spec fn spec_flags(self) -> Flags {
        self.flags
    }

    /// The advertised capability flags.
    pub fn flags_value(&self) -> (r: Flags)
        ensures
            r == self.spec_flags(),
    {
        self.flags
    }

    pub fn new(name: Vec<u8>, flags: Flags, client_version: Vec<u8>) -> (r: Identify)
        requires
            name@.len() < 0x1000_0000,
            client_version@.len() < 0x1000_0000,
        ensures
            r.spec_name() == name@,
            r.spec_client_version() == client_version@,
            r.spec_flags() == flags,
    {
        Identify { name, client_version, flags, encode_data: Vec::new() }
    }

    /// The encoded local identity; computed once, then served from cache.
    #[verifier::rlimit(50)]
    pub fn encode(&mut self) -> (r: Vec<u8>)
        ensures
            r@ == enc_payload(
                old(self).spec_name(),
                old(self).spec_flags().0,
                old(self).spec_client_version(),
            ),
            final(self).spec_name() == old(self).spec_name(),
            final(self).spec_client_version() == old(self).spec_client_version(),
            final(self).spec_flags() == old(self).spec_flags(),
            r@.len() < 0x1_0000_0000,
    {
        proof {
            use_type_invariant(&*self);
        }
        if self.encode_data.is_empty() {
            let encoded = encode_payload(&self.name, self.flags.0, &self.client_version);
            self.encode_data = encoded;
        }
        proof {
            crate::wire::lemma_payload_round_trip(
                self.name@,
                self.flags.0,
                self.client_version@,
            );
            // an encoded payload is never empty: it decodes to the identity
            if self.encode_data@.len() == 0 {
                assert(dec_payload(self.encode_data@) is None);
                assert(false);
            }
        }
        copy_bytes(&self.encode_data)
    }

    /// Check a remote identify payload: accept it only when it decodes,
    /// names the same network, and carries a non-zero flag; hand back the
    /// remote's flags and client version.
    pub fn verify(&self, data: &Vec<u8>) -> (r: Option<(Flags, Vec<u8>)>)
        ensures
            match r {
                Some((fl, cv)) => {
                    &&& payload_accepted(self.spec_name(), data@)
                    &&& dec_payload(data@) matches Some((n, f, c)) && fl.0 == f && cv@ == c
                },
                None => !payload_accepted(self.spec_name(), data@),
            },
    {
        let decoded = match crate::wire::decode_payload(data) {
            Some(d) => d,
            None => {
                return None;
            },
        };
        let (name, flag, client_version) = decoded;
        if !bytes_eq(&name, &self.name) {
            proof {
                use_type_invariant(self);
            }
            return None;
        }
        if flag == 0 {
            return None;
        }
        Some((Flags(flag), client_version))
    }
}

/// The set a listen message leaves behind: the reachable filter of what
/// arrived. `process_listens` stores and forwards exactly this set (up to
/// copying).
pub open spec fn stored_listens(listens: Seq<Multiaddr>, global_only: bool) -> Seq<Multiaddr> {
    filtered(listens, |a: Multiaddr| addr_reachable(a@, global_only))
}

/// Every address that a listen message leaves behind — stored in the
/// session state and forwarded to the store — satisfies the reachability
/// policy, so under a global-only policy no non-routable address is kept.
pub proof fn lemma_stored_listens_reachable(listens: Seq<Multiaddr>, global_only: bool)
    ensures
        forall|i: int|
            0 <= i < stored_listens(listens, global_only).len() ==> addr_reachable(
                (#[trigger] stored_listens(listens, global_only)[i])@,
                global_only,
            ),
{
    lemma_filtered_props(listens, |a: Multiaddr| addr_reachable(a@, global_only));
}

/// Two identities whose names differ reject each other's encodings: each
/// side sees "not on the same network", whatever the flags and versions.
pub proof fn lemma_name_mismatch_mutual(
    a_name: Seq<u8>,
    a_flag: u64,
    a_cv: Seq<u8>,
    b_name: Seq<u8>,
    b_flag: u64,
    b_cv: Seq<u8>,
)
    requires
        a_name.len() < 0x1_0000_0000,
        a_cv.len() < 0x1_0000_0000,
        b_name.len() < 0x1_0000_0000,
        b_cv.len() < 0x1_0000_0000,
        a_name != b_name,
    ensures
        !payload_accepted(b_name, enc_payload(a_name, a_flag, a_cv)),
        !payload_accepted(a_name, enc_payload(b_name, b_flag, b_cv)),
{
    crate::wire::lemma_payload_round_trip(a_name, a_flag, a_cv);
    crate::wire::lemma_payload_round_trip(b_name, b_flag, b_cv);
}

} // verus!
