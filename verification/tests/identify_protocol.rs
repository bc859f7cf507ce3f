//! Identify handshake scenarios driven end to end through the protocol
//! state machine and the concrete policy callback.

use node_core::addr::{AddrComponent, Multiaddr, SessionType};
use node_core::flags::Flags;
use node_core::identify::{
    BanReason, Command, Effects, Identify, IdentifyProtocol, Misbehavior, SessionInfo,
    TargetProtocol, BAN_ON_NOT_SAME_NET_MS, CHECK_TIMEOUT_INTERVAL_MS, CHECK_TIMEOUT_TOKEN,
};
use node_core::network::{IdentifyCallback, NetworkState, FEELER_PROTOCOL_ID};
use node_core::wire::IdentifyMessage;

fn addr(components: Vec<AddrComponent>) -> Multiaddr {
    Multiaddr { components }
}

fn global_tcp(ip: u32, port: u16) -> Multiaddr {
    addr(vec![AddrComponent::Ip4(ip), AddrComponent::Tcp(port)])
}

fn local_callback() -> IdentifyCallback {
    let publics = vec![(global_tcp(0x0808_0808, 8115), 5u64)];
    let protocols = vec![0u64, 1, FEELER_PROTOCOL_ID, 100];
    let state = NetworkState::new(publics, protocols);
    IdentifyCallback::new(state, b"mainnet".to_vec(), b"v1".to_vec())
}

fn outbound_session(id: u64, pubkey: u64) -> SessionInfo {
    SessionInfo {
        id,
        ty: SessionType::Outbound,
        address: addr(vec![
            AddrComponent::Ip4(0x0101_0101),
            AddrComponent::Tcp(9),
            AddrComponent::P2p(pubkey),
        ]),
        remote_pubkey: Some(pubkey),
    }
}

fn remote_message(name: &[u8], flag: u64, version: &[u8]) -> Vec<u8> {
    let mut remote = Identify::new(name.to_vec(), Flags(flag), version.to_vec());
    let b1 = global_tcp(0x0909_0909, 7);
    let b2 = global_tcp(0x0808_0404, 8115);
    IdentifyMessage::new(vec![b1], b2, remote.encode()).encode()
}

fn has_disconnect(effects: &Effects, id: u64) -> bool {
    effects.commands.iter().any(|c| *c == Command::Disconnect(id))
}

#[test]
fn init_schedules_timeout_tick() {
    let mut protocol = IdentifyProtocol::new(local_callback());
    assert_eq!(
        protocol.init(),
        Command::SetNotify(CHECK_TIMEOUT_INTERVAL_MS, CHECK_TIMEOUT_TOKEN)
    );
}

#[test]
fn handshake_happy_path() {
    let mut protocol = IdentifyProtocol::new(local_callback());
    protocol.callback.network_state.register_peer(42, 700, false);
    let session = outbound_session(42, 700);
    let hello = protocol.connected(outbound_session(42, 700), 1_000);

    // the hello carries our reachable listen set, the stripped observed
    // address, and our identify payload
    assert!(hello.reports.is_empty());
    assert_eq!(hello.commands.len(), 1);
    match &hello.commands[0] {
        Command::QuickSend(sid, payload) => {
            assert_eq!(*sid, 42);
            let sent = IdentifyMessage::decode(payload).expect("sent hello must decode");
            assert_eq!(sent.listen_addrs, vec![global_tcp(0x0808_0808, 8115)]);
            assert_eq!(
                sent.observed_addr,
                addr(vec![AddrComponent::Ip4(0x0101_0101), AddrComponent::Tcp(9)])
            );
            let local = Identify::new(b"mainnet".to_vec(), Flags(1), b"v1".to_vec());
            assert!(local.verify(&sent.identify).is_some());
        },
        other => panic!("expected a hello send, got {:?}", other),
    }

    let effects = protocol.received(&session, &remote_message(b"mainnet", 1, b"v2"));
    assert!(effects.reports.is_empty());
    assert!(!has_disconnect(&effects, 42));
    assert!(effects.commands.iter().any(|c| {
        *c == Command::OpenProtocols(42, TargetProtocol::Multi(vec![0, 1, 100]))
    }));

    let peer = protocol.callback.network_state.get_peer(42).expect("peer registered");
    assert_eq!(peer.identify_info, Some(b"v2".to_vec()));
    assert_eq!(peer.listened_addrs, vec![global_tcp(0x0909_0909, 7)]);

    // the store got the remote's listen address
    assert_eq!(protocol.callback.network_state.store_len(), 1);
    let entry = protocol.callback.network_state.store_at(0);
    assert_eq!(entry.0, 700);
    assert_eq!(entry.1, global_tcp(0x0909_0909, 7));

    // the observed candidate substitutes our listen port on the remote host
    assert_eq!(protocol.callback.network_state.observed_len(), 1);
    assert_eq!(
        *protocol.callback.network_state.observed_at(0),
        global_tcp(0x0808_0404, 8115)
    );

    let info = protocol.remote_infos.get(42).expect("handshake state present");
    assert!(info.listen_addrs.is_some());
    assert!(info.observed_addr.is_some());
}

#[test]
fn name_mismatch_bans_for_five_minutes() {
    let mut protocol = IdentifyProtocol::new(local_callback());
    protocol.callback.network_state.register_peer(42, 700, false);
    let session = outbound_session(42, 700);
    let _ = protocol.connected(outbound_session(42, 700), 1_000);

    let effects = protocol.received(&session, &remote_message(b"testnet", 1, b"v2"));
    assert!(effects.commands.iter().any(|c| {
        *c == Command::Ban(42, BAN_ON_NOT_SAME_NET_MS, BanReason::NotSameNetwork)
    }));
    assert!(has_disconnect(&effects, 42));
    assert_eq!(BAN_ON_NOT_SAME_NET_MS, 300_000);
}

#[test]
fn oversize_listens_reported_and_not_stored() {
    let mut protocol = IdentifyProtocol::new(local_callback());
    protocol.callback.network_state.register_peer(42, 700, false);
    let session = outbound_session(42, 700);
    let _ = protocol.connected(outbound_session(42, 700), 1_000);

    let mut remote = Identify::new(b"mainnet".to_vec(), Flags(1), b"v2".to_vec());
    let listens: Vec<Multiaddr> = (0..11u16).map(|i| global_tcp(0x0909_0909, 7 + i)).collect();
    let message = IdentifyMessage::new(listens, global_tcp(0x0808_0404, 8115), remote.encode());
    let effects = protocol.received(&session, &message.encode());

    assert_eq!(effects.reports, vec![(42, Misbehavior::TooManyAddresses(11))]);
    assert!(has_disconnect(&effects, 42));
    let info = protocol.remote_infos.get(42).expect("handshake state present");
    assert!(info.listen_addrs.is_none());
}

#[test]
fn duplicate_listens_reported_on_second_message() {
    let mut protocol = IdentifyProtocol::new(local_callback());
    protocol.callback.network_state.register_peer(42, 700, false);
    let session = outbound_session(42, 700);
    let _ = protocol.connected(outbound_session(42, 700), 1_000);

    let first = protocol.received(&session, &remote_message(b"mainnet", 1, b"v2"));
    assert!(first.reports.is_empty());

    let second = protocol.received(&session, &remote_message(b"mainnet", 1, b"v2"));
    assert_eq!(second.reports, vec![(42, Misbehavior::DuplicateListenAddrs)]);
    assert!(has_disconnect(&second, 42));
}

#[test]
fn duplicate_observed_reported() {
    let mut protocol = IdentifyProtocol::new(local_callback());
    protocol.callback.network_state.register_peer(42, 700, false);
    let session = outbound_session(42, 700);
    let _ = protocol.connected(outbound_session(42, 700), 1_000);

    let mut effects = Effects::new();
    let first = protocol.process_observed(&session, global_tcp(0x0808_0404, 8115), &mut effects);
    assert!(!first.is_disconnect());
    assert!(effects.reports.is_empty());

    let second = protocol.process_observed(&session, global_tcp(0x0808_0404, 8115), &mut effects);
    assert!(second.is_disconnect());
    assert_eq!(effects.reports, vec![(42, Misbehavior::DuplicateObservedAddr)]);
}

#[test]
fn flag_gap_disconnects_without_opening() {
    let publics = vec![(global_tcp(0x0808_0808, 8115), 5u64)];
    let state = NetworkState::new(publics, vec![0u64, 1, FEELER_PROTOCOL_ID, 100]);
    let callback = IdentifyCallback {
        network_state: state,
        identify: Identify::new(b"mainnet".to_vec(), Flags(0x3), b"v1".to_vec()),
    };
    let mut protocol = IdentifyProtocol::new(callback);
    protocol.callback.network_state.register_peer(42, 700, false);
    let session = outbound_session(42, 700);
    let _ = protocol.connected(outbound_session(42, 700), 1_000);

    let effects = protocol.received(&session, &remote_message(b"mainnet", 0x1, b"v2"));
    assert!(has_disconnect(&effects, 42));
    assert!(!effects.commands.iter().any(|c| matches!(c, Command::OpenProtocols(..))));
    let peer = protocol.callback.network_state.get_peer(42).expect("peer registered");
    assert_eq!(peer.identify_info, None);
}

#[test]
fn feeler_peer_opens_only_feeler_protocol() {
    let mut protocol = IdentifyProtocol::new(local_callback());
    protocol.callback.network_state.register_peer(42, 700, true);
    let session = outbound_session(42, 700);
    let _ = protocol.connected(outbound_session(42, 700), 1_000);

    let effects = protocol.received(&session, &remote_message(b"mainnet", 1, b"v2"));
    assert!(!has_disconnect(&effects, 42));
    let opens: Vec<&Command> = effects
        .commands
        .iter()
        .filter(|c| matches!(c, Command::OpenProtocols(..)))
        .collect();
    assert_eq!(
        opens,
        vec![&Command::OpenProtocols(42, TargetProtocol::Single(FEELER_PROTOCOL_ID))]
    );
}

#[test]
fn inbound_peer_records_version_without_opening() {
    let mut protocol = IdentifyProtocol::new(local_callback());
    protocol.callback.network_state.register_peer(42, 700, false);
    let mut session = outbound_session(42, 700);
    session.ty = SessionType::Inbound;
    let _ = protocol.connected(
        SessionInfo { ty: SessionType::Inbound, ..outbound_session(42, 700) },
        1_000,
    );

    let effects = protocol.received(&session, &remote_message(b"mainnet", 1, b"v2"));
    assert!(!has_disconnect(&effects, 42));
    assert!(!effects.commands.iter().any(|c| matches!(c, Command::OpenProtocols(..))));
    let peer = protocol.callback.network_state.get_peer(42).expect("peer registered");
    assert_eq!(peer.identify_info, Some(b"v2".to_vec()));
}

#[test]
fn timeout_reported_on_first_tick_past_deadline() {
    let mut protocol = IdentifyProtocol::new(local_callback());
    protocol.callback.network_state.register_peer(42, 700, false);
    let _ = protocol.connected(outbound_session(42, 700), 1_000);

    let early = protocol.notify(8_999);
    assert!(early.reports.is_empty());

    let late = protocol.notify(9_000);
    assert_eq!(late.reports, vec![(42, Misbehavior::Timeout)]);
    assert!(has_disconnect(&late, 42));
}

#[test]
fn unauthenticated_session_is_disconnected_without_state() {
    let mut protocol = IdentifyProtocol::new(local_callback());
    let mut session = outbound_session(42, 700);
    session.remote_pubkey = None;
    let effects = protocol.connected(session, 1_000);

    assert_eq!(effects.commands, vec![Command::Disconnect(42)]);
    assert_eq!(protocol.remote_infos.len(), 0);

    // the whole instance is silenced afterwards
    let other = outbound_session(43, 701);
    let silenced = protocol.received(&other, &remote_message(b"mainnet", 1, b"v2"));
    assert!(silenced.reports.is_empty());
    assert!(silenced.commands.is_empty());
}

#[test]
fn invalid_data_reported() {
    let mut protocol = IdentifyProtocol::new(local_callback());
    protocol.callback.network_state.register_peer(42, 700, false);
    let session = outbound_session(42, 700);
    let _ = protocol.connected(outbound_session(42, 700), 1_000);

    let effects = protocol.received(&session, &vec![0xde, 0xad, 0xbe, 0xef]);
    assert_eq!(effects.reports, vec![(42, Misbehavior::InvalidData)]);
    assert!(has_disconnect(&effects, 42));
}

#[test]
fn non_global_listens_are_filtered_out() {
    let mut protocol = IdentifyProtocol::new(local_callback());
    protocol.callback.network_state.register_peer(42, 700, false);
    let session = outbound_session(42, 700);
    let _ = protocol.connected(outbound_session(42, 700), 1_000);

    let mut effects = Effects::new();
    let listens = vec![
        global_tcp(0xC0A8_0105, 7),  // 192.168.1.5, private
        global_tcp(0x0909_0909, 7),  // global
        global_tcp(0x7F00_0001, 7),  // 127.0.0.1, loopback
    ];
    let verdict = protocol.process_listens(&session, listens, &mut effects);
    assert!(!verdict.is_disconnect());

    let info = protocol.remote_infos.get(42).expect("handshake state present");
    assert_eq!(info.listen_addrs, Some(vec![global_tcp(0x0909_0909, 7)]));
    assert_eq!(protocol.callback.network_state.store_len(), 1);
    assert_eq!(protocol.callback.network_state.store_at(0).1, global_tcp(0x0909_0909, 7));
}

#[test]
fn disconnect_removes_handshake_state() {
    let mut protocol = IdentifyProtocol::new(local_callback());
    protocol.callback.network_state.register_peer(42, 700, false);
    let _ = protocol.connected(outbound_session(42, 700), 1_000);
    assert_eq!(protocol.remote_infos.len(), 1);
    protocol.disconnected(42);
    assert_eq!(protocol.remote_infos.len(), 0);
}

#[test]
fn default_policy_disconnects_on_every_kind() {
    let mut callback = local_callback();
    let kinds = vec![
        Misbehavior::DuplicateListenAddrs,
        Misbehavior::DuplicateObservedAddr,
        Misbehavior::Timeout,
        Misbehavior::InvalidData,
        Misbehavior::TooManyAddresses(11),
    ];
    for kind in kinds {
        assert!(callback.do_misbehave(700, kind).is_disconnect());
    }
}

#[test]
fn advertised_listens_take_the_best_scores_first() {
    let publics = vec![
        (global_tcp(0x0808_0801, 1), 1u64),
        (global_tcp(0x0808_0802, 2), 9u64),
        (global_tcp(0x0808_0803, 3), 5u64),
    ];
    let state = NetworkState::new(publics, vec![0u64, FEELER_PROTOCOL_ID]);
    let callback = IdentifyCallback::new(state, b"mainnet".to_vec(), b"v1".to_vec());
    let mut protocol = IdentifyProtocol::new(callback);
    let hello = protocol.connected(outbound_session(42, 700), 1_000);
    match &hello.commands[0] {
        Command::QuickSend(_, payload) => {
            let sent = IdentifyMessage::decode(payload).expect("sent hello must decode");
            assert_eq!(
                sent.listen_addrs,
                vec![
                    global_tcp(0x0808_0802, 2),
                    global_tcp(0x0808_0803, 3),
                    global_tcp(0x0808_0801, 1),
                ]
            );
        },
        other => panic!("expected a hello send, got {:?}", other),
    }
}
