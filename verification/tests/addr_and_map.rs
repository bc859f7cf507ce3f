//! Address semantics and the keyed container.

use node_core::addr::{AddrComponent, Ip, Multiaddr};
use node_core::keymap::KeyMap;

fn addr(components: Vec<AddrComponent>) -> Multiaddr {
    Multiaddr { components }
}

#[test]
fn socket_takes_first_ip_and_first_tcp() {
    let a = addr(vec![
        AddrComponent::Ws,
        AddrComponent::Ip4(0x0808_0808),
        AddrComponent::Ip6(1),
        AddrComponent::Tcp(443),
        AddrComponent::Tcp(80),
    ]);
    assert_eq!(a.socket(), Some((Ip::V4(0x0808_0808), 443)));
    assert_eq!(addr(vec![AddrComponent::Tcp(80)]).socket(), None);
    assert_eq!(addr(vec![AddrComponent::Ip4(1)]).socket(), None);
}

#[test]
fn reachability_respects_global_only_policy() {
    let public_addr = addr(vec![AddrComponent::Ip4(0x0808_0808), AddrComponent::Tcp(1)]);
    let private_addr = addr(vec![AddrComponent::Ip4(0xC0A8_0105), AddrComponent::Tcp(1)]);
    let loopback = addr(vec![AddrComponent::Ip4(0x7F00_0001), AddrComponent::Tcp(1)]);
    let linklocal = addr(vec![AddrComponent::Ip4(0xA9FE_0001), AddrComponent::Tcp(1)]);
    let no_socket = addr(vec![AddrComponent::Ip4(0x0808_0808)]);

    let multicast = addr(vec![AddrComponent::Ip4(0xE000_0001), AddrComponent::Tcp(1)]);
    let shared = addr(vec![AddrComponent::Ip4(0x6440_0001), AddrComponent::Tcp(1)]);
    let benchmarking = addr(vec![AddrComponent::Ip4(0xC612_0001), AddrComponent::Tcp(1)]);
    assert!(public_addr.reachable(true));
    assert!(!private_addr.reachable(true));
    assert!(!loopback.reachable(true));
    assert!(!linklocal.reachable(true));
    assert!(!no_socket.reachable(true));
    assert!(!multicast.reachable(true));
    assert!(!shared.reachable(true));
    assert!(!benchmarking.reachable(true));
    // with the policy off, any socket-bearing address is reachable
    assert!(private_addr.reachable(false));
    assert!(!no_socket.reachable(false));
}

#[test]
fn ipv6_global_ranges() {
    let global = addr(vec![
        AddrComponent::Ip6(0x2001_0db8_0000_0000_0000_0000_0000_0001),
        AddrComponent::Tcp(1),
    ]);
    let unique_local = addr(vec![
        AddrComponent::Ip6(0xfc00_0000_0000_0000_0000_0000_0000_0001),
        AddrComponent::Tcp(1),
    ]);
    let link_local = addr(vec![
        AddrComponent::Ip6(0xfe80_0000_0000_0000_0000_0000_0000_0001),
        AddrComponent::Tcp(1),
    ]);
    let loopback = addr(vec![AddrComponent::Ip6(1), AddrComponent::Tcp(1)]);
    assert!(global.is_global());
    assert!(!unique_local.is_global());
    assert!(!link_local.is_global());
    assert!(!loopback.is_global());
}

#[test]
fn strip_p2p_drops_only_peer_components() {
    let a = addr(vec![
        AddrComponent::Ip4(1),
        AddrComponent::P2p(9),
        AddrComponent::Tcp(2),
        AddrComponent::P2p(10),
        AddrComponent::Ws,
    ]);
    assert_eq!(
        a.strip_p2p(),
        addr(vec![AddrComponent::Ip4(1), AddrComponent::Tcp(2), AddrComponent::Ws])
    );
}

#[test]
fn candidate_substitutes_local_port() {
    let observed = addr(vec![
        AddrComponent::Ip4(0x0808_0404),
        AddrComponent::Tcp(4444),
        AddrComponent::P2p(9),
        AddrComponent::Ws,
    ]);
    assert_eq!(
        observed.candidate(8115),
        addr(vec![AddrComponent::Ip4(0x0808_0404), AddrComponent::Tcp(8115), AddrComponent::Ws])
    );
}

#[test]
fn keymap_insert_get_remove() {
    let mut m: KeyMap<u64> = KeyMap::new();
    assert_eq!(m.len(), 0);
    assert!(!m.contains_key(5));

    m.insert(5, 50);
    m.insert(6, 60);
    m.insert(5, 55);
    assert_eq!(m.len(), 2);
    assert_eq!(m.get(5), Some(&55));
    assert_eq!(m.get(6), Some(&60));
    assert_eq!(m.key_at(0), 5);
    assert_eq!(m.key_at(1), 6);

    assert_eq!(m.remove(5), Some(55));
    assert_eq!(m.remove(5), None);
    assert_eq!(m.len(), 1);
    assert_eq!(m.get(5), None);
    assert_eq!(m.get(6), Some(&60));
}
