//! Wire codec behaviour: round trips, structural failures, payload checks.

use node_core::addr::{AddrComponent, Multiaddr};
use node_core::flags::Flags;
use node_core::identify::Identify;
use node_core::wire::IdentifyMessage;

fn addr(components: Vec<AddrComponent>) -> Multiaddr {
    Multiaddr { components }
}

fn sample_message() -> IdentifyMessage {
    let a1 = addr(vec![AddrComponent::Ip4(0x0808_0808), AddrComponent::Tcp(8115)]);
    let a2 = addr(vec![
        AddrComponent::Ip6(0x2001_0db8_0000_0000_0000_0000_0000_0001),
        AddrComponent::Tcp(443),
        AddrComponent::Ws,
    ]);
    let observed = addr(vec![
        AddrComponent::Ip4(0x0101_0101),
        AddrComponent::Tcp(9),
        AddrComponent::P2p(77),
    ]);
    IdentifyMessage::new(vec![a1, a2], observed, vec![1, 2, 3, 4])
}

#[test]
fn message_round_trip() {
    let message = sample_message();
    let bytes = message.encode();
    let decoded = IdentifyMessage::decode(&bytes).expect("round trip must decode");
    assert_eq!(decoded, message);
}

#[test]
fn message_round_trip_empty_lists() {
    let message = IdentifyMessage::new(vec![], addr(vec![]), vec![]);
    let bytes = message.encode();
    let decoded = IdentifyMessage::decode(&bytes).expect("round trip must decode");
    assert_eq!(decoded, message);
}

#[test]
fn decode_rejects_empty_input() {
    assert_eq!(IdentifyMessage::decode(&vec![]), None);
}

#[test]
fn decode_rejects_truncation() {
    let bytes = sample_message().encode();
    for cut in 0..bytes.len() {
        let truncated: Vec<u8> = bytes[..cut].to_vec();
        assert_eq!(IdentifyMessage::decode(&truncated), None);
    }
}

#[test]
fn decode_rejects_trailing_bytes() {
    let mut bytes = sample_message().encode();
    bytes.push(0);
    assert_eq!(IdentifyMessage::decode(&bytes), None);
}

#[test]
fn decode_rejects_unknown_component_tag() {
    // one address with one component of tag 9
    let mut bytes = Vec::new();
    bytes.extend_from_slice(&1u32.to_le_bytes()); // one listen address
    bytes.extend_from_slice(&1u32.to_le_bytes()); // one component
    bytes.push(9); // unknown tag
    assert_eq!(IdentifyMessage::decode(&bytes), None);
}

#[test]
fn payload_round_trip_through_verify() {
    let mut local = Identify::new(b"mainnet".to_vec(), Flags(1), b"v1".to_vec());
    let encoded = local.encode();
    let (flags, client_version) = local.verify(&encoded).expect("own payload must verify");
    assert_eq!(flags, Flags(1));
    assert_eq!(client_version, b"v1".to_vec());
}

#[test]
fn payload_encoding_is_cached_and_stable() {
    let mut local = Identify::new(b"mainnet".to_vec(), Flags(1), b"v1".to_vec());
    let first = local.encode();
    let second = local.encode();
    assert_eq!(first, second);
}

#[test]
fn verify_rejects_zero_flag() {
    let local = Identify::new(b"mainnet".to_vec(), Flags(1), b"v1".to_vec());
    let mut zero = Identify::new(b"mainnet".to_vec(), Flags(0), b"v1".to_vec());
    let encoded = zero.encode();
    assert!(local.verify(&encoded).is_none());
}

#[test]
fn verify_rejects_other_network_name() {
    let local = Identify::new(b"mainnet".to_vec(), Flags(1), b"v1".to_vec());
    let mut other = Identify::new(b"testnet".to_vec(), Flags(1), b"v1".to_vec());
    let encoded = other.encode();
    assert!(local.verify(&encoded).is_none());
}

#[test]
fn verify_rejects_garbage() {
    let local = Identify::new(b"mainnet".to_vec(), Flags(1), b"v1".to_vec());
    assert!(local.verify(&vec![0xff, 0x00, 0x31]).is_none());
    assert!(local.verify(&vec![]).is_none());
}

#[test]
fn verify_accepts_superset_flags() {
    let local = Identify::new(b"mainnet".to_vec(), Flags(1), b"v1".to_vec());
    let mut remote = Identify::new(b"mainnet".to_vec(), Flags(0b11), b"v9".to_vec());
    let encoded = remote.encode();
    let (flags, client_version) = local.verify(&encoded).expect("same network must verify");
    assert_eq!(flags, Flags(0b11));
    assert!(flags.contains(Flags(1)));
    assert_eq!(client_version, b"v9".to_vec());
}
