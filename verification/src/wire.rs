//! The identify wire codec: a deterministic, length-tagged binary format
//! for the envelope (listen addresses, observed address, embedded identify
//! bytes) and for the identify payload (name, flag, client version).
//!
//! Encoding is specified by `spec` functions over byte sequences; decoding
//! is their cursor-style inverse, and decoding an encoding is proved to be
//! the identity.

use vstd::prelude::*;

use crate::addr::{views_of, AddrComponent, Multiaddr};
use crate::bytes::{
    dec_bytes, dec_u128, dec_u16, dec_u32, dec_u64, enc_bytes, enc_u128, enc_u16, enc_u32,
    enc_u64, lemma_dec_enc_bytes, lemma_dec_enc_u128, lemma_dec_enc_u16, lemma_dec_enc_u32,
    lemma_dec_enc_u64, read_bytes, read_u128, read_u16, read_u32, read_u64, write_bytes,
    write_u128, write_u16, write_u32, write_u64,
};

verus! {

pub const TAG_IP4: u8 = 1;

pub const TAG_IP6: u8 = 2;

pub const TAG_TCP: u8 = 3;

pub const TAG_P2P: u8 = 4;

pub const TAG_WS: u8 = 5;

/// One address component: a tag byte, then its fixed-width body.
pub open spec fn enc_component(c: AddrComponent) -> Seq<u8> {
    match c {
        AddrComponent::Ip4(a) => seq![TAG_IP4] + enc_u32(a),
        AddrComponent::Ip6(a) => seq![TAG_IP6] + enc_u128(a),
        AddrComponent::Tcp(p) => seq![TAG_TCP] + enc_u16(p),
        AddrComponent::P2p(id) => seq![TAG_P2P] + enc_u64(id),
        AddrComponent::Ws => seq![TAG_WS],
    }
}

pub open spec fn enc_components(s: Seq<AddrComponent>) -> Seq<u8>
    decreases s.len(),
{
    if s.len() == 0 {
        Seq::empty()
    } else {
        enc_components(s.drop_last()) + enc_component(s.last())
    }
}

/// An address fits on the wire when its component count has a 32-bit tag.
pub open spec fn addr_wf(s: Seq<AddrComponent>) -> bool {
    s.len() < 0x1_0000_0000
}

/// An address: a 32-bit component count, then the components.
pub open spec fn enc_addr(s: Seq<AddrComponent>) -> Seq<u8>
    recommends
        addr_wf(s),
{
    enc_u32(s.len() as u32) + enc_components(s)
}

pub open spec fn enc_addr_list(l: Seq<Seq<AddrComponent>>) -> Seq<u8>
    decreases l.len(),
{
    if l.len() == 0 {
        Seq::empty()
    } else {
        enc_addr_list(l.drop_last()) + enc_addr(l.last())
    }
}

/// The whole envelope fits on the wire.
pub open spec fn msg_wf(
    listens: Seq<Seq<AddrComponent>>,
    observed: Seq<AddrComponent>,
    ident: Seq<u8>,
) -> bool {
    &&& listens.len() < 0x1_0000_0000
    &&& forall|i: int| 0 <= i < listens.len() ==> addr_wf(#[trigger] listens[i])
    &&& addr_wf(observed)
    &&& ident.len() < 0x1_0000_0000
}

/// The envelope: address count, listen addresses, observed address, and the
/// embedded identify bytes.
pub open spec fn enc_message(
    listens: Seq<Seq<AddrComponent>>,
    observed: Seq<AddrComponent>,
    ident: Seq<u8>,
) -> Seq<u8>
    recommends
        msg_wf(listens, observed, ident),
{
    enc_u32(listens.len() as u32) + enc_addr_list(listens) + enc_addr(observed) + enc_bytes(ident)
}

/// The identify payload: name, flag, client version.
pub open spec fn enc_payload(name: Seq<u8>, flag: u64, cv: Seq<u8>) -> Seq<u8>
    recommends
        name.len() < 0x1_0000_0000,
        cv.len() < 0x1_0000_0000,
{
    enc_bytes(name) + enc_u64(flag) + enc_bytes(cv)
}

pub open spec fn dec_component(s: Seq<u8>) -> Option<(AddrComponent, Seq<u8>)> {
    if s.len() == 0 {
        None
    } else {
        let tag = s[0];
        let body = s.drop_first();
        if tag == TAG_IP4 {
            match dec_u32(body) {
                Some((a, r)) => Some((AddrComponent::Ip4(a), r)),
                None => None,
            }
        } else if tag == TAG_IP6 {
            match dec_u128(body) {
                Some((a, r)) => Some((AddrComponent::Ip6(a), r)),
                None => None,
            }
        } else if tag == TAG_TCP {
            match dec_u16(body) {
                Some((p, r)) => Some((AddrComponent::Tcp(p), r)),
                None => None,
            }
        } else if tag == TAG_P2P {
            match dec_u64(body) {
                Some((id, r)) => Some((AddrComponent::P2p(id), r)),
                None => None,
            }
        } else if tag == TAG_WS {
            Some((AddrComponent::Ws, body))
        } else {
            None
        }
    }
}

pub open spec fn dec_components(s: Seq<u8>, n: nat) -> Option<(Seq<AddrComponent>, Seq<u8>)>
    decreases n,
{
    if n == 0 {
        Some((Seq::empty(), s))
    } else {
        match dec_component(s) {
            Some((c, s1)) => match dec_components(s1, (n - 1) as nat) {
                Some((cs, s2)) => Some((seq![c] + cs, s2)),
                None => None,
            },
            None => None,
        }
    }
}

pub open spec fn dec_addr(s: Seq<u8>) -> Option<(Seq<AddrComponent>, Seq<u8>)> {
    match dec_u32(s) {
        Some((n, s1)) => dec_components(s1, n as nat),
        None => None,
    }
}

pub open spec fn dec_addr_list(s: Seq<u8>, n: nat) -> Option<(Seq<Seq<AddrComponent>>, Seq<u8>)>
    decreases n,
{
    if n == 0 {
        Some((Seq::empty(), s))
    } else {
        match dec_addr(s) {
            Some((a, s1)) => match dec_addr_list(s1, (n - 1) as nat) {
                Some((l, s2)) => Some((seq![a] + l, s2)),
                None => None,
            },
            None => None,
        }
    }
}

/// Decode a whole envelope; every byte must be consumed.
pub open spec fn dec_message(s: Seq<u8>) -> Option<
    (Seq<Seq<AddrComponent>>, Seq<AddrComponent>, Seq<u8>),
> {
    match dec_u32(s) {
        Some((n, s1)) => match dec_addr_list(s1, n as nat) {
            Some((listens, s2)) => match dec_addr(s2) {
                Some((observed, s3)) => match dec_bytes(s3) {
                    Some((ident, s4)) => if s4.len() == 0 {
                        Some((listens, observed, ident))
                    } else {
                        None
                    },
                    None => None,
                },
                None => None,
            },
            None => None,
        },
        None => None,
    }
}

/// Decode a whole identify payload; every byte must be consumed.
pub open spec fn dec_payload(s: Seq<u8>) -> Option<(Seq<u8>, u64, Seq<u8>)> {
    match dec_bytes(s) {
        Some((name, s1)) => match dec_u64(s1) {
            Some((flag, s2)) => match dec_bytes(s2) {
                Some((cv, s3)) => if s3.len() == 0 {
                    Some((name, flag, cv))
                } else {
                    None
                },
                None => None,
            },
            None => None,
        },
        None => None,
    }
}

proof fn lemma_dec_enc_component(c: AddrComponent, rest: Seq<u8>)
    ensures
        dec_component(enc_component(c) + rest) == Some((c, rest)),
{
    let s = enc_component(c) + rest;
    match c {
        AddrComponent::Ip4(a) => {
            assert(s.drop_first() =~= enc_u32(a) + rest);
            lemma_dec_enc_u32(a, rest);
        },
        AddrComponent::Ip6(a) => {
            assert(s.drop_first() =~= enc_u128(a) + rest);
            lemma_dec_enc_u128(a, rest);
        },
        AddrComponent::Tcp(p) => {
            assert(s.drop_first() =~= enc_u16(p) + rest);
            lemma_dec_enc_u16(p, rest);
        },
        AddrComponent::P2p(id) => {
            assert(s.drop_first() =~= enc_u64(id) + rest);
            lemma_dec_enc_u64(id, rest);
        },
        AddrComponent::Ws => {
            assert(s.drop_first() =~= rest);
        },
    }
}

proof fn lemma_enc_components_front(cs: Seq<AddrComponent>)
    requires
        cs.len() > 0,
    ensures
        enc_components(cs) == enc_component(cs[0]) + enc_components(cs.drop_first()),
    decreases cs.len(),
{
    if cs.len() == 1 {
        assert(cs.drop_last() =~= Seq::<AddrComponent>::empty());
        assert(cs.drop_first() =~= Seq::<AddrComponent>::empty());
        assert(cs.last() == cs[0]);
        assert(enc_components(cs) =~= enc_component(cs[0]) + enc_components(cs.drop_first()));
    } else {
        lemma_enc_components_front(cs.drop_last());
        assert(cs.drop_last()[0] == cs[0]);
        assert(cs.drop_last().drop_first() =~= cs.drop_first().drop_last());
        assert(cs.drop_first().last() == cs.last());
        assert(enc_components(cs.drop_first()) == enc_components(cs.drop_first().drop_last())
            + enc_component(cs.drop_first().last()));
        assert((enc_component(cs[0]) + enc_components(cs.drop_first().drop_last()))
            + enc_component(cs.last()) =~= enc_component(cs[0]) + enc_components(
            cs.drop_first(),
        ));
    }
}

proof fn lemma_dec_enc_components(cs: Seq<AddrComponent>, rest: Seq<u8>)
    ensures
        dec_components(enc_components(cs) + rest, cs.len()) == Some((cs, rest)),
    decreases cs.len(),
{
    if cs.len() == 0 {
        assert(enc_components(cs) + rest =~= rest);
    } else {
        lemma_enc_components_front(cs);
        assert(enc_components(cs) + rest =~= enc_component(cs[0]) + (enc_components(
            cs.drop_first(),
        ) + rest));
        lemma_dec_enc_component(cs[0], enc_components(cs.drop_first()) + rest);
        lemma_dec_enc_components(cs.drop_first(), rest);
        assert(seq![cs[0]] + cs.drop_first() =~= cs);
    }
}

proof fn lemma_dec_enc_addr(a: Seq<AddrComponent>, rest: Seq<u8>)
    requires
        addr_wf(a),
    ensures
        dec_addr(enc_addr(a) + rest) == Some((a, rest)),
{
    assert(enc_addr(a) + rest =~= enc_u32(a.len() as u32) + (enc_components(a) + rest));
    lemma_dec_enc_u32(a.len() as u32, enc_components(a) + rest);
    lemma_dec_enc_components(a, rest);
}

proof fn lemma_enc_addr_list_front(l: Seq<Seq<AddrComponent>>)
    requires
        l.len() > 0,
    ensures
        enc_addr_list(l) == enc_addr(l[0]) + enc_addr_list(l.drop_first()),
    decreases l.len(),
{
    if l.len() == 1 {
        assert(l.drop_last() =~= Seq::<Seq<AddrComponent>>::empty());
        assert(l.drop_first() =~= Seq::<Seq<AddrComponent>>::empty());
        assert(l.last() == l[0]);
        assert(enc_addr_list(l) =~= enc_addr(l[0]) + enc_addr_list(l.drop_first()));
    } else {
        lemma_enc_addr_list_front(l.drop_last());
        assert(l.drop_last()[0] == l[0]);
        assert(l.drop_last().drop_first() =~= l.drop_first().drop_last());
        assert(l.drop_first().last() == l.last());
        assert(enc_addr_list(l.drop_first()) == enc_addr_list(l.drop_first().drop_last())
            + enc_addr(l.drop_first().last()));
        assert((enc_addr(l[0]) + enc_addr_list(l.drop_first().drop_last())) + enc_addr(l.last())
            =~= enc_addr(l[0]) + enc_addr_list(l.drop_first()));
    }
}

#[verifier::rlimit(40)]
proof fn lemma_dec_enc_addr_list(l: Seq<Seq<AddrComponent>>, rest: Seq<u8>)
    requires
        forall|i: int| 0 <= i < l.len() ==> addr_wf(#[trigger] l[i]),
    ensures
        dec_addr_list(enc_addr_list(l) + rest, l.len()) == Some((l, rest)),
    decreases l.len(),
{
    if l.len() == 0 {
        assert(enc_addr_list(l) + rest =~= rest);
    } else {
        lemma_enc_addr_list_front(l);
        assert(enc_addr_list(l) + rest =~= enc_addr(l[0]) + (enc_addr_list(l.drop_first())
            + rest));
        lemma_dec_enc_addr(l[0], enc_addr_list(l.drop_first()) + rest);
        assert(forall|i: int|
            0 <= i < l.drop_first().len() ==> addr_wf(#[trigger] l.drop_first()[i]));
        lemma_dec_enc_addr_list(l.drop_first(), rest);
        assert(seq![l[0]] + l.drop_first() =~= l);
    }
}

/// Decoding an encoded envelope gives back exactly the envelope: the codec
/// round-trips on every well-formed message.
pub proof fn lemma_message_round_trip(
    listens: Seq<Seq<AddrComponent>>,
    observed: Seq<AddrComponent>,
    ident: Seq<u8>,
)
    requires
        msg_wf(listens, observed, ident),
    ensures
        dec_message(enc_message(listens, observed, ident)) == Some((listens, observed, ident)),
{
    let tail3 = enc_bytes(ident);
    let tail2 = enc_addr(observed) + tail3;
    let tail1 = enc_addr_list(listens) + tail2;
    assert(enc_message(listens, observed, ident) =~= enc_u32(listens.len() as u32) + tail1);
    lemma_dec_enc_u32(listens.len() as u32, tail1);
    assert(tail1 =~= enc_addr_list(listens) + tail2);
    lemma_dec_enc_addr_list(listens, tail2);
    lemma_dec_enc_addr(observed, tail3);
    lemma_dec_enc_bytes(ident, Seq::empty());
    assert(enc_bytes(ident) + Seq::<u8>::empty() =~= enc_bytes(ident));
}

/// Decoding an encoded identify payload gives back exactly the payload.
pub proof fn lemma_payload_round_trip(name: Seq<u8>, flag: u64, cv: Seq<u8>)
    requires
        name.len() < 0x1_0000_0000,
        cv.len() < 0x1_0000_0000,
    ensures
        dec_payload(enc_payload(name, flag, cv)) == Some((name, flag, cv)),
{
    let tail2 = enc_bytes(cv);
    let tail1 = enc_u64(flag) + tail2;
    assert(enc_payload(name, flag, cv) =~= enc_bytes(name) + tail1);
    lemma_dec_enc_bytes(name, tail1);
    lemma_dec_enc_u64(flag, tail2);
    lemma_dec_enc_bytes(cv, Seq::empty());
    assert(enc_bytes(cv) + Seq::<u8>::empty() =~= enc_bytes(cv));
}

/// The identify envelope as it crosses the wire.
#[derive(Clone, Debug, PartialEq, Eq)]
pub struct IdentifyMessage {
    /// Addresses the remote claims to listen on (at most ten are honoured).
    pub listen_addrs: Vec<Multiaddr>,
    /// The address from which the remote observed this session.
    pub observed_addr: Multiaddr,
    /// The encoded identify payload.
    pub identify: Vec<u8>,
}

impl IdentifyMessage {
    pub open spec fn wf(self) -> bool {
        msg_wf(views_of(self.listen_addrs@), self.observed_addr@, self.identify@)
    }

    pub open spec fn enc(self) -> Seq<u8> {
        enc_message(views_of(self.listen_addrs@), self.observed_addr@, self.identify@)
    }

    pub fn new(listen_addrs: Vec<Multiaddr>, observed_addr: Multiaddr, identify: Vec<u8>) -> (r:
        IdentifyMessage)
        ensures
            r.listen_addrs == listen_addrs,
            r.observed_addr == observed_addr,
            r.identify == identify,
    {
        IdentifyMessage { listen_addrs, observed_addr, identify }
    }

    /// Serialize the envelope.
    #[verifier::loop_isolation(false)]
    pub fn encode(&self) -> (r: Vec<u8>)
        requires
            self.wf(),
        ensures
            r@ == self.enc(),
    {
        let ghost vl = views_of(self.listen_addrs@);
        let mut out: Vec<u8> = Vec::new();
        write_u32(&mut out, self.listen_addrs.len() as u32);
        let n = self.listen_addrs.len();
        let mut i: usize = 0;
        while i < n
            invariant
                i <= n,
                out@ == enc_u32(vl.len() as u32) + enc_addr_list(vl.take(i as int)),
            decreases n - i,
        {
            proof {
                assert(vl.take(i + 1).drop_last() =~= vl.take(i as int));
                assert(vl.take(i + 1).last() == vl[i as int]);
            }
            write_addr(&mut out, &self.listen_addrs[i]);
            i = i + 1;
        }
        proof {
            assert(vl.take(n as int) =~= vl);
        }
        write_addr(&mut out, &self.observed_addr);
        write_bytes(&mut out, &self.identify);
        proof {
            assert(out@ =~= self.enc());
        }
        out
    }

    /// Parse an envelope; `None` on any structural failure, including
    /// trailing bytes.
    #[verifier::loop_isolation(false)]
    pub fn decode(data: &Vec<u8>) -> (r: Option<IdentifyMessage>)
        ensures
            match r {
                Some(m) => dec_message(data@) == Some(
                    (views_of(m.listen_addrs@), m.observed_addr@, m.identify@),
                ),
                None => dec_message(data@) is None,
            },
    {
        proof {
            assert(data@.skip(0) =~= data@);
        }
        let (count, p0) = match read_u32(data, 0) {
            Some(x) => x,
            None => {
                return None;
            },
        };
        let mut listens: Vec<Multiaddr> = Vec::new();
        let mut p: usize = p0;
        let mut i: u32 = 0;
        while i < count
            invariant
                p0 <= p <= data@.len(),
                i <= count,
                match dec_addr_list(data@.skip(p as int), (count - i) as nat) {
                    Some((items, rem)) => dec_addr_list(data@.skip(p0 as int), count as nat)
                        == Some((views_of(listens@) + items, rem)),
                    None => dec_addr_list(data@.skip(p0 as int), count as nat) is None,
                },
            decreases count - i,
        {
            match read_addr(data, p) {
                Some((a, p2)) => {
                    proof {
                        let ghost s1 = data@.skip(p2 as int);
                        let ghost d = dec_addr_list(s1, (count - i - 1) as nat);
                        if d is Some {
                            assert(views_of(listens@.push(a)) =~= views_of(listens@) + seq![a@]);
                            assert((views_of(listens@) + seq![a@]) + d->Some_0.0 =~= views_of(
                                listens@,
                            ) + (seq![a@] + d->Some_0.0));
                        }
                    }
                    listens.push(a);
                    p = p2;
                    i = i + 1;
                },
                None => {
                    return None;
                },
            }
        }
        proof {
            assert(views_of(listens@) + Seq::<Seq<AddrComponent>>::empty() =~= views_of(
                listens@,
            ));
        }
        let (observed, p3) = match read_addr(data, p) {
            Some(x) => x,
            None => {
                return None;
            },
        };
        let (ident, p4) = match read_bytes(data, p3) {
            Some(x) => x,
            None => {
                return None;
            },
        };
        if p4 != data.len() {
            proof {
                assert(data@.skip(p4 as int).len() > 0);
            }
            return None;
        }
        proof {
            assert(data@.skip(p4 as int).len() == 0);
        }
        Some(IdentifyMessage { listen_addrs: listens, observed_addr: observed, identify: ident })
    }
}

/// Append one encoded component.
fn write_component(out: &mut Vec<u8>, c: &AddrComponent)
    ensures
        final(out)@ == old(out)@ + enc_component(*c),
{
    match c {
        AddrComponent::Ip4(a) => {
            out.push(TAG_IP4);
            write_u32(out, *a);
        },
        AddrComponent::Ip6(a) => {
            out.push(TAG_IP6);
            write_u128(out, *a);
        },
        AddrComponent::Tcp(p) => {
            out.push(TAG_TCP);
            write_u16(out, *p);
        },
        AddrComponent::P2p(id) => {
            out.push(TAG_P2P);
            write_u64(out, *id);
        },
        AddrComponent::Ws => {
            out.push(TAG_WS);
        },
    }
    proof {
        assert(final(out)@ =~= old(out)@ + enc_component(*c));
    }
}

/// Append one encoded address.
#[verifier::loop_isolation(false)]
fn write_addr(out: &mut Vec<u8>, a: &Multiaddr)
    requires
        addr_wf(a@),
    ensures
        final(out)@ == old(out)@ + enc_addr(a@),
{
    write_u32(out, a.components.len() as u32);
    let n = a.components.len();
    let mut i: usize = 0;
    while i < n
        invariant
            i <= n,
            out@ == old(out)@ + enc_u32(a@.len() as u32) + enc_components(a@.take(i as int)),
        decreases n - i,
    {
        proof {
            assert(a@.take(i + 1).drop_last() =~= a@.take(i as int));
            assert(a@.take(i + 1).last() == a@[i as int]);
        }
        write_component(out, &a.components[i]);
        i = i + 1;
    }
    proof {
        assert(a@.take(n as int) =~= a@);
        assert(final(out)@ =~= old(out)@ + enc_addr(a@));
    }
}

/// Read one component.
fn read_component(data: &Vec<u8>, pos: usize) -> (r: Option<(AddrComponent, usize)>)
    requires
        pos <= data@.len(),
    ensures
        match r {
            Some((c, p2)) => {
                &&& pos <= p2 <= data@.len()
                &&& dec_component(data@.skip(pos as int)) == Some((c, data@.skip(p2 as int)))
            },
            None => dec_component(data@.skip(pos as int)) is None,
        },
{
    if pos >= data.len() {
        return None;
    }
    let tag = data[pos];
    proof {
        assert(data@.skip(pos as int)[0] == data@[pos as int]);
        assert(data@.skip(pos as int).drop_first() =~= data@.skip(pos as int + 1));
    }
    if tag == TAG_IP4 {
        match read_u32(data, pos + 1) {
            Some((a, p2)) => Some((AddrComponent::Ip4(a), p2)),
            None => None,
        }
    } else if tag == TAG_IP6 {
        match read_u128(data, pos + 1) {
            Some((a, p2)) => Some((AddrComponent::Ip6(a), p2)),
            None => None,
        }
    } else if tag == TAG_TCP {
        match read_u16(data, pos + 1) {
            Some((p, p2)) => Some((AddrComponent::Tcp(p), p2)),
            None => None,
        }
    } else if tag == TAG_P2P {
        match read_u64(data, pos + 1) {
            Some((id, p2)) => Some((AddrComponent::P2p(id), p2)),
            None => None,
        }
    } else if tag == TAG_WS {
        Some((AddrComponent::Ws, pos + 1))
    } else {
        None
    }
}

/// Read one address.
#[verifier::loop_isolation(false)]
fn read_addr(data: &Vec<u8>, pos: usize) -> (r: Option<(Multiaddr, usize)>)
    requires
        pos <= data@.len(),
    ensures
        match r {
            Some((a, p2)) => {
                &&& pos <= p2 <= data@.len()
                &&& dec_addr(data@.skip(pos as int)) == Some((a@, data@.skip(p2 as int)))
            },
            None => dec_addr(data@.skip(pos as int)) is None,
        },
{
    let (count, p0) = match read_u32(data, pos) {
        Some(x) => x,
        None => {
            return None;
        },
    };
    let mut comps: Vec<AddrComponent> = Vec::new();
    let mut p: usize = p0;
    let mut i: u32 = 0;
    while i < count
        invariant
            p0 <= p <= data@.len(),
            i <= count,
            match dec_components(data@.skip(p as int), (count - i) as nat) {
                Some((items, rem)) => dec_components(data@.skip(p0 as int), count as nat) == Some(
                    (comps@ + items, rem),
                ),
                None => dec_components(data@.skip(p0 as int), count as nat) is None,
            },
        decreases count - i,
    {
        match read_component(data, p) {
            Some((c, p2)) => {
                proof {
                    let ghost s1 = data@.skip(p2 as int);
                    let ghost d = dec_components(s1, (count - i - 1) as nat);
                    if d is Some {
                        assert(comps@.push(c) =~= comps@ + seq![c]);
                        assert((comps@ + seq![c]) + d->Some_0.0 =~= comps@ + (seq![c]
                            + d->Some_0.0));
                    }
                }
                comps.push(c);
                p = p2;
                i = i + 1;
            },
            None => {
                return None;
            },
        }
    }
    proof {
        assert(comps@ + Seq::<AddrComponent>::empty() =~= comps@);
    }
    Some((Multiaddr { components: comps }, p))
}

/// Serialize an identify payload.
pub fn encode_payload(name: &Vec<u8>, flag: u64, cv: &Vec<u8>) -> (r: Vec<u8>)
    requires
        name@.len() < 0x1_0000_0000,
        cv@.len() < 0x1_0000_0000,
    ensures
        r@ == enc_payload(name@, flag, cv@),
{
    let mut out: Vec<u8> = Vec::new();
    write_bytes(&mut out, name);
    write_u64(&mut out, flag);
    write_bytes(&mut out, cv);
    proof {
        assert(out@ =~= enc_payload(name@, flag, cv@));
    }
    out
}

/// Parse an identify payload; `None` on any structural failure, including
/// trailing bytes.
pub fn decode_payload(data: &Vec<u8>) -> (r: Option<(Vec<u8>, u64, Vec<u8>)>)
    ensures
        match r {
            Some((name, flag, cv)) => dec_payload(data@) == Some((name@, flag, cv@)),
            None => dec_payload(data@) is None,
        },
{
    proof {
        assert(data@.skip(0) =~= data@);
    }
    let (name, p1) = match read_bytes(data, 0) {
        Some(x) => x,
        None => {
            return None;
        },
    };
    let (flag, p2) = match read_u64(data, p1) {
        Some(x) => x,
        None => {
            return None;
        },
    };
    let (cv, p3) = match read_bytes(data, p2) {
        Some(x) => x,
        None => {
            return None;
        },
    };
    if p3 != data.len() {
        proof {
            assert(data@.skip(p3 as int).len() > 0);
        }
        return None;
    }
    proof {
        assert(data@.skip(p3 as int).len() == 0);
    }
    Some((name, flag, cv))
}

} // verus!
