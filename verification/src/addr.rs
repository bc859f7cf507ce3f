//! Composite network addresses, modelled as the component sequences the
//! protocol logic actually reads: IP components, a TCP port, an embedded
//! peer id, and a placeholder for other transport components.

use vstd::prelude::*;

use crate::seqs::{filtered, lemma_filtered_step};

verus! {

/// Whether a session was dialed by us or accepted from outside.
#[derive(Copy, Clone, Debug, PartialEq, Eq, Structural)]
pub enum SessionType {
    Inbound,
    Outbound,
}

impl SessionType {
    pub fn is_outbound(self) -> (r: bool)
        ensures
            r == (self is Outbound),
    {
        match self {
            SessionType::Outbound => true,
            SessionType::Inbound => false,
        }
    }

    pub fn is_inbound(self) -> (r: bool)
        ensures
            r == (self is Inbound),
    {
        match self {
            SessionType::Inbound => true,
            SessionType::Outbound => false,
        }
    }
}

/// An IP address, version 4 as its 32 bits, version 6 as its 128 bits.
#[derive(Copy, Clone, Debug, PartialEq, Eq, Structural)]
pub enum Ip {
    V4(u32),
    V6(u128),
}

/// One component of a composite address. Peer identities are carried as
/// opaque 64-bit tokens; the surrounding program maps real keys to tokens.
#[derive(Copy, Clone, Debug, PartialEq, Eq, Structural)]
pub enum AddrComponent {
    /// An IPv4 host, big-endian octets packed into 32 bits.
    Ip4(u32),
    /// An IPv6 host, big-endian octets packed into 128 bits.
    Ip6(u128),
    /// A TCP port.
    Tcp(u16),
    /// An embedded peer id.
    P2p(u64),
    /// A websocket layer, standing for components the logic passes through.
    Ws,
}

/// A composite address: a sequence of components.
#[derive(Debug, PartialEq, Eq)]
pub struct Multiaddr {
    pub components: Vec<AddrComponent>,
}

impl View for Multiaddr {
    type V = Seq<AddrComponent>;

    open spec fn view(&self) -> Seq<AddrComponent> {
        self.components@
    }
}

impl Clone for Multiaddr {
    /// A copy that denotes the same component sequence.
    #[verifier::loop_isolation(false)]
    fn clone(&self) -> (r: Multiaddr)
        ensures
            r@ == self@,
    {
        let n = self.components.len();
        let mut components: Vec<AddrComponent> = Vec::new();
        let mut i: usize = 0;
        while i < n
            invariant
                i <= n,
                components@ == self@.take(i as int),
            decreases n - i,
        {
            components.push(self.components[i]);
            proof {
                assert(components@ =~= self@.take(i + 1));
            }
            i = i + 1;
        }
        proof {
            assert(self@.take(n as int) =~= self@);
        }
        Multiaddr { components }
    }
}

/// The views of a sequence of addresses.
pub open spec fn views_of(l: Seq<Multiaddr>) -> Seq<Seq<AddrComponent>> {
    l.map_values(|a: Multiaddr| a@)
}

/// Copy a list of addresses; the copy denotes the same address views.
#[verifier::loop_isolation(false)]
pub fn clone_addrs(v: &Vec<Multiaddr>) -> (r: Vec<Multiaddr>)
    ensures
        r@.len() == v@.len(),
        forall|i: int| 0 <= i < v@.len() ==> (#[trigger] r@[i])@ == v@[i]@,
        views_of(r@) == views_of(v@),
{
    let n = v.len();
    let mut r: Vec<Multiaddr> = Vec::new();
    let mut i: usize = 0;
    while i < n
        invariant
            i <= n,
            r@.len() == i,
            forall|j: int| 0 <= j < i ==> (#[trigger] r@[j])@ == v@[j]@,
        decreases n - i,
    {
        r.push(v[i].clone());
        i = i + 1;
    }
    proof {
        assert(views_of(r@) =~= views_of(v@));
    }
    r
}

/// The first IP component, if any.
pub open spec fn ip_of(s: Seq<AddrComponent>) -> Option<Ip>
    decreases s.len(),
{
    if s.len() == 0 {
        None
    } else {
        match s[0] {
            AddrComponent::Ip4(a) => Some(Ip::V4(a)),
            AddrComponent::Ip6(a) => Some(Ip::V6(a)),
            _ => ip_of(s.drop_first()),
        }
    }
}

/// The first TCP component, if any.
pub open spec fn tcp_of(s: Seq<AddrComponent>) -> Option<u16>
    decreases s.len(),
{
    if s.len() == 0 {
        None
    } else {
        match s[0] {
            AddrComponent::Tcp(p) => Some(p),
            _ => tcp_of(s.drop_first()),
        }
    }
}

/// The socket an address denotes: its first IP together with its first TCP
/// port, when it has both.
pub open spec fn socket_of(s: Seq<AddrComponent>) -> Option<(Ip, u16)> {
    match (ip_of(s), tcp_of(s)) {
        (Some(ip), Some(port)) => Some((ip, port)),
        _ => None,
    }
}

/// Globally routable IPv4: everything but the unspecified address, loopback,
/// the private and shared ranges, link-local, the protocol-assignment,
/// documentation and benchmarking ranges, multicast, and the reserved
/// quarter (which holds broadcast).
pub open spec fn ip4_global(a: u32) -> bool {
    &&& a != 0  // 0.0.0.0, unspecified
    &&& a & 0xff00_0000 != 0x0a00_0000  // 10.0.0.0/8
    &&& a & 0xffc0_0000 != 0x6440_0000  // 100.64.0.0/10, shared
    &&& a & 0xff00_0000 != 0x7f00_0000  // 127.0.0.0/8, loopback
    &&& a & 0xffff_0000 != 0xa9fe_0000  // 169.254.0.0/16, link-local
    &&& a & 0xfff0_0000 != 0xac10_0000  // 172.16.0.0/12
    &&& a & 0xffff_ff00 != 0xc000_0000  // 192.0.0.0/24, protocol assignments
    &&& a & 0xffff_0000 != 0xc0a8_0000  // 192.168.0.0/16
    &&& a & 0xfffe_0000 != 0xc612_0000  // 198.18.0.0/15, benchmarking
    &&& a & 0xffff_ff00 != 0xc000_0200  // 192.0.2.0/24, documentation
    &&& a & 0xffff_ff00 != 0xc633_6400  // 198.51.100.0/24, documentation
    &&& a & 0xffff_ff00 != 0xcb00_7100  // 203.0.113.0/24, documentation
    &&& a & 0xf000_0000 != 0xe000_0000  // 224.0.0.0/4, multicast
    &&& a & 0xf000_0000 != 0xf000_0000  // 240.0.0.0/4, reserved and broadcast
}

/// Globally routable IPv6: everything but the unspecified address, loopback,
/// unique-local (fc00::/7) and link-local (fe80::/10).
pub open spec fn ip6_global(a: u128) -> bool {
    &&& a != 0  // ::, unspecified
    &&& a != 1  // ::1, loopback
    &&& a & 0xfe00_0000_0000_0000_0000_0000_0000_0000 != 0xfc00_0000_0000_0000_0000_0000_0000_0000
    &&& a & 0xffc0_0000_0000_0000_0000_0000_0000_0000 != 0xfe80_0000_0000_0000_0000_0000_0000_0000
}

/// Globally routable, either version.
pub open spec fn ip_global(ip: Ip) -> bool {
    match ip {
        Ip::V4(a) => ip4_global(a),
        Ip::V6(a) => ip6_global(a),
    }
}

/// An address denotes a socket whose IP is globally routable.
pub open spec fn addr_global(s: Seq<AddrComponent>) -> bool {
    match socket_of(s) {
        Some((ip, _)) => ip_global(ip),
        None => false,
    }
}

/// The reachability predicate the protocol filters by: the address must
/// denote a socket, and when only global IPs are admitted its IP must be
/// globally routable.
pub open spec fn addr_reachable(s: Seq<AddrComponent>, global_only: bool) -> bool {
    match socket_of(s) {
        Some((ip, _)) => !global_only || ip_global(ip),
        None => false,
    }
}

/// Observed-address derivation: the address with every peer-id component
/// dropped.
pub open spec fn stripped_p2p(s: Seq<AddrComponent>) -> Seq<AddrComponent> {
    filtered(s, |c: AddrComponent| !(c is P2p))
}

/// Observed-candidate synthesis: drop peer-id components, rewrite each TCP
/// component to the local port, keep everything else.
pub open spec fn candidate_of(s: Seq<AddrComponent>, port: u16) -> Seq<AddrComponent>
    decreases s.len(),
{
    if s.len() == 0 {
        Seq::empty()
    } else {
        let front = candidate_of(s.drop_last(), port);
        match s.last() {
            AddrComponent::P2p(_) => front,
            AddrComponent::Tcp(_) => front.push(AddrComponent::Tcp(port)),
            c => front.push(c),
        }
    }
}

proof fn lemma_candidate_front(s: Seq<AddrComponent>, port: u16)
    requires
        s.len() > 0,
    ensures
        candidate_of(s, port) == (match s[0] {
            AddrComponent::P2p(_) => candidate_of(s.drop_first(), port),
            AddrComponent::Tcp(_) => seq![AddrComponent::Tcp(port)] + candidate_of(
                s.drop_first(),
                port,
            ),
            c => seq![c] + candidate_of(s.drop_first(), port),
        }),
    decreases s.len(),
{
    if s.len() == 1 {
        assert(s.drop_last() =~= Seq::<AddrComponent>::empty());
        assert(s.drop_first() =~= Seq::<AddrComponent>::empty());
        assert(s.last() == s[0]);
        match s[0] {
            AddrComponent::P2p(_) => {},
            AddrComponent::Tcp(_) => {
                assert(candidate_of(s, port) =~= seq![AddrComponent::Tcp(port)] + candidate_of(
                    s.drop_first(),
                    port,
                ));
            },
            c => {
                assert(candidate_of(s, port) =~= seq![c] + candidate_of(s.drop_first(), port));
            },
        }
    } else {
        lemma_candidate_front(s.drop_last(), port);
        assert(s.drop_last()[0] == s[0]);
        assert(s.drop_last().drop_first() =~= s.drop_first().drop_last());
        assert(s.drop_first().last() == s.last());
        match s[0] {
            AddrComponent::P2p(_) => {},
            AddrComponent::Tcp(_) => {
                match s.last() {
                    AddrComponent::P2p(_) => {},
                    AddrComponent::Tcp(_) => {
                        assert((seq![AddrComponent::Tcp(port)] + candidate_of(
                            s.drop_first().drop_last(),
                            port,
                        )).push(AddrComponent::Tcp(port)) =~= seq![AddrComponent::Tcp(port)]
                            + candidate_of(s.drop_first(), port));
                    },
                    c2 => {
                        assert((seq![AddrComponent::Tcp(port)] + candidate_of(
                            s.drop_first().drop_last(),
                            port,
                        )).push(c2) =~= seq![AddrComponent::Tcp(port)] + candidate_of(
                            s.drop_first(),
                            port,
                        ));
                    },
                }
            },
            c => {
                match s.last() {
                    AddrComponent::P2p(_) => {},
                    AddrComponent::Tcp(_) => {
                        assert((seq![c] + candidate_of(s.drop_first().drop_last(), port)).push(
                            AddrComponent::Tcp(port),
                        ) =~= seq![c] + candidate_of(s.drop_first(), port));
                    },
                    c2 => {
                        assert((seq![c] + candidate_of(s.drop_first().drop_last(), port)).push(
                            c2,
                        ) =~= seq![c] + candidate_of(s.drop_first(), port));
                    },
                }
            },
        }
    }
}

proof fn lemma_candidate_socket(s: Seq<AddrComponent>, port: u16)
    ensures
        ip_of(candidate_of(s, port)) == ip_of(s),
        tcp_of(candidate_of(s, port)) == (match tcp_of(s) {
            Some(_) => Some(port),
            None => None::<u16>,
        }),
    decreases s.len(),
{
    if s.len() > 0 {
        lemma_candidate_front(s, port);
        lemma_candidate_socket(s.drop_first(), port);
        match s[0] {
            AddrComponent::P2p(_) => {},
            AddrComponent::Tcp(_) => {
                let c = candidate_of(s, port);
                assert(c[0] == AddrComponent::Tcp(port));
                assert(c.drop_first() =~= candidate_of(s.drop_first(), port));
            },
            _ => {
                let c = candidate_of(s, port);
                assert(c[0] == s[0]);
                assert(c.drop_first() =~= candidate_of(s.drop_first(), port));
            },
        }
    }
}

/// The reachability filter at the view level.
pub open spec fn reachable_views(l: Seq<Seq<AddrComponent>>, global_only: bool) -> Seq<
    Seq<AddrComponent>,
> {
    filtered(l, |v: Seq<AddrComponent>| addr_reachable(v, global_only))
}

/// Filtering addresses by reachability commutes with taking views, since
/// reachability reads only the view.
pub proof fn lemma_reachable_views_commute(l: Seq<Multiaddr>, global_only: bool)
    ensures
        reachable_views(views_of(l), global_only) == views_of(
            filtered(l, |a: Multiaddr| addr_reachable(a@, global_only)),
        ),
    decreases l.len(),
{
    let pa = |a: Multiaddr| addr_reachable(a@, global_only);
    let pv = |v: Seq<AddrComponent>| addr_reachable(v, global_only);
    if l.len() == 0 {
        assert(views_of(l) =~= Seq::<Seq<AddrComponent>>::empty());
        assert(reachable_views(views_of(l), global_only) =~= views_of(filtered(l, pa)));
    } else {
        lemma_reachable_views_commute(l.drop_last(), global_only);
        assert(views_of(l).drop_last() =~= views_of(l.drop_last()));
        assert(views_of(l).last() == l.last()@);
        if pa(l.last()) {
            assert(views_of(filtered(l.drop_last(), pa).push(l.last())) =~= views_of(
                filtered(l.drop_last(), pa),
            ).push(l.last()@));
        }
    }
}

/// The candidates a list of local listen addresses yields for an observed
/// base address: one per listen address that denotes a socket, in order,
/// each the base with the listen address's port substituted.
pub open spec fn cand_views(las: Seq<Multiaddr>, base: Seq<AddrComponent>) -> Seq<
    Seq<AddrComponent>,
>
    decreases las.len(),
{
    if las.len() == 0 {
        Seq::empty()
    } else {
        let front = cand_views(las.drop_last(), base);
        match socket_of(las.last()@) {
            Some((_, p)) => front.push(candidate_of(base, p)),
            None => front,
        }
    }
}

/// Observed-candidate synthesis keeps the host: a candidate derived from a
/// globally routable address is itself globally routable, with the local
/// port in place of the remote one.
pub proof fn lemma_candidate_global(s: Seq<AddrComponent>, port: u16)
    requires
        addr_global(s),
    ensures
        addr_global(candidate_of(s, port)),
        socket_of(candidate_of(s, port)) matches Some((ip, p)) && Some(ip) == ip_of(s) && p
            == port,
{
    lemma_candidate_socket(s, port);
}

impl Multiaddr {
    /// The socket this address denotes, if it has an IP and a TCP component.
    pub fn socket(&self) -> (r: Option<(Ip, u16)>)
        ensures
            r == socket_of(self@),
    {
        let ip = self.first_ip();
        let port = self.first_tcp();
        match (ip, port) {
            (Some(ip), Some(port)) => Some((ip, port)),
            _ => None,
        }
    }

    #[verifier::loop_isolation(false)]
    fn first_ip(&self) -> (r: Option<Ip>)
        ensures
            r == ip_of(self@),
    {
        let n = self.components.len();
        let mut i: usize = 0;
        proof {
            assert(self@.skip(0) =~= self@);
        }
        while i < n
            invariant
                i <= n,
                ip_of(self@) == ip_of(self@.skip(i as int)),
            decreases n - i,
        {
            proof {
                assert(self@.skip(i as int)[0] == self@[i as int]);
                assert(self@.skip(i as int).drop_first() =~= self@.skip(i + 1));
            }
            match &self.components[i] {
                AddrComponent::Ip4(a) => {
                    return Some(Ip::V4(*a));
                },
                AddrComponent::Ip6(a) => {
                    return Some(Ip::V6(*a));
                },
                _ => {},
            }
            i = i + 1;
        }
        proof {
            assert(self@.skip(n as int) =~= Seq::<AddrComponent>::empty());
        }
        None
    }

    #[verifier::loop_isolation(false)]
    fn first_tcp(&self) -> (r: Option<u16>)
        ensures
            r == tcp_of(self@),
    {
        let n = self.components.len();
        let mut i: usize = 0;
        proof {
            assert(self@.skip(0) =~= self@);
        }
        while i < n
            invariant
                i <= n,
                tcp_of(self@) == tcp_of(self@.skip(i as int)),
            decreases n - i,
        {
            proof {
                assert(self@.skip(i as int)[0] == self@[i as int]);
                assert(self@.skip(i as int).drop_first() =~= self@.skip(i + 1));
            }
            if let AddrComponent::Tcp(p) = &self.components[i] {
                return Some(*p);
            }
            i = i + 1;
        }
        proof {
            assert(self@.skip(n as int) =~= Seq::<AddrComponent>::empty());
        }
        None
    }

    /// Whether the protocol treats this address as reachable, under the
    /// given global-IP-only policy.
    pub fn reachable(&self, global_only: bool) -> (r: bool)
        ensures
            r == addr_reachable(self@, global_only),
    {
        match self.socket() {
            Some((ip, _)) => {
                if !global_only {
                    true
                } else {
                    ip_is_global(ip)
                }
            },
            None => false,
        }
    }

    /// Whether this address denotes a socket on a globally routable IP.
    pub fn is_global(&self) -> (r: bool)
        ensures
            r == addr_global(self@),
    {
        match self.socket() {
            Some((ip, _)) => ip_is_global(ip),
            None => false,
        }
    }

    /// The address with every peer-id component removed.
    #[verifier::loop_isolation(false)]
    pub fn strip_p2p(&self) -> (r: Multiaddr)
        ensures
            r@ == stripped_p2p(self@),
    {
        let n = self.components.len();
        let mut out: Vec<AddrComponent> = Vec::new();
        let ghost p = |c: AddrComponent| !(c is P2p);
        let mut i: usize = 0;
        while i < n
            invariant
                i <= n,
                out@ == filtered(self@.take(i as int), p),
            decreases n - i,
        {
            proof {
                lemma_filtered_step(self@, p, i as int);
                assert(self@.take(n as int) =~= self@);
            }
            match self.components[i] {
                AddrComponent::P2p(_) => {},
                c => {
                    out.push(c);
                },
            }
            i = i + 1;
        }
        proof {
            assert(self@.take(n as int) =~= self@);
        }
        Multiaddr { components: out }
    }

    /// The observed candidate this address yields for a local TCP port.
    #[verifier::loop_isolation(false)]
    pub fn candidate(&self, port: u16) -> (r: Multiaddr)
        ensures
            r@ == candidate_of(self@, port),
    {
        let n = self.components.len();
        let mut out: Vec<AddrComponent> = Vec::new();
        let mut i: usize = 0;
        while i < n
            invariant
                i <= n,
                out@ == candidate_of(self@.take(i as int), port),
            decreases n - i,
        {
            proof {
                assert(self@.take(i + 1).drop_last() =~= self@.take(i as int));
                assert(self@.take(i + 1).last() == self@[i as int]);
            }
            match self.components[i] {
                AddrComponent::P2p(_) => {},
                AddrComponent::Tcp(_) => {
                    out.push(AddrComponent::Tcp(port));
                },
                c => {
                    out.push(c);
                },
            }
            i = i + 1;
        }
        proof {
            assert(self@.take(n as int) =~= self@);
        }
        Multiaddr { components: out }
    }
}

/// Whether an IP is globally routable; mirrors `ip_global`.
pub fn ip_is_global(ip: Ip) -> (r: bool)
    ensures
        r == ip_global(ip),
{
    match ip {
        Ip::V4(a) => {
            a != 0 && (a & 0xff00_0000) != 0x0a00_0000 && (a & 0xffc0_0000) != 0x6440_0000 && (a
                & 0xff00_0000) != 0x7f00_0000 && (a & 0xffff_0000) != 0xa9fe_0000 && (a
                & 0xfff0_0000) != 0xac10_0000 && (a & 0xffff_ff00) != 0xc000_0000 && (a
                & 0xffff_0000) != 0xc0a8_0000 && (a & 0xfffe_0000) != 0xc612_0000 && (a
                & 0xffff_ff00) != 0xc000_0200 && (a & 0xffff_ff00) != 0xc633_6400 && (a
                & 0xffff_ff00) != 0xcb00_7100 && (a & 0xf000_0000) != 0xe000_0000 && (a
                & 0xf000_0000) != 0xf000_0000
        },
        Ip::V6(a) => {
            a != 0 && a != 1 && (a & 0xfe00_0000_0000_0000_0000_0000_0000_0000)
                != 0xfc00_0000_0000_0000_0000_0000_0000_0000 && (a
                & 0xffc0_0000_0000_0000_0000_0000_0000_0000)
                != 0xfe80_0000_0000_0000_0000_0000_0000_0000
        },
    }
}

} // verus!
