//! Networks: the thing on the other side of an interface.
//!
//! netd has to say "this is the same network as last time" with nothing on the
//! wire that says so. A wired network is the DHCP server that answered plus
//! the subnet it handed out; an IPv6-only network is the router that
//! advertised plus its first prefix. Every signal is recorded, so a later
//! proof — an authenticated peer, a known certificate — can replace the guess
//! without changing the key.

use vstd::prelude::*;
use vstd::string::*;
use vstd::utf8::*;
use crate::addr;
use crate::addr::{IpAddr, Ipv4Addr, Ipv6Addr};
use crate::addr6;
use crate::bytes;
use crate::digest;
use crate::text;
use super::model;

verus! {

/// What the network showed us, from which its identity is derived.
#[derive(Debug, PartialEq, Eq)]
pub struct Signals {
    /// The interface kind the network was seen on.
    pub kind: String,
    /// The DHCPv4 server that answered.
    pub server: Option<Ipv4Addr>,
    /// The subnet the lease placed us in.
    pub subnet: Option<(Ipv4Addr, u8)>,
    /// The way out the lease offered.
    pub gateway: Option<Ipv4Addr>,
    /// The router that advertised (its link-local address).
    pub router6: Option<Ipv6Addr>,
    /// The advertised prefixes.
    pub prefixes6: Vec<(Ipv6Addr, u8)>,
    /// The name servers the network offered, either family.
    pub dns: Vec<IpAddr>,
}

/// The same as values.
#[verifier::ext_equal]
pub struct SignalsV {
    pub kind: Seq<char>,
    pub server: Option<Ipv4Addr>,
    pub subnet: Option<(Ipv4Addr, u8)>,
    pub gateway: Option<Ipv4Addr>,
    pub router6: Option<Ipv6Addr>,
    pub prefixes6: Seq<(Ipv6Addr, u8)>,
    pub dns: Seq<IpAddr>,
}

impl View for Signals {
    type V = SignalsV;

    open spec fn view(&self) -> SignalsV {
        SignalsV {
            kind: self.kind@,
            server: self.server,
            subnet: self.subnet,
            gateway: self.gateway,
            router6: self.router6,
            prefixes6: self.prefixes6@,
            dns: self.dns@,
        }
    }
}

impl Default for Signals {
    fn default() -> (s: Signals)
        ensures
            s@ == (SignalsV {
                kind: Seq::empty(),
                server: None,
                subnet: None,
                gateway: None,
                router6: None,
                prefixes6: Seq::empty(),
                dns: Seq::empty(),
            }),
    {
        Signals {
            kind: String::new(),
            server: None,
            subnet: None,
            gateway: None,
            router6: None,
            prefixes6: Vec::new(),
            dns: Vec::new(),
        }
    }
}

/// What a DHCP offer says of a network.
pub open spec fn offer_basis(server: Ipv4Addr, net: Ipv4Addr, prefix: u8) -> Seq<char> {
    "dhcp:"@ + addr::v4_text(server) + "|"@ + addr::v4_text(net) + "/"@ + text::decimal(
        prefix as nat,
    )
}

/// What a router advertisement says of a network.
pub open spec fn advert_basis(router: Ipv6Addr, net: Ipv6Addr, prefix: u8) -> Seq<char> {
    "ra:"@ + addr6::v6_text(router) + "|"@ + addr6::v6_text(net) + "/"@ + text::decimal(
        prefix as nat,
    )
}

/// What identifies a network: the offer, or else the advertisement.
pub open spec fn basis(s: SignalsV) -> Option<Seq<char>> {
    match (s.server, s.subnet) {
        (Some(server), Some((net, prefix))) => Some(offer_basis(server, net, prefix)),
        _ => match s.router6 {
            Some(router) => if s.prefixes6.len() > 0 {
                Some(advert_basis(router, s.prefixes6[0].0, s.prefixes6[0].1))
            } else {
                None
            },
            None => None,
        },
    }
}

/// What is hashed for a network's identity.
pub open spec fn network_input(kind: Seq<char>, basis: Seq<char>) -> Seq<u8> {
    encode_utf8("peios-netd-network|"@) + encode_utf8(kind) + encode_utf8("|"@) + encode_utf8(
        basis,
    )
}

/// The identity of a network of this kind with this basis.
pub open spec fn derived(kind: Seq<char>, basis: Seq<char>) -> Seq<char> {
    model::uuid_text(model::uuid_bytes(digest::sha1_of(network_input(kind, basis))))
}

/// A network's identity.
pub open spec fn identified(s: SignalsV) -> Option<Seq<char>> {
    match basis(s) {
        Some(b) => Some(derived(s.kind, b)),
        None => None,
    }
}

fn push_prefix(s: &mut String, prefix: u8)
    ensures
        final(s)@ == old(s)@ + "/"@ + text::decimal(prefix as nat),
{
    s.append("/");
    s.append(text::decimal_of(prefix as u64).as_str());
}

/// UUID-shaped, like an interface id, so the two kinds of key read alike.
fn derive(kind: &str, basis: &str) -> (s: String)
    ensures
        s@ == derived(kind@, basis@),
{
    let mut input: Vec<u8> = vstd::slice::slice_to_vec("peios-netd-network|".as_bytes());
    bytes::extend(&mut input, kind.as_bytes());
    bytes::extend(&mut input, "|".as_bytes());
    bytes::extend(&mut input, basis.as_bytes());
    let hash: Vec<u8> = digest::sha1(input.as_slice());
    model::uuid_from_digest(hash.as_slice())
}

impl Signals {
    /// The network's identity, or `None` when nothing identifying has been
    /// seen yet (no offer, or a static-only interface).
    pub fn identity(&self) -> (r: Option<String>)
        ensures
            text::opt_view(r) == identified(self@),
    {
        let mut basis: String;
        match (self.server, self.subnet) {
            (Some(server), Some((net, prefix))) => {
                basis = text::cat4(
                    "dhcp:",
                    server.to_text().as_str(),
                    "|",
                    net.to_text().as_str(),
                );
                push_prefix(&mut basis, prefix);
            },
            _ => match self.router6 {
                Some(router) => {
                    if self.prefixes6.len() == 0 {
                        return None;
                    }
                    basis = text::cat4(
                        "ra:",
                        router.to_text().as_str(),
                        "|",
                        self.prefixes6[0].0.to_text().as_str(),
                    );
                    push_prefix(&mut basis, self.prefixes6[0].1);
                },
                None => {
                    return None;
                },
            },
        }
        Some(derive(self.kind.as_str(), basis.as_str()))
    }
}

/// Masks `address` to its `prefix` bits: the subnet a lease describes.
pub fn subnet_of(address: Ipv4Addr, prefix: u8) -> (r: (Ipv4Addr, u8))
    ensures
        r == (addr::block_start(address, prefix), prefix),
{
    let size: u64 = addr::block(prefix);
    let bits: u64 = address.bits as u64;
    proof {
        vstd::arithmetic::div_mod::lemma_mod_decreases(bits as nat, size as nat);
    }
    (Ipv4Addr { bits: (bits - bits % size) as u32 }, prefix)
}

/// What the operator wrote on a network record.
#[derive(Debug, PartialEq, Eq)]
pub struct Record {
    pub id: String,
    /// `Name`: the operator's label.
    pub name: Option<String>,
    /// `Trust`: the operator's word, until the trust pass gives it a
    /// vocabulary.
    pub trust: Option<String>,
    /// `RequestedAddress`: the IPv4 address to ask for next; shared with netd,
    /// which writes the leased address after each lease.
    pub requested_address: Option<Ipv4Addr>,
}

impl Default for Record {
    fn default() -> (r: Record)
        ensures
            r.id@ == Seq::<char>::empty(),
            r.name is None,
            r.trust is None,
            r.requested_address is None,
    {
        Record { id: String::new(), name: None, trust: None, requested_address: None }
    }
}

// ---- laws ------------------------------------------------------------------

/// Another address in the same subnet from the same server is the same
/// network, whatever else was seen beside them.
pub proof fn the_same_offer_is_the_same_network(
    a: SignalsV,
    b: SignalsV,
    server: Ipv4Addr,
    x: Ipv4Addr,
    y: Ipv4Addr,
    prefix: u8,
)
    requires
        a.kind == b.kind,
        a.server == Some(server),
        b.server == Some(server),
        a.subnet == Some((addr::block_start(x, prefix), prefix)),
        b.subnet == Some((addr::block_start(y, prefix), prefix)),
        x.bits as int / addr::block_size(prefix) as int == y.bits as int / addr::block_size(
            prefix,
        ) as int,
    ensures
        identified(a) == identified(b),
        identified(a) is Some,
{
    let size = addr::block_size(prefix) as int;
    vstd::arithmetic::power2::lemma_pow2_pos((32 - prefix) as nat);
    vstd::arithmetic::div_mod::lemma_fundamental_div_mod(x.bits as int, size);
    vstd::arithmetic::div_mod::lemma_fundamental_div_mod(y.bits as int, size);
}

/// Masking twice is masking once.
pub proof fn a_subnet_is_its_own_subnet(a: Ipv4Addr, prefix: u8)
    ensures
        addr::block_start(addr::block_start(a, prefix), prefix) == addr::block_start(a, prefix),
{
    let size = addr::block_size(prefix) as int;
    vstd::arithmetic::power2::lemma_pow2_pos((32 - prefix) as nat);
    let n = a.bits as int;
    vstd::arithmetic::div_mod::lemma_fundamental_div_mod(n, size);
    vstd::arithmetic::div_mod::lemma_mod_multiples_basic(n / size, size);
    assert((n / size) * size == size * (n / size)) by (nonlinear_arith);
    vstd::arithmetic::div_mod::lemma_mod_bound(n, size);
    vstd::arithmetic::div_mod::lemma_mod_decreases(n as nat, size as nat);
}

proof fn text_splits(a: Seq<char>, b: Seq<char>, x: Seq<char>, y: Seq<char>, c: char)
    requires
        a + seq![c] + x == b + seq![c] + y,
        forall|i: int| 0 <= i < a.len() ==> a[i] != c,
        forall|i: int| 0 <= i < b.len() ==> b[i] != c,
    ensures
        a == b,
        x == y,
{
    let s = a + seq![c] + x;
    addr::index_of_found(s, c, a.len() as int);
    addr::index_of_found(s, c, b.len() as int);
    assert(s.take(a.len() as int) =~= a);
    assert((b + seq![c] + y).take(b.len() as int) =~= b);
    assert(s.skip(a.len() as int + 1) =~= x);
    assert((b + seq![c] + y).skip(b.len() as int + 1) =~= y);
}

/// Offers that differ in server, subnet or prefix are told apart before they
/// are hashed.
pub proof fn different_offers_differ(
    s: Ipv4Addr,
    n: Ipv4Addr,
    p: u8,
    t: Ipv4Addr,
    m: Ipv4Addr,
    q: u8,
)
    requires
        offer_basis(s, n, p) == offer_basis(t, m, q),
    ensures
        s == t,
        n == m,
        p == q,
{
    reveal_strlit("dhcp:");
    reveal_strlit("|");
    reveal_strlit("/");
    let st = addr::v4_text(s);
    let nt = addr::v4_text(n);
    let tt = addr::v4_text(t);
    let mt = addr::v4_text(m);
    let pt = text::decimal(p as nat);
    let qt = text::decimal(q as nat);
    let left = st + seq!['|'] + (nt + seq!['/'] + pt);
    let right = tt + seq!['|'] + (mt + seq!['/'] + qt);
    assert(offer_basis(s, n, p).skip(5) =~= left);
    assert(offer_basis(t, m, q).skip(5) =~= right);
    assert forall|i: int| 0 <= i < st.len() implies st[i] != '|' by {
        addr::v4_text_plain(s, i);
    }
    assert forall|i: int| 0 <= i < tt.len() implies tt[i] != '|' by {
        addr::v4_text_plain(t, i);
    }
    assert forall|i: int| 0 <= i < nt.len() implies nt[i] != '/' by {
        addr::v4_text_plain(n, i);
    }
    assert forall|i: int| 0 <= i < mt.len() implies mt[i] != '/' by {
        addr::v4_text_plain(m, i);
    }
    text_splits(st, tt, nt + seq!['/'] + pt, mt + seq!['/'] + qt, '|');
    text_splits(nt, mt, pt, qt, '/');
    addr::v4_text_parses(s);
    addr::v4_text_parses(t);
    addr::v4_text_parses(n);
    addr::v4_text_parses(m);
    text::decimal_injective(p as nat, q as nat);
}

} // verus!
