//! What an ACK gives: the lease and the lists inside it.

use vstd::prelude::*;
use vstd::string::*;
use vstd::utf8::*;
use vstd::arithmetic::power2::*;
use crate::addr;
use crate::addr::Ipv4Addr;
use crate::bytes;
use crate::text;
use super::option;
use super::{Message, MessageV, OptionsV};

verus! {

/// A classless static route (option 121).
#[derive(Debug, Clone, Copy, PartialEq, Eq, Structural)]
pub struct StaticRoute {
    pub destination: Ipv4Addr,
    pub prefix: u8,
    pub gateway: Ipv4Addr,
}

/// What a lease says.
#[verifier::ext_equal]
pub struct LeaseV {
    pub address: Ipv4Addr,
    pub prefix: u8,
    pub server: Ipv4Addr,
    pub routers: Seq<Ipv4Addr>,
    pub dns: Seq<Ipv4Addr>,
    pub domain: Option<Seq<char>>,
    pub search: Seq<Seq<char>>,
    pub hostname: Option<Seq<char>>,
    pub mtu: Option<u16>,
    pub broadcast: Option<Ipv4Addr>,
    pub ntp: Seq<Ipv4Addr>,
    pub static_routes: Seq<StaticRoute>,
    pub lease_time: u32,
    pub t1: u32,
    pub t2: u32,
}

/// What an ACK gave us.
#[derive(Debug, PartialEq, Eq)]
pub struct Lease {
    pub address: Ipv4Addr,
    pub prefix: u8,
    pub server: Ipv4Addr,
    pub routers: Vec<Ipv4Addr>,
    pub dns: Vec<Ipv4Addr>,
    pub domain: Option<String>,
    pub search: Vec<String>,
    pub hostname: Option<String>,
    pub mtu: Option<u16>,
    pub broadcast: Option<Ipv4Addr>,
    pub ntp: Vec<Ipv4Addr>,
    pub static_routes: Vec<StaticRoute>,
    /// Seconds.
    pub lease_time: u32,
    pub t1: u32,
    pub t2: u32,
}

impl View for Lease {
    type V = LeaseV;

    open spec fn view(&self) -> LeaseV {
        LeaseV {
            address: self.address,
            prefix: self.prefix,
            server: self.server,
            routers: self.routers@,
            dns: self.dns@,
            domain: text::opt_view(self.domain),
            search: text::list_view(self.search@),
            hostname: text::opt_view(self.hostname),
            mtu: self.mtu,
            broadcast: self.broadcast,
            ntp: self.ntp@,
            static_routes: self.static_routes@,
            lease_time: self.lease_time,
            t1: self.t1,
            t2: self.t2,
        }
    }
}

/// A copy of a list of addresses.
pub(crate) fn copy_addresses(v: &Vec<Ipv4Addr>) -> (r: Vec<Ipv4Addr>)
    ensures
        r@ == v@,
{
    vstd::slice::slice_to_vec(v.as_slice())
}

impl Clone for Lease {
    fn clone(&self) -> (r: Lease)
        ensures
            r@ == self@,
    {
        Lease {
            address: self.address,
            prefix: self.prefix,
            server: self.server,
            routers: copy_addresses(&self.routers),
            dns: copy_addresses(&self.dns),
            domain: self.domain.clone(),
            search: text::copy_list(&self.search),
            hostname: self.hostname.clone(),
            mtu: self.mtu,
            broadcast: self.broadcast,
            ntp: copy_addresses(&self.ntp),
            static_routes: vstd::slice::slice_to_vec(self.static_routes.as_slice()),
            lease_time: self.lease_time,
            t1: self.t1,
            t2: self.t2,
        }
    }
}

/// Whether `mask` is `k` ones and then zeros.
pub open spec fn is_mask(mask: u32, k: nat) -> bool {
    1 <= k <= 32 && mask + pow2((32 - k) as nat) == 0x1_0000_0000
}

/// The length of a netmask that is ones and then zeros.
pub open spec fn mask_length(mask: u32) -> Option<nat> {
    if exists|k: nat| is_mask(mask, k) {
        Some(choose|k: nat| is_mask(mask, k))
    } else {
        None
    }
}

proof fn mask_unique(mask: u32, j: nat, k: nat)
    requires
        is_mask(mask, j),
        is_mask(mask, k),
    ensures
        j == k,
{
    if j < k {
        lemma_pow2_strictly_increases((32 - k) as nat, (32 - j) as nat);
    } else if k < j {
        lemma_pow2_strictly_increases((32 - j) as nat, (32 - k) as nat);
    }
}

fn prefix_of_mask(mask: u32) -> (r: Option<u8>)
    ensures
        match r {
            Some(k) => mask_length(mask) == Some(k as nat) && 1 <= k <= 32,
            None => mask_length(mask) is None,
        },
{
    let mut k: u8 = 32;
    let mut size: u64 = 1;
    proof {
        lemma2_to64();
    }
    while k >= 1
        invariant
            k <= 32,
            size == pow2((32 - k) as nat),
            size <= 0x1_0000_0000,
            forall|j: nat| k < j <= 32 ==> !is_mask(mask, j),
        decreases k,
    {
        if mask as u64 + size == 0x1_0000_0000 {
            proof {
                assert(is_mask(mask, k as nat));
                mask_unique(mask, k as nat, choose|j: nat| is_mask(mask, j));
            }
            return Some(k);
        }
        proof {
            lemma_pow2_unfold((33 - k) as nat);
            lemma2_to64();
            if k > 1 {
                lemma_pow2_strictly_increases((33 - k) as nat, 32);
            }
        }
        size = size * 2;
        k = k - 1;
    }
    None
}

/// The prefix length of an address's historical class.
pub open spec fn classful(a: Ipv4Addr) -> u8 {
    if a.bits < 0x8000_0000 {
        8
    } else if a.bits < 0xc000_0000 {
        16
    } else {
        24
    }
}

fn classful_prefix(a: Ipv4Addr) -> (p: u8)
    ensures
        p == classful(a),
{
    if a.bits < 0x8000_0000 {
        8
    } else if a.bits < 0xc000_0000 {
        16
    } else {
        24
    }
}

/// The bytes a route's destination takes.
pub open spec fn route_octets(prefix: u8) -> int {
    (prefix as int + 7) / 8
}

/// Classless static routes (RFC 3442): a prefix length, as many octets of the
/// destination as it covers, and a gateway each. `None` where one is cut off
/// or longer than 32.
pub open spec fn routes_parsed(v: Seq<u8>) -> Option<Seq<StaticRoute>>
    decreases v.len(),
{
    if v.len() == 0 {
        Some(Seq::empty())
    } else {
        let n = route_octets(v[0]);
        if v[0] > 32 || v.len() < 1 + n + 4 {
            None
        } else {
            match routes_parsed(v.skip(1 + n + 4)) {
                Some(rest) => Some(
                    seq![
                        StaticRoute {
                            destination: addr::v4_of(
                                v.subrange(1, 1 + n) + super::zeros((4 - n) as nat),
                            ),
                            prefix: v[0],
                            gateway: addr::v4_of(v.subrange(1 + n, 1 + n + 4)),
                        },
                    ] + rest,
                ),
                None => None,
            }
        }
    }
}

spec fn routes_after(acc: Seq<StaticRoute>, rest: Option<Seq<StaticRoute>>) -> Option<
    Seq<StaticRoute>,
> {
    match rest {
        Some(r) => Some(acc + r),
        None => None,
    }
}

fn route_at(v: &[u8], i: usize, octets: usize) -> (r: StaticRoute)
    requires
        i + 1 + octets + 4 <= v@.len() <= usize::MAX,
        octets <= 4,
    ensures
        r.prefix == v@[i as int],
        r.destination == addr::v4_of(
            v@.skip(i as int).subrange(1, 1 + octets) + super::zeros((4 - octets) as nat),
        ),
        r.gateway == addr::v4_of(v@.skip(i as int).subrange(1 + octets, 1 + octets + 4)),
{
    let ghost rest = v@.skip(i as int);
    let mut dst: Vec<u8> = bytes::copy(v, i + 1, i + 1 + octets);
    bytes::push_zeros(&mut dst, 4 - octets);
    proof {
        assert(rest.subrange(1 + octets, 1 + octets + 4) =~= v@.subrange(
            i + 1 + octets,
            i + 1 + octets + 4,
        ));
        assert(dst@ =~= rest.subrange(1, 1 + octets) + super::zeros((4 - octets) as nat));
        assert(dst@.subrange(0, 4) =~= dst@);
    }
    StaticRoute {
        destination: Ipv4Addr::at(dst.as_slice(), 0),
        prefix: v[i],
        gateway: Ipv4Addr::at(v, i + 1 + octets),
    }
}

fn parse_routes(v: &[u8]) -> (r: Option<Vec<StaticRoute>>)
    ensures
        match r {
            Some(out) => routes_parsed(v@) == Some(out@),
            None => routes_parsed(v@) is None,
        },
{
    let mut out: Vec<StaticRoute> = Vec::new();
    let mut i: usize = 0;
    let len: usize = v.len();
    proof {
        assert(v@.skip(0) =~= v@);
        if routes_parsed(v@) is Some {
            assert(out@ + routes_parsed(v@)->0 =~= routes_parsed(v@)->0);
        }
    }
    while i < len
        invariant
            i <= len,
            len == v@.len(),
            routes_after(out@, routes_parsed(v@.skip(i as int))) == routes_parsed(v@),
        decreases len - i,
    {
        let ghost rest = v@.skip(i as int);
        let prefix: u8 = v[i];
        if prefix > 32 {
            return None;
        }
        let octets: usize = (prefix as usize + 7) / 8;
        if len - i < 1 + octets + 4 {
            return None;
        }
        let route: StaticRoute = route_at(v, i, octets);
        assert(rest.skip(1 + octets + 4) =~= v@.skip(i + 1 + octets + 4));
        proof {
            let more = routes_parsed(v@.skip(i + 1 + octets + 4));
            if more is Some {
                assert(out@ + (seq![route] + more->0) =~= out@.push(route) + more->0);
            }
        }
        out.push(route);
        i = i + 1 + octets + 4;
    }
    assert(v@.skip(i as int).len() == 0);
    assert(out@ + Seq::<StaticRoute>::empty() =~= out@);
    Some(out)
}

/// The labels of the name at `p`, following compression pointers; `None` where
/// it runs off the end or follows more than sixteen.
pub open spec fn name_at(v: Seq<u8>, p: int, hops: int) -> Option<Seq<Seq<char>>>
    decreases 17 - hops, v.len() - p,
{
    if p < 0 || p >= v.len() {
        None
    } else if v[p] == 0 {
        Some(Seq::empty())
    } else if v[p] >= 0xc0 {
        if p + 1 >= v.len() || hops >= 16 {
            None
        } else {
            name_at(v, (v[p] - 0xc0) * 256 + v[p + 1], hops + 1)
        }
    } else if p + 1 + v[p] > v.len() {
        None
    } else {
        match name_at(v, p + 1 + v[p], hops) {
            Some(rest) => Some(seq![text::utf8_lossy(v.subrange(p + 1, p + 1 + v[p]))] + rest),
            None => None,
        }
    }
}

/// How many bytes there are from `p` on.
pub open spec fn left(v: Seq<u8>, p: int) -> nat {
    if p < v.len() {
        (v.len() - p) as nat
    } else {
        0
    }
}

/// Where the name at `p` ends: past its zero byte or its first pointer.
pub open spec fn name_end(v: Seq<u8>, p: int) -> int
    decreases left(v, p),
{
    if p < 0 || p >= v.len() || v[p] == 0 {
        p + 1
    } else if v[p] >= 0xc0 {
        p + 2
    } else {
        name_end(v, p + 1 + v[p])
    }
}

pub proof fn name_end_after(v: Seq<u8>, p: int)
    ensures
        name_end(v, p) > p,
    decreases left(v, p),
{
    if 0 <= p < v.len() && 0 < v[p] < 0xc0 {
        name_end_after(v, p + 1 + v[p]);
    }
}

/// RFC 3397 domain search list from `pos` on: names with compression
/// pointers, each with dots between its labels, the empty name left out. A
/// name that cannot be read ends the list.
pub open spec fn search_parsed(v: Seq<u8>, pos: int) -> Seq<Seq<char>>
    decreases left(v, pos),
{
    if pos < 0 || pos >= v.len() {
        Seq::empty()
    } else {
        match name_at(v, pos, 0) {
            None => Seq::empty(),
            Some(labels) => {
                proof {
                    name_end_after(v, pos);
                }
                (if labels.len() == 0 {
                    Seq::empty()
                } else {
                    seq![text::joined(labels, "."@)]
                }) + search_parsed(v, name_end(v, pos))
            },
        }
    }
}

spec fn labels_after(acc: Seq<Seq<char>>, rest: Option<Seq<Seq<char>>>) -> Option<Seq<Seq<char>>> {
    match rest {
        Some(r) => Some(acc + r),
        None => None,
    }
}

/// The name at `pos` and where it ends.
fn read_name(v: &[u8], pos: usize) -> (r: Option<(Vec<String>, usize)>)
    requires
        pos < v@.len(),
    ensures
        match r {
            Some(x) => name_at(v@, pos as int, 0) == Some(text::list_view(x.0@)) && x.1 == name_end(
                v@,
                pos as int,
            ),
            None => name_at(v@, pos as int, 0) is None,
        },
{
    let mut labels: Vec<String> = Vec::new();
    let mut p: usize = pos;
    let mut end: usize = pos;
    let mut jumped: bool = false;
    let mut hops: u8 = 0;
    let len: usize = v.len();
    proof {
        let whole = name_at(v@, pos as int, 0);
        if whole is Some {
            assert(text::list_view(labels@) + whole->0 =~= whole->0);
        }
    }
    loop
        invariant
            len == v@.len(),
            hops <= 16,
            jumped ==> end == name_end(v@, pos as int),
            !jumped ==> name_end(v@, p as int) == name_end(v@, pos as int),
            labels_after(text::list_view(labels@), name_at(v@, p as int, hops as int)) == name_at(
                v@,
                pos as int,
                0,
            ),
        decreases 17 - hops, len - p,
    {
        if p >= len {
            return None;
        }
        let n: u8 = v[p];
        if n == 0 {
            if !jumped {
                end = p + 1;
            }
            assert(text::list_view(labels@) + Seq::<Seq<char>>::empty() =~= text::list_view(
                labels@,
            ));
            return Some((labels, end));
        }
        if n >= 0xc0 {
            if len - p < 2 || hops >= 16 {
                return None;
            }
            if !jumped {
                end = p + 2;
            }
            p = (n - 0xc0) as usize * 256 + v[p + 1] as usize;
            jumped = true;
            hops = hops + 1;
        } else {
            if n as usize > len - p - 1 {
                return None;
            }
            let label: String = text::from_utf8_lossy(
                vstd::slice::slice_subrange(v, p + 1, p + 1 + n as usize),
            );
            proof {
                let more = name_at(v@, p + 1 + n, hops as int);
                let before = text::list_view(labels@);
                let after = text::list_view(labels@.push(label));
                assert(after =~= before.push(label@));
                if more is Some {
                    assert(before + (seq![label@] + more->0) =~= after + more->0);
                }
            }
            labels.push(label);
            p = p + 1 + n as usize;
        }
    }
}

/// Reads an RFC 3397 domain search list.
pub fn decode_domain_search(v: &[u8]) -> (out: Vec<String>)
    ensures
        text::list_view(out@) == search_parsed(v@, 0),
{
    let mut out: Vec<String> = Vec::new();
    let mut pos: usize = 0;
    assert(text::list_view(out@) + search_parsed(v@, 0) =~= search_parsed(v@, 0));
    while pos < v.len()
        invariant
            text::list_view(out@) + search_parsed(v@, pos as int) == search_parsed(v@, 0),
        decreases left(v@, pos as int),
    {
        let ghost before = text::list_view(out@);
        match read_name(v, pos) {
            Some((labels, end)) => {
                proof {
                    name_end_after(v@, pos as int);
                }
                if labels.len() > 0 {
                    let name: String = text::join(&labels, ".");
                    out.push(name);
                    assert(text::list_view(out@) =~= before.push(name@));
                    assert(before + (seq![name@] + search_parsed(v@, end as int)) =~= text::list_view(
                        out@,
                    ) + search_parsed(v@, end as int));
                } else {
                    assert(Seq::<Seq<char>>::empty() + search_parsed(v@, end as int)
                        =~= search_parsed(v@, end as int));
                }
                pos = end;
            },
            None => {
                assert(before + Seq::<Seq<char>>::empty() =~= before);
                return out;
            },
        }
    }
    assert(text::list_view(out@) + Seq::<Seq<char>>::empty() =~= text::list_view(out@));
    out
}

/// The prefix length: the netmask's, or the class's where there is no netmask
/// or it has gaps.
pub open spec fn lease_prefix(m: MessageV) -> u8 {
    match super::option_ipv4(m.options, option::SUBNET_MASK) {
        Some(mask) => match mask_length(mask.bits) {
            Some(k) => k as u8,
            None => classful(m.yiaddr),
        },
        None => classful(m.yiaddr),
    }
}

/// The static routes; none without the option, `None` where it is malformed.
pub open spec fn lease_routes(m: MessageV) -> Option<Seq<StaticRoute>> {
    match super::lookup(m.options, option::CLASSLESS_STATIC_ROUTE) {
        Some(v) => routes_parsed(v),
        None => Some(Seq::empty()),
    }
}

/// When to renew: what the server says where that leaves room for T2 and the
/// expiry, else half the lease.
pub open spec fn lease_t1(o: OptionsV, lease_time: u32) -> u32 {
    match super::option_u32(o, option::RENEWAL_T1) {
        Some(t) => if 0 < t < lease_time - 2 {
            t
        } else {
            lease_time / 2
        },
        None => lease_time / 2,
    }
}

/// When to rebind, where the server does not say: seven eighths of the lease,
/// kept between T1 and the expiry.
pub open spec fn default_t2(lease_time: u32, t1: u32) -> u32 {
    let t = lease_time * 7 / 8;
    let t = if t < t1 + 1 {
        t1 + 1
    } else {
        t
    };
    (if t > lease_time - 1 {
        lease_time - 1
    } else {
        t
    }) as u32
}

/// When to rebind: what the server says where it lies between T1 and the
/// expiry.
pub open spec fn lease_t2(o: OptionsV, lease_time: u32, t1: u32) -> u32 {
    match super::option_u32(o, option::REBINDING_T2) {
        Some(t) => if t1 < t < lease_time {
            t
        } else {
            default_t2(lease_time, t1)
        },
        None => default_t2(lease_time, t1),
    }
}

/// The lease in an ACK; `None` where it lacks an address, a server or a lease
/// time of at least four seconds, or its static routes are malformed.
pub open spec fn lease_in(m: MessageV) -> Option<LeaseV> {
    let o = m.options;
    match (
        super::option_ipv4(o, option::SERVER_ID),
        super::option_u32(o, option::LEASE_TIME),
        lease_routes(m),
    ) {
        (Some(server), Some(lease_time), Some(routes)) => if m.yiaddr.bits == 0 || lease_time < 4 {
            None
        } else {
            let t1 = lease_t1(o, lease_time);
            Some(
                LeaseV {
                    address: m.yiaddr,
                    prefix: lease_prefix(m),
                    server,
                    routers: if routes.len() == 0 {
                        super::option_ipv4_list(o, option::ROUTER)
                    } else {
                        Seq::empty()
                    },
                    dns: super::option_ipv4_list(o, option::DNS),
                    domain: super::option_text(o, option::DOMAIN_NAME),
                    search: match super::lookup(o, option::DOMAIN_SEARCH) {
                        Some(v) => search_parsed(v, 0),
                        None => Seq::empty(),
                    },
                    hostname: super::option_text(o, option::HOSTNAME),
                    mtu: match super::option_u16(o, option::MTU) {
                        Some(n) => if n >= 68 {
                            Some(n)
                        } else {
                            None
                        },
                        None => None,
                    },
                    broadcast: super::option_ipv4(o, option::BROADCAST),
                    ntp: super::option_ipv4_list(o, option::NTP),
                    static_routes: routes,
                    lease_time,
                    t1,
                    t2: lease_t2(o, lease_time, t1),
                },
            )
        },
        _ => None,
    }
}

/// A lease that makes sense: T1 before T2 before the expiry, prefix lengths
/// of at most 32, and an MTU that IPv4 can use.
pub open spec fn sound(l: LeaseV) -> bool {
    &&& l.address.bits != 0
    &&& 1 <= l.prefix <= 32
    &&& l.lease_time >= 4
    &&& 0 < l.t1 < l.t2 < l.lease_time
    &&& forall|i: int| 0 <= i < l.static_routes.len() ==> (#[trigger] l.static_routes[i]).prefix <= 32
    &&& l.mtu matches Some(n) ==> n >= 68
    &&& l.static_routes.len() > 0 ==> l.routers.len() == 0
}

/// Whatever a server sends, a lease read from it makes sense.
pub proof fn leases_are_sound(m: MessageV)
    ensures
        lease_in(m) matches Some(l) ==> sound(l),
{
    if lease_in(m) is Some {
        let o = m.options;
        match super::option_ipv4(o, option::SUBNET_MASK) {
            Some(mask) => {
                if exists|k: nat| is_mask(mask.bits, k) {
                    assert(is_mask(mask.bits, choose|k: nat| is_mask(mask.bits, k)));
                }
            },
            None => {},
        }
        match super::lookup(o, option::CLASSLESS_STATIC_ROUTE) {
            Some(v) => routes_bounded(v),
            None => {},
        }
    }
}

proof fn routes_bounded(v: Seq<u8>)
    ensures
        routes_parsed(v) matches Some(r) ==> forall|i: int|
            0 <= i < r.len() ==> (#[trigger] r[i]).prefix <= 32,
    decreases v.len(),
{
    if v.len() > 0 {
        let n = route_octets(v[0]);
        if v[0] <= 32 && v.len() >= 1 + n + 4 {
            routes_bounded(v.skip(1 + n + 4));
        }
    }
}

/// The gateway of a lease: its first router, else that of its first default
/// route.
pub open spec fn lease_gateway(l: LeaseV) -> Option<Ipv4Addr> {
    if l.routers.len() > 0 {
        Some(l.routers[0])
    } else {
        default_gateway(l.static_routes)
    }
}

/// The gateway of the first route to everywhere.
pub open spec fn default_gateway(routes: Seq<StaticRoute>) -> Option<Ipv4Addr>
    decreases routes.len(),
{
    if routes.len() == 0 {
        None
    } else if routes[0].prefix == 0 {
        Some(routes[0].gateway)
    } else {
        default_gateway(routes.drop_first())
    }
}

proof fn default_gateway_from(routes: Seq<StaticRoute>, n: int)
    requires
        0 <= n <= routes.len(),
        forall|i: int| 0 <= i < n ==> (#[trigger] routes[i]).prefix != 0,
    ensures
        default_gateway(routes) == default_gateway(routes.skip(n)),
    decreases n,
{
    if n > 0 {
        default_gateway_from(routes.drop_first(), n - 1);
        assert(routes.drop_first().skip(n - 1) =~= routes.skip(n));
    } else {
        assert(routes.skip(0) =~= routes);
    }
}

impl Lease {
    /// Interpret an ACK. `None` if it lacks the fields a lease needs.
    pub fn from_ack(message: &Message) -> (r: Option<Lease>)
        ensures
            match r {
                Some(l) => lease_in(message@) == Some(l@) && sound(l@),
                None => lease_in(message@) is None,
            },
    {
        let o = &message.options;
        let address: Ipv4Addr = message.yiaddr;
        if address.is_unspecified() {
            return None;
        }
        let server: Ipv4Addr = match o.ipv4(option::SERVER_ID) {
            Some(server) => server,
            None => {
                return None;
            },
        };
        let lease_time: u32 = match o.u32(option::LEASE_TIME) {
            Some(lease_time) => lease_time,
            None => {
                return None;
            },
        };
        // Shorter than a few seconds cannot hold T1 < T2 < lease, and is a
        // server that wants us to spin: not a lease.
        if lease_time < 4 {
            return None;
        }
        // A mask must be contiguous ones; anything else is a malformed server
        // and gets the classful default rather than a wrong prefix.
        let masked: Option<u8> = match o.ipv4(option::SUBNET_MASK) {
            Some(mask) => prefix_of_mask(mask.bits),
            None => None,
        };
        let prefix: u8 = match masked {
            Some(prefix) => prefix,
            None => classful_prefix(address),
        };
        let static_routes: Vec<StaticRoute> = match o.get(option::CLASSLESS_STATIC_ROUTE) {
            Some(v) => match parse_routes(v) {
                Some(routes) => routes,
                None => {
                    return None;
                },
            },
            None => Vec::new(),
        };
        // RFC 3442: when classless routes are present, option 3 is ignored.
        let routers: Vec<Ipv4Addr> = if static_routes.len() == 0 {
            o.ipv4_list(option::ROUTER)
        } else {
            Vec::new()
        };
        // T1 < T2 < lease, whatever the server said.
        let t1: u32 = match o.u32(option::RENEWAL_T1) {
            Some(t) => if t > 0 && t < lease_time - 2 {
                t
            } else {
                lease_time / 2
            },
            None => lease_time / 2,
        };
        let seven_eighths: u32 = (lease_time as u64 * 7 / 8) as u32;
        let after_t1: u32 = if seven_eighths < t1 + 1 {
            t1 + 1
        } else {
            seven_eighths
        };
        let t2_default: u32 = if after_t1 > lease_time - 1 {
            lease_time - 1
        } else {
            after_t1
        };
        let t2: u32 = match o.u32(option::REBINDING_T2) {
            Some(t) => if t > t1 && t < lease_time {
                t
            } else {
                t2_default
            },
            None => t2_default,
        };
        let search: Vec<String> = match o.get(option::DOMAIN_SEARCH) {
            Some(v) => decode_domain_search(v),
            None => {
                let none: Vec<String> = Vec::new();
                assert(text::list_view(none@) =~= Seq::<Seq<char>>::empty());
                none
            },
        };
        let mtu: Option<u16> = match o.u16(option::MTU) {
            Some(n) => if n >= 68 {
                Some(n)
            } else {
                None
            },
            None => None,
        };
        let lease: Lease = Lease {
            address,
            prefix,
            server,
            routers,
            dns: o.ipv4_list(option::DNS),
            domain: o.string(option::DOMAIN_NAME),
            search,
            hostname: o.string(option::HOSTNAME),
            mtu,
            broadcast: o.ipv4(option::BROADCAST),
            ntp: o.ipv4_list(option::NTP),
            static_routes,
            lease_time,
            t1,
            t2,
        };
        proof {
            leases_are_sound(message@);
            assert(lease_in(message@) == Some(lease@));
        }
        Some(lease)
    }

    pub fn gateway(&self) -> (r: Option<Ipv4Addr>)
        ensures
            r == lease_gateway(self@),
    {
        if self.routers.len() > 0 {
            return Some(self.routers[0]);
        }
        let mut i: usize = 0;
        while i < self.static_routes.len()
            invariant
                i <= self.static_routes@.len(),
                forall|j: int| 0 <= j < i ==> (#[trigger] self.static_routes@[j]).prefix != 0,
                self.routers@.len() == 0,
            decreases self.static_routes@.len() - i,
        {
            if self.static_routes[i].prefix == 0 {
                proof {
                    default_gateway_from(self.static_routes@, i as int);
                }
                return Some(self.static_routes[i].gateway);
            }
            i = i + 1;
        }
        proof {
            default_gateway_from(self.static_routes@, i as int);
        }
        None
    }
}

} // verus!
