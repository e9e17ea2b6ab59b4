//! The ICMPv6 neighbour-discovery codec: router solicitations out, router
//! advertisements in.
//!
//! Only the ICMPv6 body is handled here: the kernel owns the IPv6 header and
//! the checksum on a raw ICMPv6 socket. The decoder sees whatever the local
//! network chose to send, so every length is checked and every count is
//! bounded; a malformed option skips that option, a malformed message is
//! `None`.

use vstd::prelude::*;
use vstd::string::*;
use crate::addr;
use crate::addr::Ipv6Addr;
use crate::bytes;
use crate::lists;
pub use crate::lists::{MAX_DOMAINS, MAX_SERVERS};
use crate::text;

verus! {

pub const ROUTER_SOLICIT: u8 = 133;

pub const ROUTER_ADVERT: u8 = 134;

pub const OPTION_SOURCE_LLA: u8 = 1;

pub const OPTION_PREFIX_INFO: u8 = 3;

pub const OPTION_MTU: u8 = 5;

pub const OPTION_RDNSS: u8 = 25;

pub const OPTION_DNSSL: u8 = 31;

/// Ceilings on what one advertisement may carry, in prefixes and, beside
/// `MAX_SERVERS` and `MAX_DOMAINS`, in the servers and the domains of all its
/// options together. A router legitimately advertises a handful of each; a
/// hostile one advertises enough to matter.
pub const MAX_PREFIXES: usize = 16;

/// A prefix-information option (RFC 4861 section 4.6.2).
#[derive(Debug, Clone, Copy, PartialEq, Eq, Structural)]
pub struct PrefixInfo {
    pub prefix: Ipv6Addr,
    pub length: u8,
    /// L: addresses in this prefix are reachable on-link.
    pub on_link: bool,
    /// A: hosts may form addresses from this prefix.
    pub autonomous: bool,
    /// Seconds; `u32::MAX` means forever.
    pub valid: u32,
    pub preferred: u32,
}

/// A recursive-DNS-server option (RFC 8106 section 5.1).
#[derive(Debug, PartialEq, Eq)]
pub struct Rdnss {
    /// Seconds; `u32::MAX` means forever.
    pub lifetime: u32,
    pub servers: Vec<Ipv6Addr>,
}

/// A DNS-search-list option (RFC 8106 section 5.2).
#[derive(Debug, PartialEq, Eq)]
pub struct Dnssl {
    pub lifetime: u32,
    pub domains: Vec<String>,
}

/// A router advertisement, decoded.
#[derive(Debug, PartialEq, Eq)]
pub struct RouterAdvert {
    /// M: addresses are to be had over DHCPv6. It is treated as O: the
    /// stateful client is not built, and RFC 8415 makes an information
    /// request legitimate either way.
    pub managed: bool,
    /// O: other configuration (DNS) is to be had over DHCPv6.
    pub other_config: bool,
    /// Seconds this router is a default router for; 0 means it is not one.
    pub router_lifetime: u16,
    pub mtu: Option<u32>,
    pub prefixes: Vec<PrefixInfo>,
    pub rdnss: Vec<Rdnss>,
    pub dnssl: Vec<Dnssl>,
}

#[verifier::ext_equal]
pub struct RdnssV {
    pub lifetime: u32,
    pub servers: Seq<Ipv6Addr>,
}

#[verifier::ext_equal]
pub struct DnsslV {
    pub lifetime: u32,
    pub domains: Seq<Seq<char>>,
}

/// What an advertisement says.
#[verifier::ext_equal]
pub struct RouterAdvertV {
    pub managed: bool,
    pub other_config: bool,
    pub router_lifetime: u16,
    pub mtu: Option<u32>,
    pub prefixes: Seq<PrefixInfo>,
    pub rdnss: Seq<RdnssV>,
    pub dnssl: Seq<DnsslV>,
}

impl View for Rdnss {
    type V = RdnssV;

    open spec fn view(&self) -> RdnssV {
        RdnssV { lifetime: self.lifetime, servers: self.servers@ }
    }
}

impl View for Dnssl {
    type V = DnsslV;

    open spec fn view(&self) -> DnsslV {
        DnsslV { lifetime: self.lifetime, domains: text::list_view(self.domains@) }
    }
}

impl View for RouterAdvert {
    type V = RouterAdvertV;

    open spec fn view(&self) -> RouterAdvertV {
        RouterAdvertV {
            managed: self.managed,
            other_config: self.other_config,
            router_lifetime: self.router_lifetime,
            mtu: self.mtu,
            prefixes: self.prefixes@,
            rdnss: self.rdnss@.map_values(|r: Rdnss| r@),
            dnssl: self.dnssl@.map_values(|d: Dnssl| d@),
        }
    }
}

/// The prefix in an option; `None` where the option has the wrong size, the
/// length is over 128, or the prefix is link-local or multicast, which is a
/// misconfiguration or an attack (RFC 4862 section 5.5.3).
pub open spec fn prefix_in(o: Seq<u8>) -> Option<PrefixInfo> {
    let prefix = addr::v6_of(o.subrange(16, 32));
    if o.len() != 32 || o[2] > 128 || prefix.multicast() || prefix.link_local() {
        None
    } else {
        Some(
            PrefixInfo {
                prefix,
                length: o[2],
                on_link: o[3] >= 0x80,
                autonomous: o[3] / 0x40 % 2 == 1,
                valid: bytes::be_nat(o.subrange(4, 8)) as u32,
                preferred: bytes::be_nat(o.subrange(8, 12)) as u32,
            },
        )
    }
}

/// The servers in an option; `None` where it does not hold whole addresses,
/// one at least.
pub open spec fn rdnss_in(o: Seq<u8>) -> Option<RdnssV> {
    if o.len() < 24 || (o.len() - 8) % 16 != 0 {
        None
    } else {
        Some(
            RdnssV {
                lifetime: bytes::be_nat(o.subrange(4, 8)) as u32,
                servers: lists::servers_in(o.skip(8)),
            },
        )
    }
}

/// The domains in an option; `None` where it is too short for one.
pub open spec fn dnssl_in(o: Seq<u8>) -> Option<DnsslV> {
    if o.len() < 16 {
        None
    } else {
        Some(
            DnsslV {
                lifetime: bytes::be_nat(o.subrange(4, 8)) as u32,
                domains: lists::domains_in(o.skip(8), MAX_DOMAINS as nat),
            },
        )
    }
}

/// The options of an advertisement, each with its head: a kind, its length in
/// units of eight bytes, and the rest. `None` where one has no length or runs
/// off the end.
pub open spec fn options_in(b: Seq<u8>) -> Option<Seq<Seq<u8>>>
    decreases b.len(),
{
    if b.len() == 0 {
        Some(Seq::empty())
    } else if b.len() < 2 || b[1] == 0 || b.len() < 8 * b[1] {
        None
    } else {
        match options_in(b.skip(8 * b[1])) {
            Some(rest) => Some(seq![b.take(8 * b[1])] + rest),
            None => None,
        }
    }
}

/// The servers of these options, counted.
pub open spec fn server_count(r: Seq<RdnssV>) -> nat
    decreases r.len(),
{
    if r.len() == 0 {
        0
    } else {
        server_count(r.drop_last()) + r.last().servers.len()
    }
}

/// The domains of these options, counted.
pub open spec fn domain_count(d: Seq<DnsslV>) -> nat
    decreases d.len(),
{
    if d.len() == 0 {
        0
    } else {
        domain_count(d.drop_last()) + d.last().domains.len()
    }
}

/// The first of a list, at most `room` of them.
pub open spec fn at_most<T>(s: Seq<T>, room: int) -> Seq<T> {
    if s.len() <= room {
        s
    } else {
        s.take(room)
    }
}

/// An advertisement with one more option taken in, as far as there is room
/// under the ceilings for what it lists.
pub open spec fn with_option(ra: RouterAdvertV, o: Seq<u8>) -> RouterAdvertV {
    if o[0] == OPTION_PREFIX_INFO && ra.prefixes.len() < MAX_PREFIXES {
        match prefix_in(o) {
            Some(p) => RouterAdvertV { prefixes: ra.prefixes.push(p), ..ra },
            None => ra,
        }
    } else if o[0] == OPTION_MTU && o.len() == 8 {
        RouterAdvertV { mtu: Some(bytes::be_nat(o.subrange(4, 8)) as u32), ..ra }
    } else if o[0] == OPTION_RDNSS && server_count(ra.rdnss) < MAX_SERVERS {
        match rdnss_in(o) {
            Some(r) => RouterAdvertV {
                rdnss: ra.rdnss.push(
                    RdnssV {
                        servers: at_most(r.servers, MAX_SERVERS - server_count(ra.rdnss)),
                        ..r
                    },
                ),
                ..ra
            },
            None => ra,
        }
    } else if o[0] == OPTION_DNSSL && domain_count(ra.dnssl) < MAX_DOMAINS {
        match dnssl_in(o) {
            Some(d) => RouterAdvertV {
                dnssl: ra.dnssl.push(
                    DnsslV {
                        domains: at_most(d.domains, MAX_DOMAINS - domain_count(ra.dnssl)),
                        ..d
                    },
                ),
                ..ra
            },
            None => ra,
        }
    } else {
        ra
    }
}

/// An advertisement with all these options taken in, in order.
pub open spec fn with_options(ra: RouterAdvertV, o: Seq<Seq<u8>>) -> RouterAdvertV
    decreases o.len(),
{
    if o.len() == 0 {
        ra
    } else {
        with_option(with_options(ra, o.drop_last()), o.last())
    }
}

/// The fixed part of an advertisement.
pub open spec fn fixed_part(b: Seq<u8>) -> RouterAdvertV {
    RouterAdvertV {
        managed: b[5] >= 0x80,
        other_config: b[5] / 0x40 % 2 == 1,
        router_lifetime: bytes::be_nat(b.subrange(6, 8)) as u16,
        mtu: None,
        prefixes: Seq::empty(),
        rdnss: Seq::empty(),
        dnssl: Seq::empty(),
    }
}

/// A router advertisement read from an ICMPv6 body.
pub open spec fn decoded(b: Seq<u8>) -> Option<RouterAdvertV> {
    if b.len() < 16 || b[0] != ROUTER_ADVERT || b[1] != 0 {
        None
    } else {
        match options_in(b.skip(16)) {
            Some(o) => Some(with_options(fixed_part(b), o)),
            None => None,
        }
    }
}

spec fn options_after(acc: Seq<Seq<u8>>, rest: Option<Seq<Seq<u8>>>) -> Option<Seq<Seq<u8>>> {
    match rest {
        Some(r) => Some(acc + r),
        None => None,
    }
}

impl RouterAdvert {
    /// Decode an ICMPv6 body claiming to be a router advertisement.
    ///
    /// The transport checks are the caller's: that the message arrived with a
    /// hop limit of 255 and from a link-local source (RFC 4861 section 6.1.2)
    /// is known only at the socket.
    pub fn decode(body: &[u8]) -> (r: Option<RouterAdvert>)
        ensures
            match r {
                Some(ra) => decoded(body@) == Some(ra@),
                None => decoded(body@) is None,
            },
    {
        let n: usize = body.len();
        if n < 16 || body[0] != ROUTER_ADVERT || body[1] != 0 {
            return None;
        }
        let mut ra: RouterAdvert = RouterAdvert {
            managed: body[5] >= 0x80,
            other_config: body[5] / 0x40 % 2 == 1,
            router_lifetime: bytes::u16_at(body, 6),
            mtu: None,
            prefixes: Vec::new(),
            rdnss: Vec::new(),
            dnssl: Vec::new(),
        };
        let ghost base = fixed_part(body@);
        let ghost whole = options_in(body@.skip(16));
        let ghost mut seen: Seq<Seq<u8>> = Seq::empty();
        proof {
            assert(ra@ =~= base);
            if whole is Some {
                assert(seen + whole->0 =~= whole->0);
            }
        }
        let mut at: usize = 16;
        while at < n
            invariant
                16 <= at <= n,
                n == body@.len(),
                body@[0] == ROUTER_ADVERT,
                body@[1] == 0,
                base == fixed_part(body@),
                whole == options_in(body@.skip(16)),
                options_after(seen, options_in(body@.skip(at as int))) == whole,
                ra@ == with_options(base, seen),
                server_count(ra@.rdnss) <= MAX_SERVERS,
                domain_count(ra@.dnssl) <= MAX_DOMAINS,
            decreases n - at,
        {
            let ghost rest = body@.skip(at as int);
            if n - at < 2 {
                return None;
            }
            let len: usize = body[at + 1] as usize * 8;
            // A zero-length option would loop forever; the RFC forbids it.
            if len == 0 || n - at < len {
                return None;
            }
            let option: &[u8] = vstd::slice::slice_subrange(body, at, at + len);
            let ghost before = ra@;
            ra.take(option);
            proof {
                assert(option@ =~= rest.take(8 * rest[1]));
                assert(rest.skip(8 * rest[1]) =~= body@.skip(at + len));
                let more = options_in(body@.skip(at + len));
                if more is Some {
                    assert(seen + (seq![option@] + more->0) =~= seen.push(option@) + more->0);
                }
                assert(seen.push(option@).drop_last() =~= seen);
                seen = seen.push(option@);
            }
            at = at + len;
        }
        proof {
            assert(body@.skip(at as int).len() == 0);
            assert(seen + Seq::<Seq<u8>>::empty() =~= seen);
        }
        Some(ra)
    }

    /// Takes one option in.
    fn take(&mut self, option: &[u8])
        requires
            option@.len() >= 8,
            server_count(old(self)@.rdnss) <= MAX_SERVERS,
            domain_count(old(self)@.dnssl) <= MAX_DOMAINS,
        ensures
            server_count(final(self)@.rdnss) <= MAX_SERVERS,
            domain_count(final(self)@.dnssl) <= MAX_DOMAINS,
            final(self)@ == with_option(old(self)@, option@),
    {
        let kind: u8 = option[0];
        let servers: usize = self.servers_held();
        let domains: usize = self.domains_held();
        if kind == OPTION_PREFIX_INFO && self.prefixes.len() < MAX_PREFIXES {
            match prefix_info(option) {
                Some(p) => {
                    self.prefixes.push(p);
                },
                None => {},
            }
        } else if kind == OPTION_MTU && option.len() == 8 {
            self.mtu = Some(bytes::u32_at(option, 4));
        } else if kind == OPTION_RDNSS && servers < MAX_SERVERS {
            match rdnss(option) {
                Some(r) => {
                    let mut r: Rdnss = r;
                    let ghost whole = r@;
                    r.servers.truncate(MAX_SERVERS - servers);
                    proof {
                        assert(r@.servers =~= at_most(whole.servers, MAX_SERVERS - servers));
                    }
                    self.rdnss.push(r);
                    proof {
                        assert(self@.rdnss =~= old(self)@.rdnss.push(r@));
                        assert(self@.rdnss.drop_last() =~= old(self)@.rdnss);
                    }
                },
                None => {},
            }
        } else if kind == OPTION_DNSSL && domains < MAX_DOMAINS {
            match dnssl(option) {
                Some(d) => {
                    let mut d: Dnssl = d;
                    let ghost whole = d@;
                    d.domains.truncate(MAX_DOMAINS - domains);
                    proof {
                        assert(d@.domains =~= at_most(whole.domains, MAX_DOMAINS - domains));
                    }
                    self.dnssl.push(d);
                    proof {
                        assert(self@.dnssl =~= old(self)@.dnssl.push(d@));
                        assert(self@.dnssl.drop_last() =~= old(self)@.dnssl);
                    }
                },
                None => {},
            }
        }
    }

    /// How many servers its options hold.
    fn servers_held(&self) -> (n: usize)
        requires
            server_count(self@.rdnss) <= MAX_SERVERS,
        ensures
            n == server_count(self@.rdnss),
    {
        let mut n: usize = 0;
        let mut i: usize = 0;
        let ghost all = self@.rdnss;
        while i < self.rdnss.len()
            invariant
                i <= self.rdnss@.len(),
                all == self@.rdnss,
                all.len() == self.rdnss@.len(),
                n == server_count(all.take(i as int)),
                server_count(all) <= MAX_SERVERS,
            decreases self.rdnss@.len() - i,
        {
            proof {
                assert(all.take(i + 1).drop_last() =~= all.take(i as int));
                assert(all[i as int] == self.rdnss@[i as int]@);
                servers_grow(all, i + 1);
            }
            n = n + self.rdnss[i].servers.len();
            i = i + 1;
        }
        assert(all.take(i as int) =~= all);
        n
    }

    /// How many domains its options hold.
    fn domains_held(&self) -> (n: usize)
        requires
            domain_count(self@.dnssl) <= MAX_DOMAINS,
        ensures
            n == domain_count(self@.dnssl),
    {
        let mut n: usize = 0;
        let mut i: usize = 0;
        let ghost all = self@.dnssl;
        while i < self.dnssl.len()
            invariant
                i <= self.dnssl@.len(),
                all == self@.dnssl,
                all.len() == self.dnssl@.len(),
                n == domain_count(all.take(i as int)),
                domain_count(all) <= MAX_DOMAINS,
            decreases self.dnssl@.len() - i,
        {
            proof {
                assert(all.take(i + 1).drop_last() =~= all.take(i as int));
                assert(all[i as int] == self.dnssl@[i as int]@);
                domains_grow(all, i + 1);
            }
            n = n + self.dnssl[i].domains.len();
            i = i + 1;
        }
        assert(all.take(i as int) =~= all);
        n
    }
}

proof fn servers_grow(r: Seq<RdnssV>, n: int)
    requires
        0 <= n <= r.len(),
    ensures
        server_count(r.take(n)) <= server_count(r),
    decreases r.len(),
{
    if n < r.len() {
        servers_grow(r.drop_last(), n);
        assert(r.drop_last().take(n) =~= r.take(n));
    } else {
        assert(r.take(n) =~= r);
    }
}

proof fn domains_grow(d: Seq<DnsslV>, n: int)
    requires
        0 <= n <= d.len(),
    ensures
        domain_count(d.take(n)) <= domain_count(d),
    decreases d.len(),
{
    if n < d.len() {
        domains_grow(d.drop_last(), n);
        assert(d.drop_last().take(n) =~= d.take(n));
    } else {
        assert(d.take(n) =~= d);
    }
}

fn prefix_info(option: &[u8]) -> (r: Option<PrefixInfo>)
    ensures
        r == prefix_in(option@),
{
    if option.len() != 32 {
        return None;
    }
    let length: u8 = option[2];
    if length > 128 {
        return None;
    }
    let prefix: Ipv6Addr = Ipv6Addr::at(option, 16);
    if prefix.is_multicast() || prefix.is_link_local() {
        return None;
    }
    Some(
        PrefixInfo {
            prefix,
            length,
            on_link: option[3] >= 0x80,
            autonomous: option[3] / 0x40 % 2 == 1,
            valid: bytes::u32_at(option, 4),
            preferred: bytes::u32_at(option, 8),
        },
    )
}

fn rdnss(option: &[u8]) -> (r: Option<Rdnss>)
    ensures
        match r {
            Some(x) => rdnss_in(option@) == Some(x@),
            None => rdnss_in(option@) is None,
        },
{
    let n: usize = option.len();
    if n < 24 || (n - 8) % 16 != 0 {
        return None;
    }
    let lifetime: u32 = bytes::u32_at(option, 4);
    assert(option@.subrange(8, n as int) =~= option@.skip(8));
    let servers: Vec<Ipv6Addr> = lists::servers(vstd::slice::slice_subrange(option, 8, n));
    Some(Rdnss { lifetime, servers })
}

fn dnssl(option: &[u8]) -> (r: Option<Dnssl>)
    ensures
        match r {
            Some(x) => dnssl_in(option@) == Some(x@),
            None => dnssl_in(option@) is None,
        },
{
    let n: usize = option.len();
    if n < 16 {
        return None;
    }
    let lifetime: u32 = bytes::u32_at(option, 4);
    assert(option@.subrange(8, n as int) =~= option@.skip(8));
    let domains: Vec<String> = domain_list(vstd::slice::slice_subrange(option, 8, n));
    Some(Dnssl { lifetime, domains })
}

/// A sequence of uncompressed DNS wire names, as the search-list option and
/// DHCPv6's domain list both carry. A malformed name ends the walk; what
/// parsed before it stands.
pub fn domain_list(b: &[u8]) -> (out: Vec<String>)
    ensures
        text::list_view(out@) == lists::domains_in(b@, MAX_DOMAINS as nat),
{
    lists::domain_list(b)
}

/// A router solicitation.
pub open spec fn solicitation(mac: Option<Seq<u8>>) -> Seq<u8> {
    let head = seq![ROUTER_SOLICIT, 0, 0, 0, 0, 0, 0, 0];
    match mac {
        Some(m) => head + seq![OPTION_SOURCE_LLA, 1] + m,
        None => head,
    }
}

/// A router solicitation (RFC 4861 section 4.1), with our link-layer address
/// so the router can answer unicast. The checksum is the kernel's on a raw
/// ICMPv6 socket.
pub fn solicit(source_mac: Option<&[u8; 6]>) -> (out: Vec<u8>)
    ensures
        out@ == solicitation(
            match source_mac {
                Some(m) => Some(m@),
                None => None,
            },
        ),
{
    let mut out: Vec<u8> = vec![ROUTER_SOLICIT, 0, 0, 0, 0, 0, 0, 0];
    assert(out@ =~= seq![ROUTER_SOLICIT, 0, 0, 0, 0, 0, 0, 0]);
    match source_mac {
        Some(mac) => {
            out.push(OPTION_SOURCE_LLA);
            out.push(1);
            bytes::extend(&mut out, mac.as_slice());
            assert(out@ =~= solicitation(Some(mac@)));
        },
        None => {},
    }
    out
}

/// Within the ceilings: sixteen prefixes, none longer than 128, link-local or
/// multicast; and, over all its options together, sixteen servers, each of them
/// usable, and sixteen domains, each of them fit for DNS.
pub open spec fn bounded(ra: RouterAdvertV) -> bool {
    &&& ra.prefixes.len() <= MAX_PREFIXES
    &&& forall|i: int|
        0 <= i < ra.prefixes.len() ==> (#[trigger] ra.prefixes[i]).length <= 128
            && !ra.prefixes[i].prefix.multicast() && !ra.prefixes[i].prefix.link_local()
    &&& server_count(ra.rdnss) <= MAX_SERVERS
    &&& domain_count(ra.dnssl) <= MAX_DOMAINS
    &&& forall|i: int, j: int|
        0 <= i < ra.rdnss.len() && 0 <= j < ra.rdnss[i].servers.len() ==> lists::usable(
            #[trigger] ra.rdnss[i].servers[j],
        )
    &&& forall|i: int, j: int|
        0 <= i < ra.dnssl.len() && 0 <= j < ra.dnssl[i].domains.len() ==> lists::name_ok(
            #[trigger] ra.dnssl[i].domains[j],
        )
}

/// Whatever the bytes, a decoded advertisement stays within the ceilings.
pub proof fn adverts_are_bounded(b: Seq<u8>)
    ensures
        decoded(b) matches Some(ra) ==> bounded(ra),
{
    if decoded(b) is Some {
        options_bounded(fixed_part(b), options_in(b.skip(16))->0);
    }
}

proof fn options_bounded(ra: RouterAdvertV, o: Seq<Seq<u8>>)
    requires
        bounded(ra),
    ensures
        bounded(with_options(ra, o)),
    decreases o.len(),
{
    if o.len() > 0 {
        options_bounded(ra, o.drop_last());
        let before = with_options(ra, o.drop_last());
        let after = with_options(ra, o);
        let x = o.last();
        if after.rdnss != before.rdnss {
            assert(after.rdnss.drop_last() =~= before.rdnss);
            lists::servers_are_usable(x.skip(8));
        }
        if after.dnssl != before.dnssl {
            assert(after.dnssl.drop_last() =~= before.dnssl);
            lists::domains_are_bounded(x.skip(8), MAX_DOMAINS as nat);
        }
    }
}

} // verus!
