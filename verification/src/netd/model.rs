//! What the kernel says the network is, and how interfaces are named.

use vstd::prelude::*;
use vstd::string::*;
use vstd::utf8::*;
use crate::addr::{IpAddr, Ipv6Addr};
use crate::bytes;
use crate::digest;
use crate::text;

verus! {

/// The routing protocol number stamped on routes the daemon owns. Values above
/// `RTPROT_STATIC` are for userspace to claim; 200 is ours. The reconciler
/// touches no route carrying any other protocol.
pub const RTPROT_NETD: u8 = 200;

/// A network interface as the kernel reports it.
#[derive(Debug, PartialEq, Eq)]
pub struct Link {
    pub index: u32,
    pub name: String,
    pub mac: Option<[u8; 6]>,
    pub up: bool,
    /// `IFF_LOWER_UP`: the physical layer sees a peer.
    pub carrier: bool,
    pub loopback: bool,
    pub mtu: u32,
    /// `ARPHRD_*`.
    pub link_type: u16,
    /// For bookkeeping and matching: the `Type` match key.
    pub kind: LinkKind,
}

/// The same as values.
#[verifier::ext_equal]
pub struct LinkV {
    pub index: u32,
    pub name: Seq<char>,
    pub mac: Option<Seq<u8>>,
    pub up: bool,
    pub carrier: bool,
    pub loopback: bool,
    pub mtu: u32,
    pub link_type: u16,
    pub kind: LinkKind,
}

/// The bytes of an optional hardware address.
pub open spec fn mac_view(mac: Option<[u8; 6]>) -> Option<Seq<u8>> {
    match mac {
        Some(m) => Some(m@),
        None => None,
    }
}

impl View for Link {
    type V = LinkV;

    open spec fn view(&self) -> LinkV {
        LinkV {
            index: self.index,
            name: self.name@,
            mac: mac_view(self.mac),
            up: self.up,
            carrier: self.carrier,
            loopback: self.loopback,
            mtu: self.mtu,
            link_type: self.link_type,
            kind: self.kind,
        }
    }
}

impl Clone for Link {
    fn clone(&self) -> (r: Link)
        ensures
            r@ == self@,
    {
        Link {
            index: self.index,
            name: self.name.clone(),
            mac: self.mac,
            up: self.up,
            carrier: self.carrier,
            loopback: self.loopback,
            mtu: self.mtu,
            link_type: self.link_type,
            kind: self.kind,
        }
    }
}

#[derive(Debug, Clone, Copy, PartialEq, Eq, Structural)]
pub enum LinkKind {
    Loopback,
    Ether,
    Wireless,
    Other,
}

impl LinkKind {
    /// The kind's name.
    pub open spec fn name(self) -> Seq<char> {
        match self {
            LinkKind::Loopback => "loopback"@,
            LinkKind::Ether => "ether"@,
            LinkKind::Wireless => "wlan"@,
            LinkKind::Other => "other"@,
        }
    }

    pub fn as_str(self) -> (s: &'static str)
        ensures
            s@ == self.name(),
    {
        match self {
            LinkKind::Loopback => "loopback",
            LinkKind::Ether => "ether",
            LinkKind::Wireless => "wlan",
            LinkKind::Other => "other",
        }
    }
}

/// An address on an interface.
#[derive(Debug, Clone, Copy, PartialEq, Eq, Hash, PartialOrd, Ord, Structural)]
pub struct Address {
    pub index: u32,
    pub address: IpAddr,
    pub prefix: u8,
    /// Kept, but with a preferred lifetime of zero.
    pub deprecated: bool,
    /// The kernel derives no prefix route from it.
    pub no_prefix_route: bool,
    /// Duplicate address detection has not finished.
    pub tentative: bool,
}

/// An address with no flags.
pub open spec fn plain_address(index: u32, address: IpAddr, prefix: u8) -> Address {
    Address {
        index,
        address,
        prefix,
        deprecated: false,
        no_prefix_route: false,
        tentative: false,
    }
}

impl Address {
    /// An address with no flags.
    pub fn new(index: u32, address: IpAddr, prefix: u8) -> (a: Address)
        ensures
            a == plain_address(index, address, prefix),
    {
        Address {
            index,
            address,
            prefix,
            deprecated: false,
            no_prefix_route: false,
            tentative: false,
        }
    }
}

/// A route.
#[derive(Debug, Clone, Copy, PartialEq, Eq, Hash, PartialOrd, Ord, Structural)]
pub struct Route {
    pub index: u32,
    pub destination: IpAddr,
    pub prefix: u8,
    pub gateway: Option<IpAddr>,
    pub metric: u32,
    pub protocol: u8,
}

impl Route {
    /// To everywhere.
    pub fn is_default(&self) -> (r: bool)
        ensures
            r == (self.prefix == 0),
    {
        self.prefix == 0
    }

    pub fn is_v4(&self) -> (r: bool)
        ensures
            r == (self.destination is V4),
    {
        self.destination.is_ipv4()
    }
}

/// Whether an IPv6 address is link-local.
pub fn is_v6_link_local(a: &Ipv6Addr) -> (r: bool)
    ensures
        r == a.link_local(),
{
    a.is_link_local()
}

/// A snapshot of kernel network state. There is one link for each index.
#[derive(Debug, PartialEq, Eq)]
pub struct Observed {
    pub links: Vec<Link>,
    pub addresses: Vec<Address>,
    pub routes: Vec<Route>,
}

/// The same as values.
#[verifier::ext_equal]
pub struct ObservedV {
    pub links: Seq<LinkV>,
    pub addresses: Seq<Address>,
    pub routes: Seq<Route>,
}

/// Each link as values.
pub open spec fn links_view(v: Seq<Link>) -> Seq<LinkV> {
    v.map_values(|l: Link| l@)
}

impl View for Observed {
    type V = ObservedV;

    open spec fn view(&self) -> ObservedV {
        ObservedV {
            links: links_view(self.links@),
            addresses: self.addresses@,
            routes: self.routes@,
        }
    }
}

impl Default for Observed {
    fn default() -> (o: Observed)
        ensures
            o@ == (ObservedV {
                links: Seq::empty(),
                addresses: Seq::empty(),
                routes: Seq::empty(),
            }),
    {
        let o: Observed = Observed { links: Vec::new(), addresses: Vec::new(), routes: Vec::new() };
        assert(o@.links =~= Seq::empty());
        o
    }
}

/// The first link with this index.
pub open spec fn link_with(s: Seq<LinkV>, index: u32) -> Option<LinkV>
    decreases s.len(),
{
    if s.len() == 0 {
        None
    } else if s[0].index == index {
        Some(s[0])
    } else {
        link_with(s.drop_first(), index)
    }
}

pub proof fn link_with_from(s: Seq<LinkV>, index: u32, n: int)
    requires
        0 <= n <= s.len(),
        forall|i: int| 0 <= i < n ==> (#[trigger] s[i]).index != index,
    ensures
        link_with(s, index) == link_with(s.skip(n), index),
    decreases n,
{
    if n > 0 {
        let t = s.drop_first();
        assert(s[0].index != index);
        assert forall|i: int| 0 <= i < n - 1 implies (#[trigger] t[i]).index != index by {
            assert(t[i] == s[i + 1]);
        }
        link_with_from(t, index, n - 1);
        assert(t.skip(n - 1) =~= s.skip(n));
    } else {
        assert(s.skip(0) =~= s);
    }
}

/// The links with `l` for its index: in place of the one that was there, else
/// before the first with a higher one.
pub open spec fn with_link(s: Seq<LinkV>, l: LinkV) -> Seq<LinkV>
    decreases s.len(),
{
    if s.len() == 0 {
        seq![l]
    } else if s[0].index == l.index {
        seq![l] + s.drop_first()
    } else if s[0].index > l.index {
        seq![l] + s
    } else {
        seq![s[0]] + with_link(s.drop_first(), l)
    }
}

/// The addresses of one interface, in the order observed.
pub open spec fn addresses_on(s: Seq<Address>, index: u32) -> Seq<Address>
    decreases s.len(),
{
    if s.len() == 0 {
        s
    } else if s.last().index == index {
        addresses_on(s.drop_last(), index).push(s.last())
    } else {
        addresses_on(s.drop_last(), index)
    }
}

/// The routes of one interface, in the order observed.
pub open spec fn routes_on(s: Seq<Route>, index: u32) -> Seq<Route>
    decreases s.len(),
{
    if s.len() == 0 {
        s
    } else if s.last().index == index {
        routes_on(s.drop_last(), index).push(s.last())
    } else {
        routes_on(s.drop_last(), index)
    }
}

impl Observed {
    /// The link with this index.
    pub fn link(&self, index: u32) -> (r: Option<&Link>)
        ensures
            match r {
                Some(l) => link_with(self@.links, index) == Some(l@),
                None => link_with(self@.links, index) is None,
            },
    {
        let mut i: usize = 0;
        while i < self.links.len()
            invariant
                i <= self.links@.len(),
                forall|j: int| 0 <= j < i ==> (#[trigger] self@.links[j]).index != index,
            decreases self.links@.len() - i,
        {
            if self.links[i].index == index {
                proof {
                    link_with_from(self@.links, index, i as int);
                    assert(self@.links.skip(i as int)[0] == self@.links[i as int]);
                }
                return Some(&self.links[i]);
            }
            i = i + 1;
        }
        proof {
            link_with_from(self@.links, index, i as int);
        }
        None
    }

    /// Puts a link in, for its index.
    pub fn insert_link(&mut self, link: Link)
        ensures
            final(self)@ == (ObservedV {
                links: with_link(old(self)@.links, link@),
                ..old(self)@
            }),
    {
        let mut i: usize = 0;
        let ghost all = self@.links;
        while i < self.links.len() && self.links[i].index < link.index
            invariant
                i <= self.links@.len(),
                self@ == old(self)@,
                all == self@.links,
                forall|j: int| 0 <= j < i ==> (#[trigger] all[j]).index < link.index,
            decreases self.links@.len() - i,
        {
            assert(all[i as int] == self.links@[i as int]@);
            i = i + 1;
        }
        let ghost l = link@;
        proof {
            with_link_at(all, l, i as int);
        }
        if i < self.links.len() && self.links[i].index == link.index {
            self.links.set(i, link);
            assert(self@.links =~= all.update(i as int, l));
        } else {
            self.links.insert(i, link);
            assert(self@.links =~= all.insert(i as int, l));
        }
    }

    pub fn addresses_of(&self, index: u32) -> (out: Vec<Address>)
        ensures
            out@ == addresses_on(self@.addresses, index),
    {
        let v: &Vec<Address> = &self.addresses;
        let mut out: Vec<Address> = Vec::new();
        let mut i: usize = 0;
        assert(v@.take(0) =~= Seq::empty());
        while i < v.len()
            invariant
                i <= v@.len(),
                out@ == addresses_on(v@.take(i as int), index),
            decreases v@.len() - i,
        {
            assert(v@.take(i + 1).drop_last() =~= v@.take(i as int));
            if v[i].index == index {
                out.push(v[i]);
            }
            i = i + 1;
        }
        assert(v@.take(i as int) =~= v@);
        out
    }

    pub fn routes_of(&self, index: u32) -> (out: Vec<Route>)
        ensures
            out@ == routes_on(self@.routes, index),
    {
        let v: &Vec<Route> = &self.routes;
        let mut out: Vec<Route> = Vec::new();
        let mut i: usize = 0;
        assert(v@.take(0) =~= Seq::empty());
        while i < v.len()
            invariant
                i <= v@.len(),
                out@ == routes_on(v@.take(i as int), index),
            decreases v@.len() - i,
        {
            assert(v@.take(i + 1).drop_last() =~= v@.take(i as int));
            if v[i].index == index {
                out.push(v[i]);
            }
            i = i + 1;
        }
        assert(v@.take(i as int) =~= v@);
        out
    }
}

proof fn with_link_at(s: Seq<LinkV>, l: LinkV, n: int)
    requires
        0 <= n <= s.len(),
        forall|i: int| 0 <= i < n ==> (#[trigger] s[i]).index < l.index,
        n < s.len() ==> s[n].index >= l.index,
    ensures
        with_link(s, l) == if n < s.len() && s[n].index == l.index {
            s.update(n, l)
        } else {
            s.insert(n, l)
        },
    decreases n,
{
    if n > 0 {
        let t = s.drop_first();
        assert(s[0].index < l.index);
        assert forall|i: int| 0 <= i < n - 1 implies (#[trigger] t[i]).index < l.index by {
            assert(t[i] == s[i + 1]);
        }
        with_link_at(t, l, n - 1);
        if n < s.len() && s[n].index == l.index {
            assert(seq![s[0]] + t.update(n - 1, l) =~= s.update(n, l));
        } else {
            assert(seq![s[0]] + t.insert(n - 1, l) =~= s.insert(n, l));
        }
    } else if s.len() > 0 && s[0].index == l.index {
        assert(seq![l] + s.drop_first() =~= s.update(0, l));
    } else {
        assert(with_link(s, l) =~= s.insert(0, l));
    }
}

fn same_mac(a: &Option<[u8; 6]>, b: &Option<[u8; 6]>) -> (r: bool)
    ensures
        r == (mac_view(*a) == mac_view(*b)),
{
    match (a, b) {
        (Some(x), Some(y)) => bytes::same(x.as_slice(), y.as_slice()),
        (None, None) => true,
        _ => false,
    }
}

fn same_links(a: &Vec<Link>, b: &Vec<Link>) -> (r: bool)
    ensures
        r == (links_view(a@) == links_view(b@)),
{
    let ghost v = links_view(a@);
    let ghost w = links_view(b@);
    assert(v.len() == a@.len() && w.len() == b@.len());
    if a.len() != b.len() {
        return false;
    }
    let mut i: usize = 0;
    while i < a.len()
        invariant
            i <= a@.len(),
            a@.len() == b@.len(),
            v == links_view(a@),
            w == links_view(b@),
            forall|j: int| 0 <= j < i ==> v[j] == w[j],
        decreases a@.len() - i,
    {
        let (x, y): (&Link, &Link) = (&a[i], &b[i]);
        assert(v[i as int] == x@ && w[i as int] == y@);
        let plain: bool = x.index == y.index && x.up == y.up && x.carrier == y.carrier && x.loopback
            == y.loopback && x.mtu == y.mtu && x.link_type == y.link_type && x.kind == y.kind;
        if !plain || !text::same(x.name.as_str(), y.name.as_str()) || !same_mac(&x.mac, &y.mac) {
            return false;
        }
        assert(v[i as int] == w[i as int]);
        i = i + 1;
    }
    assert(v =~= w);
    true
}

fn same_addresses(a: &Vec<Address>, b: &Vec<Address>) -> (r: bool)
    ensures
        r == (a@ == b@),
{
    if a.len() != b.len() {
        return false;
    }
    let mut i: usize = 0;
    while i < a.len()
        invariant
            i <= a@.len(),
            a@.len() == b@.len(),
            forall|j: int| 0 <= j < i ==> a@[j] == b@[j],
        decreases a@.len() - i,
    {
        if a[i] != b[i] {
            return false;
        }
        i = i + 1;
    }
    assert(a@ =~= b@);
    true
}

fn same_routes(a: &Vec<Route>, b: &Vec<Route>) -> (r: bool)
    ensures
        r == (a@ == b@),
{
    if a.len() != b.len() {
        return false;
    }
    let mut i: usize = 0;
    while i < a.len()
        invariant
            i <= a@.len(),
            a@.len() == b@.len(),
            forall|j: int| 0 <= j < i ==> a@[j] == b@[j],
        decreases a@.len() - i,
    {
        if a[i] != b[i] {
            return false;
        }
        i = i + 1;
    }
    assert(a@ =~= b@);
    true
}

impl Observed {
    /// Whether two snapshots show the same.
    pub fn same(&self, other: &Observed) -> (r: bool)
        ensures
            r == (self@ == other@),
    {
        same_links(&self.links, &other.links) && same_addresses(&self.addresses, &other.addresses)
            && same_routes(&self.routes, &other.routes)
    }
}

/// Links in rising order of their indices.
pub open spec fn links_rise(s: Seq<LinkV>) -> bool {
    forall|i: int, j: int| 0 <= i < j < s.len() ==> (#[trigger] s[i]).index < (#[trigger] s[j]).index
}

proof fn place_of(s: Seq<LinkV>, index: u32) -> (n: int)
    requires
        links_rise(s),
    ensures
        0 <= n <= s.len(),
        forall|i: int| 0 <= i < n ==> (#[trigger] s[i]).index < index,
        n < s.len() ==> s[n].index >= index,
    decreases s.len(),
{
    if s.len() == 0 || s[0].index >= index {
        0
    } else {
        let t = s.drop_first();
        assert forall|i: int, j: int| 0 <= i < j < t.len() implies (#[trigger] t[i]).index < (
        #[trigger] t[j]).index by {
            assert(t[i] == s[i + 1] && t[j] == s[j + 1]);
        }
        let n = place_of(t, index);
        assert forall|i: int| 0 <= i < n + 1 implies (#[trigger] s[i]).index < index by {
            if i > 0 {
                assert(t[i - 1] == s[i]);
            }
        }
        if n + 1 < s.len() {
            assert(t[n] == s[n + 1]);
        }
        n + 1
    }
}

/// Putting a link in keeps one link for each index, in order; the link is had
/// for its index and every other index keeps what it had.
pub proof fn one_link_for_each_index(s: Seq<LinkV>, l: LinkV, index: u32)
    requires
        links_rise(s),
    ensures
        links_rise(with_link(s, l)),
        link_with(with_link(s, l), index) == if index == l.index {
            Some(l)
        } else {
            link_with(s, index)
        },
{
    let n = place_of(s, l.index);
    with_link_at(s, l, n);
    let t = with_link(s, l);
    let replaced = n < s.len() && s[n].index == l.index;
    assert forall|i: int, j: int| 0 <= i < j < t.len() implies (#[trigger] t[i]).index < (
    #[trigger] t[j]).index by {
        let a = if replaced || i <= n {
            i
        } else {
            i - 1
        };
        let b = if replaced || j <= n {
            j
        } else {
            j - 1
        };
        if i != n {
            assert(t[i] == s[a]);
        }
        if j != n {
            assert(t[j] == s[b]);
        }
        if i == n && !replaced {
            assert(s[n].index > l.index);
            if b > n {
                assert(s[n].index < s[b].index);
            }
        }
    }
    found(t, l.index, n);
    if index != l.index {
        let k = place_of(s, index);
        if k < s.len() && s[k].index == index {
            found(s, index, k);
            let m = if replaced || k < n {
                k
            } else {
                k + 1
            };
            assert(t[m] == s[k]);
            found(t, index, m);
        } else {
            missing(s, index, k);
            let m = place_of(t, index);
            if m < t.len() && t[m].index == index {
                let a = if replaced || m < n {
                    m
                } else {
                    m - 1
                };
                assert(m != n);
                assert(t[m] == s[a]);
                assert(false);
            }
            missing(t, index, m);
        }
    }
}

proof fn found(s: Seq<LinkV>, index: u32, n: int)
    requires
        links_rise(s),
        0 <= n < s.len(),
        s[n].index == index,
    ensures
        link_with(s, index) == Some(s[n]),
{
    assert forall|i: int| 0 <= i < n implies (#[trigger] s[i]).index != index by {
        assert(s[i].index < s[n].index);
    }
    link_with_from(s, index, n);
    assert(s.skip(n)[0] == s[n]);
}

proof fn missing(s: Seq<LinkV>, index: u32, n: int)
    requires
        links_rise(s),
        0 <= n <= s.len(),
        forall|i: int| 0 <= i < n ==> (#[trigger] s[i]).index < index,
        n < s.len() ==> s[n].index > index,
    ensures
        link_with(s, index) is None,
        forall|i: int| 0 <= i < s.len() ==> (#[trigger] s[i]).index != index,
{
    assert forall|i: int| 0 <= i < s.len() implies (#[trigger] s[i]).index != index by {
        if i > n {
            assert(s[n].index < s[i].index);
        }
    }
    link_with_from(s, index, s.len() as int);
    assert(s.skip(s.len() as int) =~= Seq::empty());
}

/// Hardware identity read from sysfs: what stays the same when the name does
/// not.
#[derive(Debug, PartialEq, Eq)]
pub struct Identity {
    /// e.g. `pci-0000:00:03.0`, or empty for virtual devices.
    pub path: String,
    /// e.g. `virtio_net`.
    pub driver: String,
}

impl Default for Identity {
    fn default() -> (i: Identity)
        ensures
            i.path@ == Seq::<char>::empty(),
            i.driver@ == Seq::<char>::empty(),
    {
        Identity { path: String::new(), driver: String::new() }
    }
}

impl Clone for Identity {
    fn clone(&self) -> (r: Identity)
        ensures
            r == *self,
    {
        Identity { path: self.path.clone(), driver: self.driver.clone() }
    }
}

/// Bytes in hexadecimal, colons between them.
pub open spec fn colon_hex(b: Seq<u8>) -> Seq<char>
    decreases b.len(),
{
    if b.len() == 0 {
        Seq::empty()
    } else if b.len() == 1 {
        text::hex_byte(b[0])
    } else {
        colon_hex(b.drop_last()) + seq![':'] + text::hex_byte(b.last())
    }
}

/// A hardware address in its usual form.
pub fn format_mac(mac: &[u8; 6]) -> (s: String)
    ensures
        s@ == colon_hex(mac@),
{
    let mut s: String = String::new();
    let b: &[u8] = mac.as_slice();
    let mut i: usize = 0;
    while i < b.len()
        invariant
            i <= b@.len(),
            s@ == colon_hex(b@.take(i as int)),
        decreases b@.len() - i,
    {
        let ghost next = b@.take(i + 1);
        assert(next.drop_last() =~= b@.take(i as int));
        if i > 0 {
            s.push(':');
        }
        text::push_hex_byte(&mut s, b[i]);
        i = i + 1;
        assert(s@ =~= colon_hex(next));
    }
    assert(b@.take(i as int) =~= b@);
    s
}

/// Sixteen bytes with a UUID's version 5 (SHA-1 name-based) and its RFC 4122
/// variant set.
pub open spec fn uuid_bytes(d: Seq<u8>) -> Seq<u8> {
    d.take(16).update(6, (d[6] % 0x10 + 0x50) as u8).update(8, (d[8] % 0x40 + 0x80) as u8)
}

/// Sixteen bytes in a UUID's form.
pub open spec fn uuid_text(b: Seq<u8>) -> Seq<char> {
    hex_run(b.subrange(0, 4)) + seq!['-'] + hex_run(b.subrange(4, 6)) + seq!['-'] + hex_run(
        b.subrange(6, 8),
    ) + seq!['-'] + hex_run(b.subrange(8, 10)) + seq!['-'] + hex_run(b.subrange(10, 16))
}

/// Bytes in hexadecimal, nothing between them.
pub open spec fn hex_run(b: Seq<u8>) -> Seq<char>
    decreases b.len(),
{
    if b.len() == 0 {
        Seq::empty()
    } else {
        hex_run(b.drop_last()) + text::hex_byte(b.last())
    }
}

fn push_hex_run(s: &mut String, b: &[u8], from: usize, to: usize)
    requires
        from <= to <= b@.len(),
    ensures
        final(s)@ == old(s)@ + hex_run(b@.subrange(from as int, to as int)),
{
    let mut i: usize = from;
    while i < to
        invariant
            from <= i <= to <= b@.len(),
            s@ == old(s)@ + hex_run(b@.subrange(from as int, i as int)),
        decreases to - i,
    {
        assert(b@.subrange(from as int, i + 1).drop_last() =~= b@.subrange(from as int, i as int));
        text::push_hex_byte(s, b[i]);
        i = i + 1;
        assert(s@ =~= old(s)@ + hex_run(b@.subrange(from as int, i as int)));
    }
}

/// The UUID that a digest gives: its first sixteen bytes, with the version and
/// variant set.
pub fn uuid_from_digest(d: &[u8]) -> (s: String)
    requires
        d@.len() >= 16,
    ensures
        s@ == uuid_text(uuid_bytes(d@)),
{
    let mut b: Vec<u8> = bytes::copy(d, 0, 16);
    assert(b@ =~= d@.take(16));
    b.set(6, d[6] % 0x10 + 0x50);
    b.set(8, d[8] % 0x40 + 0x80);
    assert(b@ =~= uuid_bytes(d@));
    let mut s: String = String::new();
    push_hex_run(&mut s, b.as_slice(), 0, 4);
    s.push('-');
    push_hex_run(&mut s, b.as_slice(), 4, 6);
    s.push('-');
    push_hex_run(&mut s, b.as_slice(), 6, 8);
    s.push('-');
    push_hex_run(&mut s, b.as_slice(), 8, 10);
    s.push('-');
    push_hex_run(&mut s, b.as_slice(), 10, 16);
    assert(s@ =~= uuid_text(b@));
    s
}

proof fn hex_run_len(b: Seq<u8>)
    ensures
        hex_run(b).len() == 2 * b.len(),
    decreases b.len(),
{
    if b.len() > 0 {
        hex_run_len(b.drop_last());
    }
}

/// A UUID is thirty-six characters, its version digit a five.
pub proof fn uuids_have_their_shape(d: Seq<u8>)
    requires
        d.len() >= 16,
    ensures
        uuid_text(uuid_bytes(d)).len() == 36,
        uuid_text(uuid_bytes(d))[14] == '5',
{
    let b = uuid_bytes(d);
    hex_run_len(b.subrange(0, 4));
    hex_run_len(b.subrange(4, 6));
    hex_run_len(b.subrange(6, 8));
    hex_run_len(b.subrange(8, 10));
    hex_run_len(b.subrange(10, 16));
    let v = b.subrange(6, 8);
    assert(v[0] == d[6] % 0x10 + 0x50);
    assert(hex_run(v)[0] == text::hex_byte(v[0])[0]) by {
        reveal_with_fuel(hex_run, 3);
        assert(v.drop_last().last() == v[0]);
        assert(v.drop_last().drop_last() =~= Seq::empty());
    }
}

/// What is hashed for an interface id: a label, the bus path where there is
/// one, and the hardware address, or the name where there is none.
pub open spec fn interface_input(path: Seq<char>, mac: Option<Seq<u8>>, name: Seq<char>) -> Seq<u8> {
    encode_utf8("peios-netd-ifid|"@) + encode_utf8(path) + encode_utf8("|"@) + match mac {
        Some(m) => m,
        None => encode_utf8(name),
    }
}

/// The id of an interface.
pub open spec fn interface_id_of(path: Seq<char>, mac: Option<Seq<u8>>, name: Seq<char>) -> Seq<
    char,
> {
    uuid_text(uuid_bytes(digest::sha1_of(interface_input(path, mac, name))))
}

/// The interface id: a UUID-shaped digest of bus path and MAC.
///
/// Same card in the same slot gives the same id on every boot, whatever the
/// kernel called it. A virtual device has no bus path, so its id follows its
/// MAC alone (and a MAC-less one its name, which is all it has).
pub fn interface_id(identity: &Identity, mac: Option<&[u8; 6]>, name: &str) -> (s: String)
    ensures
        s@ == interface_id_of(
            identity.path@,
            match mac {
                Some(m) => Some(m@),
                None => None,
            },
            name@,
        ),
{
    let mut input: Vec<u8> = vstd::slice::slice_to_vec("peios-netd-ifid|".as_bytes());
    bytes::extend(&mut input, identity.path.as_str().as_bytes());
    bytes::extend(&mut input, "|".as_bytes());
    match mac {
        Some(m) => {
            bytes::extend(&mut input, m.as_slice());
        },
        None => {
            bytes::extend(&mut input, name.as_bytes());
        },
    }
    let hash: Vec<u8> = digest::sha1(input.as_slice());
    uuid_from_digest(hash.as_slice())
}

/// A rename does not change the id of an interface with a hardware address.
pub proof fn ids_survive_a_rename(path: Seq<char>, mac: Seq<u8>, a: Seq<char>, b: Seq<char>)
    ensures
        interface_id_of(path, Some(mac), a) == interface_id_of(path, Some(mac), b),
{
}

/// `dddd:bb:dd.f`: twelve characters, hexadecimal digits but for the marks.
pub open spec fn pci_shaped(s: Seq<char>) -> bool {
    s.len() == 12 && forall|i: int|
        0 <= i < 12 ==> if i == 4 || i == 7 {
            #[trigger] s[i] == ':'
        } else if i == 10 {
            s[i] == '.'
        } else {
            text::hex_value(s[i]) is Some
        }
}

/// Whether a name is that of a PCI function.
pub fn is_pci_address(name: &str) -> (r: bool)
    ensures
        r == pci_shaped(name@),
{
    let v: Vec<char> = text::chars(name);
    if v.len() != 12 {
        return false;
    }
    let mut i: usize = 0;
    while i < 12
        invariant
            i <= 12,
            v@ == name@,
            v@.len() == 12,
            forall|j: int|
                0 <= j < i ==> if j == 4 || j == 7 {
                    #[trigger] v@[j] == ':'
                } else if j == 10 {
                    v@[j] == '.'
                } else {
                    text::hex_value(v@[j]) is Some
                },
        decreases 12 - i,
    {
        let ok: bool = if i == 4 || i == 7 {
            v[i] == ':'
        } else if i == 10 {
            v[i] == '.'
        } else {
            text::hex_value_of(v[i]).is_some()
        };
        if !ok {
            assert(!pci_shaped(name@)) by {
                let c = name@[i as int];
            }
            return false;
        }
        i = i + 1;
    }
    true
}

/// The bus path that a device's directories give, from the device itself up:
/// the nearest PCI function, else the device's own name.
pub open spec fn bus_path_of(names: Seq<Seq<char>>) -> Seq<char> {
    match nearest_pci(names) {
        Some(n) => "pci-"@ + n,
        None => if names.len() > 0 {
            names[0]
        } else {
            Seq::empty()
        },
    }
}

/// The first name of a PCI function.
pub open spec fn nearest_pci(names: Seq<Seq<char>>) -> Option<Seq<char>>
    decreases names.len(),
{
    if names.len() == 0 {
        None
    } else if pci_shaped(names[0]) {
        Some(names[0])
    } else {
        nearest_pci(names.drop_first())
    }
}

/// The bus path that a device's directories give, from the device itself up. A
/// virtio device sits one level below its PCI function, a USB adapter several;
/// one with no PCI ancestor (virtual, platform) is named by its own leaf.
pub fn bus_path(names: &Vec<String>) -> (s: String)
    ensures
        s@ == bus_path_of(text::list_view(names@)),
{
    let ghost all = text::list_view(names@);
    let mut i: usize = 0;
    assert(all.skip(0) =~= all);
    while i < names.len()
        invariant
            i <= names@.len(),
            all == text::list_view(names@),
            nearest_pci(all) == nearest_pci(all.skip(i as int)),
        decreases names@.len() - i,
    {
        assert(all.skip(i as int)[0] == names@[i as int]@);
        if is_pci_address(names[i].as_str()) {
            let mut s: String = "pci-".to_owned();
            s.append(names[i].as_str());
            return s;
        }
        assert(all.skip(i as int).drop_first() =~= all.skip(i + 1));
        i = i + 1;
    }
    if names.len() > 0 {
        names[0].clone()
    } else {
        String::new()
    }
}

/// The directories whose presence says that a link is wireless.
pub open spec fn wireless_markers(name: Seq<char>) -> (Seq<char>, Seq<char>) {
    ("/sys/class/net/"@ + name + "/wireless"@, "/sys/class/net/"@ + name + "/phy80211"@)
}

/// The directories whose presence says that a link is wireless.
pub fn wireless_paths(name: &str) -> (r: (String, String))
    ensures
        (r.0@, r.1@) == wireless_markers(name@),
{
    let mut a: String = "/sys/class/net/".to_owned();
    a.append(name);
    a.append("/wireless");
    let mut b: String = "/sys/class/net/".to_owned();
    b.append(name);
    b.append("/phy80211");
    (a, b)
}

} // verus!
