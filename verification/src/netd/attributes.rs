//! Netlink attributes as they lie in a message, and the messages that must not
//! reach the parser.
//!
//! Two shapes are kept from it. A bare UDP tunnel tells its lowest source port
//! in two bytes, and the parser stops the program where there are fewer or more.
//! And it calls itself for every link that a link tells of as its peer, and for
//! every list of next hops inside a next hop, however many lie one in another;
//! the kernel never writes more than one.

use vstd::prelude::*;
use crate::bytes;

verus! {

/// How many peers, or lists of next hops, may lie one in another.
pub const MAX_DEPTH: usize = 16;

/// The length of a netlink header.
pub const HEADER_LEN: usize = 16;

/// The length of what stands before the attributes of a link.
pub const LINK_HEADER_LEN: usize = 16;

/// The length of what stands before the attributes of a route.
pub const ROUTE_HEADER_LEN: usize = 12;

/// The length of what stands before the attributes of a next hop.
pub const HOP_HEADER_LEN: usize = 8;

/// The length of what stands before the value of an attribute.
pub const ATTRIBUTE_HEADER_LEN: usize = 4;

/// `IFLA_LINKINFO`.
pub const IFLA_LINKINFO: u16 = 18;

/// `IFLA_INFO_KIND`.
pub const IFLA_INFO_KIND: u16 = 1;

/// `IFLA_INFO_DATA`.
pub const IFLA_INFO_DATA: u16 = 2;

/// `IFLA_BAREUDP_SRCPORT_MIN`.
pub const IFLA_BAREUDP_SRCPORT_MIN: u16 = 3;

/// `VETH_INFO_PEER`, `VXCAN_INFO_PEER` and `IFLA_NETKIT_PEER_INFO`.
pub const INFO_PEER: u16 = 1;

/// `RTA_MULTIPATH`.
pub const RTA_MULTIPATH: u16 = 9;

/// `bareudp`.
pub open spec fn bareudp() -> Seq<u8> {
    seq![98u8, 97, 114, 101, 117, 100, 112]
}

/// `veth`.
pub open spec fn veth() -> Seq<u8> {
    seq![118u8, 101, 116, 104]
}

/// `vxcan`.
pub open spec fn vxcan() -> Seq<u8> {
    seq![118u8, 120, 99, 97, 110]
}

/// `netkit`.
pub open spec fn netkit() -> Seq<u8> {
    seq![110u8, 101, 116, 107, 105, 116]
}

/// A number of two bytes, big end first or last.
pub open spec fn short(big: bool, b: Seq<u8>, at: int) -> int {
    if big {
        b[at] * 0x100 + b[at + 1]
    } else {
        b[at] + b[at + 1] * 0x100
    }
}

/// A number of four bytes, big end first or last.
pub open spec fn word(big: bool, b: Seq<u8>, at: int) -> int {
    if big {
        short(big, b, at) * 0x1_0000 + short(big, b, at + 2)
    } else {
        short(big, b, at) + short(big, b, at + 2) * 0x1_0000
    }
}

fn read_short(big: bool, b: &[u8], at: usize) -> (n: u16)
    requires
        at + 2 <= b@.len(),
    ensures
        n == short(big, b@, at as int),
{
    if big {
        b[at] as u16 * 0x100 + b[at + 1] as u16
    } else {
        b[at] as u16 + b[at + 1] as u16 * 0x100
    }
}

fn read_word(big: bool, b: &[u8], at: usize) -> (n: u32)
    requires
        at + 4 <= b@.len(),
    ensures
        n == word(big, b@, at as int),
{
    assert(at + 4 <= b.len());
    let first: u32 = read_short(big, b, at) as u32;
    let second: u32 = read_short(big, b, at + 2) as u32;
    if big {
        first * 0x1_0000 + second
    } else {
        first + second * 0x1_0000
    }
}

/// An attribute of a message.
pub struct Attribute {
    pub kind: u16,
    pub value: Vec<u8>,
}

/// The same as values.
#[verifier::ext_equal]
pub struct AttributeV {
    pub kind: u16,
    pub value: Seq<u8>,
}

impl View for Attribute {
    type V = AttributeV;

    open spec fn view(&self) -> AttributeV {
        AttributeV { kind: self.kind, value: self.value@ }
    }
}

/// Whether bytes begin with a whole attribute: its length, its kind, its value.
pub open spec fn whole(big: bool, b: Seq<u8>) -> bool {
    &&& b.len() >= ATTRIBUTE_HEADER_LEN
    &&& ATTRIBUTE_HEADER_LEN <= short(big, b, 0) <= b.len()
}

/// The attribute that bytes begin with. The two highest bits of the number of
/// its kind are marks.
pub open spec fn first(big: bool, b: Seq<u8>) -> AttributeV {
    AttributeV {
        kind: (short(big, b, 2) % 0x4000) as u16,
        value: b.subrange(ATTRIBUTE_HEADER_LEN as int, short(big, b, 0)),
    }
}

/// How far the attribute that bytes begin with reaches: attributes begin at
/// every fourth byte.
pub open spec fn reach(big: bool, b: Seq<u8>) -> int {
    let end = (short(big, b, 0) + 3) / 4 * 4;
    if end < b.len() {
        end
    } else {
        b.len() as int
    }
}

/// The attributes that bytes hold, one after another, up to one that is not
/// whole.
pub open spec fn attributes(big: bool, b: Seq<u8>) -> Seq<AttributeV>
    decreases b.len(),
{
    if whole(big, b) {
        seq![first(big, b)] + attributes(big, b.skip(reach(big, b)))
    } else {
        Seq::empty()
    }
}

/// The attributes that bytes hold.
fn split(big: bool, b: &[u8]) -> (r: Vec<Attribute>)
    ensures
        r@.map_values(|a: Attribute| a@) == attributes(big, b@),
{
    let mut out: Vec<Attribute> = Vec::new();
    let mut at: usize = 0;
    assert(b@.skip(0) =~= b@);
    assert(out@.map_values(|a: Attribute| a@) =~= Seq::<AttributeV>::empty());
    assert(Seq::<AttributeV>::empty() + attributes(big, b@) =~= attributes(big, b@));
    while b.len() - at >= ATTRIBUTE_HEADER_LEN
        invariant_except_break
            at <= b@.len(),
            out@.map_values(|a: Attribute| a@) + attributes(big, b@.skip(at as int)) == attributes(
                big,
                b@,
            ),
        ensures
            out@.map_values(|a: Attribute| a@) == attributes(big, b@),
        decreases b@.len() - at,
    {
        let ghost rest = b@.skip(at as int);
        let ghost before = out@;
        let length: usize = read_short(big, b, at) as usize;
        assert(length == short(big, rest, 0));
        if length < ATTRIBUTE_HEADER_LEN || length > b.len() - at {
            assert(out@.map_values(|a: Attribute| a@) + Seq::<AttributeV>::empty()
                =~= out@.map_values(|a: Attribute| a@));
            break;
        }
        let kind: u16 = read_short(big, b, at + 2) % 0x4000;
        let value: Vec<u8> = bytes::copy(b, at + ATTRIBUTE_HEADER_LEN, at + length);
        assert(value@ =~= rest.subrange(ATTRIBUTE_HEADER_LEN as int, length as int));
        out.push(Attribute { kind, value });
        let left: usize = b.len() - at;
        let padded: usize = (length + 3) / 4 * 4;
        let step: usize = if padded < left {
            padded
        } else {
            left
        };
        proof {
            assert(step == reach(big, rest));
            assert(b@.skip(at + step) =~= rest.skip(step as int));
            assert(out@.map_values(|a: Attribute| a@) =~= before.map_values(|a: Attribute| a@)
                + seq![first(big, rest)]);
            let head = before.map_values(|a: Attribute| a@);
            let tail = attributes(big, rest.skip(step as int));
            assert(head + (seq![first(big, rest)] + tail) =~= head + seq![first(big, rest)]
                + tail);
        }
        at = at + step;
        if b.len() - at < ATTRIBUTE_HEADER_LEN {
            assert(attributes(big, b@.skip(at as int)) =~= Seq::<AttributeV>::empty());
            assert(out@.map_values(|a: Attribute| a@) + Seq::<AttributeV>::empty()
                =~= out@.map_values(|a: Attribute| a@));
        }
    }
    out
}

/// What a text attribute says: its value without the zero that may end it.
pub open spec fn text(v: Seq<u8>) -> Seq<u8> {
    if v.len() > 0 && v.last() == 0 {
        v.drop_last()
    } else {
        v
    }
}

fn text_of(v: &Vec<u8>) -> (r: Vec<u8>)
    ensures
        r@ == text(v@),
{
    if v.len() > 0 && v[v.len() - 1] == 0 {
        bytes::copy(v.as_slice(), 0, v.len() - 1)
    } else {
        bytes::copy(v.as_slice(), 0, v.len())
    }
}

/// The sort of link that the last attribute before the one at `n` tells of it.
pub open spec fn sort_before(a: Seq<AttributeV>, n: int) -> Option<Seq<u8>>
    decreases n,
{
    if n <= 0 {
        None
    } else if a[n - 1].kind == IFLA_INFO_KIND {
        Some(text(a[n - 1].value))
    } else {
        sort_before(a, n - 1)
    }
}

/// Whether one of these is the lowest source port of a bare UDP tunnel, and not
/// two bytes long.
pub open spec fn odd_port(a: Seq<AttributeV>) -> bool {
    exists|i: int|
        0 <= i < a.len() && (#[trigger] a[i]).kind == IFLA_BAREUDP_SRCPORT_MIN && a[i].value.len()
            != 2
}

/// Whether the peer that an attribute holds trips the parser, or lies too deep.
pub open spec fn peer_trips(depth: nat, big: bool, a: AttributeV) -> bool
    decreases depth, 0nat,
{
    a.kind == INFO_PEER && (depth == 0 || link_trips((depth - 1) as nat, big, a.value))
}

/// Whether one of these holds a peer that trips the parser, or lies too deep.
pub open spec fn any_peer_trips(depth: nat, big: bool, a: Seq<AttributeV>) -> bool
    decreases depth, 1nat,
{
    exists|i: int| 0 <= i < a.len() && peer_trips(depth, big, #[trigger] a[i])
}

/// Whether what a link says of itself, by its sort, trips the parser. Of a
/// `veth` or a `vxcan` the first attribute alone is read.
pub open spec fn data_trips(depth: nat, big: bool, sort: Seq<u8>, data: Seq<u8>) -> bool
    decreases depth, 2nat,
{
    if sort == bareudp() {
        odd_port(attributes(big, data))
    } else if sort == veth() || sort == vxcan() {
        whole(big, data) && peer_trips(depth, big, first(big, data))
    } else if sort == netkit() {
        any_peer_trips(depth, big, attributes(big, data))
    } else {
        false
    }
}

/// Whether one of the attributes that describe a link, told the sort of it,
/// trips the parser.
pub open spec fn info_trips(
    depth: nat,
    big: bool,
    sort: Option<Seq<u8>>,
    a: AttributeV,
) -> bool
    decreases depth, 3nat,
{
    &&& a.kind == IFLA_INFO_DATA
    &&& sort matches Some(s) && data_trips(depth, big, s, a.value)
}

/// Whether one of the attributes of a link trips the parser.
pub open spec fn attribute_trips(depth: nat, big: bool, a: AttributeV) -> bool
    decreases depth, 4nat,
{
    &&& a.kind == IFLA_LINKINFO
    &&& exists|n: int|
        0 <= n < attributes(big, a.value).len() && info_trips(
            depth,
            big,
            sort_before(attributes(big, a.value), n),
            #[trigger] attributes(big, a.value)[n],
        )
}

/// Whether a link trips the parser: it is a bare UDP tunnel whose lowest source
/// port is not two bytes long, or a peer in it is, or peers lie too deep.
pub open spec fn link_trips(depth: nat, big: bool, b: Seq<u8>) -> bool
    decreases depth, 5nat,
{
    &&& b.len() >= LINK_HEADER_LEN
    &&& exists|i: int|
        0 <= i < attributes(big, b.skip(LINK_HEADER_LEN as int)).len() && attribute_trips(
            depth,
            big,
            #[trigger] attributes(big, b.skip(LINK_HEADER_LEN as int))[i],
        )
}

/// The attributes of the next hops that bytes hold, one hop after another, up to
/// one that is not whole.
pub open spec fn hops(big: bool, b: Seq<u8>) -> Seq<Seq<u8>>
    decreases b.len(),
{
    if b.len() >= HOP_HEADER_LEN && HOP_HEADER_LEN <= short(big, b, 0) <= b.len() {
        seq![b.subrange(HOP_HEADER_LEN as int, short(big, b, 0))] + hops(
            big,
            b.skip(short(big, b, 0)),
        )
    } else {
        Seq::empty()
    }
}

/// Whether lists of next hops lie too deep in an attribute of a route.
pub open spec fn list_trips(depth: nat, big: bool, a: AttributeV) -> bool
    decreases depth, 0nat,
{
    &&& a.kind == RTA_MULTIPATH
    &&& depth == 0 || exists|i: int|
        0 <= i < hops(big, a.value).len() && route_trips(
            (depth - 1) as nat,
            big,
            #[trigger] hops(big, a.value)[i],
        )
}

/// Whether lists of next hops lie too deep in the attributes of a route.
pub open spec fn route_trips(depth: nat, big: bool, b: Seq<u8>) -> bool
    decreases depth, 1nat,
{
    exists|i: int|
        0 <= i < attributes(big, b).len() && list_trips(
            depth,
            big,
            #[trigger] attributes(big, b)[i],
        )
}

/// What follows the header of the message that bytes begin with.
pub open spec fn carried_bytes(big: bool, b: Seq<u8>) -> Seq<u8> {
    b.subrange(HEADER_LEN as int, word(big, b, 0))
}

/// Whether the message that bytes begin with must not reach the parser. Links
/// are told of by types 16 to 19, routes by types 24 to 26.
pub open spec fn trips(big: bool, b: Seq<u8>) -> bool {
    &&& b.len() >= HEADER_LEN
    &&& HEADER_LEN <= word(big, b, 0) <= b.len()
    &&& {
        ||| 16 <= short(big, b, 4) <= 19 && link_trips(
            MAX_DEPTH as nat,
            big,
            carried_bytes(big, b),
        )
        ||| {
            &&& 24 <= short(big, b, 4) <= 26
            &&& carried_bytes(big, b).len() >= ROUTE_HEADER_LEN
            &&& route_trips(
                MAX_DEPTH as nat,
                big,
                carried_bytes(big, b).skip(ROUTE_HEADER_LEN as int),
            )
        }
    }
}

fn port_is_odd(a: &Vec<Attribute>) -> (r: bool)
    ensures
        r == odd_port(a@.map_values(|x: Attribute| x@)),
{
    let ghost all = a@.map_values(|x: Attribute| x@);
    let mut i: usize = 0;
    while i < a.len()
        invariant
            i <= a@.len(),
            all == a@.map_values(|x: Attribute| x@),
            forall|j: int|
                0 <= j < i ==> !((#[trigger] all[j]).kind == IFLA_BAREUDP_SRCPORT_MIN
                    && all[j].value.len() != 2),
        decreases a@.len() - i,
    {
        assert(all[i as int] == a@[i as int]@);
        if a[i].kind == IFLA_BAREUDP_SRCPORT_MIN && a[i].value.len() != 2 {
            return true;
        }
        i = i + 1;
    }
    false
}

fn peer_is_tripping(depth: usize, big: bool, a: &Attribute) -> (r: bool)
    ensures
        r == peer_trips(depth as nat, big, a@),
    decreases depth, 0nat,
{
    a.kind == INFO_PEER && (depth == 0 || link_is_tripping(depth - 1, big, a.value.as_slice()))
}

fn any_peer_is_tripping(depth: usize, big: bool, all: &Vec<Attribute>) -> (r: bool)
    ensures
        r == any_peer_trips(depth as nat, big, all@.map_values(|x: Attribute| x@)),
    decreases depth, 1nat,
{
    let ghost list = all@.map_values(|x: Attribute| x@);
    let mut i: usize = 0;
    while i < all.len()
        invariant
            i <= all@.len(),
            list == all@.map_values(|x: Attribute| x@),
            forall|j: int| 0 <= j < i ==> !peer_trips(depth as nat, big, #[trigger] list[j]),
        decreases all@.len() - i,
    {
        assert(list[i as int] == all@[i as int]@);
        if peer_is_tripping(depth, big, &all[i]) {
            return true;
        }
        i = i + 1;
    }
    false
}

/// The sorts of links that are looked into.
#[derive(Clone, Copy, PartialEq, Eq, Structural)]
enum Tunnel {
    Bare,
    Pair,
    Kit,
    Other,
}

fn tunnel(sort: &Vec<u8>) -> (r: Tunnel)
    ensures
        r == (if sort@ == bareudp() {
            Tunnel::Bare
        } else if sort@ == veth() || sort@ == vxcan() {
            Tunnel::Pair
        } else if sort@ == netkit() {
            Tunnel::Kit
        } else {
            Tunnel::Other
        }),
{
    let a: [u8; 7] = [98, 97, 114, 101, 117, 100, 112];
    let b: [u8; 4] = [118, 101, 116, 104];
    let c: [u8; 5] = [118, 120, 99, 97, 110];
    let d: [u8; 6] = [110, 101, 116, 107, 105, 116];
    assert(a@ =~= bareudp());
    assert(b@ =~= veth());
    assert(c@ =~= vxcan());
    assert(d@ =~= netkit());
    if bytes::same(sort.as_slice(), &a) {
        Tunnel::Bare
    } else if bytes::same(sort.as_slice(), &b) || bytes::same(sort.as_slice(), &c) {
        Tunnel::Pair
    } else if bytes::same(sort.as_slice(), &d) {
        Tunnel::Kit
    } else {
        Tunnel::Other
    }
}

fn data_is_tripping(depth: usize, big: bool, sort: &Vec<u8>, data: &Vec<u8>) -> (r: bool)
    ensures
        r == data_trips(depth as nat, big, sort@, data@),
    decreases depth, 2nat,
{
    let all: Vec<Attribute> = split(big, data.as_slice());
    let ghost list = attributes(big, data@);
    assert(list.len() == all@.len());
    match tunnel(sort) {
        Tunnel::Bare => port_is_odd(&all),
        Tunnel::Pair => {
            if all.len() == 0 {
                assert(!whole(big, data@));
                return false;
            }
            proof {
                if !whole(big, data@) {
                    assert(list.len() == 0);
                }
                assert(list[0] == first(big, data@));
                assert(all@[0]@ == list[0]);
            }
            peer_is_tripping(depth, big, &all[0])
        },
        Tunnel::Kit => any_peer_is_tripping(depth, big, &all),
        Tunnel::Other => false,
    }
}

/// What was told of the sort of a link, if anything.
spec fn told(sort: Option<Vec<u8>>) -> Option<Seq<u8>> {
    match sort {
        Some(s) => Some(s@),
        None => None,
    }
}

fn info_is_tripping(depth: usize, big: bool, sort: &Option<Vec<u8>>, a: &Attribute) -> (r: bool)
    ensures
        r == info_trips(depth as nat, big, told(*sort), a@),
    decreases depth, 3nat,
{
    if a.kind != IFLA_INFO_DATA {
        return false;
    }
    match sort {
        Some(s) => data_is_tripping(depth, big, s, &a.value),
        None => false,
    }
}

fn attribute_is_tripping(depth: usize, big: bool, a: &Attribute) -> (r: bool)
    ensures
        r == attribute_trips(depth as nat, big, a@),
    decreases depth, 4nat,
{
    if a.kind != IFLA_LINKINFO {
        return false;
    }
    let all: Vec<Attribute> = split(big, a.value.as_slice());
    let ghost list = attributes(big, a@.value);
    let mut sort: Option<Vec<u8>> = None;
    let mut i: usize = 0;
    while i < all.len()
        invariant
            i <= all@.len(),
            a.kind == IFLA_LINKINFO,
            list == attributes(big, a@.value),
            list == all@.map_values(|x: Attribute| x@),
            told(sort) == sort_before(list, i as int),
            forall|j: int|
                0 <= j < i ==> !info_trips(
                    depth as nat,
                    big,
                    sort_before(list, j),
                    #[trigger] list[j],
                ),
        decreases all@.len() - i,
    {
        let x: &Attribute = &all[i];
        assert(list[i as int] == x@);
        if info_is_tripping(depth, big, &sort, x) {
            return true;
        }
        if x.kind == IFLA_INFO_KIND {
            sort = Some(text_of(&x.value));
        }
        i = i + 1;
    }
    false
}

fn link_is_tripping(depth: usize, big: bool, b: &[u8]) -> (r: bool)
    ensures
        r == link_trips(depth as nat, big, b@),
    decreases depth, 5nat,
{
    if b.len() < LINK_HEADER_LEN {
        return false;
    }
    let rest: &[u8] = vstd::slice::slice_subrange(b, LINK_HEADER_LEN, b.len());
    assert(rest@ =~= b@.skip(LINK_HEADER_LEN as int));
    let all: Vec<Attribute> = split(big, rest);
    let ghost list = attributes(big, b@.skip(LINK_HEADER_LEN as int));
    let mut i: usize = 0;
    while i < all.len()
        invariant
            i <= all@.len(),
            b@.len() >= LINK_HEADER_LEN,
            list == attributes(big, b@.skip(LINK_HEADER_LEN as int)),
            list == all@.map_values(|x: Attribute| x@),
            forall|j: int| 0 <= j < i ==> !attribute_trips(depth as nat, big, #[trigger] list[j]),
        decreases all@.len() - i,
    {
        assert(list[i as int] == all@[i as int]@);
        if attribute_is_tripping(depth, big, &all[i]) {
            return true;
        }
        i = i + 1;
    }
    false
}

fn list_is_tripping(depth: usize, big: bool, a: &Attribute) -> (r: bool)
    ensures
        r == list_trips(depth as nat, big, a@),
    decreases depth, 0nat,
{
    if a.kind != RTA_MULTIPATH {
        return false;
    }
    if depth == 0 {
        return true;
    }
    let b: &[u8] = a.value.as_slice();
    let ghost list = hops(big, b@);
    let mut at: usize = 0;
    let ghost mut n: int = 0;
    assert(b@.skip(0) =~= b@);
    assert(list.skip(0) =~= list);
    while b.len() - at >= HOP_HEADER_LEN
        invariant_except_break
            at <= b@.len(),
            0 <= n <= list.len(),
            hops(big, b@.skip(at as int)) == list.skip(n),
            depth > 0,
            a.kind == RTA_MULTIPATH,
            b@ == a.value@,
            list == hops(big, b@),
            forall|j: int|
                0 <= j < n ==> !route_trips((depth - 1) as nat, big, #[trigger] list[j]),
        ensures
            forall|j: int|
                0 <= j < list.len() ==> !route_trips(
                    (depth - 1) as nat,
                    big,
                    #[trigger] list[j],
                ),
        decreases b@.len() - at,
    {
        let ghost rest = b@.skip(at as int);
        let length: usize = read_short(big, b, at) as usize;
        assert(length == short(big, rest, 0));
        if length < HOP_HEADER_LEN || length > b.len() - at {
            assert(list.skip(n).len() == 0);
            break;
        }
        let hop: &[u8] = vstd::slice::slice_subrange(b, at + HOP_HEADER_LEN, at + length);
        proof {
            assert(hop@ =~= rest.subrange(HOP_HEADER_LEN as int, length as int));
            assert(hops(big, rest).len() > 0);
            assert(n < list.len());
            assert(list.skip(n)[0] == hop@);
            assert(list[n] == hop@);
            assert(rest.skip(length as int) =~= b@.skip(at + length));
            assert(hops(big, rest).skip(1) =~= hops(big, rest.skip(length as int)));
            assert(list.skip(n).skip(1) =~= list.skip(n + 1));
        }
        if route_is_tripping(depth - 1, big, hop) {
            assert(route_trips((depth - 1) as nat, big, hops(big, a@.value)[n]));
            return true;
        }
        at = at + length;
        proof {
            n = n + 1;
        }
        if b.len() - at < HOP_HEADER_LEN {
            assert(hops(big, b@.skip(at as int)).len() == 0);
            assert(list.skip(n).len() == 0);
        }
    }
    false
}

fn route_is_tripping(depth: usize, big: bool, b: &[u8]) -> (r: bool)
    ensures
        r == route_trips(depth as nat, big, b@),
    decreases depth, 1nat,
{
    let all: Vec<Attribute> = split(big, b);
    let ghost list = attributes(big, b@);
    let mut i: usize = 0;
    while i < all.len()
        invariant
            i <= all@.len(),
            list == attributes(big, b@),
            list == all@.map_values(|x: Attribute| x@),
            forall|j: int| 0 <= j < i ==> !list_trips(depth as nat, big, #[trigger] list[j]),
        decreases all@.len() - i,
    {
        assert(list[i as int] == all@[i as int]@);
        if list_is_tripping(depth, big, &all[i]) {
            return true;
        }
        i = i + 1;
    }
    false
}

fn is_tripping(big: bool, b: &[u8]) -> (r: bool)
    ensures
        r == trips(big, b@),
{
    if b.len() < HEADER_LEN {
        return false;
    }
    let length: usize = read_word(big, b, 0) as usize;
    if length < HEADER_LEN || length > b.len() {
        return false;
    }
    let kind: u16 = read_short(big, b, 4);
    let body: &[u8] = vstd::slice::slice_subrange(b, HEADER_LEN, length);
    assert(body@ =~= carried_bytes(big, b@));
    if 16 <= kind && kind <= 19 {
        return link_is_tripping(MAX_DEPTH, big, body);
    }
    if 24 <= kind && kind <= 26 && body.len() >= ROUTE_HEADER_LEN {
        let rest: &[u8] = vstd::slice::slice_subrange(body, ROUTE_HEADER_LEN, body.len());
        assert(rest@ =~= body@.skip(ROUTE_HEADER_LEN as int));
        return route_is_tripping(MAX_DEPTH, big, rest);
    }
    false
}

/// Whether the message that bytes begin with must not reach the parser, in
/// either byte order.
pub fn trips_either(b: &[u8]) -> (r: bool)
    ensures
        r == (trips(true, b@) || trips(false, b@)),
{
    is_tripping(true, b) || is_tripping(false, b)
}

} // verus!
