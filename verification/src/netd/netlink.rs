//! rtnetlink: what is asked of the kernel, and what its answers mean.
//!
//! Deliberately simple: the whole state is dumped when asked for, and one
//! change is applied per request with an ACK. netd re-dumps after any
//! multicast event rather than folding events into its model — the state is
//! small and a dump is one round trip, which is cheaper to get right than
//! incremental updates from a stream that can overflow.

use vstd::prelude::*;
use vstd::string::*;
use netlink_packet_core::NetlinkPayload::InnerMessage;
use netlink_packet_core::{Emitable, NetlinkHeader, NetlinkMessage, NetlinkPayload};
use netlink_packet_route::address::{AddressAttribute, AddressHeader, AddressMessage};
use netlink_packet_route::link::{LinkAttribute, LinkFlags, LinkMessage};
use netlink_packet_route::route::{RouteAddress, RouteAttribute, RouteHeader, RouteMessage};
use netlink_packet_route::RouteNetlinkMessage::{NewAddress, NewLink, NewRoute};
use netlink_packet_route::{AddressFamily, RouteNetlinkMessage};
use crate::addr;
use crate::addr::{IpAddr, Ipv4Addr, Ipv6Addr};
use crate::bytes;
use super::attributes;
use super::attributes::HEADER_LEN;
use super::model;
use super::model::{Address, Link, LinkKind, LinkV, Observed, ObservedV, Route};
use super::reconcile::Op;

verus! {

/// The multicast group for links.
pub const RTNLGRP_LINK: u32 = 1;

/// The multicast group for IPv4 addresses.
pub const RTNLGRP_IPV4_IFADDR: u32 = 5;

/// The multicast group for IPv4 routes.
pub const RTNLGRP_IPV4_ROUTE: u32 = 7;

/// A request for an acknowledgement.
pub const ASK: u16 = 0x005;

/// A request for everything there is.
pub const DUMP: u16 = 0x301;

/// To make something, or put it in place of what is there.
pub const CREATE_OR_REPLACE: u16 = 0x500;

/// To make something that is not there.
pub const CREATE_NEW: u16 = 0x600;

/// `NLMSG_ERROR`.
pub const ERROR: u16 = 2;

/// `NLMSG_DONE`.
pub const DONE: u16 = 3;

/// `RTM_NEWLINK`.
pub const NEW_LINK: u16 = 16;

/// `RTM_GETLINK`.
pub const GET_LINK: u16 = 18;

/// `RTM_SETLINK`.
pub const SET_LINK: u16 = 19;

/// `RTM_NEWADDR`.
pub const NEW_ADDRESS: u16 = 20;

/// `RTM_DELADDR`.
pub const DEL_ADDRESS: u16 = 21;

/// `RTM_GETADDR`.
pub const GET_ADDRESS: u16 = 22;

/// `RTM_NEWROUTE`.
pub const NEW_ROUTE: u16 = 24;

/// `RTM_DELROUTE`.
pub const DEL_ROUTE: u16 = 25;

/// `RTM_GETROUTE`.
pub const GET_ROUTE: u16 = 26;

/// `AF_INET`.
pub const AF_INET: u8 = 2;

/// `IFLA_MTU`.
pub const IFLA_MTU: u16 = 4;

/// `IFA_ADDRESS`.
pub const IFA_ADDRESS: u16 = 1;

/// `IFA_LOCAL`.
pub const IFA_LOCAL: u16 = 2;

/// `IFA_BROADCAST`.
pub const IFA_BROADCAST: u16 = 4;

/// `RTA_DST`.
pub const RTA_DST: u16 = 1;

/// `RTA_OIF`.
pub const RTA_OIF: u16 = 4;

/// `RTA_GATEWAY`.
pub const RTA_GATEWAY: u16 = 5;

/// `RTA_PRIORITY`.
pub const RTA_PRIORITY: u16 = 6;

/// `IFF_UP`.
pub const IFF_UP: u32 = 0x1;

/// `IFF_LOOPBACK`.
pub const IFF_LOOPBACK: u32 = 0x8;

/// `IFF_LOWER_UP`.
pub const IFF_LOWER_UP: u32 = 0x1_0000;

/// `ARPHRD_ETHER`.
pub const ARPHRD_ETHER: u16 = 1;

/// `RT_SCOPE_UNIVERSE`.
pub const SCOPE_UNIVERSE: u8 = 0;

/// `RT_SCOPE_LINK`.
pub const SCOPE_LINK: u8 = 253;

/// `RT_TABLE_MAIN`.
pub const TABLE_MAIN: u8 = 254;

/// `RTN_UNICAST`.
pub const KIND_UNICAST: u8 = 1;

// ---- writing ---------------------------------------------------------------

/// What a message says of a link.
#[derive(Debug, Clone, Copy, PartialEq, Eq, Structural)]
pub struct LinkRequest {
    pub index: u32,
    pub flags: u32,
    /// Which of the flags are meant.
    pub change_mask: u32,
    pub mtu: Option<u32>,
}

/// What a message says of an IPv4 address.
#[derive(Debug, Clone, Copy, PartialEq, Eq, Structural)]
pub struct AddressRequest {
    pub index: u32,
    pub prefix: u8,
    pub scope: u8,
    /// The interface's own address.
    pub local: Option<Ipv4Addr>,
    /// The address at the other end; on a broadcast link the interface's own.
    pub peer: Option<Ipv4Addr>,
    pub broadcast: Option<Ipv4Addr>,
}

/// What a message says of an IPv4 route.
#[derive(Debug, Clone, Copy, PartialEq, Eq, Structural)]
pub struct RouteRequest {
    pub prefix: u8,
    pub table: u8,
    pub protocol: u8,
    pub scope: u8,
    pub kind: u8,
    pub destination: Option<Ipv4Addr>,
    pub gateway: Option<Ipv4Addr>,
    pub oif: Option<u32>,
    pub priority: Option<u32>,
}

/// A number of `len` bytes in the machine's byte order, big end first or last.
pub open spec fn native(big: bool, n: nat, len: nat) -> Seq<u8> {
    if big {
        bytes::be_bytes(n, len)
    } else {
        bytes::be_bytes(n, len).reverse()
    }
}

/// A netlink header: the length of the message, its type, its flags, its number,
/// and port zero.
pub open spec fn header_in(
    big: bool,
    length: u32,
    message_type: u16,
    flags: u16,
    sequence: u32,
) -> Seq<u8> {
    native(big, length as nat, 4) + native(big, message_type as nat, 2) + native(
        big,
        flags as nat,
        2,
    ) + native(big, sequence as nat, 4) + native(big, 0, 4)
}

/// An attribute whose value takes four bytes: its length, its kind, the value.
pub open spec fn attribute(big: bool, kind: u16, value: Seq<u8>) -> Seq<u8> {
    native(big, 8, 2) + native(big, kind as nat, 2) + value
}

/// An attribute that holds a number, where there is one.
pub open spec fn number_attribute(big: bool, kind: u16, n: Option<u32>) -> Seq<u8> {
    match n {
        Some(n) => attribute(big, kind, native(big, n as nat, 4)),
        None => Seq::empty(),
    }
}

/// An attribute that holds an IPv4 address, where there is one.
pub open spec fn address_attribute(big: bool, kind: u16, a: Option<Ipv4Addr>) -> Seq<u8> {
    match a {
        Some(a) => attribute(big, kind, a.octs()),
        None => Seq::empty(),
    }
}

/// The body of a link message: no family, no link type, the index, the flags
/// and which of them are meant, and the MTU, where there is one.
pub open spec fn link_in_bytes(big: bool, r: LinkRequest) -> Seq<u8> {
    native(big, 0, 4) + native(big, r.index as nat, 4) + native(big, r.flags as nat, 4) + native(
        big,
        r.change_mask as nat,
        4,
    ) + number_attribute(big, IFLA_MTU, r.mtu)
}

/// The body of an IPv4 address message.
pub open spec fn address_in_bytes(big: bool, r: AddressRequest) -> Seq<u8> {
    seq![AF_INET, r.prefix, 0, r.scope] + native(big, r.index as nat, 4) + address_attribute(
        big,
        IFA_LOCAL,
        r.local,
    ) + address_attribute(big, IFA_ADDRESS, r.peer) + address_attribute(
        big,
        IFA_BROADCAST,
        r.broadcast,
    )
}

/// The body of an IPv4 route message.
pub open spec fn route_in_bytes(big: bool, r: RouteRequest) -> Seq<u8> {
    seq![AF_INET, r.prefix, 0, 0, r.table, r.protocol, r.scope, r.kind] + native(big, 0, 4)
        + address_attribute(big, RTA_DST, r.destination) + address_attribute(
        big,
        RTA_GATEWAY,
        r.gateway,
    ) + number_attribute(big, RTA_OIF, r.oif) + number_attribute(big, RTA_PRIORITY, r.priority)
}

/// `NetlinkHeader::emit` of a header with these fields and port number zero:
/// sixteen bytes, the numbers in the machine's byte order.
#[verifier::external_body]
fn header_bytes(length: u32, message_type: u16, flags: u16, sequence: u32) -> (b: Vec<u8>)
    ensures
        exists|big: bool|
            b@ == #[trigger] header_in(big, length, message_type, flags, sequence),
{
    let mut header = NetlinkHeader::default();
    header.length = length;
    header.message_type = message_type;
    header.flags = flags;
    header.sequence_number = sequence;
    let mut b = vec![0u8; header.buffer_len()];
    header.emit(&mut b);
    b
}

/// `LinkMessage::emit` of a message with this index, these flags and change
/// mask and, where there is one, an `IFLA_MTU`, all else at its default, which
/// is zero; the numbers are in the machine's byte order.
#[verifier::external_body]
fn link_body(r: &LinkRequest) -> (b: Vec<u8>)
    ensures
        exists|big: bool| b@ == #[trigger] link_in_bytes(big, *r),
{
    let mut m = LinkMessage::default();
    m.header.index = r.index;
    m.header.flags = LinkFlags::from_bits_retain(r.flags);
    m.header.change_mask = LinkFlags::from_bits_retain(r.change_mask);
    m.attributes.extend(r.mtu.map(LinkAttribute::Mtu));
    let mut b = vec![0u8; m.buffer_len()];
    m.emit(&mut b);
    b
}

/// `AddressMessage::emit` of an IPv4 message with this header and, where they
/// are there, an `IFA_LOCAL`, an `IFA_ADDRESS` and an `IFA_BROADCAST`, in this
/// order, the flags at zero; the numbers are in the machine's byte order, the
/// addresses in the network's.
#[verifier::external_body]
fn address_body(r: &AddressRequest) -> (b: Vec<u8>)
    ensures
        exists|big: bool| b@ == #[trigger] address_in_bytes(big, *r),
{
    let mut m = AddressMessage::default();
    m.header = AddressHeader {
        family: AddressFamily::Inet,
        prefix_len: r.prefix,
        scope: r.scope.into(),
        index: r.index,
        ..Default::default()
    };
    m.attributes.extend(r.local.map(|a| AddressAttribute::Local(a.octets().into())));
    m.attributes.extend(r.peer.map(|a| AddressAttribute::Address(a.octets().into())));
    m.attributes.extend(r.broadcast.map(|a| AddressAttribute::Broadcast(a.octets().into())));
    let mut b = vec![0u8; m.buffer_len()];
    m.emit(&mut b);
    b
}

/// `RouteMessage::emit` of an IPv4 message with this header and, where they are
/// there, an `RTA_DST`, `RTA_GATEWAY`, `RTA_OIF` and `RTA_PRIORITY`, in this
/// order, all else at zero; the numbers are in the machine's byte order, the
/// addresses in the network's.
#[verifier::external_body]
fn route_body(r: &RouteRequest) -> (b: Vec<u8>)
    ensures
        exists|big: bool| b@ == #[trigger] route_in_bytes(big, *r),
{
    let mut m = RouteMessage::default();
    m.header = RouteHeader {
        address_family: AddressFamily::Inet, destination_prefix_length: r.prefix, table: r.table,
        protocol: r.protocol.into(), scope: r.scope.into(), kind: r.kind.into(), ..m.header
    };
    let ip = |a: Ipv4Addr| RouteAddress::Inet(a.bits.into());
    m.attributes = [
        r.destination.map(ip).map(RouteAttribute::Destination),
        r.gateway.map(ip).map(RouteAttribute::Gateway),
        r.oif.map(RouteAttribute::Oif),
        r.priority.map(RouteAttribute::Priority),
    ].into_iter().flatten().collect();
    let mut b = vec![0u8; m.buffer_len()];
    m.emit(&mut b);
    b
}

/// Whether `b` is a whole message with this body.
pub open spec fn whole(b: Seq<u8>, message_type: u16, flags: u16, sequence: u32, body: Seq<u8>) -> bool {
    exists|big: bool|
        b == #[trigger] header_in(
            big,
            ((HEADER_LEN + body.len()) % 0x1_0000_0000) as u32,
            message_type,
            flags,
            sequence,
        ) + body
}

fn message(message_type: u16, flags: u16, sequence: u32, body: Vec<u8>) -> (b: Vec<u8>)
    ensures
        whole(b@, message_type, flags, sequence, body@),
{
    let low: u64 = body.len() as u64 % 0x1_0000_0000;
    let length: u32 = ((low + 16) % 0x1_0000_0000) as u32;
    let mut b: Vec<u8> = header_bytes(length, message_type, flags, sequence);
    let ghost head = b@;
    let ghost big = choose|big: bool|
        head == #[trigger] header_in(big, length, message_type, flags, sequence);
    bytes::extend(&mut b, body.as_slice());
    assert(length == ((HEADER_LEN + body@.len()) % 0x1_0000_0000) as u32);
    assert(b@ == header_in(big, length, message_type, flags, sequence) + body@);
    b
}

/// A message that asks for every link, address or route.
pub open spec fn all_links() -> LinkRequest {
    LinkRequest { index: 0, flags: 0, change_mask: 0, mtu: None }
}

/// Nothing said of an address.
pub open spec fn all_addresses() -> AddressRequest {
    AddressRequest { index: 0, prefix: 0, scope: 0, local: None, peer: None, broadcast: None }
}

/// Nothing said of a route.
pub open spec fn all_routes() -> RouteRequest {
    RouteRequest {
        prefix: 0,
        table: 0,
        protocol: 0,
        scope: 0,
        kind: 0,
        destination: None,
        gateway: None,
        oif: None,
        priority: None,
    }
}

/// Whether `b` is a whole message about a link.
pub open spec fn link_message(
    b: Seq<u8>,
    message_type: u16,
    flags: u16,
    sequence: u32,
    r: LinkRequest,
) -> bool {
    exists|big: bool|
        whole(b, message_type, flags, sequence, #[trigger] link_in_bytes(big, r))
}

/// Whether `b` is a whole message about an address.
pub open spec fn addr_message(
    b: Seq<u8>,
    message_type: u16,
    flags: u16,
    sequence: u32,
    r: AddressRequest,
) -> bool {
    exists|big: bool|
        whole(b, message_type, flags, sequence, #[trigger] address_in_bytes(big, r))
}

/// Whether `b` is a whole message about a route.
pub open spec fn way_message(
    b: Seq<u8>,
    message_type: u16,
    flags: u16,
    sequence: u32,
    r: RouteRequest,
) -> bool {
    exists|big: bool|
        whole(b, message_type, flags, sequence, #[trigger] route_in_bytes(big, r))
}

fn about_link(message_type: u16, flags: u16, sequence: u32, r: &LinkRequest) -> (b: Vec<u8>)
    ensures
        link_message(b@, message_type, flags, sequence, *r),
{
    message(message_type, flags, sequence, link_body(r))
}

fn about_address(message_type: u16, flags: u16, sequence: u32, r: &AddressRequest) -> (b: Vec<u8>)
    ensures
        addr_message(b@, message_type, flags, sequence, *r),
{
    message(message_type, flags, sequence, address_body(r))
}

fn about_route(message_type: u16, flags: u16, sequence: u32, r: &RouteRequest) -> (b: Vec<u8>)
    ensures
        way_message(b@, message_type, flags, sequence, *r),
{
    message(message_type, flags, sequence, route_body(r))
}

/// Asks for every link.
pub fn dump_links(sequence: u32) -> (b: Vec<u8>)
    ensures
        link_message(b@, GET_LINK, DUMP, sequence, all_links()),
{
    about_link(
        GET_LINK,
        DUMP,
        sequence,
        &LinkRequest { index: 0, flags: 0, change_mask: 0, mtu: None },
    )
}

/// Asks for every IPv4 address.
pub fn dump_addresses(sequence: u32) -> (b: Vec<u8>)
    ensures
        addr_message(b@, GET_ADDRESS, DUMP, sequence, all_addresses()),
{
    about_address(
        GET_ADDRESS,
        DUMP,
        sequence,
        &AddressRequest { index: 0, prefix: 0, scope: 0, local: None, peer: None, broadcast: None },
    )
}

/// Asks for every IPv4 route.
pub fn dump_routes(sequence: u32) -> (b: Vec<u8>)
    ensures
        way_message(b@, GET_ROUTE, DUMP, sequence, all_routes()),
{
    about_route(
        GET_ROUTE,
        DUMP,
        sequence,
        &RouteRequest {
            prefix: 0,
            table: 0,
            protocol: 0,
            scope: 0,
            kind: 0,
            destination: None,
            gateway: None,
            oif: None,
            priority: None,
        },
    )
}

/// That a link be up, or down.
pub open spec fn up_request(index: u32, up: bool) -> LinkRequest {
    LinkRequest {
        index,
        flags: if up {
            IFF_UP
        } else {
            0
        },
        change_mask: IFF_UP,
        mtu: None,
    }
}

/// That a link have this packet size limit.
pub open spec fn mtu_request(index: u32, mtu: u32) -> LinkRequest {
    LinkRequest { index, flags: 0, change_mask: 0, mtu: Some(mtu) }
}

/// Brings a link up or takes it down.
pub fn set_link_up(sequence: u32, index: u32, up: bool) -> (b: Vec<u8>)
    ensures
        link_message(b@, SET_LINK, ASK, sequence, up_request(index, up)),
{
    let flags: u32 = if up {
        IFF_UP
    } else {
        0
    };
    about_link(
        SET_LINK,
        ASK,
        sequence,
        &LinkRequest { index, flags, change_mask: IFF_UP, mtu: None },
    )
}

/// Sets a link's packet size limit.
pub fn set_mtu(sequence: u32, index: u32, mtu: u32) -> (b: Vec<u8>)
    ensures
        link_message(b@, SET_LINK, ASK, sequence, mtu_request(index, mtu)),
{
    about_link(
        SET_LINK,
        ASK,
        sequence,
        &LinkRequest { index, flags: 0, change_mask: 0, mtu: Some(mtu) },
    )
}

/// The last address with the first `prefix` bits of `a`.
pub open spec fn last_in_block(a: Ipv4Addr, prefix: u8) -> Ipv4Addr {
    Ipv4Addr {
        bits: (addr::block_start(a, prefix).bits + addr::block_size(prefix) - 1) as u32,
    }
}

/// What a message says of an IPv4 address: link scope for a self-assigned one,
/// and a broadcast address where the prefix leaves room for one, the last of
/// the block unless another is given.
pub open spec fn address_request(
    index: u32,
    a: Ipv4Addr,
    prefix: u8,
    broadcast: Option<Ipv4Addr>,
) -> AddressRequest {
    AddressRequest {
        index,
        prefix,
        scope: if a.bits / 0x1_0000 == 0xa9fe {
            SCOPE_LINK
        } else {
            SCOPE_UNIVERSE
        },
        local: Some(a),
        peer: Some(a),
        broadcast: if prefix < 31 {
            match broadcast {
                Some(b) => Some(b),
                None => Some(last_in_block(a, prefix)),
            }
        } else {
            None
        },
    }
}

fn address_message(index: u32, a: Ipv4Addr, prefix: u8, broadcast: Option<Ipv4Addr>) -> (r:
    AddressRequest)
    ensures
        r == address_request(index, a, prefix, broadcast),
{
    let scope: u8 = if a.is_link_local() {
        SCOPE_LINK
    } else {
        SCOPE_UNIVERSE
    };
    let shown: Option<Ipv4Addr> = if prefix < 31 {
        match broadcast {
            Some(b) => Some(b),
            None => {
                let size: u64 = addr::block(prefix);
                let bits: u64 = a.bits as u64;
                proof {
                    addr::block_fits(a, prefix);
                }
                let start: u64 = bits - bits % size;
                Some(Ipv4Addr { bits: (start + size - 1) as u32 })
            },
        }
    } else {
        None
    };
    AddressRequest { index, prefix, scope, local: Some(a), peer: Some(a), broadcast: shown }
}

/// Puts an address on its interface. Only IPv4 addresses are managed this way.
pub fn add_address(sequence: u32, address: &Address, broadcast: Option<Ipv4Addr>) -> (r: Option<
    Vec<u8>,
>)
    ensures
        match (r, address.address) {
            (Some(b), IpAddr::V4(a)) => addr_message(
                b@,
                NEW_ADDRESS,
                (ASK + CREATE_OR_REPLACE) as u16,
                sequence,
                address_request(address.index, a, address.prefix, broadcast),
            ),
            (None, IpAddr::V6(_)) => true,
            _ => false,
        },
{
    match address.address {
        IpAddr::V4(a) => Some(
            about_address(
                NEW_ADDRESS,
                ASK + CREATE_OR_REPLACE,
                sequence,
                &address_message(address.index, a, address.prefix, broadcast),
            ),
        ),
        IpAddr::V6(_) => None,
    }
}

/// Takes an address off its interface. Only IPv4 addresses are managed this
/// way.
pub fn del_address(sequence: u32, address: &Address) -> (r: Option<Vec<u8>>)
    ensures
        match (r, address.address) {
            (Some(b), IpAddr::V4(a)) => addr_message(
                b@,
                DEL_ADDRESS,
                ASK,
                sequence,
                address_request(address.index, a, address.prefix, None),
            ),
            (None, IpAddr::V6(_)) => true,
            _ => false,
        },
{
    match address.address {
        IpAddr::V4(a) => Some(
            about_address(
                DEL_ADDRESS,
                ASK,
                sequence,
                &address_message(address.index, a, address.prefix, None),
            ),
        ),
        IpAddr::V6(_) => None,
    }
}

/// What a message says of an IPv4 route; nothing where the route is not one.
pub open spec fn route_request(r: Route) -> Option<RouteRequest> {
    match (r.destination, r.gateway) {
        (IpAddr::V4(d), Some(IpAddr::V4(g))) => Some(plain_route(r, d, Some(g))),
        (IpAddr::V4(d), None) => Some(plain_route(r, d, None)),
        _ => None,
    }
}

/// What a message says of a route to this destination by this gateway.
pub open spec fn plain_route(r: Route, d: Ipv4Addr, g: Option<Ipv4Addr>) -> RouteRequest {
    RouteRequest {
        prefix: r.prefix,
        table: TABLE_MAIN,
        protocol: r.protocol,
        scope: if g is Some {
            SCOPE_UNIVERSE
        } else {
            SCOPE_LINK
        },
        kind: KIND_UNICAST,
        destination: if r.prefix > 0 {
            Some(d)
        } else {
            None
        },
        gateway: g,
        oif: Some(r.index),
        priority: if r.metric > 0 {
            Some(r.metric)
        } else {
            None
        },
    }
}

fn route_message(r: &Route) -> (q: Option<RouteRequest>)
    ensures
        q == route_request(*r),
{
    let d: Ipv4Addr = match r.destination {
        IpAddr::V4(d) => d,
        IpAddr::V6(_) => {
            return None;
        },
    };
    let gateway: Option<Ipv4Addr> = match r.gateway {
        Some(IpAddr::V4(g)) => Some(g),
        Some(IpAddr::V6(_)) => {
            return None;
        },
        None => None,
    };
    let scope: u8 = match gateway {
        Some(_) => SCOPE_UNIVERSE,
        None => SCOPE_LINK,
    };
    let destination: Option<Ipv4Addr> = if r.prefix > 0 {
        Some(d)
    } else {
        None
    };
    let priority: Option<u32> = if r.metric > 0 {
        Some(r.metric)
    } else {
        None
    };
    Some(
        RouteRequest {
            prefix: r.prefix,
            table: TABLE_MAIN,
            protocol: r.protocol,
            scope,
            kind: KIND_UNICAST,
            destination,
            gateway,
            oif: Some(r.index),
            priority,
        },
    )
}

/// Adds a route. Only IPv4 routes are managed this way.
pub fn add_route(sequence: u32, route: &Route) -> (r: Option<Vec<u8>>)
    ensures
        match (r, route_request(*route)) {
            (Some(b), Some(q)) => way_message(
                b@,
                NEW_ROUTE,
                (ASK + CREATE_NEW) as u16,
                sequence,
                q,
            ),
            (None, None) => true,
            _ => false,
        },
{
    match route_message(route) {
        Some(q) => Some(about_route(NEW_ROUTE, ASK + CREATE_NEW, sequence, &q)),
        None => None,
    }
}

/// Takes a route away. Only IPv4 routes are managed this way.
pub fn del_route(sequence: u32, route: &Route) -> (r: Option<Vec<u8>>)
    ensures
        match (r, route_request(*route)) {
            (Some(b), Some(q)) => way_message(b@, DEL_ROUTE, ASK, sequence, q),
            (None, None) => true,
            _ => false,
        },
{
    match route_message(route) {
        Some(q) => Some(about_route(DEL_ROUTE, ASK, sequence, &q)),
        None => None,
    }
}

/// Whether a step can be asked of the kernel: all but those on IPv6 addresses
/// and routes.
pub open spec fn askable(op: Op) -> bool {
    match op {
        Op::AddAddress(a, _) | Op::DelAddress(a) => a.address is V4,
        Op::AddRoute(r) | Op::DelRoute(r) => route_request(r) is Some,
        Op::LinkUp(_) | Op::LinkDown(_) | Op::Mtu(_, _) => true,
    }
}

/// Whether `b` is the message that asks the kernel for this step.
pub open spec fn asks_for(b: Seq<u8>, sequence: u32, op: Op) -> bool {
    match op {
        Op::LinkUp(i) => link_message(b, SET_LINK, ASK, sequence, up_request(i, true)),
        Op::LinkDown(i) => link_message(b, SET_LINK, ASK, sequence, up_request(i, false)),
        Op::Mtu(i, m) => link_message(b, SET_LINK, ASK, sequence, mtu_request(i, m)),
        Op::AddAddress(a, broadcast) => addr_message(
            b,
            NEW_ADDRESS,
            (ASK + CREATE_OR_REPLACE) as u16,
            sequence,
            address_request(a.index, a.address->V4_0, a.prefix, broadcast),
        ),
        Op::DelAddress(a) => addr_message(
            b,
            DEL_ADDRESS,
            ASK,
            sequence,
            address_request(a.index, a.address->V4_0, a.prefix, None),
        ),
        Op::AddRoute(r) => way_message(
            b,
            NEW_ROUTE,
            (ASK + CREATE_NEW) as u16,
            sequence,
            route_request(r)->Some_0,
        ),
        Op::DelRoute(r) => way_message(b, DEL_ROUTE, ASK, sequence, route_request(r)->Some_0),
    }
}

/// The message that asks the kernel for one step of a plan.
pub fn request(sequence: u32, op: &Op) -> (r: Option<Vec<u8>>)
    ensures
        match r {
            Some(b) => askable(*op) && asks_for(b@, sequence, *op),
            None => !askable(*op),
        },
{
    match op {
        Op::LinkUp(i) => Some(set_link_up(sequence, *i, true)),
        Op::LinkDown(i) => Some(set_link_up(sequence, *i, false)),
        Op::Mtu(i, m) => Some(set_mtu(sequence, *i, *m)),
        Op::AddAddress(a, broadcast) => add_address(sequence, a, *broadcast),
        Op::DelAddress(a) => del_address(sequence, a),
        Op::AddRoute(route) => add_route(sequence, route),
        Op::DelRoute(route) => del_route(sequence, route),
    }
}

/// The sequence number after this one; none is zero.
pub fn next_sequence(sequence: u32) -> (r: u32)
    ensures
        r == if sequence == u32::MAX {
            1
        } else {
            (sequence + 1) as u32
        },
{
    if sequence == u32::MAX {
        1
    } else {
        sequence + 1
    }
}

// ---- reading ---------------------------------------------------------------

/// What a message carries.
#[derive(Debug, Clone, Copy, PartialEq, Eq, Structural)]
pub enum Carried {
    Done,
    /// The error code; zero for an acknowledgement.
    Code(i32),
    Link,
    Address,
    Route,
    Other,
}

/// The outside of a message.
#[derive(Debug, Clone, Copy, PartialEq, Eq, Structural)]
pub struct Envelope {
    pub length: u32,
    pub sequence: u32,
    pub carried: Carried,
}

/// What an attribute of a link says.
#[derive(Debug, PartialEq, Eq)]
pub enum LinkFact {
    Name(String),
    Hardware(Vec<u8>),
    Mtu(u32),
    Other,
}

/// The same as values.
#[verifier::ext_equal]
pub enum LinkFactV {
    Name(Seq<char>),
    Hardware(Seq<u8>),
    Mtu(u32),
    Other,
}

impl View for LinkFact {
    type V = LinkFactV;

    open spec fn view(&self) -> LinkFactV {
        match self {
            LinkFact::Name(s) => LinkFactV::Name(s@),
            LinkFact::Hardware(b) => LinkFactV::Hardware(b@),
            LinkFact::Mtu(n) => LinkFactV::Mtu(*n),
            LinkFact::Other => LinkFactV::Other,
        }
    }
}

/// What a link message says.
#[derive(Debug, PartialEq, Eq)]
pub struct LinkFacts {
    pub index: u32,
    pub flags: u32,
    /// `ARPHRD_*`.
    pub link_type: u16,
    pub attributes: Vec<LinkFact>,
}

/// The same as values.
#[verifier::ext_equal]
pub struct LinkFactsV {
    pub index: u32,
    pub flags: u32,
    pub link_type: u16,
    pub attributes: Seq<LinkFactV>,
}

impl View for LinkFacts {
    type V = LinkFactsV;

    open spec fn view(&self) -> LinkFactsV {
        LinkFactsV {
            index: self.index,
            flags: self.flags,
            link_type: self.link_type,
            attributes: self.attributes@.map_values(|f: LinkFact| f@),
        }
    }
}

/// What an attribute of an address says; none where the address is of neither
/// family.
#[derive(Debug, Clone, Copy, PartialEq, Eq, Structural)]
pub enum AddressFact {
    Local(Option<IpAddr>),
    Address(Option<IpAddr>),
    Other,
}

/// What an address message says.
#[derive(Debug, PartialEq, Eq)]
pub struct AddressFacts {
    pub index: u32,
    pub prefix: u8,
    pub attributes: Vec<AddressFact>,
}

/// The same as values.
#[verifier::ext_equal]
pub struct AddressFactsV {
    pub index: u32,
    pub prefix: u8,
    pub attributes: Seq<AddressFact>,
}

impl View for AddressFacts {
    type V = AddressFactsV;

    open spec fn view(&self) -> AddressFactsV {
        AddressFactsV { index: self.index, prefix: self.prefix, attributes: self.attributes@ }
    }
}

/// What an attribute of a route says.
#[derive(Debug, Clone, Copy, PartialEq, Eq, Structural)]
pub enum RouteFact {
    Destination(Ipv4Addr),
    Gateway(Ipv4Addr),
    Oif(u32),
    Priority(u32),
    Other,
}

/// What a route message says.
#[derive(Debug, PartialEq, Eq)]
pub struct RouteFacts {
    pub table: u8,
    pub kind: u8,
    pub prefix: u8,
    pub protocol: u8,
    pub attributes: Vec<RouteFact>,
}

/// The same as values.
#[verifier::ext_equal]
pub struct RouteFactsV {
    pub table: u8,
    pub kind: u8,
    pub prefix: u8,
    pub protocol: u8,
    pub attributes: Seq<RouteFact>,
}

impl View for RouteFacts {
    type V = RouteFactsV;

    open spec fn view(&self) -> RouteFactsV {
        RouteFactsV {
            table: self.table,
            kind: self.kind,
            prefix: self.prefix,
            protocol: self.protocol,
            attributes: self.attributes@,
        }
    }
}

/// The outside of the message that these bytes begin with, or why there is none,
/// in one byte order and with one system's numbers for what a message names.
pub uninterp spec fn envelope_on(big: bool, system: int, b: Seq<u8>) -> Result<
    Envelope,
    Seq<char>,
>;

/// What the link message that these bytes begin with says, in one byte order and
/// with one system's numbers.
pub uninterp spec fn link_facts_on(big: bool, system: int, b: Seq<u8>) -> Option<LinkFactsV>;

/// What the address message that these bytes begin with says, in one byte order
/// and with one system's numbers.
pub uninterp spec fn address_facts_on(big: bool, system: int, b: Seq<u8>) -> Option<
    AddressFactsV,
>;

/// What the route message that these bytes begin with says, in one byte order
/// and with one system's numbers.
pub uninterp spec fn route_facts_on(big: bool, system: int, b: Seq<u8>) -> Option<RouteFactsV>;

/// What a number of four bytes is with a sign.
pub open spec fn signed(n: int) -> i32 {
    if n < 0x8000_0000 {
        n as i32
    } else {
        (n - 0x1_0000_0000) as i32
    }
}

/// What a message carries, by its type.
pub open spec fn carried_in(big: bool, b: Seq<u8>) -> Carried {
    let t = attributes::short(big, b, 4);
    if t == ERROR {
        Carried::Code(signed(attributes::word(big, b, HEADER_LEN as int)))
    } else if t == DONE {
        Carried::Done
    } else if t == NEW_LINK {
        Carried::Link
    } else if t == NEW_ADDRESS {
        Carried::Address
    } else if t == NEW_ROUTE {
        Carried::Route
    } else {
        Carried::Other
    }
}

/// The outside of a message, as its header tells it: the length, the type, the
/// number.
pub open spec fn envelope_in(big: bool, b: Seq<u8>, e: Envelope) -> bool {
    &&& HEADER_LEN <= e.length <= b.len()
    &&& e.length == attributes::word(big, b, 0)
    &&& e.sequence == attributes::word(big, b, 8)
    &&& e.carried == carried_in(big, b)
}

/// `NetlinkMessage::deserialize` of a routing message, its header and which
/// message it carries. Whether it accepts the bytes, and what it says where it
/// does not, follows from the bytes, the machine's byte order and the system's
/// numbers. Of one that it accepts, the header tells the rest: it lies within
/// the bytes given, and what it carries goes by its type. The parser stops the
/// program on bytes that trip it, so those are left out.
#[verifier::external_body]
fn deserialize(b: &[u8]) -> (r: Result<Envelope, String>)
    requires
        forall|big: bool| !attributes::trips(big, b@),
    ensures
        exists|big: bool, system: int|
            match #[trigger] envelope_on(big, system, b@) {
                Ok(e) => r == Ok::<Envelope, String>(e) && envelope_in(big, b@, e),
                Err(why) => r matches Err(e) && e@ == why,
            },
{
    let m = NetlinkMessage::<RouteNetlinkMessage>::deserialize(b).map_err(|e| e.to_string())?;
    let carried = match m.payload {
        NetlinkPayload::Done(_) => Carried::Done,
        NetlinkPayload::Error(e) => Carried::Code(e.raw_code()),
        InnerMessage(NewLink(_)) => Carried::Link,
        InnerMessage(NewAddress(_)) => Carried::Address,
        InnerMessage(NewRoute(_)) => Carried::Route,
        _ => Carried::Other,
    };
    Ok(Envelope { length: m.header.length, sequence: m.header.sequence_number, carried })
}

/// `NetlinkMessage::deserialize` of a routing message that carries a
/// `LinkMessage`: its index, its flags (`LinkFlags::bits`), the number of its
/// link layer type, and its attributes one for one. They follow from the bytes,
/// the machine's byte order and the system's numbers. The type of such a message
/// is `RTM_NEWLINK`. Bytes that trip the parser are left out.
#[verifier::external_body]
fn link_facts(b: &[u8]) -> (r: Option<LinkFacts>)
    requires
        forall|big: bool| !attributes::trips(big, b@),
    ensures
        exists|big: bool, system: int|
            match #[trigger] link_facts_on(big, system, b@) {
                Some(f) => {
                    &&& r matches Some(g) && g@ == f
                    &&& attributes::short(big, b@, 4) == NEW_LINK
                },
                None => r is None,
            },
{
    let fact = |a| match a {
        LinkAttribute::IfName(n) => LinkFact::Name(n),
        LinkAttribute::Address(b) => LinkFact::Hardware(b),
        LinkAttribute::Mtu(n) => LinkFact::Mtu(n),
        _ => LinkFact::Other,
    };
    match NetlinkMessage::<RouteNetlinkMessage>::deserialize(b).ok()?.payload {
        InnerMessage(NewLink(m)) => Some(LinkFacts {
            index: m.header.index, flags: m.header.flags.bits(),
            link_type: m.header.link_layer_type.into(),
            attributes: m.attributes.into_iter().map(fact).collect(),
        }),
        _ => None,
    }
}

/// `NetlinkMessage::deserialize` of a routing message that carries an
/// `AddressMessage`: its index, its prefix length and its attributes one for
/// one; addresses go by way of `RouteAddress::from`, which tells the families
/// apart. They follow from the bytes, the machine's byte order and the system's
/// numbers. The type of such a message is `RTM_NEWADDR`. Bytes that trip the
/// parser are left out.
#[verifier::external_body]
fn address_facts(b: &[u8]) -> (r: Option<AddressFacts>)
    requires
        forall|big: bool| !attributes::trips(big, b@),
    ensures
        exists|big: bool, system: int|
            match #[trigger] address_facts_on(big, system, b@) {
                Some(f) => {
                    &&& r matches Some(g) && g@ == f
                    &&& attributes::short(big, b@, 4) == NEW_ADDRESS
                },
                None => r is None,
            },
{
    let plain = |a| match RouteAddress::from(a) {
        RouteAddress::Inet(a) => Some(IpAddr::V4(Ipv4Addr { bits: a.into() })),
        RouteAddress::Inet6(a) => Some(IpAddr::V6(Ipv6Addr { bits: a.into() })),
        _ => None,
    };
    let fact = |a| match a {
        AddressAttribute::Local(a) => AddressFact::Local(plain(a)),
        AddressAttribute::Address(a) => AddressFact::Address(plain(a)),
        _ => AddressFact::Other,
    };
    let InnerMessage(NewAddress(m)) =
        NetlinkMessage::<RouteNetlinkMessage>::deserialize(b).ok()?.payload else { return None };
    let attributes = m.attributes.into_iter().map(fact).collect();
    Some(AddressFacts { index: m.header.index, prefix: m.header.prefix_len, attributes })
}

/// `NetlinkMessage::deserialize` of a routing message that carries a
/// `RouteMessage`: its table, the numbers of its kind and protocol, its prefix
/// length, and its attributes one for one. They follow from the bytes, the
/// machine's byte order and the system's numbers. The type of such a message is
/// `RTM_NEWROUTE`. Bytes that trip the parser are left out.
#[verifier::external_body]
fn route_facts(b: &[u8]) -> (r: Option<RouteFacts>)
    requires
        forall|big: bool| !attributes::trips(big, b@),
    ensures
        exists|big: bool, system: int|
            match #[trigger] route_facts_on(big, system, b@) {
                Some(f) => {
                    &&& r matches Some(g) && g@ == f
                    &&& attributes::short(big, b@, 4) == NEW_ROUTE
                },
                None => r is None,
            },
{
    let InnerMessage(NewRoute(m)) =
        NetlinkMessage::<RouteNetlinkMessage>::deserialize(b).ok()?.payload else { return None };
    let fact = |a| match a {
        RouteAttribute::Destination(RouteAddress::Inet(a)) => RouteFact::Destination(Ipv4Addr { bits: a.into() }),
        RouteAttribute::Gateway(RouteAddress::Inet(a)) => RouteFact::Gateway(Ipv4Addr { bits: a.into() }),
        RouteAttribute::Oif(n) => RouteFact::Oif(n),
        RouteAttribute::Priority(n) => RouteFact::Priority(n),
        _ => RouteFact::Other,
    };
    Some(RouteFacts {
        table: m.header.table, kind: m.header.kind.into(), protocol: m.header.protocol.into(),
        prefix: m.header.destination_prefix_length,
        attributes: m.attributes.into_iter().map(fact).collect(),
    })
}

/// What a message from the kernel is.
#[derive(Debug, PartialEq, Eq)]
pub enum Body {
    /// The end of a dump.
    Done,
    /// The outcome of a request: zero, or an error number with its sign turned.
    Code(i32),
    Link(LinkFacts),
    Address(AddressFacts),
    Route(RouteFacts),
    Other,
}

/// A message from the kernel.
#[derive(Debug, PartialEq, Eq)]
pub struct Answer {
    pub sequence: u32,
    pub body: Body,
}

/// Whether this is what bytes with such a message say, in one byte order. A
/// message is read once for its outside and once for what it carries. Both
/// readings are on one system; that is not stated, so where the outside tells of
/// a link, an address or a route, none in it is not ruled out.
pub open spec fn says(body: Body, carried: Carried, big: bool, b: Seq<u8>) -> bool {
    match (carried, body) {
        (Carried::Done, Body::Done) => true,
        (Carried::Code(n), Body::Code(k)) => n == k,
        (Carried::Link, Body::Link(f)) => exists|system: int|
            #[trigger] link_facts_on(big, system, b) == Some(f@),
        (Carried::Link, Body::Other) => exists|order: bool, system: int|
            (#[trigger] link_facts_on(order, system, b)) is None,
        (Carried::Address, Body::Address(f)) => exists|system: int|
            #[trigger] address_facts_on(big, system, b) == Some(f@),
        (Carried::Address, Body::Other) => exists|order: bool, system: int|
            (#[trigger] address_facts_on(order, system, b)) is None,
        (Carried::Route, Body::Route(f)) => exists|system: int|
            #[trigger] route_facts_on(big, system, b) == Some(f@),
        (Carried::Route, Body::Other) => exists|order: bool, system: int|
            (#[trigger] route_facts_on(order, system, b)) is None,
        (Carried::Other, Body::Other) => true,
        _ => false,
    }
}

fn body_of(carried: Carried, b: &[u8]) -> (r: Body)
    requires
        forall|big: bool| !attributes::trips(big, b@),
    ensures
        forall|big: bool| carried == carried_in(big, b@) ==> says(r, carried, big, b@),
{
    match carried {
        Carried::Done => Body::Done,
        Carried::Code(n) => Body::Code(n),
        Carried::Link => match link_facts(b) {
            Some(f) => Body::Link(f),
            None => Body::Other,
        },
        Carried::Address => match address_facts(b) {
            Some(f) => Body::Address(f),
            None => Body::Other,
        },
        Carried::Route => match route_facts(b) {
            Some(f) => Body::Route(f),
            None => Body::Other,
        },
        Carried::Other => Body::Other,
    }
}

/// Whether the message that bytes begin with must not reach the parser, in either
/// byte order.
pub open spec fn trips_in_either(b: Seq<u8>) -> bool {
    attributes::trips(true, b) || attributes::trips(false, b)
}

/// The message that begins at `offset`, and where the next one does; or why
/// there is none. Bytes that must not reach the parser do not.
pub fn next_answer(b: &[u8], offset: usize) -> (r: Result<(Answer, usize), String>)
    requires
        offset <= b@.len(),
    ensures
        trips_in_either(b@.skip(offset as int)) ==> (r matches Err(e) && e@
            == "a message the parser cannot take"@),
        !trips_in_either(b@.skip(offset as int)) ==> exists|big: bool, system: int|
            match (r, #[trigger] envelope_on(big, system, b@.skip(offset as int))) {
                (Ok((a, next)), Ok(e)) => {
                    &&& envelope_in(big, b@.skip(offset as int), e)
                    &&& a.sequence == e.sequence
                    &&& says(a.body, e.carried, big, b@.skip(offset as int))
                    &&& next == offset + e.length
                    &&& offset + HEADER_LEN <= next <= b@.len()
                },
                (Err(e), Err(why)) => e@ == why,
                _ => false,
            },
{
    let rest: &[u8] = vstd::slice::slice_subrange(b, offset, b.len());
    assert(rest@ =~= b@.skip(offset as int));
    if attributes::trips_either(rest) {
        return Err("a message the parser cannot take".to_string());
    }
    assert forall|big: bool| !attributes::trips(big, rest@) by {
        if big {
            assert(!attributes::trips(true, rest@));
        } else {
            assert(!attributes::trips(false, rest@));
        }
    }
    match deserialize(rest) {
        Err(e) => Err(e),
        Ok(e) => {
            let body: Body = body_of(e.carried, rest);
            Ok((Answer { sequence: e.sequence, body }, offset + e.length as usize))
        },
    }
}

// ---- what a message means --------------------------------------------------

/// The last name among the attributes of a link.
pub open spec fn name_in(s: Seq<LinkFactV>) -> Seq<char>
    decreases s.len(),
{
    if s.len() == 0 {
        Seq::empty()
    } else {
        match s.last() {
            LinkFactV::Name(n) => n,
            _ => name_in(s.drop_last()),
        }
    }
}

/// The last hardware address of six bytes among the attributes of a link.
pub open spec fn hardware_in(s: Seq<LinkFactV>) -> Option<Seq<u8>>
    decreases s.len(),
{
    if s.len() == 0 {
        None
    } else {
        match s.last() {
            LinkFactV::Hardware(b) => if b.len() == 6 {
                Some(b)
            } else {
                hardware_in(s.drop_last())
            },
            _ => hardware_in(s.drop_last()),
        }
    }
}

/// The last packet size limit among the attributes of a link.
pub open spec fn mtu_in(s: Seq<LinkFactV>) -> u32
    decreases s.len(),
{
    if s.len() == 0 {
        0
    } else {
        match s.last() {
            LinkFactV::Mtu(n) => n,
            _ => mtu_in(s.drop_last()),
        }
    }
}

/// Whether a flag is set.
pub open spec fn flagged(flags: u32, flag: u32) -> bool {
    flags & flag != 0
}

/// What a link is: loopback by its flag, wireless or wired where it is
/// Ethernet.
pub open spec fn kind_in(m: LinkFactsV, wireless: bool) -> LinkKind {
    if flagged(m.flags, IFF_LOOPBACK) {
        LinkKind::Loopback
    } else if m.link_type == ARPHRD_ETHER {
        if wireless {
            LinkKind::Wireless
        } else {
            LinkKind::Ether
        }
    } else {
        LinkKind::Other
    }
}

/// The link that a message tells of.
pub open spec fn link_in(m: LinkFactsV, wireless: bool) -> LinkV {
    LinkV {
        index: m.index,
        name: name_in(m.attributes),
        mac: hardware_in(m.attributes),
        up: flagged(m.flags, IFF_UP),
        carrier: flagged(m.flags, IFF_LOWER_UP),
        loopback: flagged(m.flags, IFF_LOOPBACK),
        mtu: mtu_in(m.attributes),
        link_type: m.link_type,
        kind: kind_in(m, wireless),
    }
}

/// The name of the link that a message tells of, by which it is found out
/// whether the link is wireless.
pub fn link_name(m: &LinkFacts) -> (s: String)
    ensures
        s@ == name_in(m@.attributes),
{
    let mut name: String = String::new();
    let ghost all = m@.attributes;
    let mut i: usize = 0;
    while i < m.attributes.len()
        invariant
            i <= m.attributes@.len(),
            all == m@.attributes,
            name@ == name_in(all.take(i as int)),
        decreases m.attributes@.len() - i,
    {
        assert(all.take(i + 1).drop_last() =~= all.take(i as int));
        assert(all[i as int] == m.attributes@[i as int]@);
        match &m.attributes[i] {
            LinkFact::Name(n) => {
                name = n.clone();
            },
            _ => {},
        }
        i = i + 1;
    }
    assert(all.take(i as int) =~= all);
    name
}

/// The link that a message tells of. `wireless` says whether the machine has
/// wireless markers for a link of that name.
pub fn link_from_message(m: &LinkFacts, wireless: bool) -> (l: Link)
    ensures
        l@ == link_in(m@, wireless),
{
    let mut mac: Option<[u8; 6]> = None;
    let mut mtu: u32 = 0;
    let ghost all = m@.attributes;
    let mut i: usize = 0;
    while i < m.attributes.len()
        invariant
            i <= m.attributes@.len(),
            all == m@.attributes,
            model::mac_view(mac) == hardware_in(all.take(i as int)),
            mtu == mtu_in(all.take(i as int)),
        decreases m.attributes@.len() - i,
    {
        assert(all.take(i + 1).drop_last() =~= all.take(i as int));
        assert(all[i as int] == m.attributes@[i as int]@);
        match &m.attributes[i] {
            LinkFact::Hardware(b) => {
                if b.len() == 6 {
                    let six: [u8; 6] = [b[0], b[1], b[2], b[3], b[4], b[5]];
                    assert(six@ =~= b@);
                    mac = Some(six);
                }
            },
            LinkFact::Mtu(n) => {
                mtu = *n;
            },
            _ => {},
        }
        i = i + 1;
    }
    assert(all.take(i as int) =~= all);
    let loopback: bool = m.flags & IFF_LOOPBACK != 0;
    let kind: LinkKind = if loopback {
        LinkKind::Loopback
    } else if m.link_type == ARPHRD_ETHER {
        if wireless {
            LinkKind::Wireless
        } else {
            LinkKind::Ether
        }
    } else {
        LinkKind::Other
    };
    Link {
        index: m.index,
        name: link_name(m),
        mac,
        up: m.flags & IFF_UP != 0,
        carrier: m.flags & IFF_LOWER_UP != 0,
        loopback,
        mtu,
        link_type: m.link_type,
        kind,
    }
}

/// The last local address among the attributes of an address.
pub open spec fn local_in(s: Seq<AddressFact>) -> Option<IpAddr>
    decreases s.len(),
{
    if s.len() == 0 {
        None
    } else {
        match s.last() {
            AddressFact::Local(Some(a)) => Some(a),
            _ => local_in(s.drop_last()),
        }
    }
}

/// The last plain address among the attributes of an address.
pub open spec fn plain_in(s: Seq<AddressFact>) -> Option<IpAddr>
    decreases s.len(),
{
    if s.len() == 0 {
        None
    } else {
        match s.last() {
            AddressFact::Address(Some(a)) => Some(a),
            _ => plain_in(s.drop_last()),
        }
    }
}

/// The address that a message tells of: the interface's own where it is given,
/// for the other is the peer's on a point-to-point link.
pub open spec fn address_in(m: AddressFactsV) -> Option<Address> {
    match (local_in(m.attributes), plain_in(m.attributes)) {
        (Some(a), _) => Some(model::plain_address(m.index, a, m.prefix)),
        (None, Some(a)) => Some(model::plain_address(m.index, a, m.prefix)),
        (None, None) => None,
    }
}

/// The address that a message tells of.
pub fn address_from_message(m: &AddressFacts) -> (r: Option<Address>)
    ensures
        r == address_in(m@),
{
    let mut local: Option<IpAddr> = None;
    let mut plain: Option<IpAddr> = None;
    let mut i: usize = 0;
    while i < m.attributes.len()
        invariant
            i <= m.attributes@.len(),
            local == local_in(m.attributes@.take(i as int)),
            plain == plain_in(m.attributes@.take(i as int)),
        decreases m.attributes@.len() - i,
    {
        assert(m.attributes@.take(i + 1).drop_last() =~= m.attributes@.take(i as int));
        match m.attributes[i] {
            AddressFact::Local(Some(a)) => {
                local = Some(a);
            },
            AddressFact::Address(Some(a)) => {
                plain = Some(a);
            },
            _ => {},
        }
        i = i + 1;
    }
    assert(m.attributes@.take(i as int) =~= m.attributes@);
    match (local, plain) {
        (Some(a), _) => Some(Address::new(m.index, a, m.prefix)),
        (None, Some(a)) => Some(Address::new(m.index, a, m.prefix)),
        (None, None) => None,
    }
}

/// What the attributes of a route come to.
#[verifier::ext_equal]
pub struct Way {
    pub destination: Ipv4Addr,
    pub gateway: Option<Ipv4Addr>,
    pub oif: Option<u32>,
    pub metric: u32,
}

/// What the attributes of a route come to, the later ones over the earlier.
pub open spec fn way_in(s: Seq<RouteFact>) -> Way
    decreases s.len(),
{
    if s.len() == 0 {
        Way { destination: Ipv4Addr { bits: 0 }, gateway: None, oif: None, metric: 0 }
    } else {
        let before = way_in(s.drop_last());
        match s.last() {
            RouteFact::Destination(a) => Way { destination: a, ..before },
            RouteFact::Gateway(a) => Way { gateway: Some(a), ..before },
            RouteFact::Oif(n) => Way { oif: Some(n), ..before },
            RouteFact::Priority(n) => Way { metric: n, ..before },
            RouteFact::Other => before,
        }
    }
}

/// A route by this way.
pub open spec fn route_by(m: RouteFactsV, w: Way, index: u32) -> Route {
    Route {
        index,
        destination: IpAddr::V4(w.destination),
        prefix: m.prefix,
        gateway: match w.gateway {
            Some(g) => Some(IpAddr::V4(g)),
            None => None,
        },
        metric: w.metric,
        protocol: m.protocol,
    }
}

/// The route that a message tells of: a unicast route of the main table that
/// leaves by an interface.
pub open spec fn route_in(m: RouteFactsV) -> Option<Route> {
    let w = way_in(m.attributes);
    if m.table == TABLE_MAIN && m.kind == KIND_UNICAST {
        match w.oif {
            Some(index) => Some(route_by(m, w, index)),
            None => None,
        }
    } else {
        None
    }
}

/// The route that a message tells of.
pub fn route_from_message(m: &RouteFacts) -> (r: Option<Route>)
    ensures
        r == route_in(m@),
{
    if m.table != TABLE_MAIN || m.kind != KIND_UNICAST {
        return None;
    }
    let mut destination: Ipv4Addr = Ipv4Addr { bits: 0 };
    let mut gateway: Option<Ipv4Addr> = None;
    let mut oif: Option<u32> = None;
    let mut metric: u32 = 0;
    let mut i: usize = 0;
    while i < m.attributes.len()
        invariant
            i <= m.attributes@.len(),
            way_in(m.attributes@.take(i as int)) == (Way { destination, gateway, oif, metric }),
        decreases m.attributes@.len() - i,
    {
        assert(m.attributes@.take(i + 1).drop_last() =~= m.attributes@.take(i as int));
        match m.attributes[i] {
            RouteFact::Destination(a) => {
                destination = a;
            },
            RouteFact::Gateway(a) => {
                gateway = Some(a);
            },
            RouteFact::Oif(n) => {
                oif = Some(n);
            },
            RouteFact::Priority(n) => {
                metric = n;
            },
            RouteFact::Other => {},
        }
        i = i + 1;
    }
    assert(m.attributes@.take(i as int) =~= m.attributes@);
    match oif {
        Some(index) => Some(
            Route {
                index,
                destination: IpAddr::V4(destination),
                prefix: m.prefix,
                gateway: match gateway {
                    Some(g) => Some(IpAddr::V4(g)),
                    None => None,
                },
                metric,
                protocol: m.protocol,
            },
        ),
        None => None,
    }
}

// ---- a conversation --------------------------------------------------------

/// What a request was for.
#[derive(Debug, Clone, Copy, PartialEq, Eq, Structural)]
pub enum Wanted {
    Links,
    Addresses,
    Routes,
    /// That something be done.
    Change,
}

/// What comes after a message.
#[derive(Debug, Clone, Copy, PartialEq, Eq, Structural)]
pub enum Step {
    /// More messages.
    More,
    /// Nothing: the request was answered.
    Finished,
    /// Nothing: the request failed with this error number.
    Failed(i32),
}

/// What comes after a message to a request with this sequence number: an answer
/// to another one means nothing.
pub open spec fn after(sequence: u32, a: Answer) -> Step {
    if a.sequence != sequence {
        Step::More
    } else {
        match a.body {
            Body::Done => Step::Finished,
            Body::Code(n) => if n == 0 {
                Step::Finished
            } else {
                Step::Failed(
                    if n == i32::MIN {
                        n
                    } else {
                        (-n) as i32
                    },
                )
            },
            _ => Step::More,
        }
    }
}

/// The kernel's state with what a message to a request tells of.
pub open spec fn told(
    o: ObservedV,
    wanted: Wanted,
    sequence: u32,
    a: Answer,
    wireless: bool,
) -> ObservedV {
    if a.sequence != sequence {
        o
    } else {
        match (wanted, a.body) {
            (Wanted::Links, Body::Link(m)) => ObservedV {
                links: model::with_link(o.links, link_in(m@, wireless)),
                ..o
            },
            (Wanted::Addresses, Body::Address(m)) => match address_in(m@) {
                Some(x) => ObservedV { addresses: o.addresses.push(x), ..o },
                None => o,
            },
            (Wanted::Routes, Body::Route(m)) => match route_in(m@) {
                Some(x) => ObservedV { routes: o.routes.push(x), ..o },
                None => o,
            },
            _ => o,
        }
    }
}

/// Takes in a message to a request, and says what comes after it. `wireless`
/// says whether the link it tells of, if it tells of one, is wireless.
pub fn receive(
    observed: &mut Observed,
    wanted: Wanted,
    sequence: u32,
    answer: &Answer,
    wireless: bool,
) -> (r: Step)
    ensures
        final(observed)@ == told(old(observed)@, wanted, sequence, *answer, wireless),
        r == after(sequence, *answer),
{
    if answer.sequence != sequence {
        return Step::More;
    }
    match &answer.body {
        Body::Done => Step::Finished,
        Body::Code(n) => {
            if *n == 0 {
                Step::Finished
            } else if *n == i32::MIN {
                Step::Failed(*n)
            } else {
                Step::Failed(-*n)
            }
        },
        Body::Link(m) => {
            match wanted {
                Wanted::Links => observed.insert_link(link_from_message(m, wireless)),
                _ => {},
            }
            Step::More
        },
        Body::Address(m) => {
            match wanted {
                Wanted::Addresses => {
                    match address_from_message(m) {
                        Some(x) => observed.addresses.push(x),
                        None => {},
                    }
                },
                _ => {},
            }
            Step::More
        },
        Body::Route(m) => {
            match wanted {
                Wanted::Routes => {
                    match route_from_message(m) {
                        Some(x) => observed.routes.push(x),
                        None => {},
                    }
                },
                _ => {},
            }
            Step::More
        },
        Body::Other => Step::More,
    }
}

// ---- laws ------------------------------------------------------------------

/// A route that is asked for is told of as itself: what the request says of it,
/// read back from the kernel's table, is the route, its host bits and all.
pub proof fn routes_come_back(r: Route, m: RouteFactsV)
    requires
        route_request(r) is Some,
        ({
            let q = route_request(r)->Some_0;
            &&& m.table == q.table
            &&& m.kind == q.kind
            &&& m.prefix == q.prefix
            &&& m.protocol == q.protocol
            &&& way_in(m.attributes) == (Way {
                destination: match q.destination {
                    Some(d) => d,
                    None => Ipv4Addr { bits: 0 },
                },
                gateway: q.gateway,
                oif: q.oif,
                metric: match q.priority {
                    Some(n) => n,
                    None => 0,
                },
            })
        }),
        r.prefix == 0 ==> r.destination == IpAddr::V4(Ipv4Addr { bits: 0 }),
    ensures
        route_in(m) == Some(r),
{
}

/// A change whose answer is not this one's leaves what is known untouched, and
/// so does anything but the things a dump is of.
pub proof fn strangers_change_nothing(
    o: ObservedV,
    wanted: Wanted,
    sequence: u32,
    a: Answer,
    wireless: bool,
)
    requires
        a.sequence != sequence || wanted == Wanted::Change,
    ensures
        told(o, wanted, sequence, a, wireless) == o,
        a.sequence != sequence ==> after(sequence, a) == Step::More,
{
}

} // verus!
