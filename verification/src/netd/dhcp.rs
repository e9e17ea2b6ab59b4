//! What surrounds the `dhcp4` state machine on the wire.
//!
//! Before an interface has an address nothing but a packet socket can send
//! from 0.0.0.0, so every broadcast goes out through one with a hand-built
//! IP+UDP header. Once bound, a renewal is unicast from the lease address
//! through an ordinary socket so the kernel does the ARP. Replies of both
//! kinds are read off the packet socket, which sees everything on the
//! interface and carries a filter for UDP port 68.

use vstd::prelude::*;
use vstd::string::*;
use vstd::utf8::*;
use crate::addr::Ipv4Addr;
use crate::bytes;
use crate::dhcp4::client::Destination;
use crate::dhcp4::packet;
use crate::dhcp4::packet::{CLIENT_PORT, Message, SERVER_PORT};

verus! {

// ---- the filter ------------------------------------------------------------

/// An instruction of the classic packet filter.
#[derive(Debug, Clone, Copy, PartialEq, Eq, Structural)]
pub struct FilterOp {
    pub code: u16,
    pub jt: u8,
    pub jf: u8,
    pub k: u32,
}

/// "udp dst port 68" on a cooked IPv4 packet.
pub open spec fn filter() -> Seq<FilterOp> {
    seq![
        FilterOp { code: 0x30, jt: 0, jf: 0, k: 9 },
        FilterOp { code: 0x15, jt: 0, jf: 6, k: 17 },
        FilterOp { code: 0x28, jt: 0, jf: 0, k: 6 },
        FilterOp { code: 0x45, jt: 4, jf: 0, k: 0x1fff },
        FilterOp { code: 0xb1, jt: 0, jf: 0, k: 0 },
        FilterOp { code: 0x48, jt: 0, jf: 0, k: 2 },
        FilterOp { code: 0x15, jt: 0, jf: 1, k: 68 },
        FilterOp { code: 0x06, jt: 0, jf: 0, k: 0xffff },
        FilterOp { code: 0x06, jt: 0, jf: 0, k: 0 },
    ]
}

/// The filter for the packet socket.
pub fn filter_program() -> (v: Vec<FilterOp>)
    ensures
        v@ == filter(),
{
    let mut v: Vec<FilterOp> = Vec::new();
    // ldb [9]: the protocol
    v.push(FilterOp { code: 0x30, jt: 0, jf: 0, k: 9 });
    // jeq #17 (udp), else fail
    v.push(FilterOp { code: 0x15, jt: 0, jf: 6, k: 17 });
    // ldh [6]: the fragment offset
    v.push(FilterOp { code: 0x28, jt: 0, jf: 0, k: 6 });
    // jset #0x1fff: a fragment fails
    v.push(FilterOp { code: 0x45, jt: 4, jf: 0, k: 0x1fff });
    // ldxb 4*([0]&0xf): the length of the header
    v.push(FilterOp { code: 0xb1, jt: 0, jf: 0, k: 0 });
    // ldh [x+2]: the UDP destination port
    v.push(FilterOp { code: 0x48, jt: 0, jf: 0, k: 2 });
    // jeq #68, else fail
    v.push(FilterOp { code: 0x15, jt: 0, jf: 1, k: 68 });
    // ret #65535
    v.push(FilterOp { code: 0x06, jt: 0, jf: 0, k: 0xffff });
    // ret #0
    v.push(FilterOp { code: 0x06, jt: 0, jf: 0, k: 0 });
    assert(v@ =~= filter());
    v
}

/// How many instructions are left from `pc` on.
pub open spec fn ahead(ops: Seq<FilterOp>, pc: int) -> nat {
    if pc < ops.len() {
        (ops.len() - pc) as nat
    } else {
        0
    }
}

/// How many bytes of a packet a filter lets through, run from instruction `pc`
/// with `a` and `x` in its registers. A load beyond the packet, and a code that
/// is not one of these, let none through.
pub open spec fn admitted(ops: Seq<FilterOp>, pkt: Seq<u8>, pc: int, a: u32, x: u32) -> nat
    decreases ahead(ops, pc),
{
    if pc < 0 || pc >= ops.len() {
        0
    } else {
        let op = ops[pc];
        let k = op.k as int;
        if op.code == 0x06 {
            op.k as nat
        } else if op.code == 0x30 {
            if k < pkt.len() {
                admitted(ops, pkt, pc + 1, pkt[k] as u32, x)
            } else {
                0
            }
        } else if op.code == 0x28 {
            if k + 2 <= pkt.len() {
                admitted(ops, pkt, pc + 1, (pkt[k] * 256 + pkt[k + 1]) as u32, x)
            } else {
                0
            }
        } else if op.code == 0x48 {
            if x + k + 2 <= pkt.len() {
                admitted(ops, pkt, pc + 1, (pkt[x + k] * 256 + pkt[x + k + 1]) as u32, x)
            } else {
                0
            }
        } else if op.code == 0xb1 {
            if k < pkt.len() {
                admitted(ops, pkt, pc + 1, a, (4 * (pkt[k] % 16)) as u32)
            } else {
                0
            }
        } else if op.code == 0x15 {
            admitted(ops, pkt, pc + 1 + if a == op.k { op.jt as int } else { op.jf as int }, a, x)
        } else if op.code == 0x45 {
            admitted(
                ops,
                pkt,
                pc + 1 + if a & op.k != 0 { op.jt as int } else { op.jf as int },
                a,
                x,
            )
        } else {
            0
        }
    }
}

/// Whether a cooked IPv4 packet is an unfragmented UDP datagram to port 68.
pub open spec fn for_client(pkt: Seq<u8>) -> bool {
    let ihl = 4 * (pkt[0] % 16);
    &&& pkt.len() >= 10
    &&& pkt[9] == 17
    &&& (pkt[6] * 256 + pkt[7]) % 0x2000 == 0
    &&& pkt.len() >= ihl + 4
    &&& pkt[ihl + 2] * 256 + pkt[ihl + 3] == 68
}

/// The filter lets through exactly the unfragmented UDP datagrams to port 68.
pub proof fn the_filter_admits_replies(pkt: Seq<u8>)
    ensures
        admitted(filter(), pkt, 0, 0, 0) == if for_client(pkt) {
            0xffff as nat
        } else {
            0
        },
{
    reveal_with_fuel(admitted, 10);
    if pkt.len() >= 8 {
        let n = (pkt[6] * 256 + pkt[7]) as u32;
        assert((n & 0x1fff != 0) == (n % 0x2000 != 0)) by (bit_vector);
    }
}

// ---- datagrams -------------------------------------------------------------

/// The big-endian sixteen-bit words of a byte string added up, an odd byte at
/// the end counting as the high half of one.
pub open spec fn word_sum(s: Seq<u8>) -> nat
    decreases s.len(),
{
    if s.len() == 0 {
        0
    } else if s.len() == 1 {
        (s[0] * 256) as nat
    } else {
        (s[0] * 256 + s[1]) as nat + word_sum(s.skip(2))
    }
}

/// A sum in sixteen bits with the carries put back in.
pub open spec fn carried(n: nat) -> nat {
    if n == 0 {
        0
    } else {
        ((n - 1) % 65535 + 1) as nat
    }
}

/// The internet checksum.
pub open spec fn checksum_of(s: Seq<u8>) -> u16 {
    (0xffff - carried(word_sum(s))) as u16
}

/// The internet checksum (RFC 1071).
pub fn checksum(b: &[u8]) -> (r: u16)
    ensures
        r == checksum_of(b@),
{
    let n: usize = b.len();
    let mut sum: u32 = 0;
    let mut i: usize = 0;
    let ghost mut total: nat = 0;
    assert(b@.skip(0) =~= b@);
    while i < n
        invariant
            n == b@.len(),
            i <= n,
            sum == carried(total),
            total + word_sum(b@.skip(i as int)) == word_sum(b@),
        decreases n - i,
    {
        let ghost rest = b@.skip(i as int);
        let word: u32 = if n - i >= 2 {
            b[i] as u32 * 256 + b[i + 1] as u32
        } else {
            b[i] as u32 * 256
        };
        let step: usize = if n - i >= 2 {
            2
        } else {
            1
        };
        proof {
            if step == 2 {
                assert(rest.skip(2) =~= b@.skip(i + 2));
            } else {
                assert(b@.skip(i + 1) =~= Seq::empty());
            }
            total = total + word as nat;
        }
        sum = sum + word;
        if sum > 65535 {
            sum = sum - 65535;
        }
        i = i + step;
    }
    assert(b@.skip(i as int) =~= Seq::empty());
    (0xffff - sum) as u16
}

/// An IPv4 header for a UDP datagram of `total` bytes, with this checksum.
pub open spec fn ip_header(src: Ipv4Addr, dst: Ipv4Addr, total: nat, sum: u16) -> Seq<u8> {
    seq![0x45u8, 0x10] + bytes::be_bytes(total % 0x1_0000, 2) + seq![
        0u8,
        0,
        0x40,
        0,
        64,
        17,
    ] + bytes::be_bytes(sum as nat, 2) + src.octs() + dst.octs()
}

/// A UDP header without a checksum.
pub open spec fn udp_header(sport: u16, dport: u16, len: nat) -> Seq<u8> {
    bytes::be_bytes(sport as nat, 2) + bytes::be_bytes(dport as nat, 2) + bytes::be_bytes(
        len % 0x1_0000,
        2,
    ) + seq![0u8, 0]
}

/// An IPv4+UDP datagram.
pub open spec fn datagram(
    src: Ipv4Addr,
    dst: Ipv4Addr,
    sport: u16,
    dport: u16,
    payload: Seq<u8>,
) -> Seq<u8> {
    let total = 28 + payload.len();
    ip_header(src, dst, total, checksum_of(ip_header(src, dst, total, 0))) + udp_header(
        sport,
        dport,
        8 + payload.len(),
    ) + payload
}

fn header_with(src: Ipv4Addr, dst: Ipv4Addr, total: u16, sum: u16) -> (out: Vec<u8>)
    ensures
        out@ == ip_header(src, dst, total as nat, sum),
{
    let mut out: Vec<u8> = Vec::new();
    out.push(0x45);
    out.push(0x10);
    bytes::push_u16(&mut out, total);
    out.push(0);
    out.push(0);
    out.push(0x40);
    out.push(0);
    out.push(64);
    out.push(17);
    bytes::push_u16(&mut out, sum);
    bytes::extend(&mut out, src.octets().as_slice());
    bytes::extend(&mut out, dst.octets().as_slice());
    assert(out@ =~= ip_header(src, dst, total as nat, sum));
    out
}

fn udp_head(sport: u16, dport: u16, len: u16) -> (out: Vec<u8>)
    ensures
        out@ == udp_header(sport, dport, len as nat),
{
    let mut out: Vec<u8> = Vec::new();
    bytes::push_u16(&mut out, sport);
    bytes::push_u16(&mut out, dport);
    bytes::push_u16(&mut out, len);
    out.push(0);
    out.push(0);
    assert(out@ =~= udp_header(sport, dport, len as nat));
    out
}

/// An IPv4+UDP datagram. The UDP checksum is left zero, which IPv4 permits.
pub fn ip_udp(src: Ipv4Addr, dst: Ipv4Addr, sport: u16, dport: u16, payload: &[u8]) -> (out: Vec<
    u8,
>)
    ensures
        out@ == datagram(src, dst, sport, dport, payload@),
{
    let low: usize = payload.len() % 0x1_0000;
    let udp_len: u16 = ((low + 8) % 0x1_0000) as u16;
    let short: u16 = ((low + 28) % 0x1_0000) as u16;
    let bare: Vec<u8> = header_with(src, dst, short, 0);
    let sum: u16 = checksum(bare.as_slice());
    let mut out: Vec<u8> = header_with(src, dst, short, sum);
    let head: Vec<u8> = udp_head(sport, dport, udp_len);
    proof {
        let total = 28 + payload@.len();
        assert(total % 0x1_0000 == short as nat % 0x1_0000);
        assert((8 + payload@.len()) % 0x1_0000 == udp_len as nat % 0x1_0000);
    }
    bytes::extend(&mut out, head.as_slice());
    bytes::extend(&mut out, payload);
    out
}

/// The UDP payload of a cooked IPv4 packet addressed to port 68.
pub open spec fn payload_in(pkt: Seq<u8>) -> Option<Seq<u8>> {
    let ihl = 4 * (pkt[0] % 16);
    if pkt.len() < 20 || pkt[0] / 16 != 4 || pkt[9] != 17 || pkt.len() < ihl + 8 {
        None
    } else if bytes::be_nat(pkt.subrange(ihl + 2, ihl + 4)) != CLIENT_PORT {
        None
    } else {
        let udp_len = bytes::be_nat(pkt.subrange(ihl + 4, ihl + 6));
        let end = if ihl + udp_len <= pkt.len() {
            ihl + udp_len
        } else {
            pkt.len() as int
        };
        if ihl + 8 <= end {
            Some(pkt.subrange(ihl + 8, end))
        } else {
            None
        }
    }
}

/// The UDP payload of a cooked IPv4 packet addressed to port 68, if that is
/// what this is. The filter already agrees; this is defence against a short
/// read.
pub fn udp_payload(pkt: &[u8]) -> (r: Option<&[u8]>)
    ensures
        match r {
            Some(p) => payload_in(pkt@) == Some(p@),
            None => payload_in(pkt@) is None,
        },
{
    let n: usize = pkt.len();
    if n < 20 || pkt[0] / 16 != 4 {
        return None;
    }
    let ihl: usize = 4 * (pkt[0] % 16) as usize;
    if pkt[9] != 17 || n < ihl + 8 {
        return None;
    }
    if bytes::u16_at(pkt, ihl + 2) != CLIENT_PORT {
        return None;
    }
    let udp_len: usize = bytes::u16_at(pkt, ihl + 4) as usize;
    let end: usize = if ihl + udp_len <= n {
        ihl + udp_len
    } else {
        n
    };
    if ihl + 8 > end {
        return None;
    }
    Some(vstd::slice::slice_subrange(pkt, ihl + 8, end))
}

/// What is to leave, and how.
#[derive(Debug, PartialEq, Eq)]
pub enum Outgoing {
    /// A whole datagram, broadcast through the packet socket.
    Broadcast(Vec<u8>),
    /// A UDP payload from port 68 of our address to port 67 of the server.
    Unicast { from: Ipv4Addr, server: Ipv4Addr, payload: Vec<u8> },
}

/// What leaves for a message.
pub fn outgoing(message: &Message, destination: Destination) -> (r: Outgoing)
    ensures
        match (r, destination) {
            (Outgoing::Broadcast(b), Destination::Broadcast) => b@ == datagram(
                Ipv4Addr { bits: 0 },
                Ipv4Addr { bits: 0xffff_ffff },
                CLIENT_PORT,
                SERVER_PORT,
                packet::encoded(message@),
            ),
            (
                Outgoing::Unicast { from, server, payload },
                Destination::Unicast { server: s, from: f },
            ) => from == f && server == s && payload@ == packet::encoded(message@),
            _ => false,
        },
{
    let payload: Vec<u8> = message.encode();
    match destination {
        Destination::Broadcast => Outgoing::Broadcast(
            ip_udp(
                Ipv4Addr { bits: 0 },
                Ipv4Addr { bits: 0xffff_ffff },
                CLIENT_PORT,
                SERVER_PORT,
                payload.as_slice(),
            ),
        ),
        Destination::Unicast { server, from } => Outgoing::Unicast { from, server, payload },
    }
}

/// The DHCP message a packet carries.
pub open spec fn message_in(pkt: Seq<u8>) -> Option<packet::MessageV> {
    match payload_in(pkt) {
        Some(p) => packet::decoded(p),
        None => None,
    }
}

/// The DHCP message a packet carries, if it carries one.
pub fn incoming(pkt: &[u8]) -> (r: Option<Message>)
    ensures
        match r {
            Some(m) => message_in(pkt@) == Some(m@),
            None => message_in(pkt@) is None,
        },
{
    match udp_payload(pkt) {
        Some(p) => Message::decode(p),
        None => None,
    }
}

// ---- identity --------------------------------------------------------------

/// A fresh DUID: DUID-LL (RFC 8415) of an Ethernet address.
pub open spec fn duid_of(mac: Seq<u8>) -> Seq<u8> {
    seq![0u8, 3, 0, 1] + mac
}

/// The machine's DUID and whether it has to be written down: the one on record
/// where that is long enough to be one, else one from the first MAC seen.
/// RFC 4361 client ids are built on it, so a NIC swap in the same slot keeps
/// the same identity at the server.
pub fn duid(stored: Option<Vec<u8>>, first_mac: &[u8; 6]) -> (r: (Vec<u8>, bool))
    ensures
        match stored {
            Some(s) => if s@.len() >= 4 {
                r.0@ == s@ && !r.1
            } else {
                r.0@ == duid_of(first_mac@) && r.1
            },
            None => r.0@ == duid_of(first_mac@) && r.1,
        },
{
    match stored {
        Some(s) => {
            if s.len() >= 4 {
                return (s, false);
            }
        },
        None => {},
    }
    let mut d: Vec<u8> = Vec::new();
    d.push(0);
    d.push(3);
    d.push(0);
    d.push(1);
    bytes::extend(&mut d, first_mac.as_slice());
    assert(d@ =~= duid_of(first_mac@));
    (d, true)
}

/// Bytes folded into four by exclusive or, each into the place its own modulo
/// four says.
pub open spec fn folded(b: Seq<u8>) -> Seq<u8>
    decreases b.len(),
{
    if b.len() == 0 {
        seq![0u8, 0, 0, 0]
    } else {
        let before = folded(b.drop_last());
        let at = (b.len() - 1) % 4;
        before.update(at, before[at] ^ b.last())
    }
}

proof fn folded_len(b: Seq<u8>)
    ensures
        folded(b).len() == 4,
    decreases b.len(),
{
    if b.len() > 0 {
        folded_len(b.drop_last());
    }
}

/// An RFC 4361 client identifier: type 255, IAID, DUID.
pub open spec fn client_id_of(duid: Seq<u8>, ifid: Seq<char>) -> Seq<u8> {
    seq![0xffu8] + folded(encode_utf8(ifid)) + duid
}

/// RFC 4361 client identifier: type 255, IAID, DUID.
pub fn client_id(duid: &[u8], ifid: &str) -> (id: Vec<u8>)
    ensures
        id@ == client_id_of(duid@, ifid@),
{
    let b: &[u8] = ifid.as_bytes();
    let mut iaid: [u8; 4] = [0, 0, 0, 0];
    let mut i: usize = 0;
    assert(iaid@ =~= folded(b@.take(0)));
    while i < b.len()
        invariant
            i <= b@.len(),
            iaid@ == folded(b@.take(i as int)),
            iaid@.len() == 4,
        decreases b@.len() - i,
    {
        assert(b@.take(i + 1).drop_last() =~= b@.take(i as int));
        let at: usize = i % 4;
        let v: u8 = iaid[at] ^ b[i];
        iaid[at] = v;
        i = i + 1;
        assert(iaid@ =~= folded(b@.take(i as int)));
    }
    assert(b@.take(i as int) =~= b@);
    let mut id: Vec<u8> = Vec::new();
    id.push(0xff);
    bytes::extend(&mut id, iaid.as_slice());
    bytes::extend(&mut id, duid);
    assert(id@ =~= client_id_of(duid@, ifid@));
    id
}

// ---- laws ------------------------------------------------------------------

/// A client id is type 255, four bytes that follow from the interface alone,
/// and the whole DUID.
pub proof fn client_ids_are_shaped(duid: Seq<u8>, ifid: Seq<char>)
    ensures
        client_id_of(duid, ifid).len() == 5 + duid.len(),
        client_id_of(duid, ifid)[0] == 0xff,
        client_id_of(duid, ifid).skip(5) == duid,
{
    folded_len(encode_utf8(ifid));
    assert(client_id_of(duid, ifid).skip(5) =~= duid);
}

proof fn header_words(src: Ipv4Addr, dst: Ipv4Addr, total: nat, sum: u16)
    ensures
        word_sum(ip_header(src, dst, total, sum)) == word_sum(ip_header(src, dst, total, 0)) + sum,
        word_sum(ip_header(src, dst, total, 0)) > 0,
        ip_header(src, dst, total, sum).len() == 20,
{
    bytes::be_bytes_len(total % 0x1_0000, 2);
    bytes::be_bytes_len(sum as nat, 2);
    bytes::be_bytes_len(0, 2);
    bytes::be_bytes_len(src.bits as nat, 4);
    bytes::be_bytes_len(dst.bits as nat, 4);
    let a = ip_header(src, dst, total, sum);
    let b = ip_header(src, dst, total, 0);
    let s = bytes::be_bytes(sum as nat, 2);
    let z = bytes::be_bytes(0, 2);
    assert(s[0] * 256 + s[1] == sum && z[0] == 0 && z[1] == 0) by {
        reveal_with_fuel(bytes::be_bytes, 3);
    }
    assert(a.take(10) =~= b.take(10));
    assert(a.skip(12) =~= b.skip(12));
    sum_splits(a, 10);
    sum_splits(b, 10);
    assert(a.skip(10).skip(2) =~= a.skip(12));
    assert(b.skip(10).skip(2) =~= b.skip(12));
    assert(a.skip(10)[0] == s[0] && a.skip(10)[1] == s[1]);
    assert(b.skip(10)[0] == z[0] && b.skip(10)[1] == z[1]);
    assert(b[0] == 0x45);
    assert(word_sum(b) > 0);
}

proof fn sum_splits(s: Seq<u8>, n: int)
    requires
        0 <= n <= s.len(),
        n % 2 == 0,
    ensures
        word_sum(s) == word_sum(s.take(n)) + word_sum(s.skip(n)),
    decreases n,
{
    if n == 0 {
        assert(s.skip(0) =~= s);
        assert(s.take(0) =~= Seq::empty());
    } else {
        sum_splits(s.skip(2), n - 2);
        assert(s.take(n).skip(2) =~= s.skip(2).take(n - 2));
        assert(s.skip(2).skip(n - 2) =~= s.skip(n));
    }
}

/// The header of every datagram checks: its own checksum is zero.
pub proof fn headers_check(
    src: Ipv4Addr,
    dst: Ipv4Addr,
    sport: u16,
    dport: u16,
    payload: Seq<u8>,
)
    ensures
        checksum_of(datagram(src, dst, sport, dport, payload).take(20)) == 0,
{
    let total = 28 + payload.len();
    let bare = word_sum(ip_header(src, dst, total, 0));
    let sum = checksum_of(ip_header(src, dst, total, 0));
    header_words(src, dst, total, sum);
    let h = ip_header(src, dst, total, sum);
    assert(datagram(src, dst, sport, dport, payload).take(20) =~= h);
    assert(sum == 0xffff - carried(bare));
    assert(carried((bare + sum) as nat) == 0xffff);
}

proof fn datagram_fields(src: Ipv4Addr, dst: Ipv4Addr, sport: u16, dport: u16, payload: Seq<u8>)
    requires
        payload.len() + 8 < 0x1_0000,
    ensures
        ({
            let d = datagram(src, dst, sport, dport, payload);
            &&& d.len() == 28 + payload.len()
            &&& d[0] == 0x45
            &&& d[6] == 0x40 && d[7] == 0
            &&& d[9] == 17
            &&& bytes::be_nat(d.subrange(22, 24)) == dport
            &&& bytes::be_nat(d.subrange(24, 26)) == payload.len() + 8
            &&& d.skip(28) == payload
        }),
{
    let total = 28 + payload.len();
    let sum = checksum_of(ip_header(src, dst, total, 0));
    let h = ip_header(src, dst, total, sum);
    let u = udp_header(sport, dport, 8 + payload.len());
    bytes::be_bytes_len(total % 0x1_0000, 2);
    bytes::be_bytes_len(sum as nat, 2);
    bytes::be_bytes_len(src.bits as nat, 4);
    bytes::be_bytes_len(dst.bits as nat, 4);
    bytes::be_bytes_len(sport as nat, 2);
    bytes::be_bytes_len(dport as nat, 2);
    bytes::be_bytes_len(8 + payload.len(), 2);
    assert(h.len() == 20 && u.len() == 8);
    let d = datagram(src, dst, sport, dport, payload);
    assert(bytes::pow256(2) == 0x1_0000) by {
        reveal_with_fuel(bytes::pow256, 3);
    }
    bytes::be_nat_of_be_bytes(dport as nat, 2);
    bytes::be_nat_of_be_bytes(8 + payload.len(), 2);
    assert(d.subrange(22, 24) =~= bytes::be_bytes(dport as nat, 2));
    assert(d.subrange(24, 26) =~= bytes::be_bytes(8 + payload.len(), 2));
    assert(d.skip(28) =~= payload);
    assert(d[0] == h[0] && d[6] == h[6] && d[7] == h[7] && d[9] == h[9]);
}

/// The payload of a datagram to port 68 comes back, and one to any other port
/// is not for us.
pub proof fn the_payload_comes_back(
    src: Ipv4Addr,
    dst: Ipv4Addr,
    sport: u16,
    dport: u16,
    payload: Seq<u8>,
)
    requires
        payload.len() + 8 < 0x1_0000,
    ensures
        payload_in(datagram(src, dst, sport, dport, payload)) == if dport == CLIENT_PORT {
            Some(payload)
        } else {
            None
        },
{
    datagram_fields(src, dst, sport, dport, payload);
    let d = datagram(src, dst, sport, dport, payload);
    assert(d.subrange(28, d.len() as int) =~= d.skip(28));
}

/// Whatever has a payload for us and is not a fragment, the filter admits.
pub proof fn the_filter_agrees(pkt: Seq<u8>)
    requires
        payload_in(pkt) is Some,
        (pkt[6] * 256 + pkt[7]) % 0x2000 == 0,
    ensures
        admitted(filter(), pkt, 0, 0, 0) == 0xffff,
{
    the_filter_admits_replies(pkt);
    let ihl = 4 * (pkt[0] % 16);
    let w = pkt.subrange(ihl + 2, ihl + 4);
    assert(bytes::be_nat(w) == w[0] * 256 + w[1]) by {
        reveal_with_fuel(bytes::be_nat, 3);
        assert(w.drop_last().drop_last() =~= Seq::empty());
        assert(w.drop_last().last() == w[0]);
    }
}

} // verus!
