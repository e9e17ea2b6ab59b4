//! What frames, identifiers and names look like.

use vstd::prelude::*;
use vstd::string::*;
use vstd::utf8::*;
use crate::addr::Ipv4Addr;
use crate::bytes;
use crate::digest;
use crate::layout;
use crate::text;
use super::dhcp;
use super::matching;
use super::matching::{MatchV, ProfileV};
use super::model;
use super::model::LinkV;

verus! {

// ---- frames -----------------------------------------------------------------

/// A datagram is an IPv4 header of five words, marked for low delay, not to be
/// fragmented, with a time to live of 64; a UDP header without a checksum; and the
/// payload.
pub proof fn a_datagram_is_laid_out(
    src: Ipv4Addr,
    dst: Ipv4Addr,
    sport: u16,
    dport: u16,
    payload: Seq<u8>,
)
    requires
        payload.len() + 28 < 0x1_0000,
    ensures
        ({
            let d = dhcp::datagram(src, dst, sport, dport, payload);
            &&& d.len() == 28 + payload.len()
            &&& d[0] == 0x45 && d[1] == 0x10 && layout::two(d, 2) == d.len()
            &&& layout::two(d, 4) == 0 && layout::two(d, 6) == 0x4000 && d[8] == 64 && d[9] == 17
            &&& layout::four(d, 12) == src.bits && layout::four(d, 16) == dst.bits
            &&& layout::two(d, 20) == sport && layout::two(d, 22) == dport
            &&& layout::two(d, 24) == 8 + payload.len() && layout::two(d, 26) == 0
            &&& d.skip(28) == payload
        }),
{
    let total: nat = 28 + payload.len();
    let sum = dhcp::checksum_of(dhcp::ip_header(src, dst, total, 0));
    let d = dhcp::datagram(src, dst, sport, dport, payload);
    let h = dhcp::ip_header(src, dst, total, sum);
    let u = dhcp::udp_header(sport, dport, 8 + payload.len());
    header_lies(src, dst, total, sum);
    ports_lie(sport, dport, 8 + payload.len());
    assert(d == h + u + payload);
    assert(d.skip(28) =~= payload);
    assert forall|i: int| 0 <= i < 20 implies #[trigger] d[i] == h[i] by {}
    assert forall|i: int| 0 <= i < 8 implies #[trigger] u[i] == d[20 + i] by {}
}

proof fn header_lies(src: Ipv4Addr, dst: Ipv4Addr, total: nat, sum: u16)
    requires
        total < 0x1_0000,
    ensures
        ({
            let h = dhcp::ip_header(src, dst, total, sum);
            &&& h.len() == 20 && h[0] == 0x45 && h[1] == 0x10 && layout::two(h, 2) == total
            &&& h[4] == 0 && h[5] == 0 && h[6] == 0x40 && h[7] == 0 && h[8] == 64 && h[9] == 17
            &&& layout::four(h, 12) == src.bits && layout::four(h, 16) == dst.bits
        }),
{
    layout::in_two_is(total);
    layout::in_two_is(sum as nat);
    layout::in_four_is(src.bits as nat);
    layout::in_four_is(dst.bits as nat);
    whole_four(src.bits as int);
    whole_four(dst.bits as int);
    let t = layout::in_two(total as int);
    let c = layout::in_two(sum as int);
    let x = layout::in_four(src.bits as int);
    let y = layout::in_four(dst.bits as int);
    let h = dhcp::ip_header(src, dst, total, sum);
    assert(h =~= seq![0x45u8, 0x10, t[0], t[1], 0, 0, 0x40, 0, 64, 17, c[0], c[1]] + x + y);
    assert(h[12] == x[0] && h[13] == x[1] && h[14] == x[2] && h[15] == x[3]);
    assert(h[16] == y[0] && h[17] == y[1] && h[18] == y[2] && h[19] == y[3]);
}

proof fn ports_lie(sport: u16, dport: u16, len: nat)
    requires
        len < 0x1_0000,
    ensures
        ({
            let u = dhcp::udp_header(sport, dport, len);
            &&& u.len() == 8 && layout::two(u, 0) == sport && layout::two(u, 2) == dport
            &&& layout::two(u, 4) == len && u[6] == 0 && u[7] == 0
        }),
{
    layout::in_two_is(sport as nat);
    layout::in_two_is(dport as nat);
    layout::in_two_is(len);
    let a = layout::in_two(sport as int);
    let b = layout::in_two(dport as int);
    let c = layout::in_two(len as int);
    assert(dhcp::udp_header(sport, dport, len) =~= seq![
        a[0],
        a[1],
        b[0],
        b[1],
        c[0],
        c[1],
        0u8,
        0,
    ]);
}

proof fn whole_four(n: int)
    requires
        0 <= n < 0x1_0000_0000,
    ensures
        layout::four(layout::in_four(n), 0) == n,
{
    let a = n / 0x100_0000;
    let b = n / 0x1_0000 % 0x100;
    let c = n / 0x100 % 0x100;
    let d = n % 0x100;
    assert(n == a * 0x100_0000 + b * 0x1_0000 + c * 0x100 + d);
}

/// The words of a header sum up to nothing, in the arithmetic of checksums: to a
/// multiple of 65535.
pub proof fn a_header_sums_up_to_nothing(
    src: Ipv4Addr,
    dst: Ipv4Addr,
    sport: u16,
    dport: u16,
    payload: Seq<u8>,
)
    ensures
        ({
            let d = dhcp::datagram(src, dst, sport, dport, payload);
            (layout::two(d, 0) + layout::two(d, 2) + layout::two(d, 4) + layout::two(d, 6)
                + layout::two(d, 8) + layout::two(d, 10) + layout::two(d, 12) + layout::two(d, 14)
                + layout::two(d, 16) + layout::two(d, 18)) % 65535 == 0
        }),
{
    dhcp::headers_check(src, dst, sport, dport, payload);
    let d = dhcp::datagram(src, dst, sport, dport, payload);
    let t = d.take(20);
    let total: nat = 28 + payload.len();
    bytes::be_bytes_len(total % 0x1_0000, 2);
    let sum = dhcp::checksum_of(dhcp::ip_header(src, dst, total, 0));
    bytes::be_bytes_len(sum as nat, 2);
    bytes::be_bytes_len(src.bits as nat, 4);
    bytes::be_bytes_len(dst.bits as nat, 4);
    assert(d.len() >= 20);
    let t1 = t.skip(2);
    let t2 = t1.skip(2);
    let t3 = t2.skip(2);
    let t4 = t3.skip(2);
    let t5 = t4.skip(2);
    let t6 = t5.skip(2);
    let t7 = t6.skip(2);
    let t8 = t7.skip(2);
    let t9 = t8.skip(2);
    assert(t9.skip(2).len() == 0);
    assert(dhcp::word_sum(t9.skip(2)) == 0);
    assert(dhcp::word_sum(t9) == layout::two(d, 18));
    assert(dhcp::word_sum(t8) == layout::two(d, 16) + dhcp::word_sum(t9));
    assert(dhcp::word_sum(t7) == layout::two(d, 14) + dhcp::word_sum(t8));
    assert(dhcp::word_sum(t6) == layout::two(d, 12) + dhcp::word_sum(t7));
    assert(dhcp::word_sum(t5) == layout::two(d, 10) + dhcp::word_sum(t6));
    assert(dhcp::word_sum(t4) == layout::two(d, 8) + dhcp::word_sum(t5));
    assert(dhcp::word_sum(t3) == layout::two(d, 6) + dhcp::word_sum(t4));
    assert(dhcp::word_sum(t2) == layout::two(d, 4) + dhcp::word_sum(t3));
    assert(dhcp::word_sum(t1) == layout::two(d, 2) + dhcp::word_sum(t2));
    assert(dhcp::word_sum(t) == layout::two(d, 0) + dhcp::word_sum(t1));
    a_checksum_makes_up_the_sum(t);
}

/// A checksum is what a sum of words lacks to a multiple of 65535.
pub proof fn a_checksum_makes_up_the_sum(s: Seq<u8>)
    ensures
        (dhcp::word_sum(s) + dhcp::checksum_of(s)) % 65535 == 0,
        s.len() >= 2 ==> dhcp::word_sum(s) == layout::two(s, 0) + dhcp::word_sum(s.skip(2)),
        s.len() == 1 ==> dhcp::word_sum(s) == s[0] * 0x100,
{
}

/// A payload is taken from a frame that holds an IPv4 header, a UDP header addressed
/// to port 68 and as much behind it as that says, or as is there.
pub proof fn a_payload_is_taken_from_a_frame(pkt: Seq<u8>)
    ensures
        ({
            let head = 4 * (pkt[0] % 16);
            let says = layout::two(pkt, head + 4);
            let end = if head + says < pkt.len() {
                head + says
            } else {
                pkt.len() as int
            };
            &&& dhcp::payload_in(pkt) is Some <==> pkt.len() >= 20 && pkt[0] / 16 == 4 && pkt[9]
                == 17 && pkt.len() >= head + 8 && layout::two(pkt, head + 2) == 68 && says >= 8
            &&& dhcp::payload_in(pkt) matches Some(p) ==> p == pkt.subrange(head + 8, end)
        }),
{
    let head = 4 * (pkt[0] % 16);
    if pkt.len() >= 20 && pkt.len() >= head + 8 {
        layout::two_is(pkt, head + 2);
        layout::two_is(pkt, head + 4);
    }
}

// ---- identifiers ------------------------------------------------------------

/// A client's identifier is the byte 255, four bytes of the interface's identity, each
/// of them the exclusive or of every fourth, and the machine's DUID.
pub proof fn a_client_id_names_interface_and_machine(duid: Seq<u8>, ifid: Seq<char>)
    ensures
        ({
            let b = encode_utf8(ifid);
            let c = dhcp::client_id_of(duid, ifid);
            &&& c.len() == 5 + duid.len() && c[0] == 255 && c.skip(5) == duid
            &&& forall|k: int| 0 <= k < 4 ==> #[trigger] c[1 + k] == every_fourth(b, k)
        }),
{
    dhcp::client_ids_are_shaped(duid, ifid);
    let b = encode_utf8(ifid);
    let c = dhcp::client_id_of(duid, ifid);
    folds(b);
    assert forall|k: int| 0 <= k < 4 implies #[trigger] c[1 + k] == every_fourth(b, k) by {
        assert(c[1 + k] == dhcp::folded(b)[k]);
    }
}

/// The exclusive or of the bytes whose place is `k` modulo four.
pub open spec fn every_fourth(b: Seq<u8>, k: int) -> u8
    decreases b.len(),
{
    if b.len() == 0 {
        0
    } else if (b.len() - 1) % 4 == k {
        every_fourth(b.drop_last(), k) ^ b.last()
    } else {
        every_fourth(b.drop_last(), k)
    }
}

proof fn folds(b: Seq<u8>)
    ensures
        dhcp::folded(b).len() == 4,
        forall|k: int| 0 <= k < 4 ==> #[trigger] dhcp::folded(b)[k] == every_fourth(b, k),
    decreases b.len(),
{
    if b.len() > 0 {
        folds(b.drop_last());
    }
}

/// Two digits of a byte, small letters from ten on.
pub open spec fn digits(b: u8) -> Seq<char> {
    seq![sign(b as int / 16), sign(b as int % 16)]
}

/// A digit up to fifteen.
pub open spec fn sign(n: int) -> char {
    if n < 10 {
        (0x30 + n) as char
    } else {
        (0x61 + n - 10) as char
    }
}

proof fn digits_are(b: u8)
    ensures
        text::hex_byte(b) == digits(b),
{
}

/// A hardware address is spelled in pairs of digits with colons between.
pub proof fn a_hardware_address_is_spelled_with_colons(m: Seq<u8>)
    requires
        m.len() == 6,
    ensures
        model::colon_hex(m) == digits(m[0]) + seq![':'] + digits(m[1]) + seq![':'] + digits(m[2])
            + seq![':'] + digits(m[3]) + seq![':'] + digits(m[4]) + seq![':'] + digits(m[5]),
{
    let m5 = m.drop_last();
    let m4 = m5.drop_last();
    let m3 = m4.drop_last();
    let m2 = m3.drop_last();
    let m1 = m2.drop_last();
    assert(model::colon_hex(m1) == digits(m[0]));
    assert(model::colon_hex(m2) == model::colon_hex(m1) + seq![':'] + digits(m[1]));
    assert(model::colon_hex(m3) == model::colon_hex(m2) + seq![':'] + digits(m[2]));
    assert(model::colon_hex(m4) == model::colon_hex(m3) + seq![':'] + digits(m[3]));
    assert(model::colon_hex(m5) == model::colon_hex(m4) + seq![':'] + digits(m[4]));
}

proof fn run_of_two(b: Seq<u8>, at: int)
    requires
        0 <= at <= at + 2 <= b.len(),
    ensures
        model::hex_run(b.subrange(at, at + 2)) == digits(b[at]) + digits(b[at + 1]),
{
    let s = b.subrange(at, at + 2);
    assert(s.drop_last().drop_last() =~= Seq::<u8>::empty());
    assert(model::hex_run(s.drop_last().drop_last()) =~= Seq::<char>::empty());
    assert(model::hex_run(s.drop_last()) =~= digits(b[at]));
}

proof fn runs_join(a: Seq<u8>, b: Seq<u8>)
    ensures
        model::hex_run(a + b) == model::hex_run(a) + model::hex_run(b),
    decreases b.len(),
{
    if b.len() == 0 {
        assert(a + b =~= a);
        assert(model::hex_run(a) + model::hex_run(b) =~= model::hex_run(a));
    } else {
        runs_join(a, b.drop_last());
        assert((a + b).drop_last() =~= a + b.drop_last());
        assert(model::hex_run(a) + model::hex_run(b.drop_last()) + text::hex_byte(b.last())
            =~= model::hex_run(a) + (model::hex_run(b.drop_last()) + text::hex_byte(b.last())));
    }
}

proof fn run_of_four(b: Seq<u8>, at: int)
    requires
        0 <= at <= at + 4 <= b.len(),
    ensures
        model::hex_run(b.subrange(at, at + 4)) == digits(b[at]) + digits(b[at + 1]) + digits(
            b[at + 2],
        ) + digits(b[at + 3]),
{
    run_of_two(b, at);
    run_of_two(b, at + 2);
    let x = b.subrange(at, at + 2);
    let y = b.subrange(at + 2, at + 4);
    runs_join(x, y);
    assert(x + y =~= b.subrange(at, at + 4));
    assert(digits(b[at]) + digits(b[at + 1]) + (digits(b[at + 2]) + digits(b[at + 3]))
        =~= digits(b[at]) + digits(b[at + 1]) + digits(b[at + 2]) + digits(b[at + 3]));
}

/// An interface's identity is made of where it sits and its hardware address, or its
/// name where it has none: the first sixteen bytes of a digest, marked as version 5
/// and as a variant of that family, in the usual five groups.
pub proof fn an_interface_is_named_after_its_place(
    path: Seq<char>,
    mac: Option<Seq<u8>>,
    name: Seq<char>,
)
    ensures
        ({
            let d = digest::sha1_of(
                encode_utf8("peios-netd-ifid|"@) + encode_utf8(path) + encode_utf8("|"@) + if mac
                    is Some {
                    mac->0
                } else {
                    encode_utf8(name)
                },
            );
            d.len() == 20 ==> model::interface_id_of(path, mac, name) == digits(d[0]) + digits(d[1])
                + digits(d[2]) + digits(d[3]) + seq!['-'] + (digits(d[4]) + digits(d[5]))
                + seq!['-'] + (digits((0x50 + d[6] as int % 16) as u8) + digits(d[7])) + seq!['-']
                + (digits((0x80 + d[8] as int % 64) as u8) + digits(d[9])) + seq!['-'] + (digits(
                d[10],
            ) + digits(d[11]) + digits(d[12]) + digits(d[13]) + (digits(d[14]) + digits(d[15])))
        }),
{
    let d = digest::sha1_of(model::interface_input(path, mac, name));
    if d.len() == 20 {
        let b = model::uuid_bytes(d);
        assert(b.len() == 16);
        run_of_four(b, 0);
        run_of_two(b, 4);
        run_of_two(b, 6);
        run_of_two(b, 8);
        run_of_four(b, 10);
        run_of_two(b, 14);
        let x = b.subrange(10, 14);
        let y = b.subrange(14, 16);
        runs_join(x, y);
        assert(x + y =~= b.subrange(10, 16));
    }
}

/// Whether a name is that of a place on the bus: `0000:00:00.0`, in digits up to
/// fifteen.
pub open spec fn on_the_bus(s: Seq<char>) -> bool {
    &&& s.len() == 12 && s[4] == ':' && s[7] == ':' && s[10] == '.'
    &&& forall|i: int|
        0 <= i < 12 && i != 4 && i != 7 && i != 10 ==> {
            ||| '0' <= #[trigger] s[i] <= '9'
            ||| 'a' <= s[i] <= 'f'
            ||| 'A' <= s[i] <= 'F'
        }
}

proof fn bus_shape(s: Seq<char>)
    ensures
        model::pci_shaped(s) <==> on_the_bus(s),
{
    if s.len() == 12 {
        if model::pci_shaped(s) {
            assert(s[4] == ':' && s[7] == ':' && s[10] == '.');
        }
    }
}

/// A device sits where the first of these names that is a place on the bus says; else
/// it goes by the first name, where there is one.
pub proof fn a_device_sits_on_the_bus(names: Seq<Seq<char>>, n: int)
    ensures
        0 <= n < names.len() && on_the_bus(names[n]) && (forall|j: int|
            0 <= j < n ==> !on_the_bus(#[trigger] names[j])) ==> model::bus_path_of(names)
            == "pci-"@ + names[n],
        (forall|j: int| 0 <= j < names.len() ==> !on_the_bus(#[trigger] names[j]))
            ==> model::bus_path_of(names) == if names.len() > 0 {
            names[0]
        } else {
            Seq::empty()
        },
{
    nearest(names, n);
}

proof fn nearest(names: Seq<Seq<char>>, n: int)
    ensures
        0 <= n < names.len() && on_the_bus(names[n]) && (forall|j: int|
            0 <= j < n ==> !on_the_bus(#[trigger] names[j])) ==> model::nearest_pci(names) == Some(
            names[n],
        ),
        (forall|j: int| 0 <= j < names.len() ==> !on_the_bus(#[trigger] names[j]))
            ==> model::nearest_pci(names) is None,
    decreases names.len(),
{
    if names.len() > 0 {
        let t = names.drop_first();
        nearest(t, n - 1);
        bus_shape(names[0]);
        if 0 < n < names.len() && on_the_bus(names[n]) && (forall|j: int|
            0 <= j < n ==> !on_the_bus(#[trigger] names[j])) {
            assert(!on_the_bus(names[0]));
            assert(t[n - 1] == names[n]);
            assert forall|j: int| 0 <= j < n - 1 implies !on_the_bus(#[trigger] t[j]) by {
                assert(t[j] == names[j + 1]);
            }
        }
        if forall|j: int| 0 <= j < names.len() ==> !on_the_bus(#[trigger] names[j]) {
            assert(!on_the_bus(names[0]));
            assert forall|j: int| 0 <= j < t.len() implies !on_the_bus(#[trigger] t[j]) by {
                assert(t[j] == names[j + 1]);
            }
        }
    }
}

/// A link is wireless where the kernel keeps one of these for it.
pub proof fn wireless_links_are_marked(name: Seq<char>)
    ensures
        model::wireless_markers(name).0 == "/sys/class/net/"@ + name + "/wireless"@,
        model::wireless_markers(name).1 == "/sys/class/net/"@ + name + "/phy80211"@,
{
}

// ---- claims -----------------------------------------------------------------

/// A character with a capital made small.
pub open spec fn small(c: char) -> char {
    if 'A' <= c <= 'Z' {
        (c as int + 32) as char
    } else {
        c
    }
}

proof fn lowered_is(s: Seq<char>)
    ensures
        text::lowered(s).len() == s.len(),
        forall|i: int| 0 <= i < s.len() ==> #[trigger] text::lowered(s)[i] == small(s[i]),
{
}

/// A pattern without a star claims what reads the same, whatever its case.
pub proof fn a_plain_pattern_claims_the_same(p: Seq<char>, v: Seq<char>)
    requires
        forall|i: int| 0 <= i < p.len() ==> #[trigger] p[i] != '*',
    ensures
        matching::globs(p, v) <==> p.len() == v.len() && forall|i: int|
            0 <= i < p.len() ==> small(#[trigger] p[i]) == small(v[i]),
{
    lowered_is(p);
    lowered_is(v);
    let q = text::lowered(p);
    assert forall|i: int| 0 <= i < q.len() implies q[i] != '*' by {
        assert(q[i] == small(p[i]));
    }
    crate::addr::index_of_found(q, '*', q.len() as int);
    if p.len() == v.len() && forall|i: int| 0 <= i < p.len() ==> small(#[trigger] p[i]) == small(
        v[i],
    ) {
        assert(q =~= text::lowered(v));
    }
    if matching::globs(p, v) {
        assert forall|i: int| 0 <= i < p.len() implies small(#[trigger] p[i]) == small(v[i]) by {
            assert(q[i] == text::lowered(v)[i]);
        }
    }
}

/// A pattern with a star claims what begins and ends as it does before and behind its
/// first star, whatever its case, without the two overlapping.
pub proof fn a_starred_pattern_claims_ends(head: Seq<char>, tail: Seq<char>, v: Seq<char>)
    requires
        forall|i: int| 0 <= i < head.len() ==> #[trigger] head[i] != '*',
    ensures
        matching::globs(head + seq!['*'] + tail, v) <==> {
            let n = v.len() - tail.len();
            &&& head.len() <= n
            &&& forall|i: int| 0 <= i < head.len() ==> small(#[trigger] head[i]) == small(v[i])
            &&& forall|i: int| 0 <= i < tail.len() ==> small(#[trigger] tail[i]) == small(v[n + i])
        },
{
    let p = head + seq!['*'] + tail;
    let q = text::lowered(p);
    let w = text::lowered(v);
    let h = text::lowered(head);
    let t = text::lowered(tail);
    lowered_is(p);
    lowered_is(v);
    lowered_is(head);
    lowered_is(tail);
    let k = head.len() as int;
    assert(q[k] == small(p[k]));
    assert forall|i: int| 0 <= i < k implies q[i] != '*' by {
        assert(q[i] == small(p[i]));
        assert(p[i] == head[i]);
    }
    crate::addr::index_of_found(q, '*', k);
    assert(q.take(k) =~= h);
    assert(q.skip(k + 1) =~= t);
    let n = v.len() - tail.len();
    if matching::globs(p, v) {
        let m = choose|m: Seq<char>| w == #[trigger] (h + m) + t;
        assert(w.len() == h.len() + m.len() + t.len());
        assert forall|i: int| 0 <= i < head.len() implies small(#[trigger] head[i]) == small(
            v[i],
        ) by {
            assert(w[i] == h[i]);
        }
        assert forall|i: int| 0 <= i < tail.len() implies small(#[trigger] tail[i]) == small(
            v[n + i],
        ) by {
            assert(w[n + i] == t[i]);
        }
    }
    if head.len() <= n && (forall|i: int|
        0 <= i < head.len() ==> small(#[trigger] head[i]) == small(v[i])) && (forall|i: int|
        0 <= i < tail.len() ==> small(#[trigger] tail[i]) == small(v[n + i])) {
        let m = w.subrange(k, n);
        let all = (h + m) + t;
        assert forall|i: int| 0 <= i < w.len() implies w[i] == all[i] by {
            if i < k {
                assert(h[i] == small(head[i]));
            } else if i >= n {
                assert(t[i - n] == small(tail[i - n]));
                assert(w[i] == small(v[n + (i - n)]));
            }
        }
        assert(w =~= all);
    }
}

/// Whether a key claims a value: it is not given, or it fits the value there is.
pub open spec fn keyed(key: Option<Seq<char>>, value: Option<Seq<char>>) -> bool {
    key is None || value is Some && matching::globs(key->0, value->0)
}

/// A match claims a link where every key that it gives fits, and it gives one.
pub proof fn a_match_claims_what_every_key_fits(
    m: MatchV,
    link: LinkV,
    path: Seq<char>,
    driver: Seq<char>,
)
    ensures
        matching::claims(m, link, path, driver) <==> {
            &&& keyed(m.name, Some(link.name))
            &&& keyed(
                m.mac,
                if link.mac is Some {
                    Some(model::colon_hex(link.mac->0))
                } else {
                    None
                },
            )
            &&& keyed(m.path, Some(path))
            &&& keyed(m.driver, Some(driver))
            &&& keyed(m.kind, Some(link.kind.name()))
            &&& m != (MatchV { name: None, mac: None, path: None, driver: None, kind: None })
        },
{
}

/// The profile of a link is the first to claim it.
pub proof fn the_first_to_claim_is_chosen(
    profiles: Seq<ProfileV>,
    link: LinkV,
    path: Seq<char>,
    driver: Seq<char>,
    n: int,
)
    ensures
        0 <= n < profiles.len() && matching::claims(profiles[n].matches, link, path, driver) && (
        forall|k: int|
            0 <= k < n ==> !matching::claims((#[trigger] profiles[k]).matches, link, path, driver))
            ==> matching::chosen(profiles, link, path, driver) == Some(profiles[n]),
        (forall|k: int|
            0 <= k < profiles.len() ==> !matching::claims(
                (#[trigger] profiles[k]).matches,
                link,
                path,
                driver,
            )) ==> matching::chosen(profiles, link, path, driver) is None,
    decreases profiles.len(),
{
    if profiles.len() > 0 {
        let t = profiles.drop_first();
        the_first_to_claim_is_chosen(t, link, path, driver, n - 1);
        if 0 < n < profiles.len() && (forall|k: int|
            0 <= k < n ==> !matching::claims((#[trigger] profiles[k]).matches, link, path, driver)) {
            assert(!matching::claims(profiles[0].matches, link, path, driver));
            assert(t[n - 1] == profiles[n]);
            assert forall|k: int| 0 <= k < n - 1 implies !matching::claims(
                (#[trigger] t[k]).matches,
                link,
                path,
                driver,
            ) by {
                assert(t[k] == profiles[k + 1]);
            }
        }
        if forall|k: int|
            0 <= k < profiles.len() ==> !matching::claims(
                (#[trigger] profiles[k]).matches,
                link,
                path,
                driver,
            ) {
            assert(!matching::claims(profiles[0].matches, link, path, driver));
            assert forall|k: int| 0 <= k < t.len() implies !matching::claims(
                (#[trigger] t[k]).matches,
                link,
                path,
                driver,
            ) by {
                assert(t[k] == profiles[k + 1]);
            }
        }
    }
}

} // verus!
