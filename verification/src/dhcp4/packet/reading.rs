//! What the bytes of a message mean, and what an ACK grants.

use vstd::prelude::*;
use vstd::utf8::*;
use vstd::arithmetic::power2::*;
use crate::addr::Ipv4Addr;
use crate::bytes;
use crate::layout;
use crate::text;
use super::lease;
use super::lease::{LeaseV, StaticRoute};
use super::{MessageType, MessageV, OptionsV};

verus! {

// ---- options ----------------------------------------------------------------

/// Of several options with one code the first is found.
pub proof fn the_first_of_a_code_is_found(o: OptionsV, code: u8, i: int)
    requires
        0 <= i < o.len(),
        o[i].0 == code,
        forall|j: int| 0 <= j < i ==> (#[trigger] o[j]).0 != code,
    ensures
        super::lookup(o, code) == Some(o[i].1),
    decreases i,
{
    if i > 0 {
        let t = o.drop_first();
        assert(o[0].0 != code);
        assert forall|j: int| 0 <= j < i - 1 implies (#[trigger] t[j]).0 != code by {
            assert(t[j] == o[j + 1]);
        }
        the_first_of_a_code_is_found(t, code, i - 1);
    }
}

/// A code that no option has is not found.
pub proof fn a_code_that_is_not_there_is_not_found(o: OptionsV, code: u8)
    requires
        forall|j: int| 0 <= j < o.len() ==> (#[trigger] o[j]).0 != code,
    ensures
        super::lookup(o, code) is None,
    decreases o.len(),
{
    if o.len() > 0 {
        let t = o.drop_first();
        assert(o[0].0 != code);
        assert forall|j: int| 0 <= j < t.len() implies (#[trigger] t[j]).0 != code by {
            assert(t[j] == o[j + 1]);
        }
        a_code_that_is_not_there_is_not_found(t, code);
    }
}

/// The numbers of the kinds of messages, in both directions.
pub proof fn kinds_have_their_numbers(n: u8)
    ensures
        MessageType::Discover.spec_code() == 1,
        MessageType::Offer.spec_code() == 2,
        MessageType::Request.spec_code() == 3,
        MessageType::Decline.spec_code() == 4,
        MessageType::Ack.spec_code() == 5,
        MessageType::Nak.spec_code() == 6,
        MessageType::Release.spec_code() == 7,
        MessageType::Inform.spec_code() == 8,
        super::kind_of(n) is Some <==> 1 <= n <= 8,
        super::kind_of(n) matches Some(k) ==> k.spec_code() == n,
{
}

/// The kind of a message is what the first byte of option 53 says.
pub proof fn the_kind_is_in_option_53(o: OptionsV, k: MessageType)
    ensures
        super::option_kind(o) == Some(k) <==> (super::lookup(o, 53) matches Some(v) && v.len() > 0
            && v[0] == k.spec_code()),
{
}

/// Addresses and numbers in an option are read from its bytes, the first the
/// greatest: an address from the first four of at least four, a list from each
/// four, a number from exactly as many as it takes.
pub proof fn values_are_read_byte_by_byte(o: OptionsV, code: u8, v: Seq<u8>, i: int)
    requires
        super::lookup(o, code) == Some(v),
    ensures
        match super::option_ipv4(o, code) {
            Some(a) => v.len() >= 4 && a.bits == layout::four(v, 0),
            None => v.len() < 4,
        },
        super::option_ipv4_list(o, code).len() == v.len() / 4,
        0 <= i < v.len() / 4 ==> super::option_ipv4_list(o, code)[i].bits == layout::four(v, 4 * i),
        match super::option_u32(o, code) {
            Some(n) => v.len() == 4 && n == layout::four(v, 0),
            None => v.len() != 4,
        },
        match super::option_u16(o, code) {
            Some(n) => v.len() == 2 && n == layout::two(v, 0),
            None => v.len() != 2,
        },
{
    if v.len() >= 4 {
        layout::four_is(v, 0);
    }
    if 0 <= i < v.len() / 4 {
        layout::four_is(v, 4 * i);
    }
    if v.len() == 4 {
        assert(v.subrange(0, 4) =~= v);
    }
    if v.len() == 2 {
        layout::two_is(v, 0);
        assert(v.subrange(0, 2) =~= v);
    }
}

/// Without the option there is no address, list, number or text.
pub proof fn what_is_not_there_is_not_read(o: OptionsV, code: u8)
    requires
        super::lookup(o, code) is None,
    ensures
        super::option_ipv4(o, code) is None,
        super::option_ipv4_list(o, code).len() == 0,
        super::option_u32(o, code) is None,
        super::option_u16(o, code) is None,
        super::option_text(o, code) is None,
{
}

proof fn first_zero(v: Seq<u8>, n: int)
    requires
        0 <= n <= v.len(),
        forall|j: int| 0 <= j < n ==> v[j] != 0,
        n < v.len() ==> v[n] == 0,
    ensures
        bytes::zero_at(v) == n,
{
    bytes::zero_at_found(v, n);
}

/// Text in an option ends at the first zero byte, or where the option does, and
/// is UTF-8 or nothing.
pub proof fn text_ends_at_the_first_zero(o: OptionsV, code: u8, v: Seq<u8>, n: int)
    requires
        super::lookup(o, code) == Some(v),
        0 <= n <= v.len(),
        forall|j: int| 0 <= j < n ==> v[j] != 0,
        n < v.len() ==> v[n] == 0,
    ensures
        super::option_text(o, code) == if valid_utf8(v.take(n)) {
            Some(decode_utf8(v.take(n)))
        } else {
            None
        },
{
    first_zero(v, n);
}

// ---- the wire ---------------------------------------------------------------

/// Options as they are sent: a code, a length and a value each.
pub open spec fn sent(o: OptionsV) -> Seq<u8>
    decreases o.len(),
{
    if o.len() == 0 {
        Seq::empty()
    } else {
        seq![o[0].0, o[0].1.len() as u8] + o[0].1 + sent(o.drop_first())
    }
}

/// Options that can be sent so: none has the code of padding or of the end, and
/// every value fits its length byte.
pub open spec fn sendable(o: OptionsV) -> bool {
    forall|i: int| 0 <= i < o.len() ==> 1 <= (#[trigger] o[i]).0 <= 254 && o[i].1.len() <= 255
}

/// Options are read as they are sent, up to the end marker or the end of the
/// bytes, whatever follows the marker.
pub proof fn options_are_read_as_sent(o: OptionsV, junk: Seq<u8>)
    requires
        sendable(o),
    ensures
        super::options_parsed(sent(o)) == Some(o),
        super::options_parsed(sent(o) + seq![255u8] + junk) == Some(o),
    decreases o.len(),
{
    let end = seq![255u8] + junk;
    assert(sent(o) + seq![255u8] + junk =~= sent(o) + end);
    if o.len() == 0 {
        assert(sent(o) + end =~= end);
        assert(o =~= Seq::empty());
    } else {
        let rest = o.drop_first();
        assert forall|i: int| 0 <= i < rest.len() implies 1 <= (#[trigger] rest[i]).0 <= 254
            && rest[i].1.len() <= 255 by {
            assert(rest[i] == o[i + 1]);
        }
        options_are_read_as_sent(rest, junk);
        assert(1 <= o[0].0 <= 254 && o[0].1.len() <= 255);
        assert(sent(rest) + seq![255u8] + junk =~= sent(rest) + end);
        let n = o[0].1.len() as int;
        assert forall|t: Seq<u8>| super::options_parsed(sent(rest) + t) == Some(rest) implies
            #[trigger] super::options_parsed(sent(o) + t) == Some(o) by {
            let s = sent(o) + t;
            assert(s[0] == o[0].0 && s[1] == n);
            assert(s.skip(2 + s[1] as int) =~= sent(rest) + t);
            assert(s.subrange(2, 2 + s[1] as int) =~= o[0].1);
            assert(seq![(o[0].0, o[0].1)] + rest =~= o);
        }
        assert(sent(rest) + Seq::<u8>::empty() =~= sent(rest));
        assert(sent(o) + Seq::<u8>::empty() =~= sent(o));
    }
}

/// Padding between options means nothing, and an option that is cut off makes
/// the whole no message.
pub proof fn padding_is_skipped_and_cut_options_are_refused(o: OptionsV, t: Seq<u8>)
    requires
        sendable(o),
    ensures
        super::options_parsed(seq![0u8] + t) == super::options_parsed(t),
        t.len() == 1 && 1 <= t[0] <= 254 ==> super::options_parsed(sent(o) + t) is None,
        t.len() >= 2 && 1 <= t[0] <= 254 && t.len() < 2 + t[1] ==> super::options_parsed(
            sent(o) + t,
        ) is None,
    decreases o.len(),
{
    assert((seq![0u8] + t).skip(1) =~= t);
    if o.len() == 0 {
        assert(sent(o) + t =~= t);
    } else {
        let rest = o.drop_first();
        assert forall|i: int| 0 <= i < rest.len() implies 1 <= (#[trigger] rest[i]).0 <= 254
            && rest[i].1.len() <= 255 by {
            assert(rest[i] == o[i + 1]);
        }
        assert(1 <= o[0].0 <= 254 && o[0].1.len() <= 255);
        padding_is_skipped_and_cut_options_are_refused(rest, t);
        let s = sent(o) + t;
        assert(s[0] == o[0].0 && s[1] == o[0].1.len());
        assert(s.skip(2 + s[1] as int) =~= sent(rest) + t);
    }
}

/// A message is read from where its fields lie: the direction, the hardware's
/// sort and size, the number, the seconds, the broadcast bit, the four
/// addresses, the hardware address, the cookie, and the options after it.
/// Anything else is no message.
pub proof fn messages_are_read_where_they_lie(b: Seq<u8>)
    ensures
        match super::decoded(b) {
            Some(m) => {
                &&& b.len() >= 240 && b[1] == 1 && b[2] == 6
                &&& b[236] == 0x63 && b[237] == 0x82 && b[238] == 0x53 && b[239] == 0x63
                &&& m.is_reply <==> b[0] == 2
                &&& m.xid == layout::four(b, 4)
                &&& m.secs == layout::two(b, 8)
                &&& m.broadcast <==> b[10] >= 0x80
                &&& m.ciaddr.bits == layout::four(b, 12)
                &&& m.yiaddr.bits == layout::four(b, 16)
                &&& m.siaddr.bits == layout::four(b, 20)
                &&& m.giaddr.bits == layout::four(b, 24)
                &&& m.chaddr == b.subrange(28, 34)
                &&& super::options_parsed(b.skip(240)) == Some(m.options)
            },
            None => b.len() < 240 || b[1] != 1 || b[2] != 6 || b[236] != 0x63 || b[237] != 0x82
                || b[238] != 0x53 || b[239] != 0x63 || super::options_parsed(b.skip(240)) is None,
        },
{
    if b.len() >= 240 {
        layout::four_is(b, 4);
        layout::two_is(b, 8);
        layout::two_is(b, 10);
        layout::four_is(b, 12);
        layout::four_is(b, 16);
        layout::four_is(b, 20);
        layout::four_is(b, 24);
        let c = b.subrange(236, 240);
        if c == super::cookie() {
            assert(c[0] == 0x63 && c[1] == 0x82 && c[2] == 0x53 && c[3] == 0x63);
        }
        if b[236] == 0x63 && b[237] == 0x82 && b[238] == 0x53 && b[239] == 0x63 {
            assert(c =~= super::cookie());
        }
    }
}

proof fn options_front(o: OptionsV)
    requires
        sendable(o),
    ensures
        super::options_bytes(o) == sent(o),
    decreases o.len(),
{
    if o.len() > 0 {
        super::options_bytes_front(o);
        let rest = o.drop_first();
        assert forall|i: int| 0 <= i < rest.len() implies 1 <= (#[trigger] rest[i]).0 <= 254
            && rest[i].1.len() <= 255 by {
            assert(rest[i] == o[i + 1]);
        }
        assert(o[0].1.len() <= 255);
        options_front(rest);
        assert(super::options_bytes(o) =~= sent(o));
    }
}

/// A message is written where it is read: each field at its place, then the
/// options as they are sent, the end marker, and zeros up to 300 bytes.
pub proof fn messages_are_written_where_they_lie(m: MessageV)
    requires
        m.chaddr.len() == 6,
        sendable(m.options),
    ensures
        ({
            let b = super::encoded(m);
            let n = 240 + sent(m.options).len();
            &&& b[0] == if m.is_reply { 2u8 } else { 1u8 }
            &&& b[1] == 1 && b[2] == 6 && b[3] == 0
            &&& layout::four(b, 4) == m.xid
            &&& layout::two(b, 8) == m.secs
            &&& layout::two(b, 10) == if m.broadcast { 0x8000int } else { 0 }
            &&& layout::four(b, 12) == m.ciaddr.bits
            &&& layout::four(b, 16) == m.yiaddr.bits
            &&& layout::four(b, 20) == m.siaddr.bits
            &&& layout::four(b, 24) == m.giaddr.bits
            &&& b.subrange(28, 34) == m.chaddr
            &&& forall|i: int| 34 <= i < 236 ==> #[trigger] b[i] == 0
            &&& b[236] == 0x63 && b[237] == 0x82 && b[238] == 0x53 && b[239] == 0x63
            &&& b.subrange(240, n as int) == sent(m.options)
            &&& b[n as int] == 255
            &&& b.len() == if n + 1 < 300 { 300 } else { n + 1 }
            &&& forall|i: int| n < i < b.len() ==> #[trigger] b[i] == 0
        }),
{
    let b = super::encoded(m);
    super::header_len(m);
    options_front(m.options);
    let flags: nat = if m.broadcast {
        0x8000
    } else {
        0
    };
    layout::in_four_is(m.xid as nat);
    layout::in_two_is(m.secs as nat);
    layout::in_two_is(flags);
    layout::in_four_is(m.ciaddr.bits as nat);
    layout::in_four_is(m.yiaddr.bits as nat);
    layout::in_four_is(m.siaddr.bits as nat);
    layout::in_four_is(m.giaddr.bits as nat);
    let n = 240 + sent(m.options).len();
    assert(b.subrange(4, 8) =~= layout::in_four(m.xid as int));
    assert(b.subrange(8, 10) =~= layout::in_two(m.secs as int));
    assert(b.subrange(10, 12) =~= layout::in_two(flags as int));
    assert(b.subrange(12, 16) =~= layout::in_four(m.ciaddr.bits as int));
    assert(b.subrange(16, 20) =~= layout::in_four(m.yiaddr.bits as int));
    assert(b.subrange(20, 24) =~= layout::in_four(m.siaddr.bits as int));
    assert(b.subrange(24, 28) =~= layout::in_four(m.giaddr.bits as int));
    whole_four(b, 4, m.xid as int);
    whole_two(b, 8, m.secs as int);
    whole_two(b, 10, flags as int);
    whole_four(b, 12, m.ciaddr.bits as int);
    whole_four(b, 16, m.yiaddr.bits as int);
    whole_four(b, 20, m.siaddr.bits as int);
    whole_four(b, 24, m.giaddr.bits as int);
    assert(b.subrange(28, 34) =~= m.chaddr);
    assert(b.subrange(240, n as int) =~= sent(m.options));
}

proof fn whole_four(b: Seq<u8>, at: int, n: int)
    requires
        0 <= at <= at + 4 <= b.len(),
        0 <= n < 0x1_0000_0000,
        b.subrange(at, at + 4) == layout::in_four(n),
    ensures
        layout::four(b, at) == n,
{
    let s = b.subrange(at, at + 4);
    assert(s[0] == b[at] && s[1] == b[at + 1] && s[2] == b[at + 2] && s[3] == b[at + 3]);
    assert(n == (n / 0x100_0000) * 0x100_0000 + (n / 0x1_0000 % 0x100) * 0x1_0000 + (n / 0x100
        % 0x100) * 0x100 + n % 0x100);
}

proof fn whole_two(b: Seq<u8>, at: int, n: int)
    requires
        0 <= at <= at + 2 <= b.len(),
        0 <= n < 0x1_0000,
        b.subrange(at, at + 2) == layout::in_two(n),
    ensures
        layout::two(b, at) == n,
{
    let s = b.subrange(at, at + 2);
    assert(s[0] == b[at] && s[1] == b[at + 1]);
}

// ---- the lease --------------------------------------------------------------

/// What has to be there for a lease: an address, a server (option 54), a lease
/// time of at least four seconds (option 51), and static routes (option 121),
/// where there are any, that can be read.
pub proof fn a_lease_needs_an_address_a_server_and_a_time(m: MessageV)
    ensures
        lease::lease_in(m) is Some <==> {
            &&& m.yiaddr.bits != 0
            &&& super::option_ipv4(m.options, 54) is Some
            &&& super::option_u32(m.options, 51) matches Some(t) && t >= 4
            &&& super::lookup(m.options, 121) matches Some(v) ==> lease::routes_parsed(v) is Some
        },
        lease::lease_in(m) matches Some(l) ==> {
            &&& l.address == m.yiaddr
            &&& super::option_ipv4(m.options, 54) == Some(l.server)
            &&& super::option_u32(m.options, 51) == Some(l.lease_time)
        },
{
}

/// The length of a lease's prefix is the number of ones in its mask (option 1),
/// where that is ones and then zeros; else, and without one, that of the class of
/// its address.
pub proof fn the_prefix_is_as_long_as_the_mask(m: MessageV, l: LeaseV, k: nat)
    requires
        lease::lease_in(m) == Some(l),
        1 <= k <= 32,
    ensures
        super::option_ipv4(m.options, 1) matches Some(mask) ==> (mask.bits == 0x1_0000_0000
            - pow2((32 - k) as nat) ==> l.prefix == k),
        (super::option_ipv4(m.options, 1) is None || (super::option_ipv4(m.options, 1) matches Some(
            mask,
        ) && forall|j: nat|
            1 <= j <= 32 ==> mask.bits != 0x1_0000_0000 - #[trigger] pow2((32 - j) as nat)))
            ==> l.prefix == (if m.yiaddr.bits < 0x8000_0000 {
            8
        } else if m.yiaddr.bits < 0xc000_0000 {
            16
        } else {
            24int
        }),
{
    if let Some(mask) = super::option_ipv4(m.options, 1) {
        if mask.bits == 0x1_0000_0000 - pow2((32 - k) as nat) {
            assert(lease::is_mask(mask.bits, k));
            let j = choose|j: nat| lease::is_mask(mask.bits, j);
            assert(lease::is_mask(mask.bits, j));
            if j < k {
                lemma_pow2_strictly_increases((32 - k) as nat, (32 - j) as nat);
            } else if k < j {
                lemma_pow2_strictly_increases((32 - j) as nat, (32 - k) as nat);
            }
        }
        if exists|j: nat| lease::is_mask(mask.bits, j) {
            let j = choose|j: nat| lease::is_mask(mask.bits, j);
            assert(mask.bits == 0x1_0000_0000 - pow2((32 - j) as nat));
        }
    }
}

/// What an ACK lists is in the lease: name servers (option 6), time servers (42),
/// the broadcast address (28), the domain (15), the host name (12), the packet
/// size (26) where IPv4 can use it; and the routers (3), unless there are
/// classless routes (121), which take their place.
pub proof fn what_an_ack_lists_is_in_the_lease(m: MessageV, l: LeaseV)
    requires
        lease::lease_in(m) == Some(l),
    ensures
        l.dns == super::option_ipv4_list(m.options, 6),
        l.ntp == super::option_ipv4_list(m.options, 42),
        l.broadcast == super::option_ipv4(m.options, 28),
        l.domain == super::option_text(m.options, 15),
        l.hostname == super::option_text(m.options, 12),
        match super::option_u16(m.options, 26) {
            Some(n) => if n >= 68 {
                l.mtu == Some(n)
            } else {
                l.mtu is None
            },
            None => l.mtu is None,
        },
        match super::lookup(m.options, 121) {
            Some(v) => lease::routes_parsed(v) == Some(l.static_routes),
            None => l.static_routes.len() == 0,
        },
        l.static_routes.len() == 0 ==> l.routers == super::option_ipv4_list(m.options, 3),
        l.static_routes.len() > 0 ==> l.routers.len() == 0,
        match super::lookup(m.options, 119) {
            Some(v) => l.search == lease::search_parsed(v, 0),
            None => l.search.len() == 0,
        },
{
}

/// When to renew and to rebind: what the server says (options 58 and 59) where it
/// leaves the times in their order; else half the lease, and seven eighths of it,
/// kept between the time to renew and the end.
pub proof fn the_times_are_the_servers_where_they_fit(m: MessageV, l: LeaseV)
    requires
        lease::lease_in(m) == Some(l),
    ensures
        match super::option_u32(m.options, 58) {
            Some(t) => if 0 < t && t + 2 < l.lease_time {
                l.t1 == t
            } else {
                l.t1 == l.lease_time / 2
            },
            None => l.t1 == l.lease_time / 2,
        },
        match super::option_u32(m.options, 59) {
            Some(t) => if l.t1 < t < l.lease_time {
                l.t2 == t
            } else {
                usual_t2(l)
            },
            None => usual_t2(l),
        },
{
}

/// The usual time to rebind: seven eighths of the lease, or the nearest that lies
/// after the time to renew and before the end.
pub open spec fn usual_t2(l: LeaseV) -> bool {
    let t = l.lease_time * 7 / 8;
    &&& l.t1 < t < l.lease_time ==> l.t2 == t
    &&& t <= l.t1 ==> l.t2 == l.t1 + 1
    &&& l.t1 < l.t2 < l.lease_time
}

/// The way out is the first router, else the gateway of the first route to
/// everywhere.
pub proof fn the_gateway_is_the_first_way_out(l: LeaseV, i: int)
    ensures
        l.routers.len() > 0 ==> lease::lease_gateway(l) == Some(l.routers[0]),
        l.routers.len() == 0 && 0 <= i < l.static_routes.len() && l.static_routes[i].prefix == 0 && (
        forall|j: int| 0 <= j < i ==> (#[trigger] l.static_routes[j]).prefix != 0)
            ==> lease::lease_gateway(l) == Some(l.static_routes[i].gateway),
        l.routers.len() == 0 && (forall|j: int|
            0 <= j < l.static_routes.len() ==> (#[trigger] l.static_routes[j]).prefix != 0)
            ==> lease::lease_gateway(l) is None,
{
    if l.routers.len() == 0 {
        first_default(l.static_routes, i);
    }
}

proof fn first_default(s: Seq<StaticRoute>, i: int)
    ensures
        0 <= i < s.len() && s[i].prefix == 0 && (forall|j: int|
            0 <= j < i ==> (#[trigger] s[j]).prefix != 0) ==> lease::default_gateway(s) == Some(
            s[i].gateway,
        ),
        (forall|j: int| 0 <= j < s.len() ==> (#[trigger] s[j]).prefix != 0)
            ==> lease::default_gateway(s) is None,
    decreases s.len(),
{
    if s.len() > 0 {
        let t = s.drop_first();
        first_default(t, i - 1);
        if 0 <= i < s.len() && s[i].prefix == 0 && (forall|j: int|
            0 <= j < i ==> (#[trigger] s[j]).prefix != 0) && i > 0 {
            assert(s[0].prefix != 0);
            assert forall|j: int| 0 <= j < i - 1 implies (#[trigger] t[j]).prefix != 0 by {
                assert(t[j] == s[j + 1]);
            }
            assert(t[i - 1] == s[i]);
        }
        if forall|j: int| 0 <= j < s.len() ==> (#[trigger] s[j]).prefix != 0 {
            assert(s[0].prefix != 0);
            assert forall|j: int| 0 <= j < t.len() implies (#[trigger] t[j]).prefix != 0 by {
                assert(t[j] == s[j + 1]);
            }
        }
    }
}

/// How many octets of a destination are sent: those that its prefix reaches into.
pub open spec fn octets_sent(prefix: u8) -> int {
    if prefix == 0 {
        0
    } else if prefix <= 8 {
        1
    } else if prefix <= 16 {
        2
    } else if prefix <= 24 {
        3
    } else {
        4
    }
}

/// Routes as option 121 has them: the length of the prefix, the octets that it
/// reaches into, the gateway.
pub open spec fn routes_sent(s: Seq<StaticRoute>) -> Seq<u8>
    decreases s.len(),
{
    if s.len() == 0 {
        Seq::empty()
    } else {
        seq![s[0].prefix] + layout::in_four(s[0].destination.bits as int).take(
            octets_sent(s[0].prefix),
        ) + layout::in_four(s[0].gateway.bits as int) + routes_sent(s.drop_first())
    }
}

/// A route whose destination has nothing in the octets that are not sent.
pub open spec fn route_sendable(r: StaticRoute) -> bool {
    let n = octets_sent(r.prefix);
    let b = layout::in_four(r.destination.bits as int);
    r.prefix <= 32 && forall|i: int| n <= i < 4 ==> #[trigger] b[i] == 0
}

/// Classless routes are read as they are sent, each of them, in their order; and
/// not at all where one is cut off or its prefix is too long.
pub proof fn routes_are_read_as_sent(s: Seq<StaticRoute>, t: Seq<u8>)
    requires
        forall|i: int| 0 <= i < s.len() ==> route_sendable(#[trigger] s[i]),
    ensures
        lease::routes_parsed(routes_sent(s)) == Some(s),
        t.len() > 0 && (t[0] > 32 || t.len() < 1 + octets_sent(t[0]) + 4) ==> lease::routes_parsed(
            routes_sent(s) + t,
        ) is None,
    decreases s.len(),
{
    if s.len() == 0 {
        assert(routes_sent(s) + t =~= t);
        assert(s =~= Seq::empty());
    } else {
        let rest = s.drop_first();
        assert forall|i: int| 0 <= i < rest.len() implies route_sendable(#[trigger] rest[i]) by {
            assert(rest[i] == s[i + 1]);
        }
        routes_are_read_as_sent(rest, t);
        one_route_is_read(s, Seq::empty());
        one_route_is_read(s, t);
        assert(routes_sent(s) + Seq::<u8>::empty() =~= routes_sent(s));
        assert(routes_sent(rest) + Seq::<u8>::empty() =~= routes_sent(rest));
        assert(seq![s[0]] + rest =~= s);
    }
}

proof fn one_route_is_read(s: Seq<StaticRoute>, t: Seq<u8>)
    requires
        s.len() > 0,
        route_sendable(s[0]),
    ensures
        lease::routes_parsed(routes_sent(s) + t) == (match lease::routes_parsed(
            routes_sent(s.drop_first()) + t,
        ) {
            Some(rest) => Some(seq![s[0]] + rest),
            None => None,
        }),
{
    let r = s[0];
    let n = octets_sent(r.prefix);
    let d = layout::in_four(r.destination.bits as int);
    let g = layout::in_four(r.gateway.bits as int);
    let v = routes_sent(s) + t;
    assert(lease::route_octets(r.prefix) == n);
    assert(v[0] == r.prefix);
    assert(v.skip(1 + n + 4) =~= routes_sent(s.drop_first()) + t);
    assert(v.subrange(1, 1 + n) + super::zeros((4 - n) as nat) =~= d);
    assert(v.subrange(1 + n, 1 + n + 4) =~= g);
    assert(d.subrange(0, 4) =~= d);
    assert(g.subrange(0, 4) =~= g);
    layout::four_is(d, 0);
    layout::four_is(g, 0);
    whole_four(d, 0, r.destination.bits as int);
    whole_four(g, 0, r.gateway.bits as int);
}

// ---- the search list --------------------------------------------------------

/// Labels as they are sent: each after its length, a zero at the end.
pub open spec fn name_sent(labels: Seq<Seq<u8>>) -> Seq<u8>
    decreases labels.len(),
{
    if labels.len() == 0 {
        seq![0u8]
    } else {
        seq![labels[0].len() as u8] + labels[0] + name_sent(labels.drop_first())
    }
}

/// The characters of each label.
pub open spec fn spelled(labels: Seq<Seq<u8>>) -> Seq<Seq<char>> {
    labels.map_values(|l: Seq<u8>| text::utf8_lossy(l))
}

/// A name is read label by label where it lies, and ends after its zero; a
/// pointer stands for what it points to.
pub proof fn names_are_read_label_by_label(
    before: Seq<u8>,
    labels: Seq<Seq<u8>>,
    tail: Seq<u8>,
    hops: int,
)
    requires
        forall|i: int| 0 <= i < labels.len() ==> 1 <= (#[trigger] labels[i]).len() <= 63,
    ensures
        ({
            let v = before + name_sent(labels) + tail;
            &&& lease::name_at(v, before.len() as int, hops) == Some(spelled(labels))
            &&& lease::name_end(v, before.len() as int) == before.len() + name_sent(labels).len()
        }),
    decreases labels.len(),
{
    let v = before + name_sent(labels) + tail;
    let p = before.len() as int;
    if labels.len() == 0 {
        assert(v[p] == 0);
        assert(spelled(labels) =~= Seq::empty());
    } else {
        let rest = labels.drop_first();
        assert forall|i: int| 0 <= i < rest.len() implies 1 <= (#[trigger] rest[i]).len() <= 63 by {
            assert(rest[i] == labels[i + 1]);
        }
        let l = labels[0];
        assert(1 <= l.len() <= 63);
        let more = before + (seq![l.len() as u8] + l);
        names_are_read_label_by_label(more, rest, tail, hops);
        assert(more + name_sent(rest) + tail =~= v);
        assert(v[p] == l.len());
        assert(v.subrange(p + 1, p + 1 + v[p]) =~= l);
        assert(more.len() == p + 1 + v[p]);
        assert(seq![text::utf8_lossy(l)] + spelled(rest) =~= spelled(labels));
    }
}

/// A pointer stands for the name that it points to, up to sixteen of them one
/// after another, and takes two bytes.
pub proof fn pointers_are_followed(v: Seq<u8>, p: int, hops: int)
    requires
        0 <= p < p + 1 < v.len(),
        v[p] >= 0xc0,
    ensures
        lease::name_at(v, p, hops) == if hops < 16 {
            lease::name_at(v, layout::two(v, p) - 0xc000, hops + 1)
        } else {
            None
        },
        lease::name_end(v, p) == p + 2,
{
}

/// The search list goes from name to name: what each spells, dots between its
/// labels, the empty one left out; it ends at a name that cannot be read.
pub proof fn the_search_list_goes_from_name_to_name(v: Seq<u8>, p: int)
    requires
        0 <= p < v.len(),
    ensures
        match lease::name_at(v, p, 0) {
            None => lease::search_parsed(v, p).len() == 0,
            Some(labels) => {
                let rest = lease::search_parsed(v, lease::name_end(v, p));
                if labels.len() == 0 {
                    lease::search_parsed(v, p) == rest
                } else {
                    lease::search_parsed(v, p) == seq![text::joined(labels, "."@)] + rest
                }
            },
        },
        lease::search_parsed(v, v.len() as int).len() == 0,
{
    lease::name_end_after(v, p);
    if lease::name_at(v, p, 0) matches Some(labels) && labels.len() == 0 {
        assert(Seq::<Seq<char>>::empty() + lease::search_parsed(v, lease::name_end(v, p))
            =~= lease::search_parsed(v, lease::name_end(v, p)));
    }
}

} // verus!
