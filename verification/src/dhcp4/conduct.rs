//! What the DHCPv4 client does in each state: what moves it on, and what it
//! sends.

use vstd::prelude::*;
use vstd::utf8::*;
use crate::addr::Ipv4Addr;
use crate::clock;
use crate::clock::{Duration, Instant};
use crate::layout;
use super::client;
use super::client::{ActionV, ClientV, Destination, State, Step};
use super::packet;
use super::packet::lease;
use super::packet::reading;
use super::packet::{MessageType, MessageV, OptionsV};

verus! {

// ---- what is sent -----------------------------------------------------------

/// Whole seconds from the start, as far as sixteen bits tell them.
pub open spec fn waited(c: ClientV, now: Instant) -> int {
    let n = if now.nanos >= c.started.nanos {
        (now.nanos - c.started.nanos) / 1_000_000_000
    } else {
        0
    };
    if n < 65535 {
        n
    } else {
        65535
    }
}

/// A request from this client in its present transaction: who asks, since when,
/// and what it would like to be told.
pub open spec fn asks(c: ClientV, now: Instant, m: MessageV, kind: u8) -> bool {
    &&& !m.is_reply && m.xid == c.xid && m.chaddr == c.chaddr && m.secs == waited(c, now)
    &&& m.yiaddr.bits == 0 && m.siaddr.bits == 0 && m.giaddr.bits == 0
    &&& packet::lookup(m.options, 53) == Some(seq![kind])
    &&& packet::lookup(m.options, 61) == Some(c.client_id)
    &&& packet::lookup(m.options, 57) == Some(seq![5u8, 220])
    &&& packet::lookup(m.options, 55) == Some(
        seq![1u8, 3, 6, 12, 15, 26, 28, 42, 51, 58, 59, 119, 121],
    )
    &&& packet::lookup(m.options, 12) == (match c.hostname {
        Some(h) => Some(encode_utf8(h)),
        None => None,
    })
}

/// A DISCOVER to everyone, for the remembered address where there is one.
pub open spec fn discovers(c: ClientV, now: Instant, a: ActionV) -> bool {
    a matches ActionV::Send { message, destination } && {
        &&& asks(c, now, message, 1)
        &&& message.ciaddr.bits == 0 && message.broadcast
        &&& destination == Destination::Broadcast
        &&& packet::lookup(message.options, 54) is None
        &&& packet::lookup(message.options, 50) == (match c.reboot_address {
            Some(x) => Some(layout::in_four(x.bits as int)),
            None => None,
        })
    }
}

/// A REQUEST to everyone, for this address and, where one was chosen, of this
/// server.
pub open spec fn requests(
    c: ClientV,
    now: Instant,
    a: ActionV,
    address: Ipv4Addr,
    server: Option<Seq<u8>>,
) -> bool {
    a matches ActionV::Send { message, destination } && {
        &&& asks(c, now, message, 3)
        &&& message.ciaddr.bits == 0 && message.broadcast
        &&& destination == Destination::Broadcast
        &&& packet::lookup(message.options, 50) == Some(layout::in_four(address.bits as int))
        &&& packet::lookup(message.options, 54) == server
    }
}

/// A REQUEST to keep the address that is held: of its server alone, or of
/// everyone.
pub open spec fn renews(c: ClientV, now: Instant, a: ActionV, alone: bool) -> bool {
    c.lease matches Some(l) && a matches ActionV::Send { message, destination } && {
        &&& asks(c, now, message, 3)
        &&& message.ciaddr == l.address && !message.broadcast
        &&& packet::lookup(message.options, 50) is None
        &&& packet::lookup(message.options, 54) is None
        &&& destination == if alone {
            Destination::Unicast { server: l.server, from: l.address }
        } else {
            Destination::Broadcast
        }
    }
}

/// What the options common to all requests hold, with up to two more behind them.
proof fn common_holds(c: ClientV, kind: MessageType, more: OptionsV)
    requires
        forall|i: int|
            0 <= i < more.len() ==> (#[trigger] more[i]).0 == 50 || more[i].0 == 54,
    ensures
        ({
            let o = c.common(kind) + more;
            &&& packet::lookup(o, 53) == Some(seq![kind.spec_code()])
            &&& packet::lookup(o, 61) == Some(c.client_id)
            &&& packet::lookup(o, 57) == Some(seq![5u8, 220])
            &&& packet::lookup(o, 55) == Some(
                seq![1u8, 3, 6, 12, 15, 26, 28, 42, 51, 58, 59, 119, 121],
            )
            &&& packet::lookup(o, 12) == (match c.hostname {
                Some(h) => Some(encode_utf8(h)),
                None => None,
            })
            &&& packet::lookup(o, 50) == packet::lookup(more, 50)
            &&& packet::lookup(o, 54) == packet::lookup(more, 54)
        }),
{
    let head = c.common(kind);
    let o = head + more;
    layout::in_two_is(1500);
    assert(layout::in_two(1500) =~= seq![5u8, 220]);
    assert(o[0] == head[0] && o[1] == head[1] && o[2] == head[2] && o[3] == head[3]);
    reading::the_first_of_a_code_is_found(o, 53, 0);
    reading::the_first_of_a_code_is_found(o, 61, 1);
    reading::the_first_of_a_code_is_found(o, 57, 2);
    reading::the_first_of_a_code_is_found(o, 55, 3);
    if c.hostname is Some {
        assert(o[4] == head[4]);
        reading::the_first_of_a_code_is_found(o, 12, 4);
    } else {
        assert forall|j: int| 0 <= j < o.len() implies (#[trigger] o[j]).0 != 12 by {
            if j >= 4 {
                assert(o[j] == more[j - 4]);
            }
        }
        reading::a_code_that_is_not_there_is_not_found(o, 12);
    }
    passes(head, more, 50);
    passes(head, more, 54);
}

proof fn passes(head: OptionsV, more: OptionsV, code: u8)
    requires
        forall|j: int| 0 <= j < head.len() ==> (#[trigger] head[j]).0 != code,
    ensures
        packet::lookup(head + more, code) == packet::lookup(more, code),
    decreases head.len(),
{
    if head.len() == 0 {
        assert(head + more =~= more);
    } else {
        let t = head.drop_first();
        assert forall|j: int| 0 <= j < t.len() implies (#[trigger] t[j]).0 != code by {
            assert(t[j] == head[j + 1]);
        }
        passes(t, more, code);
        assert((head + more).drop_first() =~= t + more);
        assert((head + more)[0] == head[0]);
    }
}

proof fn none_more(c: ClientV, kind: MessageType)
    ensures
        c.common(kind) + Seq::<(u8, Seq<u8>)>::empty() == c.common(kind),
        packet::lookup(Seq::<(u8, Seq<u8>)>::empty(), 50) is None,
        packet::lookup(Seq::<(u8, Seq<u8>)>::empty(), 54) is None,
{
    assert(c.common(kind) + Seq::<(u8, Seq<u8>)>::empty() =~= c.common(kind));
}

proof fn discover_goes_out(c: ClientV, now: Instant)
    ensures
        c.send_discover(now).1.len() == 1,
        discovers(c, now, c.send_discover(now).1[0]),
        discovers(c.send_discover(now).0, now, c.send_discover(now).1[0]),
{
    match c.reboot_address {
        Some(a) => {
            let more = seq![(50u8, a.octs())];
            assert(c.common(MessageType::Discover).push((50u8, a.octs())) =~= c.common(
                MessageType::Discover,
            ) + more);
            layout::in_four_is(a.bits as nat);
            common_holds(c, MessageType::Discover, more);
            reading::the_first_of_a_code_is_found(more, 50, 0);
            reading::a_code_that_is_not_there_is_not_found(more, 54);
        },
        None => {
            none_more(c, MessageType::Discover);
            common_holds(c, MessageType::Discover, Seq::empty());
        },
    }
}

proof fn reboot_request_goes_out(c: ClientV, now: Instant, a: Ipv4Addr)
    requires
        c.reboot_address == Some(a),
    ensures
        c.send_reboot_request(now).1.len() == 1,
        requests(c.send_reboot_request(now).0, now, c.send_reboot_request(now).1[0], a, None),
{
    let more = seq![(50u8, a.octs())];
    assert(c.common(MessageType::Request).push((50u8, a.octs())) =~= c.common(MessageType::Request)
        + more);
    layout::in_four_is(a.bits as nat);
    common_holds(c, MessageType::Request, more);
    reading::the_first_of_a_code_is_found(more, 50, 0);
    reading::a_code_that_is_not_there_is_not_found(more, 54);
}

proof fn offer_request_goes_out(c: ClientV, now: Instant, o: MessageV)
    requires
        c.offer == Some(o),
    ensures
        c.send_request_for_offer(now).1.len() == 1,
        requests(
            c.send_request_for_offer(now).0,
            now,
            c.send_request_for_offer(now).1[0],
            o.yiaddr,
            packet::lookup(o.options, 54),
        ),
{
    let common = c.common(MessageType::Request);
    layout::in_four_is(o.yiaddr.bits as nat);
    let first = (50u8, o.yiaddr.octs());
    match packet::lookup(o.options, 54) {
        Some(server) => {
            let more = seq![first, (54u8, server)];
            assert(common.push(first).push((54u8, server)) =~= common + more);
            common_holds(c, MessageType::Request, more);
            reading::the_first_of_a_code_is_found(more, 50, 0);
            reading::the_first_of_a_code_is_found(more, 54, 1);
        },
        None => {
            let more = seq![first];
            assert(common.push(first) =~= common + more);
            common_holds(c, MessageType::Request, more);
            reading::the_first_of_a_code_is_found(more, 50, 0);
            reading::a_code_that_is_not_there_is_not_found(more, 54);
        },
    }
}

proof fn renewal_goes_out(c: ClientV, now: Instant)
    requires
        c.lease is Some,
        c.bound_at is Some,
    ensures
        c.send_renewal(now).1.len() == 1,
        renews(c.send_renewal(now).0, now, c.send_renewal(now).1[0], c.state is Renewing),
{
    none_more(c, MessageType::Request);
    common_holds(c, MessageType::Request, Seq::empty());
}

/// The client begins to discover: a transaction of its own, nothing tried yet, no
/// offer, and a DISCOVER that is sent again in three to five seconds.
pub open spec fn begins(c: ClientV, now: Instant, a: ActionV) -> bool {
    &&& c.state is Selecting && c.offer is None && c.attempts == 0 && !c.no_offer_reported
    &&& c.lease is None && c.bound_at is None
    &&& c.retransmit_at matches Some(at) && now.nanos + 3_000_000_000 <= at.nanos < now.nanos
        + 5_000_000_000
    &&& c.backoff.nanos == 8_000_000_000
    &&& discovers(c, now, a)
}

proof fn selecting_begins(c: ClientV, now: Instant)
    requires
        c.lease is None,
        c.bound_at is None,
        now.nanos <= clock::HORIZON,
    ensures
        c.enter_selecting(now).1.len() == 1,
        begins(c.enter_selecting(now).0, now, c.enter_selecting(now).1[0]),
        c.enter_selecting(now).0.reboot_address == c.reboot_address,
        c.enter_selecting(now).0.started == c.started,
{
    let d = ClientV {
        backoff: (Duration { nanos: client::FIRST_BACKOFF }),
        offer: None,
        no_offer_reported: false,
        ..c.fresh(State::Selecting)
    };
    discover_goes_out(d, now);
}

// ---- starting and stopping --------------------------------------------------

/// A client that starts forgets what it held and counts the time from here. With
/// an address to go back to it asks for that one, of whichever server; else it
/// discovers.
pub proof fn a_client_starts(c: ClientV, now: Instant, previous: Option<Ipv4Addr>)
    requires
        now.nanos <= clock::HORIZON,
    ensures
        ({
            let (d, sent) = c.start(now, previous);
            &&& d.started == now && d.lease is None && d.bound_at is None && d.offer is None
            &&& sent.len() == 1
            &&& match previous {
                Some(a) => {
                    &&& d.state is Rebooting && d.reboot_address == Some(a) && d.attempts == 0
                    &&& requests(d, now, sent[0], a, None)
                    &&& d.retransmit_at matches Some(at) && now.nanos + 3_000_000_000 <= at.nanos
                        < now.nanos + 5_000_000_000
                },
                None => begins(d, now, sent[0]) && d.reboot_address == c.reboot_address,
            }
        }),
{
    let s = ClientV {
        started: now,
        lease: None,
        bound_at: None,
        offer: None,
        no_offer_reported: false,
        ..c
    };
    match previous {
        Some(a) => {
            let r = ClientV { reboot_address: Some(a), ..s };
            let f = ClientV {
                backoff: (Duration { nanos: client::FIRST_BACKOFF }),
                ..r.fresh(State::Rebooting)
            };
            reboot_request_goes_out(f, now, a);
        },
        None => {
            selecting_begins(s, now);
        },
    }
}

/// A client that lets go holds nothing and waits for nothing. It tells its server
/// so where it held a lease, and nobody else.
pub proof fn a_client_lets_go(c: ClientV, now: Instant)
    requires
        c.wf(),
    ensures
        ({
            let (d, sent) = c.release(now);
            &&& d.state is Init && d.lease is None && d.bound_at is None && d.retransmit_at is None
            &&& match c.lease {
                Some(l) => sent.len() == 1 && (sent[0] matches ActionV::Send {
                    message,
                    destination,
                } && {
                    &&& !message.is_reply && message.xid == c.xid && message.chaddr == c.chaddr
                    &&& message.ciaddr == l.address && message.yiaddr.bits == 0
                    &&& packet::lookup(message.options, 53) == Some(seq![7u8])
                    &&& packet::lookup(message.options, 54) == Some(
                        layout::in_four(l.server.bits as int),
                    )
                    &&& packet::lookup(message.options, 61) == Some(c.client_id)
                    &&& destination == Destination::Unicast { server: l.server, from: l.address }
                }),
                None => sent.len() == 0,
            }
        }),
{
    if let Some(l) = c.lease {
        layout::in_four_is(l.server.bits as nat);
        let o = seq![(53u8, seq![7u8]), (54u8, l.server.octs()), (61u8, c.client_id)];
        reading::the_first_of_a_code_is_found(o, 53, 0);
        reading::the_first_of_a_code_is_found(o, 54, 1);
        reading::the_first_of_a_code_is_found(o, 61, 2);
    }
}

// ---- what is heard ----------------------------------------------------------

/// Whether a message answers this client's present transaction.
pub open spec fn for_us(c: ClientV, m: MessageV) -> bool {
    m.is_reply && m.xid == c.xid && m.chaddr == c.chaddr
}

/// Whether a message comes from the server that was chosen: that of the lease,
/// else that of the offer; any, where none was.
pub open spec fn from_the_chosen(c: ClientV, m: MessageV) -> bool {
    match (c.lease, c.offer) {
        (Some(l), _) => packet::option_ipv4(m.options, 54) == Some(l.server),
        (None, Some(o)) => packet::option_ipv4(o.options, 54) is Some ==> packet::option_ipv4(
            m.options,
            54,
        ) == packet::option_ipv4(o.options, 54),
        (None, None) => true,
    }
}

/// Whether the client is waiting for a yes or a no.
pub open spec fn waits_for_word(s: State) -> bool {
    s is Requesting || s is Rebooting || s is Renewing || s is Rebinding
}

/// An ACK that holds a lease, from the chosen server, binds a client that waits
/// for one, in whichever of the four states; it is counted from now, and its
/// address is the one to go back to.
pub proof fn an_ack_binds(c: ClientV, now: Instant, m: MessageV, l: lease::LeaseV)
    requires
        for_us(c, m),
        from_the_chosen(c, m),
        packet::option_kind(m.options) == Some(MessageType::Ack),
        lease::lease_in(m) == Some(l),
        waits_for_word(c.state),
    ensures
        ({
            let (d, actions) = c.receive(now, m);
            &&& d.state is Bound && d.lease == Some(l) && d.bound_at == Some(now)
            &&& d.retransmit_at is None && d.reboot_address == Some(l.address)
            &&& d.xid == c.xid && d.started == c.started && d.offer == c.offer
            &&& actions == seq![ActionV::Bound(l)]
        }),
{
}

/// Whatever is not for us, is not from the chosen server, is of no use in the
/// state or holds no lease changes nothing.
pub proof fn the_rest_changes_nothing(c: ClientV, now: Instant, m: MessageV)
    requires
        ({
            ||| !for_us(c, m)
            ||| packet::option_kind(m.options) is None
            ||| packet::option_kind(m.options) matches Some(k) && !(k is Offer) && !(k is Ack)
                && !(k is Nak)
            ||| packet::option_kind(m.options) == Some(MessageType::Offer) && (!(
            c.state is Selecting) || m.yiaddr.bits == 0 || packet::option_ipv4(m.options, 54)
                is None)
            ||| packet::option_kind(m.options) == Some(MessageType::Ack) && (!waits_for_word(
                c.state,
            ) || !from_the_chosen(c, m) || lease::lease_in(m) is None)
            ||| packet::option_kind(m.options) == Some(MessageType::Nak) && (!waits_for_word(
                c.state,
            ) || !from_the_chosen(c, m))
        }),
    ensures
        c.receive(now, m) == (c, Seq::<ActionV>::empty()),
{
}

/// While discovering, an OFFER of an address by a server that names itself is
/// taken up: that address is requested of that server, in the same transaction.
pub proof fn an_offer_is_taken_up(c: ClientV, now: Instant, m: MessageV)
    requires
        for_us(c, m),
        now.nanos <= clock::HORIZON,
        c.state is Selecting,
        packet::option_kind(m.options) == Some(MessageType::Offer),
        m.yiaddr.bits != 0,
        packet::option_ipv4(m.options, 54) is Some,
    ensures
        ({
            let (d, sent) = c.receive(now, m);
            &&& d.state is Requesting && d.offer == Some(m) && d.attempts == 0
            &&& d.xid == c.xid && d.lease == c.lease && d.reboot_address == c.reboot_address
            &&& d.retransmit_at matches Some(at) && now.nanos + 3_000_000_000 <= at.nanos
                < now.nanos + 5_000_000_000
            &&& sent.len() == 1
            &&& requests(d, now, sent[0], m.yiaddr, packet::lookup(m.options, 54))
        }),
{
    let r = ClientV {
        state: State::Requesting,
        attempts: 0,
        backoff: (Duration { nanos: client::FIRST_BACKOFF }),
        offer: Some(m),
        ..c
    };
    offer_request_goes_out(r, now, m);
}

/// A NAK from the chosen server sends a client that waits for word back to
/// discovering, with no address to go back to. One that held a lease reports it
/// lost first, and holds it no more.
pub proof fn a_nak_starts_over(c: ClientV, now: Instant, m: MessageV)
    requires
        c.wf(),
        for_us(c, m),
        now.nanos <= clock::HORIZON,
        from_the_chosen(c, m),
        packet::option_kind(m.options) == Some(MessageType::Nak),
        waits_for_word(c.state),
    ensures
        ({
            let (d, actions) = c.receive(now, m);
            let lost = c.state is Renewing || c.state is Rebinding;
            &&& d.reboot_address is None
            &&& actions.len() == if lost { 2int } else { 1 }
            &&& lost ==> actions[0] == ActionV::Lost
            &&& begins(d, now, actions.last())
        }),
{
    if c.lease is None {
        selecting_begins(ClientV { reboot_address: None, offer: None, ..c }, now);
    }
    selecting_begins(
        ClientV { lease: None, bound_at: None, reboot_address: None, ..c },
        now,
    );
}

// ---- time -------------------------------------------------------------------

/// A number of seconds after the lease was bound.
pub open spec fn since_bound(c: ClientV, seconds: u32) -> int {
    c.bound_at->0.nanos + seconds * 1_000_000_000
}

proof fn lease_times(c: ClientV)
    requires
        c.wf(),
        c.lease is Some,
    ensures
        since_bound(c, c.lease->0.t1) < since_bound(c, c.lease->0.t2),
        since_bound(c, c.lease->0.t2) < since_bound(c, c.lease->0.lease_time),
        since_bound(c, c.lease->0.lease_time) < 0x1_0000_0000_0000_0000,
{
}

/// A bound client does nothing until it is time to renew; then it asks its server
/// alone, in a new transaction, and keeps what it holds.
pub proof fn a_bound_client_renews_in_time(c: ClientV, now: Instant)
    requires
        c.wf(),
        c.state is Bound,
        now.nanos <= clock::HORIZON,
    ensures
        c.lease matches Some(l) && {
            let (d, sent) = c.tick(now);
            if now.nanos < since_bound(c, l.t1) {
                d == c && sent.len() == 0
            } else {
                &&& d.state is Renewing && d.lease == c.lease && d.bound_at == c.bound_at
                &&& sent.len() == 1 && renews(d, now, sent[0], true)
                &&& asked_again(d, now, l.t2)
            }
        },
{
    lease_times(c);
    let f = c.fresh(State::Renewing);
    renewal_goes_out(f, now);
    let first = c.enter_renewing(now);
    assert(first.0.retransmit_if_due(now) == (first.0, Seq::<ActionV>::empty()));
    assert(first.1 + Seq::<ActionV>::empty() =~= first.1);
}

/// When a renewal is sent again: after half the time that is left until this
/// boundary, and no sooner than a minute.
pub open spec fn asked_again(c: ClientV, now: Instant, seconds: u32) -> bool {
    let left = since_bound(c, seconds) - now.nanos;
    c.retransmit_at matches Some(at) && at.nanos == now.nanos + if left / 2 > 60_000_000_000 {
        left / 2
    } else {
        60_000_000_000
    }
}

/// A renewing client asks its server again until it is time to rebind; then it
/// asks everyone, in a new transaction, and keeps what it holds.
pub proof fn a_renewing_client_rebinds_in_time(c: ClientV, now: Instant)
    requires
        c.wf(),
        c.state is Renewing,
        now.nanos <= clock::HORIZON,
    ensures
        c.lease matches Some(l) && {
            let (d, sent) = c.tick(now);
            if now.nanos < since_bound(c, l.t2) {
                if now.nanos < c.retransmit_at->0.nanos {
                    d == c && sent.len() == 0
                } else {
                    &&& d == ClientV { retransmit_at: d.retransmit_at, ..c }
                    &&& sent.len() == 1 && renews(d, now, sent[0], true)
                    &&& asked_again(d, now, l.t2)
                }
            } else {
                &&& d.state is Rebinding && d.lease == c.lease && d.bound_at == c.bound_at
                &&& sent.len() == 1 && renews(d, now, sent[0], false)
                &&& asked_again(d, now, l.lease_time)
            }
        },
{
    lease_times(c);
    renewal_goes_out(c, now);
    let f = c.fresh(State::Rebinding);
    renewal_goes_out(f, now);
    let first = c.enter_rebinding(now);
    assert(first.0.retransmit_if_due(now) == (first.0, Seq::<ActionV>::empty()));
    assert(first.1 + Seq::<ActionV>::empty() =~= first.1);
}

/// A rebinding client asks everyone again until the lease is over; then it
/// reports it lost, holds it no more, and discovers.
pub proof fn a_rebinding_client_loses_its_lease_in_time(c: ClientV, now: Instant)
    requires
        c.wf(),
        c.state is Rebinding,
        now.nanos <= clock::HORIZON,
    ensures
        c.lease matches Some(l) && {
            let (d, actions) = c.tick(now);
            if now.nanos < since_bound(c, l.lease_time) {
                if now.nanos < c.retransmit_at->0.nanos {
                    d == c && actions.len() == 0
                } else {
                    &&& d == ClientV { retransmit_at: d.retransmit_at, ..c }
                    &&& actions.len() == 1 && renews(d, now, actions[0], false)
                    &&& asked_again(d, now, l.lease_time)
                }
            } else {
                &&& actions.len() == 2 && actions[0] == ActionV::Lost
                &&& begins(d, now, actions[1])
                &&& d.reboot_address == c.reboot_address
            }
        },
{
    lease_times(c);
    renewal_goes_out(c, now);
    selecting_begins(ClientV { lease: None, bound_at: None, ..c }, now);
}

/// A client without a lease says again what went unanswered, when that is due and
/// not before: a DISCOVER for ever, the third unanswered one reported; a REQUEST
/// for an offer four times in all, one for a remembered address twice, and then it
/// discovers, the remembered address forgotten.
pub proof fn what_goes_unanswered_is_said_again(c: ClientV, now: Instant)
    requires
        c.wf(),
        c.lease is None,
        now.nanos <= clock::HORIZON,
    ensures
        ({
            let (d, actions) = c.tick(now);
            if c.state is Init || now.nanos < c.retransmit_at->0.nanos {
                d == c && actions.len() == 0
            } else {
                &&& c.state is Selecting ==> {
                    &&& d.state is Selecting && d.xid == c.xid
                    &&& actions.len() == if c.attempts == 2 { 2int } else { 1 }
                    &&& c.attempts == 2 ==> actions[0] == ActionV::NoOffer
                    &&& discovers(d, now, actions.last())
                    &&& c.attempts < u32::MAX ==> d.attempts == c.attempts + 1
                }
                &&& c.state is Requesting && c.attempts < 3 ==> {
                    &&& d.state is Requesting && d.xid == c.xid && d.offer == c.offer
                    &&& d.attempts == c.attempts + 1
                    &&& actions.len() == 1
                    &&& requests(
                        d,
                        now,
                        actions[0],
                        c.offer->0.yiaddr,
                        packet::lookup(c.offer->0.options, 54),
                    )
                }
                &&& c.state is Requesting && c.attempts >= 3 ==> actions.len() == 1 && begins(
                    d,
                    now,
                    actions[0],
                ) && d.reboot_address == c.reboot_address
                &&& c.state is Rebooting && c.attempts < 1 ==> {
                    &&& d.state is Rebooting && d.xid == c.xid && d.attempts == c.attempts + 1
                    &&& d.reboot_address == c.reboot_address
                    &&& actions.len() == 1
                    &&& requests(d, now, actions[0], c.reboot_address->0, None)
                }
                &&& c.state is Rebooting && c.attempts >= 1 ==> actions.len() == 1 && begins(
                    d,
                    now,
                    actions[0],
                ) && d.reboot_address is None
            }
        }),
{
    let t = c.tried();
    discover_goes_out(t, now);
    discover_goes_out(ClientV { no_offer_reported: true, ..t }, now);
    selecting_begins(t, now);
    selecting_begins(ClientV { reboot_address: None, ..t }, now);
    if c.state is Requesting {
        offer_request_goes_out(t, now, c.offer->0);
    }
    if c.state is Rebooting {
        reboot_request_goes_out(t, now, c.reboot_address->0);
    }
}

/// On command a client that holds a lease renews it at once, of its server alone;
/// one that holds none does nothing.
pub proof fn a_renewal_on_command(c: ClientV, now: Instant)
    requires
        c.wf(),
        now.nanos <= clock::HORIZON,
    ensures
        ({
            let (d, sent) = c.renew_now(now);
            match c.lease {
                Some(l) => {
                    &&& d.state is Renewing && d.lease == c.lease && d.bound_at == c.bound_at
                    &&& sent.len() == 1 && renews(d, now, sent[0], true)
                },
                None => d == c && sent.len() == 0,
            }
        }),
{
    if c.lease is Some {
        renewal_goes_out(c.fresh(State::Renewing), now);
    }
}

/// The next deadline is the sooner of what is to be said again and of what the
/// lease brings: the time to renew while bound, to rebind while renewing, its end
/// while rebinding.
pub proof fn the_next_deadline_is_the_soonest(c: ClientV)
    requires
        c.wf(),
    ensures
        match (c.next_deadline(), c.lease) {
            (None, _) => c.state is Init,
            (Some(at), None) => c.retransmit_at == Some(at),
            (Some(at), Some(l)) => {
                let turn = since_bound(
                    c,
                    if c.state is Bound {
                        l.t1
                    } else if c.state is Renewing {
                        l.t2
                    } else {
                        l.lease_time
                    },
                );
                match c.retransmit_at {
                    None => at.nanos == turn,
                    Some(r) => at.nanos == if r.nanos <= turn {
                        r.nanos as int
                    } else {
                        turn
                    },
                }
            },
        },
{
    if c.lease is Some {
        lease_times(c);
    }
}

/// What is left of a lease is told in whole seconds, none once it is over.
pub proof fn what_is_left_is_told_in_whole_seconds(c: ClientV, now: Instant)
    requires
        c.wf(),
    ensures
        match (c.expires_in(now), c.lease) {
            (Some(n), Some(l)) => if now.nanos >= since_bound(c, l.lease_time) {
                n == 0
            } else {
                n == (since_bound(c, l.lease_time) - now.nanos) / 1_000_000_000
            },
            (None, None) => true,
            _ => false,
        },
{
    if c.lease is Some {
        lease_times(c);
    }
}

} // verus!
