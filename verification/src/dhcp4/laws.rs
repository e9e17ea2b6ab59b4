//! What the DHCPv4 client keeps to, whatever the network does.

use vstd::prelude::*;
use crate::addr::Ipv4Addr;
use crate::clock;
use crate::clock::{Duration, Instant};
use super::client;
use super::client::{ActionV, ClientV, State, Step};
use super::packet;
use super::packet::option;
use super::packet::lease;
use super::packet::{MessageType, MessageV};

verus! {

/// A reply to somebody else, or to an older transaction, changes nothing.
pub proof fn strangers_are_ignored(c: ClientV, now: Instant, m: MessageV)
    requires
        !c.addressed(m),
    ensures
        c.receive(now, m) == (c, Seq::<ActionV>::empty()),
{
}

/// No reply at all moves a bound client.
pub proof fn a_bound_client_stays(c: ClientV, now: Instant, m: MessageV)
    requires
        c.state is Bound,
    ensures
        c.receive(now, m) == (c, Seq::<ActionV>::empty()),
{
}

/// Once a server has been chosen, an ACK or NAK from any other changes
/// nothing.
pub proof fn only_the_chosen_server_decides(c: ClientV, now: Instant, m: MessageV, s: Ipv4Addr)
    requires
        c.chosen() == Some(s),
        packet::option_kind(m.options) == Some(MessageType::Ack) || packet::option_kind(m.options)
            == Some(MessageType::Nak),
        packet::option_ipv4(m.options, option::SERVER_ID) != Some(s),
    ensures
        c.receive(now, m) == (c, Seq::<ActionV>::empty()),
{
}

/// While an offer is being requested, another offer changes nothing.
pub proof fn the_first_offer_stands(c: ClientV, now: Instant, m: MessageV)
    requires
        !(c.state is Selecting),
        packet::option_kind(m.options) == Some(MessageType::Offer),
    ensures
        c.receive(now, m) == (c, Seq::<ActionV>::empty()),
{
}

/// A message that this client may send: from its own hardware address, with a
/// message type first, and with codes that the wire can carry.
pub open spec fn proper(c: ClientV, a: ActionV) -> bool {
    a matches ActionV::Send { message, .. } ==> {
        &&& message.chaddr == c.chaddr
        &&& !message.is_reply
        &&& packet::option_kind(message.options) is Some
        &&& packet::plain_codes(message.options)
        &&& (c.client_id.len() <= 255 && (c.hostname matches Some(h) ==> vstd::utf8::encode_utf8(
            h,
        ).len() <= 255) && (c.offer matches Some(o) ==> packet::short_values(o.options))
            ==> packet::short_values(message.options))
    }
}

/// Every action of a step is proper.
pub open spec fn all_proper(c: ClientV, s: Step) -> bool {
    forall|i: int| 0 <= i < s.1.len() ==> proper(c, #[trigger] s.1[i])
}

proof fn octs_len(a: Ipv4Addr)
    ensures
        a.octs().len() == 4,
{
    crate::bytes::be_bytes_len(a.bits as nat, 4);
}

proof fn common_is_proper(c: ClientV, kind: MessageType)
    ensures
        packet::lookup(c.common(kind), option::MESSAGE_TYPE) == Some(seq![kind.spec_code()]),
        c.common(kind).len() > 0,
        c.common(kind)[0] == (option::MESSAGE_TYPE, seq![kind.spec_code()]),
        packet::plain_codes(c.common(kind)),
        c.client_id.len() <= 255 && (c.hostname matches Some(h) ==> vstd::utf8::encode_utf8(
            h,
        ).len() <= 255) ==> packet::short_values(c.common(kind)),
{
    crate::bytes::be_bytes_len(1500, 2);
}

proof fn lookup_bounded(o: packet::OptionsV, code: u8)
    ensures
        packet::short_values(o) ==> (packet::lookup(o, code) matches Some(v) ==> v.len() <= 255),
    decreases o.len(),
{
    if o.len() > 0 {
        if packet::short_values(o) {
            assert(o[0].1.len() <= 255);
            assert forall|i: int| 0 <= i < o.drop_first().len() implies (#[trigger] o.drop_first()[i]).1.len()
                <= 255 by {
                assert(o[i + 1].1.len() <= 255);
            }
        }
        lookup_bounded(o.drop_first(), code);
    }
}

proof fn discover_is_proper(c: ClientV, now: Instant)
    ensures
        all_proper(c, c.send_discover(now)),
        c.send_discover(now).1.len() == 1,
        c.send_discover(now).1[0] is Send,
{
    common_is_proper(c, MessageType::Discover);
    if c.reboot_address is Some {
        octs_len(c.reboot_address->0);
    }
    packet::kind_of_code(MessageType::Discover);
}

proof fn selecting_is_proper(c: ClientV, now: Instant)
    ensures
        all_proper(c, c.enter_selecting(now)),
        c.enter_selecting(now).1.len() == 1,
        c.enter_selecting(now).1[0] is Send,
{
    let d = ClientV {
        backoff: (Duration { nanos: client::FIRST_BACKOFF }),
        offer: None,
        no_offer_reported: false,
        ..c.fresh(State::Selecting)
    };
    discover_is_proper(d, now);
}

proof fn request_is_proper(c: ClientV, now: Instant)
    ensures
        all_proper(c, c.send_request_for_offer(now)),
        forall|i: int|
            0 <= i < c.send_request_for_offer(now).1.len() ==> (
            #[trigger] c.send_request_for_offer(now).1[i]) is Send,
{
    common_is_proper(c, MessageType::Request);
    packet::kind_of_code(MessageType::Request);
    match c.offer {
        Some(o) => {
            octs_len(o.yiaddr);
            lookup_bounded(o.options, option::SERVER_ID);
        },
        None => selecting_is_proper(c, now),
    }
}

proof fn reboot_is_proper(c: ClientV, now: Instant)
    ensures
        all_proper(c, c.send_reboot_request(now)),
        forall|i: int|
            0 <= i < c.send_reboot_request(now).1.len() ==> (
            #[trigger] c.send_reboot_request(now).1[i]) is Send,
{
    common_is_proper(c, MessageType::Request);
    packet::kind_of_code(MessageType::Request);
    match c.reboot_address {
        Some(a) => octs_len(a),
        None => selecting_is_proper(c, now),
    }
}

proof fn renewal_is_proper(c: ClientV, now: Instant)
    ensures
        all_proper(c, c.send_renewal(now)),
{
    common_is_proper(c, MessageType::Request);
    packet::kind_of_code(MessageType::Request);
}

proof fn retransmission_is_proper(c: ClientV, now: Instant)
    ensures
        all_proper(c, c.retransmit_if_due(now)),
{
    let t = c.tried();
    discover_is_proper(ClientV { no_offer_reported: true, ..t }, now);
    discover_is_proper(t, now);
    selecting_is_proper(t, now);
    selecting_is_proper(ClientV { reboot_address: None, ..t }, now);
    request_is_proper(t, now);
    reboot_is_proper(t, now);
    renewal_is_proper(c, now);
}

/// Whatever is sent, whenever, carries a message type and this client's
/// hardware address, and can be put on the wire and read back.
pub proof fn what_is_sent_is_proper(
    c: ClientV,
    now: Instant,
    previous: Option<Ipv4Addr>,
    m: MessageV,
)
    ensures
        all_proper(c, c.start(now, previous)),
        all_proper(c, c.release(now)),
        all_proper(c, c.renew_now(now)),
        all_proper(c, c.tick(now)),
        all_proper(ClientV { offer: Some(m), ..c }, c.receive(now, m)),
{
    let s = ClientV {
        started: now,
        lease: None,
        bound_at: None,
        offer: None,
        no_offer_reported: false,
        ..c
    };
    selecting_is_proper(s, now);
    if previous is Some {
        let r = ClientV { reboot_address: previous, ..s };
        let f = ClientV {
            backoff: (Duration { nanos: client::FIRST_BACKOFF }),
            ..r.fresh(State::Rebooting)
        };
        reboot_is_proper(f, now);
    }
    packet::kind_of_code(MessageType::Release);
    if c.lease is Some {
        octs_len(c.lease->0.server);
    }
    renewal_is_proper(c.fresh(State::Renewing), now);
    renewal_is_proper(c.fresh(State::Rebinding), now);
    retransmission_is_proper(c, now);
    retransmission_is_proper(c.enter_renewing(now).0, now);
    retransmission_is_proper(c.enter_rebinding(now).0, now);
    selecting_is_proper(ClientV { lease: None, bound_at: None, ..c }, now);
    let o = ClientV { offer: Some(m), ..c };
    request_is_proper(
        ClientV {
            state: State::Requesting,
            attempts: 0,
            backoff: (Duration { nanos: client::FIRST_BACKOFF }),
            ..o
        },
        now,
    );
    selecting_is_proper(ClientV { reboot_address: None, offer: None, ..c }, now);
    selecting_is_proper(
        ClientV { lease: None, bound_at: None, reboot_address: None, ..c },
        now,
    );
}

/// Whether a step leaves alone what was reported, or begins another cycle: the
/// client discovers, has tried nothing yet and has reported nothing.
pub open spec fn keeps_or_begins(before: ClientV, after: ClientV) -> bool {
    ||| after.no_offer_reported == before.no_offer_reported && (before.state is Selecting
        || !(after.state is Selecting))
    ||| after.state is Selecting && after.attempts == 0 && !after.no_offer_reported
}

/// Unanswered discovery is reported exactly once between two entries into
/// Selecting, however the client came back to it: with the third discover that
/// nobody answered, and by nothing else. From then on it has been reported,
/// until the client begins to discover anew; every way into Selecting begins
/// with nothing reported.
pub proof fn no_offer_is_reported_once(
    c: ClientV,
    now: Instant,
    previous: Option<Ipv4Addr>,
    m: MessageV,
)
    requires
        c.wf(),
    ensures
        c.tick(now).1.contains(ActionV::NoOffer) <==> c.state is Selecting && c.attempts + 1
            == client::DISCOVERS_BEFORE_NO_OFFER && now.nanos >= c.retransmit_at->0.nanos,
        c.tick(now).1.contains(ActionV::NoOffer) ==> !c.no_offer_reported && c.tick(
            now,
        ).0.no_offer_reported && c.tick(now).0.state is Selecting,
        !c.start(now, previous).1.contains(ActionV::NoOffer),
        !c.receive(now, m).1.contains(ActionV::NoOffer),
        !c.renew_now(now).1.contains(ActionV::NoOffer),
        !c.release(now).1.contains(ActionV::NoOffer),
        !c.start(now, previous).0.no_offer_reported,
        !c.tick(now).1.contains(ActionV::NoOffer) ==> keeps_or_begins(c, c.tick(now).0),
        keeps_or_begins(c, c.receive(now, m).0),
        keeps_or_begins(c, c.renew_now(now).0),
        keeps_or_begins(c, c.release(now).0),
{
    let s = ClientV {
        started: now,
        lease: None,
        bound_at: None,
        offer: None,
        no_offer_reported: false,
        ..c
    };
    selecting_is_proper(s, now);
    if previous is Some {
        let r = ClientV { reboot_address: previous, ..s };
        let f = ClientV {
            backoff: (Duration { nanos: client::FIRST_BACKOFF }),
            ..r.fresh(State::Rebooting)
        };
        reboot_is_proper(f, now);
    }
    let reported = ClientV { no_offer_reported: true, ..c.tried() }.send_discover(now);
    discover_is_proper(ClientV { no_offer_reported: true, ..c.tried() }, now);
    assert((seq![ActionV::NoOffer] + reported.1)[0] == ActionV::NoOffer);
    let t = c.tried();
    discover_is_proper(t, now);
    selecting_is_proper(t, now);
    selecting_is_proper(ClientV { reboot_address: None, ..t }, now);
    request_is_proper(t, now);
    reboot_is_proper(t, now);
    selecting_is_proper(ClientV { lease: None, bound_at: None, ..c }, now);
    selecting_is_proper(ClientV { reboot_address: None, offer: None, ..c }, now);
    selecting_is_proper(
        ClientV { lease: None, bound_at: None, reboot_address: None, ..c },
        now,
    );
    request_is_proper(
        ClientV {
            state: State::Requesting,
            attempts: 0,
            backoff: (Duration { nanos: client::FIRST_BACKOFF }),
            offer: Some(m),
            ..c
        },
        now,
    );
}

/// A retransmission is scheduled a second either way of the current backoff,
/// which then doubles up to its ceiling.
pub proof fn backoff_is_jittered_and_doubles(c: ClientV, now: Instant)
    requires
        client::FIRST_BACKOFF <= c.backoff.nanos <= client::MAX_BACKOFF,
        now.nanos <= clock::HORIZON,
    ensures
        c.scheduled(now).retransmit_at matches Some(at) && now.nanos + c.backoff.nanos
            - 1_000_000_000 <= at.nanos < now.nanos + c.backoff.nanos + 1_000_000_000,
        c.scheduled(now).backoff.nanos == if 2 * c.backoff.nanos < client::MAX_BACKOFF {
            2 * c.backoff.nanos
        } else {
            client::MAX_BACKOFF as int
        },
{
}

/// A deadline set by a step lies after the moment it was set, and while no
/// address is held at most sixty-five seconds after it: the client never goes
/// quiet.
pub open spec fn timely(before: ClientV, after: ClientV, now: Instant) -> bool {
    after.retransmit_at matches Some(at) ==> {
        ||| after.retransmit_at == before.retransmit_at
        ||| at.nanos > now.nanos && (!after.state.leased() ==> at.nanos <= now.nanos
            + 65_000_000_000)
    }
}

/// Every step sets its deadlines in time.
pub proof fn deadlines_are_timely(
    c: ClientV,
    now: Instant,
    previous: Option<Ipv4Addr>,
    m: MessageV,
)
    requires
        c.wf(),
        now.nanos <= clock::HORIZON,
    ensures
        timely(c, c.start(now, previous).0, now),
        timely(c, c.release(now).0, now),
        timely(c, c.renew_now(now).0, now),
        timely(c, c.tick(now).0, now),
        timely(c, c.receive(now, m).0, now),
{
}

/// A lease just obtained is renewed at T1, and every boundary of it comes
/// before its expiry.
pub proof fn a_fresh_lease_is_renewed_at_t1(c: ClientV, now: Instant, m: MessageV)
    requires
        c.wf(),
        now.nanos <= clock::HORIZON,
        !(c.state is Bound),
        c.receive(now, m).0.state is Bound,
    ensures
        c.receive(now, m).0.lease == lease::lease_in(m),
        lease::lease_in(m) matches Some(l) && c.receive(now, m).0.next_deadline() matches Some(at)
            && at.nanos == now.nanos + l.t1 * 1_000_000_000 && at.nanos < now.nanos + l.lease_time
            * 1_000_000_000,
{
    lease::leases_are_sound(m);
}

/// What is left of a lease is at most the whole of it, and never grows.
pub proof fn a_lease_runs_down(c: ClientV, now: Instant, later: Instant)
    requires
        c.wf(),
        c.bound_at matches Some(t) && t.nanos <= now.nanos <= later.nanos,
    ensures
        match (c.expires_in(now), c.expires_in(later), c.lease) {
            (Some(a), Some(b), Some(l)) => b <= a <= l.lease_time,
            _ => false,
        },
{
}

} // verus!
