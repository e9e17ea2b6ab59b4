//! What a DHCPv6 exchange sends, and what it believes.

use vstd::prelude::*;
use crate::clock;
use crate::clock::Instant;
use crate::layout;
use crate::lists;
use crate::rng;
use crate::dhcp6;
use super::{ActionV, ClientV, InfoV};

verus! {

// ---- options ----------------------------------------------------------------

/// An option as it is sent: its code and its length in two bytes each, and what it
/// holds.
pub open spec fn sent(code: u16, data: Seq<u8>) -> Seq<u8> {
    layout::in_two(code as int) + layout::in_two(data.len() as int) + data
}

proof fn sent_is(code: u16, data: Seq<u8>)
    ensures
        dhcp6::option_bytes(code, data) == sent(code, data),
{
    layout::in_two_is(code as nat);
    layout::in_two_is(data.len());
}

/// Options are read as they are sent, one after another.
pub proof fn options_are_read_as_sent(code: u16, data: Seq<u8>, rest: Seq<u8>)
    requires
        data.len() < 0x1_0000,
    ensures
        dhcp6::options_in(sent(code, data) + rest) == seq![(code, data)] + dhcp6::options_in(rest),
{
    let b = sent(code, data) + rest;
    layout::two_is(b, 0);
    layout::two_is(b, 2);
    assert(b[0] == layout::in_two(code as int)[0] && b[1] == layout::in_two(code as int)[1]);
    assert(b[2] == layout::in_two(data.len() as int)[0]);
    assert(b[3] == layout::in_two(data.len() as int)[1]);
    assert(layout::two(b, 0) == code);
    assert(layout::two(b, 2) == data.len());
    assert(b.subrange(4, 4 + data.len() as int) =~= data);
    assert(b.skip(4 + data.len() as int) =~= rest);
}

/// Nothing is read of an option that is cut off, nor after it.
pub proof fn a_cut_option_ends_them(b: Seq<u8>)
    requires
        b.len() < 4 || b.len() < 4 + layout::two(b, 2),
    ensures
        dhcp6::options_in(b).len() == 0,
{
    if b.len() >= 4 {
        layout::two_is(b, 2);
    }
}

/// The last list of a code whose length fits is the one that counts.
pub proof fn the_last_list_counts(o: Seq<(u16, Seq<u8>)>, code: u16, unit: nat, i: int)
    requires
        0 <= i < o.len(),
        o[i].0 == code && o[i].1.len() % unit == 0,
        forall|j: int|
            i < j < o.len() ==> (#[trigger] o[j]).0 != code || o[j].1.len() % unit != 0,
    ensures
        dhcp6::last_of(o, code, unit) == Some(o[i].1),
    decreases o.len(),
{
    if i < o.len() - 1 {
        assert(o[o.len() - 1] == o.last());
        let t = o.drop_last();
        assert forall|j: int| i < j < t.len() implies (#[trigger] t[j]).0 != code || t[j].1.len()
            % unit != 0 by {
            assert(t[j] == o[j]);
        }
        the_last_list_counts(t, code, unit, i);
    }
}

proof fn no_list(o: Seq<(u16, Seq<u8>)>, code: u16, unit: nat)
    requires
        forall|j: int|
            0 <= j < o.len() ==> (#[trigger] o[j]).0 != code || o[j].1.len() % unit != 0,
    ensures
        dhcp6::last_of(o, code, unit) is None,
    decreases o.len(),
{
    if o.len() > 0 {
        assert(o[o.len() - 1] == o.last());
        let t = o.drop_last();
        assert forall|j: int| 0 <= j < t.len() implies (#[trigger] t[j]).0 != code || t[j].1.len()
            % unit != 0 by {
            assert(t[j] == o[j]);
        }
        no_list(t, code, unit);
    }
}

proof fn the_first_counts(o: Seq<(u16, Seq<u8>)>, code: u16, len: nat, i: int)
    requires
        0 <= i < o.len(),
        o[i].0 == code && o[i].1.len() == len,
        forall|j: int| 0 <= j < i ==> (#[trigger] o[j]).0 != code || o[j].1.len() != len,
    ensures
        dhcp6::first_of(o, code, len) == Some(o[i].1),
    decreases o.len(),
{
    if i > 0 {
        assert(o[0].0 != code || o[0].1.len() != len);
        let t = o.drop_first();
        assert forall|j: int| 0 <= j < i - 1 implies (#[trigger] t[j]).0 != code || t[j].1.len()
            != len by {
            assert(t[j] == o[j + 1]);
        }
        the_first_counts(t, code, len, i - 1);
    }
}

proof fn no_first(o: Seq<(u16, Seq<u8>)>, code: u16, len: nat)
    requires
        forall|j: int| 0 <= j < o.len() ==> (#[trigger] o[j]).0 != code || o[j].1.len() != len,
    ensures
        dhcp6::first_of(o, code, len) is None,
    decreases o.len(),
{
    if o.len() > 0 {
        assert(o[0].0 != code || o[0].1.len() != len);
        let t = o.drop_first();
        assert forall|j: int| 0 <= j < t.len() implies (#[trigger] t[j]).0 != code || t[j].1.len()
            != len by {
            assert(t[j] == o[j + 1]);
        }
        no_first(t, code, len);
    }
}

// ---- replies ----------------------------------------------------------------

/// Whether an option with this code is there.
pub open spec fn has(o: Seq<(u16, Seq<u8>)>, code: u16) -> bool {
    exists|i: int| 0 <= i < o.len() && (#[trigger] o[i]).0 == code
}

/// Whether the last option with this code holds something.
pub open spec fn last_holds(o: Seq<(u16, Seq<u8>)>, code: u16) -> bool {
    exists|i: int|
        0 <= i < o.len() && (#[trigger] o[i]).0 == code && o[i].1.len() > 0 && forall|j: int|
            i < j < o.len() ==> (#[trigger] o[j]).0 != code
}

/// A datagram is believed exactly where it is a REPLY with the transaction's three
/// bytes, echoes the client's identifier wherever it gives one and at least once,
/// and names a server.
pub proof fn only_answers_are_believed(duid: Seq<u8>, txid: Seq<u8>, d: Seq<u8>)
    requires
        txid.len() == 3,
    ensures
        dhcp6::reply_info(duid, txid, d) is Some <==> {
            let o = dhcp6::options_in(d.skip(4));
            &&& d.len() >= 4 && d[0] == 7
            &&& d[1] == txid[0] && d[2] == txid[1] && d[3] == txid[2]
            &&& has(o, 1)
            &&& forall|i: int| 0 <= i < o.len() && (#[trigger] o[i]).0 == 1 ==> o[i].1 == duid
            &&& last_holds(o, 2)
        },
{
    if d.len() >= 4 {
        let o = dhcp6::options_in(d.skip(4));
        let t = d.subrange(1, 4);
        assert(t[0] == d[1] && t[1] == d[2] && t[2] == d[3]);
        if d[1] == txid[0] && d[2] == txid[1] && d[3] == txid[2] {
            assert(t =~= txid);
        }
        server_named(o);
    }
}

proof fn server_named(o: Seq<(u16, Seq<u8>)>)
    ensures
        (dhcp6::last_of(o, 2, 1) matches Some(s) && s.len() > 0) <==> last_holds(o, 2),
    decreases o.len(),
{
    if o.len() > 0 {
        let t = o.drop_last();
        server_named(t);
        let n = o.len() - 1;
        if o[n].0 == 2 {
            if o[n].1.len() > 0 {
                assert(last_holds(o, 2));
            } else if last_holds(o, 2) {
                let i = choose|i: int|
                    0 <= i < o.len() && (#[trigger] o[i]).0 == 2 && o[i].1.len() > 0
                        && forall|j: int| i < j < o.len() ==> (#[trigger] o[j]).0 != 2;
                assert(i == n);
            }
        } else {
            if last_holds(t, 2) {
                let i = choose|i: int|
                    0 <= i < t.len() && (#[trigger] t[i]).0 == 2 && t[i].1.len() > 0
                        && forall|j: int| i < j < t.len() ==> (#[trigger] t[j]).0 != 2;
                assert(o[i] == t[i]);
                assert forall|j: int| i < j < o.len() implies (#[trigger] o[j]).0 != 2 by {
                    if j < n {
                        assert(o[j] == t[j]);
                    }
                }
                assert(last_holds(o, 2));
            }
            if last_holds(o, 2) {
                let i = choose|i: int|
                    0 <= i < o.len() && (#[trigger] o[i]).0 == 2 && o[i].1.len() > 0
                        && forall|j: int| i < j < o.len() ==> (#[trigger] o[j]).0 != 2;
                assert(o[i] == t[i]);
                assert forall|j: int| i < j < t.len() implies (#[trigger] t[j]).0 != 2 by {
                    assert(o[j] == t[j]);
                }
                assert(last_holds(t, 2));
            }
        }
    }
}

/// The servers are those of the last option 23 that holds whole addresses, the
/// domains those of the last option 24, up to sixteen; where there is none, none
/// are named.
pub proof fn an_answer_names_servers_and_domains(duid: Seq<u8>, txid: Seq<u8>, d: Seq<u8>, i: int)
    requires
        dhcp6::reply_info(duid, txid, d) is Some,
    ensures
        ({
            let o = dhcp6::options_in(d.skip(4));
            let info = dhcp6::reply_info(duid, txid, d)->0;
            &&& 0 <= i < o.len() && o[i].0 == 23 && o[i].1.len() % 16 == 0 && (forall|j: int|
                i < j < o.len() ==> (#[trigger] o[j]).0 != 23 || o[j].1.len() % 16 != 0)
                ==> info.dns == lists::servers_in(o[i].1)
            &&& (forall|j: int|
                0 <= j < o.len() ==> (#[trigger] o[j]).0 != 23 || o[j].1.len() % 16 != 0)
                ==> info.dns.len() == 0
            &&& 0 <= i < o.len() && o[i].0 == 24 && (forall|j: int|
                i < j < o.len() ==> (#[trigger] o[j]).0 != 24) ==> info.search
                == lists::domains_in(o[i].1, 16)
            &&& (forall|j: int| 0 <= j < o.len() ==> (#[trigger] o[j]).0 != 24)
                ==> info.search.len() == 0
        }),
{
    let o = dhcp6::options_in(d.skip(4));
    if 0 <= i < o.len() && o[i].0 == 23 && o[i].1.len() % 16 == 0 && (forall|j: int|
        i < j < o.len() ==> (#[trigger] o[j]).0 != 23 || o[j].1.len() % 16 != 0) {
        the_last_list_counts(o, 23, 16, i);
    }
    if forall|j: int| 0 <= j < o.len() ==> (#[trigger] o[j]).0 != 23 || o[j].1.len() % 16 != 0 {
        no_list(o, 23, 16);
    }
    if 0 <= i < o.len() && o[i].0 == 24 && (forall|j: int|
        i < j < o.len() ==> (#[trigger] o[j]).0 != 24) {
        the_last_list_counts(o, 24, 1, i);
    }
    if forall|j: int| 0 <= j < o.len() ==> (#[trigger] o[j]).0 != 24 {
        no_list(o, 24, 1);
    }
}

/// The information stands for as many seconds as the first option 32 of four bytes
/// says, a day where there is none, and never less than ten minutes.
pub proof fn information_stands_as_long_as_it_says(d: Seq<u8>, i: int)
    ensures
        ({
            let o = dhcp6::options_in(d.skip(4));
            &&& 0 <= i < o.len() && o[i].0 == 32 && o[i].1.len() == 4 && (forall|j: int|
                0 <= j < i ==> (#[trigger] o[j]).0 != 32 || o[j].1.len() != 4)
                ==> dhcp6::refresh_in(d) == 1_000_000_000 * if layout::four(o[i].1, 0) > 600 {
                layout::four(o[i].1, 0)
            } else {
                600
            }
            &&& (forall|j: int|
                0 <= j < o.len() ==> (#[trigger] o[j]).0 != 32 || o[j].1.len() != 4)
                ==> dhcp6::refresh_in(d) == 86_400_000_000_000
        }),
{
    let o = dhcp6::options_in(d.skip(4));
    if 0 <= i < o.len() && o[i].0 == 32 && o[i].1.len() == 4 && (forall|j: int|
        0 <= j < i ==> (#[trigger] o[j]).0 != 32 || o[j].1.len() != 4) {
        the_first_counts(o, 32, 4, i);
        layout::four_is(o[i].1, 0);
        assert(o[i].1.subrange(0, 4) =~= o[i].1);
    }
    if forall|j: int| 0 <= j < o.len() ==> (#[trigger] o[j]).0 != 32 || o[j].1.len() != 4 {
        no_first(o, 32, 4);
    }
}

// ---- the exchange -----------------------------------------------------------

/// A valid reply while an exchange runs becomes the information held, and is
/// reported exactly where it differs from what was held. It ends the exchange, and
/// the next begins when the information has stood its time.
pub proof fn an_answer_becomes_what_is_held(c: ClientV, now: Instant, d: Seq<u8>, i: InfoV)
    requires
        c.retransmit_at is Some,
        dhcp6::reply_info(c.duid, c.txid, d) == Some(i),
        now.nanos <= clock::HORIZON,
    ensures
        ({
            let (e, actions) = c.receive(now, d);
            &&& e.info == Some(i)
            &&& actions.contains(ActionV::Changed) <==> c.info != Some(i)
            &&& actions.len() <= 1
            &&& forall|k: int| 0 <= k < actions.len() ==> #[trigger] actions[k] is Changed
            &&& e.retransmit_at is None
            &&& e.refresh_at matches Some(at) && at.nanos == now.nanos + dhcp6::refresh_in(d)
            &&& e.duid == c.duid && e.txid == c.txid && e.rng == c.rng
        }),
{
    let o = dhcp6::options_in(d.skip(4));
    refresh_bounded(d);
    let (e, actions) = c.receive(now, d);
    if c.info != Some(i) {
        assert(actions[0] is Changed);
    }
}

proof fn refresh_bounded(d: Seq<u8>)
    ensures
        dhcp6::refresh_in(d) <= 0x1_0000_0000 * 1_000_000_000,
{
    let o = dhcp6::options_in(d.skip(4));
    if let Some(data) = dhcp6::first_of(o, 32, 4) {
        first_has_len(o, 32, 4);
        layout::four_is(data, 0);
        assert(data.subrange(0, 4) =~= data);
    }
}

proof fn first_has_len(o: Seq<(u16, Seq<u8>)>, code: u16, len: nat)
    ensures
        dhcp6::first_of(o, code, len) matches Some(s) ==> s.len() == len,
    decreases o.len(),
{
    if o.len() > 0 {
        first_has_len(o.drop_first(), code, len);
    }
}

/// What is not believed, and what comes while no exchange runs, changes nothing.
pub proof fn the_rest_changes_nothing(c: ClientV, now: Instant, d: Seq<u8>)
    requires
        c.retransmit_at is None || dhcp6::reply_info(c.duid, c.txid, d) is None,
    ensures
        c.receive(now, d) == (c, Seq::<ActionV>::empty()),
{
}

/// Hundredths of a second since the exchange began, as far as sixteen bits tell
/// them.
pub open spec fn waited(c: ClientV, now: Instant) -> int {
    let n = if c.started is Some && now.nanos >= c.started->0.nanos {
        (now.nanos - c.started->0.nanos) / 10_000_000
    } else {
        0
    };
    if n < 65535 {
        n
    } else {
        65535
    }
}

/// A request holds the transaction, the client's identifier, how long it has
/// waited, and that it would like servers, domains and a time to ask again.
pub proof fn a_request_says_who_asks_what(c: ClientV, now: Instant)
    ensures
        c.request(now) == seq![11u8] + c.txid + sent(1, c.duid) + sent(
            8,
            layout::in_two(waited(c, now)),
        ) + sent(6, seq![0u8, 23, 0, 24, 0, 32]),
{
    sent_is(1, c.duid);
    let w = waited(c, now);
    layout::in_two_is(w as nat);
    sent_is(8, layout::in_two(w));
    layout::in_two_is(23);
    layout::in_two_is(24);
    layout::in_two_is(32);
    let asked = seq![0u8, 23, 0, 24, 0, 32];
    assert(layout::in_two(23) + layout::in_two(24) + layout::in_two(32) =~= asked);
    sent_is(6, asked);
}

/// When the request is sent again: after the interval, a tenth more or less, and
/// the interval doubles up to an hour.
pub open spec fn said_again(c: ClientV, now: Instant, interval: int) -> bool {
    let ms = interval / 1_000_000;
    &&& c.retransmit_at matches Some(at) && now.nanos + (ms - ms / 10) * 1_000_000 <= at.nanos
        <= now.nanos + (ms - ms / 10 + ms / 5) * 1_000_000
    &&& c.interval.nanos == if 2 * interval < 3600_000_000_000 {
        2 * interval
    } else {
        3600_000_000_000
    }
}

proof fn due_is_sent(c: ClientV, now: Instant)
    requires
        1_000_000_000 <= c.interval.nanos <= 3600_000_000_000,
        now.nanos <= clock::HORIZON,
        c.retransmit_at matches Some(at) && at.nanos <= now.nanos,
    ensures
        ({
            let (e, actions) = c.send_if_due(now);
            &&& actions == seq![ActionV::Send(c.request(now))]
            &&& said_again(e, now, c.interval.nanos as int)
            &&& e.info == c.info && e.refresh_at == c.refresh_at && e.txid == c.txid
            &&& e.duid == c.duid && e.started == c.started
        }),
{
    let ms = c.interval.nanos as int / 1_000_000;
    let r = rng::stirred(c.rng) as int;
    let m = ms / 5 + 1;
    assert(0 <= r % m < m) by (nonlinear_arith)
        requires
            m > 0,
    ;
    assert(c.jittered(rng::stirred(c.rng)) == (ms - ms / 10 + r % m) * 1_000_000);
}

/// A client that starts asks at once, in a transaction of its own, and again in
/// about a second; what it held it still holds.
pub proof fn a_client_asks_at_once(c: ClientV, now: Instant)
    requires
        c.wf(),
        now.nanos <= clock::HORIZON,
    ensures
        ({
            let (e, actions) = c.start(now);
            let r = rng::stirred(c.rng) as int;
            &&& actions == seq![ActionV::Send(e.request(now))]
            &&& e.started == Some(now) && e.info == c.info && e.refresh_at is None
            &&& e.txid == seq![
                (r / 0x1_0000 % 0x100) as u8,
                (r / 0x100 % 0x100) as u8,
                (r % 0x100) as u8,
            ]
            &&& said_again(e, now, 1_000_000_000)
        }),
{
    let b = c.begun(now);
    due_is_sent(b, now);
    let (e, actions) = b.send_if_due(now);
    assert(e.request(now) == b.request(now));
}

/// While an exchange runs, its request is sent again when that is due and not
/// before. Once answered, nothing is sent until the information has stood its
/// time; then the client asks as if it started.
pub proof fn a_client_asks_again_when_due(c: ClientV, now: Instant)
    requires
        c.wf(),
        now.nanos <= clock::HORIZON,
    ensures
        ({
            let (e, actions) = c.tick(now);
            if c.refresh_at is Some && c.refresh_at->0.nanos <= now.nanos {
                (e, actions) == c.start(now)
            } else if c.retransmit_at is Some && c.retransmit_at->0.nanos <= now.nanos {
                &&& actions == seq![ActionV::Send(c.request(now))]
                &&& said_again(e, now, c.interval.nanos as int)
                &&& e.txid == c.txid && e.started == c.started && e.info == c.info
            } else {
                e == c && actions.len() == 0
            }
        }),
{
    if c.refresh_at is Some && c.refresh_at->0.nanos <= now.nanos {
    } else if c.retransmit_at is Some && c.retransmit_at->0.nanos <= now.nanos {
        due_is_sent(c, now);
    }
}

/// The next deadline is the sooner of the two, and there is none where neither is.
pub proof fn the_next_deadline_is_the_sooner(c: ClientV)
    ensures
        match (c.next_deadline(), c.retransmit_at, c.refresh_at) {
            (None, None, None) => true,
            (Some(at), Some(a), None) => at == a,
            (Some(at), None, Some(b)) => at == b,
            (Some(at), Some(a), Some(b)) => (at == a || at == b) && at.nanos <= a.nanos && at.nanos
                <= b.nanos,
            _ => false,
        },
{
}

} // verus!
