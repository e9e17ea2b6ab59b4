//! Which servers and domains a list names.

use vstd::prelude::*;
use crate::addr::Ipv6Addr;
use crate::layout;
use crate::lists;

verus! {

/// Whether an address with this number may be a server's: not `::`, not `::1`,
/// not multicast.
pub open spec fn fit(n: int) -> bool {
    n != 0 && n != 1 && n < 0xff00_0000_0000_0000_0000_0000_0000_0000
}

proof fn fit_is_usable(data: Seq<u8>, at: int)
    requires
        0 <= at <= at + 16 <= data.len(),
    ensures
        lists::usable(crate::addr::v6_of(data.subrange(at, at + 16))) <==> fit(
            layout::sixteen(data, at),
        ),
        crate::addr::v6_of(data.subrange(at, at + 16)).bits == layout::sixteen(data, at),
{
    layout::sixteen_is(data, at);
}

proof fn first_ones(data: Seq<u8>, n: nat)
    requires
        16 * n <= data.len(),
    ensures
        named(data, n as int, lists::usable_in(data, n)),
    decreases n,
{
    if n > 0 {
        let m = (n - 1) as nat;
        first_ones(data, m);
        fit_is_usable(data, 16 * m as int);
        let before = lists::usable_in(data, m);
        let now = lists::usable_in(data, n);
        let here = nth(data, m as int);
        assert forall|i: int| 0 <= i < n && fit(#[trigger] nth(data, i)) implies exists|k: int|
            0 <= k < now.len() && (#[trigger] now[k]).bits == nth(data, i) by {
            if i < m {
                let k = choose|k: int|
                    0 <= k < before.len() && (#[trigger] before[k]).bits == nth(data, i);
                assert(now[k] == before[k]);
            } else {
                assert(now.last().bits == here);
            }
        }
        assert forall|k: int| 0 <= k < now.len() implies fit_among(
            data,
            n as int,
            (#[trigger] now[k]).bits as int,
        ) by {
            if k < before.len() {
                assert(now[k] == before[k]);
                assert(fit_among(data, m as int, before[k].bits as int));
                let i = choose|i: int|
                    0 <= i < m && #[trigger] nth(data, i) == before[k].bits && fit(nth(data, i));
                assert(nth(data, i) == now[k].bits);
            } else {
                assert(nth(data, m as int) == now[k].bits);
            }
        }
    }
}

proof fn all_in_place(data: Seq<u8>, n: nat)
    requires
        16 * n <= data.len(),
        forall|i: int| 0 <= i < n ==> fit(#[trigger] nth(data, i)),
    ensures
        lists::usable_in(data, n).len() == n,
        forall|i: int| 0 <= i < n ==> (#[trigger] lists::usable_in(data, n)[i]).bits == nth(data, i),
    decreases n,
{
    if n > 0 {
        let m = (n - 1) as nat;
        all_in_place(data, m);
        assert(fit(nth(data, m as int)));
        fit_is_usable(data, 16 * m as int);
    }
}

/// The number in the sixteen bytes at place `i` of a list.
pub open spec fn nth(data: Seq<u8>, i: int) -> int {
    layout::sixteen(data, 16 * i)
}

/// Whether `s` holds those of the first `n` that may be a server's and no others.
pub open spec fn named(data: Seq<u8>, n: int, s: Seq<Ipv6Addr>) -> bool {
    &&& forall|i: int|
        0 <= i < n && fit(#[trigger] nth(data, i)) ==> exists|k: int|
            0 <= k < s.len() && (#[trigger] s[k]).bits == nth(data, i)
    &&& forall|k: int| 0 <= k < s.len() ==> fit_among(data, n, (#[trigger] s[k]).bits as int)
}

/// Whether a number is one of the first `n` and may be a server's.
pub open spec fn fit_among(data: Seq<u8>, n: int, x: int) -> bool {
    exists|i: int| 0 <= i < n && #[trigger] nth(data, i) == x && fit(nth(data, i))
}

/// A list of servers is read sixteen bytes at a time, and of those the first
/// sixteen are looked at. Where all of them may be a server's, each is in its
/// place.
pub proof fn a_list_names_its_first_sixteen(data: Seq<u8>)
    ensures
        ({
            let s = lists::servers_in(data);
            let n = if data.len() >= 256 {
                16
            } else {
                data.len() as int / 16
            };
            &&& named(data, n, s)
            &&& (forall|i: int| 0 <= i < n ==> fit(#[trigger] nth(data, i))) ==> {
                &&& s.len() == n
                &&& forall|i: int| 0 <= i < n ==> (#[trigger] s[i]).bits == nth(data, i)
            }
        }),
{
    let n: nat = if data.len() / 16 < 16 {
        (data.len() / 16) as nat
    } else {
        16
    };
    first_ones(data, n);
    if forall|i: int| 0 <= i < n ==> fit(#[trigger] nth(data, i)) {
        all_in_place(data, n);
    }
}

// ---- domains ----------------------------------------------------------------

/// Labels as they are sent: each after its length, a zero at the end.
pub open spec fn name_sent(labels: Seq<Seq<u8>>) -> Seq<u8>
    decreases labels.len(),
{
    if labels.len() == 0 {
        seq![0u8]
    } else {
        seq![labels[0].len() as u8] + labels[0] + name_sent(labels.drop_first())
    }
}

/// A label's characters, capitals made small.
pub open spec fn small(label: Seq<u8>) -> Seq<char> {
    Seq::new(
        label.len(),
        |i: int|
            if 0x41 <= label[i] <= 0x5a {
                (label[i] + 0x20) as char
            } else {
                label[i] as char
            },
    )
}

/// The labels with a dot between each two.
pub open spec fn dotted(labels: Seq<Seq<u8>>) -> Seq<char>
    decreases labels.len(),
{
    if labels.len() == 0 {
        Seq::empty()
    } else if labels.len() == 1 {
        small(labels[0])
    } else {
        dotted(labels.drop_last()) + seq!['.'] + small(labels.last())
    }
}

/// Whether a label can be sent: one to 63 printable bytes.
pub open spec fn sendable(l: Seq<u8>) -> bool {
    &&& 1 <= l.len() <= 63
    &&& forall|i: int| 0 <= i < l.len() ==> 0x21 <= #[trigger] l[i] <= 0x7e
}

proof fn small_is(l: Seq<u8>)
    ensures
        lists::label_text(l) == small(l),
{
    assert(lists::label_text(l) =~= small(l));
}

proof fn read_on(done: Seq<Seq<u8>>, labels: Seq<Seq<u8>>, rest: Seq<u8>)
    requires
        forall|i: int| 0 <= i < done.len() ==> sendable(#[trigger] done[i]),
        forall|i: int| 0 <= i < labels.len() ==> sendable(#[trigger] labels[i]),
    ensures
        dotted(done + labels).len() <= 253 ==> lists::domain_at(
            name_sent(labels) + rest,
            dotted(done),
        ) == Some((dotted(done + labels), rest)),
        dotted(done).len() <= 253 && dotted(done + labels).len() > 253 ==> lists::domain_at(
            name_sent(labels) + rest,
            dotted(done),
        ) is None,
        dotted(done + labels).len() >= dotted(done).len(),
        done.len() > 0 ==> dotted(done).len() > 0,
    decreases labels.len(),
{
    let b = name_sent(labels) + rest;
    if done.len() > 0 {
        assert(sendable(done.last()));
        if done.len() == 1 {
            assert(sendable(done[0]));
        }
    }
    if labels.len() == 0 {
        assert(done + labels =~= done);
        assert(b[0] == 0);
        assert(b.skip(1) =~= rest);
    } else {
        let l = labels[0];
        assert(sendable(l));
        let more = done.push(l);
        let left = labels.drop_first();
        assert forall|i: int| 0 <= i < more.len() implies sendable(#[trigger] more[i]) by {
            if i < done.len() {
                assert(more[i] == done[i]);
            }
        }
        assert forall|i: int| 0 <= i < left.len() implies sendable(#[trigger] left[i]) by {
            assert(left[i] == labels[i + 1]);
        }
        read_on(more, left, rest);
        assert(more + left =~= done + labels);
        assert(more.drop_last() =~= done);
        assert(b[0] == l.len());
        assert(b.subrange(1, 1 + b[0]) =~= l);
        assert(b.skip(1 + b[0]) =~= name_sent(left) + rest);
        small_is(l);
        assert(lists::label_ok(l));
        if done.len() == 0 {
            assert(dotted(done) =~= Seq::<char>::empty());
            assert(dotted(more) == small(l));
        } else {
            assert(dotted(more) == dotted(done) + seq!['.'] + small(l));
            assert(dotted(done).push('.') + small(l) =~= dotted(more));
        }
    }
}

/// A domain name is read label by label, capitals made small, dots between; it
/// may be 253 characters long and no longer.
pub proof fn domains_are_read_label_by_label(labels: Seq<Seq<u8>>, rest: Seq<u8>)
    requires
        forall|i: int| 0 <= i < labels.len() ==> sendable(#[trigger] labels[i]),
    ensures
        lists::domain_at(name_sent(labels) + rest, Seq::empty()) == if dotted(labels).len()
            <= 253 {
            Some((dotted(labels), rest))
        } else {
            None
        },
{
    let none = Seq::<Seq<u8>>::empty();
    read_on(none, labels, rest);
    assert(none + labels =~= labels);
    assert(dotted(none) =~= Seq::<char>::empty());
}

/// A name that is cut off, a label of more than 63 bytes and a byte that cannot be
/// printed make a name malformed.
pub proof fn malformed_names_are_refused(b: Seq<u8>, name: Seq<char>)
    requires
        ({
            ||| b.len() == 0
            ||| b[0] > 63
            ||| b[0] >= b.len()
            ||| exists|i: int| 1 <= i <= b[0] && !(0x21 <= #[trigger] b[i] <= 0x7e)
        }),
    ensures
        b.len() > 0 && b[0] == 0 || lists::domain_at(b, name) is None,
{
    if b.len() > 0 && 0 < b[0] <= 63 && b[0] < b.len() {
        let i = choose|i: int| 1 <= i <= b[0] && !(0x21 <= #[trigger] b[i] <= 0x7e);
        let label = b.subrange(1, 1 + b[0]);
        assert(label[i - 1] == b[i]);
        assert(!lists::label_ok(label));
    }
}

/// A list of domains goes from name to name, the empty one left out, until as many
/// were named as may be, a name is malformed, or only zeros follow.
pub proof fn domains_go_from_name_to_name(labels: Seq<Seq<u8>>, rest: Seq<u8>, n: nat)
    requires
        n > 0,
        forall|i: int| 0 <= i < labels.len() ==> sendable(#[trigger] labels[i]),
        dotted(labels).len() <= 253,
    ensures
        ({
            let over = forall|i: int| 0 <= i < rest.len() ==> #[trigger] rest[i] == 0;
            let all = lists::domains_in(name_sent(labels) + rest, n);
            if labels.len() == 0 {
                all == if over {
                    Seq::<Seq<char>>::empty()
                } else {
                    lists::domains_in(rest, n)
                }
            } else {
                all == seq![dotted(labels)] + if over {
                    Seq::<Seq<char>>::empty()
                } else {
                    lists::domains_in(rest, (n - 1) as nat)
                }
            }
        }),
        lists::domains_in(rest, 0).len() == 0,
        lists::domain_at(rest, Seq::empty()) is None ==> lists::domains_in(rest, n).len() == 0,
{
    domains_are_read_label_by_label(labels, rest);
    let b = name_sent(labels) + rest;
    assert(name_sent(labels).len() > 0);
    let none = Seq::<Seq<u8>>::empty();
    read_on(labels, none, rest);
    if labels.len() == 0 {
        assert(dotted(labels) =~= Seq::<char>::empty());
        assert(Seq::<Seq<char>>::empty() + lists::domains_in(rest, n) =~= lists::domains_in(
            rest,
            n,
        ));
    } else {
        assert(seq![dotted(labels)] + Seq::<Seq<char>>::empty() =~= seq![dotted(labels)]);
    }
}

} // verus!
