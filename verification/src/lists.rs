//! The lists that router advertisements and DHCPv6 replies share: servers and
//! search domains.

pub mod laws;

use vstd::prelude::*;
use vstd::string::*;
use crate::addr;
use crate::addr::Ipv6Addr;
use crate::text;

verus! {

/// Ceilings against a hostile network: what one message may name.
pub const MAX_SERVERS: usize = 16;

pub const MAX_DOMAINS: usize = 16;

/// An address a server may have.
pub open spec fn usable(a: Ipv6Addr) -> bool {
    a.bits != 0 && a.bits != 1 && !a.multicast()
}

/// The usable ones of the first `n` addresses in `data`.
pub open spec fn usable_in(data: Seq<u8>, n: nat) -> Seq<Ipv6Addr>
    decreases n,
{
    if n == 0 {
        Seq::empty()
    } else {
        let a = addr::v6_of(data.subrange(16 * (n - 1), 16 * n as int));
        let before = usable_in(data, (n - 1) as nat);
        if usable(a) {
            before.push(a)
        } else {
            before
        }
    }
}

/// The servers that a list names: the usable ones of its first sixteen.
pub open spec fn servers_in(data: Seq<u8>) -> Seq<Ipv6Addr> {
    usable_in(
        data,
        if data.len() / 16 < MAX_SERVERS {
            (data.len() / 16) as nat
        } else {
            MAX_SERVERS as nat
        },
    )
}

/// A printable ASCII character other than space.
pub open spec fn graphic(b: u8) -> bool {
    0x21 <= b <= 0x7e
}

/// A label's characters, small.
pub open spec fn label_text(l: Seq<u8>) -> Seq<char> {
    l.map_values(|b: u8| text::lower_char(b as char))
}

/// Whether every byte of a label is printable.
pub open spec fn label_ok(l: Seq<u8>) -> bool {
    forall|i: int| 0 <= i < l.len() ==> graphic(#[trigger] l[i])
}

/// The rest of a domain name that began with `name`, and what follows it;
/// `None` where it is malformed: a label over 63 bytes, cut off or with
/// unprintable bytes, or a name over 253.
pub open spec fn domain_at(b: Seq<u8>, name: Seq<char>) -> Option<(Seq<char>, Seq<u8>)>
    decreases b.len(),
{
    if b.len() == 0 {
        None
    } else if b[0] == 0 {
        Some((name, b.skip(1)))
    } else if b[0] > 63 || b.len() - 1 < b[0] || name.len() + b[0] + 1 > 253 {
        None
    } else {
        let label = b.subrange(1, 1 + b[0]);
        if !label_ok(label) {
            None
        } else {
            domain_at(
                b.skip(1 + b[0]),
                if name.len() == 0 {
                    label_text(label)
                } else {
                    name.push('.') + label_text(label)
                },
            )
        }
    }
}

pub proof fn domain_at_shrinks(b: Seq<u8>, name: Seq<char>)
    ensures
        domain_at(b, name) matches Some(r) ==> r.1.len() < b.len(),
    decreases b.len(),
{
    if b.len() > 0 && 0 < b[0] && b[0] <= 63 && b.len() - 1 >= b[0] {
        let label = b.subrange(1, 1 + b[0]);
        domain_at_shrinks(
            b.skip(1 + b[0]),
            if name.len() == 0 {
                label_text(label)
            } else {
                name.push('.') + label_text(label)
            },
        );
    }
}

/// Whether all bytes are zero.
pub open spec fn all_zero(b: Seq<u8>) -> bool {
    forall|i: int| 0 <= i < b.len() ==> #[trigger] b[i] == 0
}

/// Up to `n` uncompressed DNS names (compression is forbidden), the
/// empty name left out. A malformed name ends the list, as do zeros to the
/// end; what came before stands.
pub open spec fn domains_in(b: Seq<u8>, n: nat) -> Seq<Seq<char>>
    decreases b.len(),
{
    if b.len() == 0 || n == 0 {
        Seq::empty()
    } else {
        match domain_at(b, Seq::empty()) {
            None => Seq::empty(),
            Some((name, rest)) => {
                proof {
                    domain_at_shrinks(b, Seq::empty());
                }
                let here: Seq<Seq<char>> = if name.len() == 0 {
                    Seq::empty()
                } else {
                    seq![name]
                };
                if all_zero(rest) || rest.len() >= b.len() {
                    here
                } else {
                    here + domains_in(rest, (n - here.len()) as nat)
                }
            },
        }
    }
}

/// The servers that a list names.
pub fn servers(data: &[u8]) -> (out: Vec<Ipv6Addr>)
    ensures
        out@ == servers_in(data@),
{
    let n: usize = if data.len() / 16 < MAX_SERVERS {
        data.len() / 16
    } else {
        MAX_SERVERS
    };
    let mut out: Vec<Ipv6Addr> = Vec::new();
    let mut i: usize = 0;
    while i < n
        invariant
            i <= n <= data@.len() / 16,
            n <= MAX_SERVERS,
            out@ == usable_in(data@, i as nat),
        decreases n - i,
    {
        let a: Ipv6Addr = Ipv6Addr::at(data, 16 * i);
        if !a.is_unspecified() && !a.is_multicast() && !a.is_loopback() {
            out.push(a);
        }
        i = i + 1;
    }
    out
}

pub proof fn usable_in_len(data: Seq<u8>, n: nat)
    ensures
        usable_in(data, n).len() <= n,
    decreases n,
{
    if n > 0 {
        usable_in_len(data, (n - 1) as nat);
    }
}

proof fn usable_in_usable(data: Seq<u8>, n: nat)
    ensures
        forall|i: int|
            0 <= i < usable_in(data, n).len() ==> usable(#[trigger] usable_in(data, n)[i]),
    decreases n,
{
    if n > 0 {
        usable_in_usable(data, (n - 1) as nat);
        let before = usable_in(data, (n - 1) as nat);
        assert forall|i: int| 0 <= i < usable_in(data, n).len() implies usable(
            #[trigger] usable_in(data, n)[i],
        ) by {
            if i < before.len() {
                assert(usable(before[i]));
            }
        }
    }
}

/// Whatever the bytes, a list names at most sixteen servers, each of them
/// usable.
pub proof fn servers_are_usable(data: Seq<u8>)
    ensures
        servers_in(data).len() <= MAX_SERVERS,
        forall|i: int| 0 <= i < servers_in(data).len() ==> usable(#[trigger] servers_in(data)[i]),
{
    let n = if data.len() / 16 < MAX_SERVERS {
        (data.len() / 16) as nat
    } else {
        MAX_SERVERS as nat
    };
    usable_in_len(data, n);
    usable_in_usable(data, n);
}

pub proof fn domains_in_len(b: Seq<u8>, n: nat)
    ensures
        domains_in(b, n).len() <= n,
    decreases b.len(),
{
    if b.len() > 0 && n > 0 {
        match domain_at(b, Seq::empty()) {
            None => {},
            Some((name, rest)) => {
                domain_at_shrinks(b, Seq::empty());
                let k: nat = if name.len() == 0 {
                    0
                } else {
                    1
                };
                domains_in_len(rest, (n - k) as nat);
            },
        }
    }
}

/// One name from `at`, and where it ends.
fn read_domain(b: &[u8], at: usize) -> (r: Option<(Vec<char>, usize)>)
    requires
        at <= b@.len(),
    ensures
        match r {
            Some(x) => at < x.1 <= b@.len() && domain_at(b@.skip(at as int), Seq::empty()) == Some(
                (x.0@, b@.skip(x.1 as int)),
            ),
            None => domain_at(b@.skip(at as int), Seq::empty()) is None,
        },
{
    let n: usize = b.len();
    let mut name: Vec<char> = Vec::new();
    let mut p: usize = at;
    let ghost whole = domain_at(b@.skip(at as int), Seq::empty());
    assert(name@ =~= Seq::empty());
    loop
        invariant
            at <= p <= n,
            n == b@.len(),
            name@.len() <= 253,
            whole == domain_at(b@.skip(at as int), Seq::empty()),
            domain_at(b@.skip(p as int), name@) == whole,
        decreases n - p,
    {
        let ghost rest = b@.skip(p as int);
        if p >= n {
            return None;
        }
        let len: usize = b[p] as usize;
        if len == 0 {
            assert(rest.skip(1) =~= b@.skip(p + 1));
            return Some((name, p + 1));
        }
        if len > 63 || n - p - 1 < len || name.len() + len + 1 > 253 {
            return None;
        }
        let ghost label = rest.subrange(1, 1 + rest[0]);
        let ghost before = name@;
        if name.len() > 0 {
            name.push('.');
        }
        let ghost dotted = name@;
        let mut i: usize = 0;
        while i < len
            invariant
                i <= len,
                p + 1 + len <= n,
                n == b@.len(),
                0 <= p,
                rest == b@.skip(p as int),
                len == rest[0],
                label == rest.subrange(1, 1 + rest[0]),
                name@ == dotted + label_text(label.take(i as int)),
                forall|j: int| 0 <= j < i ==> graphic(#[trigger] label[j]),
                domain_at(rest, before) == whole,
                whole == domain_at(b@.skip(at as int), Seq::empty()),
                rest.len() > 0,
            decreases len - i,
        {
            let c: u8 = b[p + 1 + i];
            assert(c == label[i as int]);
            if !(0x21 <= c && c <= 0x7e) {
                assert(!label_ok(label));
                return None;
            }
            name.push(text::lower_one(c as char));
            i = i + 1;
            assert(name@ =~= dotted + label_text(label.take(i as int)));
        }
        proof {
            assert(label.take(len as int) =~= label);
            assert(rest.skip(1 + rest[0]) =~= b@.skip(p + 1 + len));
            assert(label_ok(label));
            assert(name@ =~= if before.len() == 0 {
                label_text(label)
            } else {
                before.push('.') + label_text(label)
            });
        }
        p = p + 1 + len;
    }
}

fn only_zeros(b: &[u8], at: usize) -> (r: bool)
    requires
        at <= b@.len(),
    ensures
        r == all_zero(b@.skip(at as int)),
{
    let mut i: usize = at;
    while i < b.len()
        invariant
            at <= i <= b@.len(),
            forall|j: int| 0 <= j < i - at ==> #[trigger] b@.skip(at as int)[j] == 0,
        decreases b@.len() - i,
    {
        if b[i] != 0 {
            assert(b@.skip(at as int)[i - at] != 0);
            return false;
        }
        i = i + 1;
    }
    true
}

/// Uncompressed DNS wire names (compression is forbidden). A
/// malformed name ends the walk; what parsed before it stands.
pub fn domain_list(b: &[u8]) -> (out: Vec<String>)
    ensures
        text::list_view(out@) == domains_in(b@, MAX_DOMAINS as nat),
{
    let mut out: Vec<String> = Vec::new();
    let mut at: usize = 0;
    let ghost whole = domains_in(b@, MAX_DOMAINS as nat);
    assert(b@.skip(0) =~= b@);
    assert(text::list_view(out@) + whole =~= whole);
    while at < b.len() && out.len() < MAX_DOMAINS
        invariant
            at <= b@.len(),
            out@.len() <= MAX_DOMAINS,
            whole == domains_in(b@, MAX_DOMAINS as nat),
            text::list_view(out@) + domains_in(b@.skip(at as int), (MAX_DOMAINS - out@.len()) as nat)
                == whole,
        decreases b@.len() - at,
    {
        let ghost rest = b@.skip(at as int);
        let ghost before = text::list_view(out@);
        let ghost left = (MAX_DOMAINS - out@.len()) as nat;
        match read_domain(b, at) {
            None => {
                assert(before + Seq::<Seq<char>>::empty() =~= before);
                return out;
            },
            Some((name, end)) => {
                proof {
                    domain_at_shrinks(rest, Seq::empty());
                }
                let ghost here: Seq<Seq<char>> = if name@.len() == 0 {
                    Seq::empty()
                } else {
                    seq![name@]
                };
                if name.len() > 0 {
                    let s: String = text::from_chars(name.as_slice());
                    out.push(s);
                    assert(text::list_view(out@) =~= before.push(name@));
                }
                assert(text::list_view(out@) =~= before + here);
                if only_zeros(b, end) {
                    return out;
                }
                proof {
                    let more = domains_in(b@.skip(end as int), (left - here.len()) as nat);
                    assert(domains_in(rest, left) == here + more);
                    assert(before + (here + more) =~= text::list_view(out@) + more);
                }
                at = end;
            },
        }
    }
    assert(text::list_view(out@) + Seq::<Seq<char>>::empty() =~= text::list_view(out@));
    out
}

/// A printable ASCII character other than space and the capital letters.
pub open spec fn small(c: char) -> bool {
    '!' <= c <= '~' && !('A' <= c <= 'Z')
}

/// A name that fits DNS: 1 to 253 characters, printable and without capitals.
pub open spec fn name_ok(n: Seq<char>) -> bool {
    1 <= n.len() <= 253 && forall|i: int| 0 <= i < n.len() ==> small(#[trigger] n[i])
}

/// Labels that DNS takes: of 1 to 63 printable bytes.
pub open spec fn labels_ok(labels: Seq<Seq<u8>>) -> bool {
    forall|i: int|
        0 <= i < labels.len() ==> 1 <= (#[trigger] labels[i]).len() <= 63 && label_ok(labels[i])
}

/// The characters of labels, small, with a dot between each two.
pub open spec fn joined(labels: Seq<Seq<u8>>) -> Seq<char>
    decreases labels.len(),
{
    if labels.len() == 0 {
        Seq::empty()
    } else if labels.len() == 1 {
        label_text(labels[0])
    } else {
        joined(labels.drop_last()).push('.') + label_text(labels.last())
    }
}

/// A name of these labels as it is sent: each after its length, a zero at the
/// end.
pub open spec fn sent(labels: Seq<Seq<u8>>) -> Seq<u8>
    decreases labels.len(),
{
    if labels.len() == 0 {
        seq![0u8]
    } else {
        seq![labels[0].len() as u8] + labels[0] + sent(labels.skip(1))
    }
}

/// Names as they are sent, one after another.
pub open spec fn run_sent(run: Seq<Seq<Seq<u8>>>) -> Seq<u8>
    decreases run.len(),
{
    if run.len() == 0 {
        Seq::empty()
    } else {
        sent(run[0]) + run_sent(run.skip(1))
    }
}

/// The names among these that are not empty, in their order.
pub open spec fn run_names(run: Seq<Seq<Seq<u8>>>) -> Seq<Seq<char>>
    decreases run.len(),
{
    if run.len() == 0 {
        Seq::empty()
    } else if run[0].len() == 0 {
        run_names(run.skip(1))
    } else {
        seq![joined(run[0])] + run_names(run.skip(1))
    }
}

/// Names that fit DNS, or are empty.
pub open spec fn run_ok(run: Seq<Seq<Seq<u8>>>) -> bool {
    forall|i: int|
        0 <= i < run.len() ==> labels_ok(#[trigger] run[i]) && joined(run[i]).len() <= 253
}

proof fn joined_push(labels: Seq<Seq<u8>>, label: Seq<u8>)
    requires
        labels_ok(labels),
    ensures
        joined(labels).len() == 0 <==> labels.len() == 0,
        joined(labels.push(label)) == (if joined(labels).len() == 0 {
            label_text(label)
        } else {
            joined(labels).push('.') + label_text(label)
        }),
    decreases labels.len(),
{
    assert(labels.push(label).drop_last() =~= labels);
    if labels.len() > 0 {
        let last = labels.last();
        assert(labels[labels.len() - 1].len() >= 1);
        assert(label_text(last).len() >= 1);
    }
}

proof fn joined_small(labels: Seq<Seq<u8>>)
    requires
        labels_ok(labels),
    ensures
        forall|i: int| 0 <= i < joined(labels).len() ==> small(#[trigger] joined(labels)[i]),
    decreases labels.len(),
{
    if labels.len() > 0 {
        let last = labels.last();
        assert(labels[labels.len() - 1] == last);
        let t = label_text(last);
        assert forall|i: int| 0 <= i < t.len() implies small(#[trigger] t[i]) by {
            assert(graphic(last[i]));
        }
        if labels.len() > 1 {
            let before = labels.drop_last();
            assert(labels_ok(before)) by {
                assert forall|i: int| 0 <= i < before.len() implies 1 <= (
                #[trigger] before[i]).len() <= 63 && label_ok(before[i]) by {
                    assert(before[i] == labels[i]);
                }
            }
            joined_small(before);
            let start = joined(before);
            assert forall|i: int| 0 <= i < joined(labels).len() implies small(
                #[trigger] joined(labels)[i],
            ) by {
                if i < start.len() {
                    assert(small(start[i]));
                } else if i > start.len() {
                    assert(small(t[i - start.len() - 1]));
                }
            }
        } else {
            assert(labels[0] == last);
        }
    }
}

/// The labels that follow those already read, where the name is whole.
proof fn labels_at(b: Seq<u8>, done: Seq<Seq<u8>>) -> (more: Seq<Seq<u8>>)
    requires
        labels_ok(done),
        joined(done).len() <= 253,
    ensures
        domain_at(b, joined(done)) matches Some(r) ==> {
            &&& labels_ok(more)
            &&& b == sent(more) + r.1
            &&& r.0 == joined(done + more)
            &&& r.0.len() <= 253
        },
    decreases b.len(),
{
    let name = joined(done);
    if b.len() > 0 && b[0] == 0 {
        let more = Seq::<Seq<u8>>::empty();
        assert(done + more =~= done);
        assert(b =~= sent(more) + b.skip(1));
        more
    } else if b.len() > 0 && b[0] <= 63 && b.len() - 1 >= b[0] && name.len() + b[0] + 1 <= 253
        && label_ok(b.subrange(1, 1 + b[0])) {
        let label = b.subrange(1, 1 + b[0]);
        let next = done.push(label);
        joined_push(done, label);
        assert(labels_ok(next)) by {
            assert forall|i: int| 0 <= i < next.len() implies 1 <= (#[trigger] next[i]).len() <= 63
                && label_ok(next[i]) by {
                if i < done.len() {
                    assert(next[i] == done[i]);
                }
            }
        }
        let rest = labels_at(b.skip(1 + b[0]), next);
        let more = seq![label] + rest;
        if let Some(r) = domain_at(b, name) {
            assert(domain_at(b.skip(1 + b[0]), joined(next)) == Some(r));
            assert(more.skip(1) =~= rest);
            assert(done + more =~= next + rest);
            assert(b =~= seq![b[0]] + label + b.skip(1 + b[0]));
            assert(sent(more) == seq![label.len() as u8] + label + sent(rest));
            assert(b =~= sent(more) + r.1);
            assert forall|i: int| 0 <= i < more.len() implies 1 <= (#[trigger] more[i]).len() <= 63
                && label_ok(more[i]) by {
                if i > 0 {
                    assert(more[i] == rest[i - 1]);
                }
            }
        }
        more
    } else {
        Seq::empty()
    }
}

/// A name that is sent whole is read back, after what was read of it before.
proof fn sent_is_read(done: Seq<Seq<u8>>, more: Seq<Seq<u8>>, tail: Seq<u8>)
    requires
        labels_ok(done),
        labels_ok(more),
        joined(done + more).len() <= 253,
    ensures
        domain_at(sent(more) + tail, joined(done)) == Some((joined(done + more), tail)),
        joined(done).len() <= 253,
    decreases more.len(),
{
    let b = sent(more) + tail;
    if more.len() == 0 {
        assert(done + more =~= done);
        assert(b.skip(1) =~= tail);
    } else {
        let label = more[0];
        let rest = more.skip(1);
        let next = done.push(label);
        assert(next + rest =~= done + more);
        joined_push(done, label);
        assert(labels_ok(next)) by {
            assert forall|i: int| 0 <= i < next.len() implies 1 <= (#[trigger] next[i]).len() <= 63
                && label_ok(next[i]) by {
                if i < done.len() {
                    assert(next[i] == done[i]);
                }
            }
        }
        assert(labels_ok(rest)) by {
            assert forall|i: int| 0 <= i < rest.len() implies 1 <= (#[trigger] rest[i]).len() <= 63
                && label_ok(rest[i]) by {
                assert(rest[i] == more[i + 1]);
            }
        }
        sent_is_read(next, rest, tail);
        assert(b[0] == label.len());
        assert(b.subrange(1, 1 + b[0]) =~= label);
        assert(b.skip(1 + b[0]) =~= sent(rest) + tail);
    }
}

/// The names that bytes begin with, and what follows them, for a list of up to
/// `n`.
proof fn run_at(b: Seq<u8>, n: nat) -> (r: (Seq<Seq<Seq<u8>>>, Seq<u8>))
    ensures
        run_ok(r.0),
        b == run_sent(r.0) + r.1,
        domains_in(b, n) == run_names(r.0),
    decreases b.len(),
{
    let none = Seq::<Seq<Seq<u8>>>::empty();
    assert(run_sent(none) + b =~= b);
    if b.len() == 0 || n == 0 {
        return (none, b);
    }
    match domain_at(b, Seq::empty()) {
        None => (none, b),
        Some((name, rest)) => {
            let labels = labels_at(b, Seq::empty());
            assert(Seq::<Seq<u8>>::empty() + labels =~= labels);
            joined_push(labels, Seq::empty());
            domain_at_shrinks(b, Seq::empty());
            let here: Seq<Seq<char>> = if name.len() == 0 {
                Seq::empty()
            } else {
                seq![name]
            };
            let (run, left) = if all_zero(rest) {
                assert(run_sent(none) + rest =~= rest);
                (none, rest)
            } else {
                run_at(rest, (n - here.len()) as nat)
            };
            let all = seq![labels] + run;
            assert(all.skip(1) =~= run);
            assert(run_sent(all) + left =~= sent(labels) + (run_sent(run) + left));
            assert forall|i: int| 0 <= i < all.len() implies labels_ok(#[trigger] all[i]) && joined(
                all[i],
            ).len() <= 253 by {
                if i > 0 {
                    assert(all[i] == run[i - 1]);
                }
            }
            assert(here + run_names(run) =~= run_names(all));
            if all_zero(rest) {
                assert(here + Seq::<Seq<char>>::empty() =~= here);
            }
            (all, left)
        },
    }
}

proof fn run_names_ok(run: Seq<Seq<Seq<u8>>>)
    requires
        run_ok(run),
    ensures
        forall|i: int| 0 <= i < run_names(run).len() ==> name_ok(#[trigger] run_names(run)[i]),
    decreases run.len(),
{
    if run.len() > 0 {
        let more = run.skip(1);
        assert forall|i: int| 0 <= i < more.len() implies labels_ok(#[trigger] more[i]) && joined(
            more[i],
        ).len() <= 253 by {
            assert(more[i] == run[i + 1]);
        }
        run_names_ok(more);
        assert(labels_ok(run[0]));
        joined_small(run[0]);
        joined_push(run[0], Seq::empty());
        let after = run_names(more);
        assert forall|i: int| 0 <= i < run_names(run).len() implies name_ok(
            #[trigger] run_names(run)[i],
        ) by {
            if run[0].len() == 0 {
                assert(name_ok(after[i]));
            } else if i > 0 {
                assert(name_ok(after[i - 1]));
            }
        }
    }
}

/// Whatever the bytes, they begin with a run of names, and a list holds those of
/// them that are not empty, in their order: each the characters of its labels,
/// small, joined by dots, every label of 1 to 63 printable bytes. There are at
/// most as many as asked for, each of 1 to 253 characters, printable and without
/// capitals.
pub proof fn domains_are_bounded(b: Seq<u8>, n: nat)
    ensures
        domains_in(b, n).len() <= n,
        forall|i: int| 0 <= i < domains_in(b, n).len() ==> name_ok(#[trigger] domains_in(b, n)[i]),
        exists|run: Seq<Seq<Seq<u8>>>, rest: Seq<u8>|
            {
                &&& run_ok(run)
                &&& b == #[trigger] (run_sent(run) + rest)
                &&& domains_in(b, n) == run_names(run)
            },
{
    domains_in_len(b, n);
    let (run, rest) = run_at(b, n);
    run_names_ok(run);
    assert(b == run_sent(run) + rest);
}

/// What was read before a malformed name stands: after a run of whole names that
/// fit the list, whatever follows, the list begins with them.
pub proof fn what_was_read_before_stands(run: Seq<Seq<Seq<u8>>>, x: Seq<u8>, n: nat)
    requires
        run_ok(run),
        run_names(run).len() <= n,
    ensures
        domains_in(run_sent(run), n) == run_names(run),
        run_names(run).is_prefix_of(domains_in(run_sent(run) + x, n)),
{
    assert(run_sent(run) + Seq::<u8>::empty() =~= run_sent(run));
    names_begin(run, Seq::empty(), n);
    names_begin(run, x, n);
    nothing_follows(run, n);
}

/// Names that hold nothing but zeros are empty.
proof fn zeros_name_nothing(run: Seq<Seq<Seq<u8>>>, x: Seq<u8>)
    requires
        run_ok(run),
        all_zero(run_sent(run) + x),
    ensures
        run_names(run).len() == 0,
    decreases run.len(),
{
    if run.len() > 0 {
        let more = run.skip(1);
        let all = run_sent(run) + x;
        assert(labels_ok(run[0]));
        if run[0].len() > 0 {
            let label = run[0][0];
            assert(1 <= label.len() <= 63);
            assert(all[0] == label.len() as u8);
            assert(all[0] == 0);
        }
        assert(sent(run[0]) =~= seq![0u8]);
        let rest = run_sent(more) + x;
        assert forall|i: int| 0 <= i < rest.len() implies #[trigger] rest[i] == 0 by {
            assert(all[i + 1] == rest[i]);
        }
        assert forall|i: int| 0 <= i < more.len() implies labels_ok(#[trigger] more[i]) && joined(
            more[i],
        ).len() <= 253 by {
            assert(more[i] == run[i + 1]);
        }
        zeros_name_nothing(more, x);
    }
}

proof fn names_begin(run: Seq<Seq<Seq<u8>>>, x: Seq<u8>, n: nat)
    requires
        run_ok(run),
        run_names(run).len() <= n,
    ensures
        run_names(run).is_prefix_of(domains_in(run_sent(run) + x, n)),
    decreases run.len(),
{
    let b = run_sent(run) + x;
    if run.len() > 0 && run_names(run).len() > 0 {
        let labels = run[0];
        let more = run.skip(1);
        let rest = run_sent(more) + x;
        assert(labels_ok(labels));
        assert forall|i: int| 0 <= i < more.len() implies labels_ok(#[trigger] more[i]) && joined(
            more[i],
        ).len() <= 253 by {
            assert(more[i] == run[i + 1]);
        }
        assert(b =~= sent(labels) + rest);
        assert(Seq::<Seq<u8>>::empty() + labels =~= labels);
        joined_push(labels, Seq::empty());
        sent_is_read(Seq::empty(), labels, rest);
        domain_at_shrinks(b, Seq::empty());
        let here: Seq<Seq<char>> = if labels.len() == 0 {
            Seq::empty()
        } else {
            seq![joined(labels)]
        };
        assert(run_names(run) =~= here + run_names(more));
        if all_zero(rest) {
            zeros_name_nothing(more, x);
            assert(domains_in(b, n) == here);
        } else {
            names_begin(more, x, (n - here.len()) as nat);
            assert(domains_in(b, n) == here + domains_in(rest, (n - here.len()) as nat));
        }
    }
}

proof fn nothing_follows(run: Seq<Seq<Seq<u8>>>, n: nat)
    requires
        run_ok(run),
    ensures
        domains_in(run_sent(run), n).len() <= run_names(run).len(),
    decreases run.len(),
{
    let b = run_sent(run);
    if run.len() > 0 && n > 0 {
        let labels = run[0];
        let more = run.skip(1);
        let rest = run_sent(more);
        assert(labels_ok(labels));
        assert forall|i: int| 0 <= i < more.len() implies labels_ok(#[trigger] more[i]) && joined(
            more[i],
        ).len() <= 253 by {
            assert(more[i] == run[i + 1]);
        }
        assert(Seq::<Seq<u8>>::empty() + labels =~= labels);
        joined_push(labels, Seq::empty());
        sent_is_read(Seq::empty(), labels, rest);
        let k: nat = if labels.len() == 0 {
            0
        } else {
            1
        };
        nothing_follows(more, (n - k) as nat);
    }
}

} // verus!
