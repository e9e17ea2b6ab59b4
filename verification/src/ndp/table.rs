//! Lists of things with an expiry, in the order of their keys.

use vstd::prelude::*;
use vstd::string::*;
use crate::addr::Ipv6Addr;
use crate::clock::Instant;
use crate::text;

verus! {

/// Whether an expiry lies ahead; `None` is never.
pub open spec fn ahead(e: Option<Instant>, now: Instant) -> bool {
    match e {
        Some(t) => t.nanos > now.nanos,
        None => true,
    }
}

/// `ahead`, executed.
pub fn is_ahead(e: Option<Instant>, now: Instant) -> (r: bool)
    ensures
        r == ahead(e, now),
{
    match e {
        Some(t) => t.nanos > now.nanos,
        None => true,
    }
}

/// A time that is still to come at `at`, if there is one.
pub open spec fn still(e: Option<Instant>, at: Instant) -> Option<Instant> {
    match e {
        Some(t) => if t.nanos > at.nanos {
            Some(t)
        } else {
            None
        },
        None => None,
    }
}

/// `still`, executed.
pub fn still_of(e: Option<Instant>, at: Instant) -> (r: Option<Instant>)
    ensures
        r == still(e, at),
{
    match e {
        Some(t) => if t.nanos > at.nanos {
            Some(t)
        } else {
            None
        },
        None => None,
    }
}

/// The sooner of two times, where there are any.
pub open spec fn sooner(a: Option<Instant>, b: Option<Instant>) -> Option<Instant> {
    match (a, b) {
        (Some(x), Some(y)) => Some(
            if y.nanos < x.nanos {
                y
            } else {
                x
            },
        ),
        (Some(x), None) => Some(x),
        (None, y) => y,
    }
}

/// `sooner`, executed.
pub fn sooner_of(a: Option<Instant>, b: Option<Instant>) -> (r: Option<Instant>)
    ensures
        r == sooner(a, b),
{
    match (a, b) {
        (Some(x), Some(y)) => Some(
            if y.nanos < x.nanos {
                y
            } else {
                x
            },
        ),
        (Some(x), None) => Some(x),
        (None, y) => y,
    }
}

/// Entries in strictly rising order of address.
pub open spec fn ordered<V>(s: Seq<(Ipv6Addr, V)>) -> bool {
    forall|i: int, j: int|
        0 <= i < j < s.len() ==> (#[trigger] s[i]).0.bits < (#[trigger] s[j]).0.bits
}

/// How many entries come before `k`.
pub open spec fn place<V>(s: Seq<(Ipv6Addr, V)>, k: Ipv6Addr) -> int
    decreases s.len(),
{
    if s.len() > 0 && s[0].0.bits < k.bits {
        1 + place(s.drop_first(), k)
    } else {
        0
    }
}

/// The list with `v` for `k`.
pub open spec fn put<V>(s: Seq<(Ipv6Addr, V)>, k: Ipv6Addr, v: V) -> Seq<(Ipv6Addr, V)> {
    let i = place(s, k);
    if i < s.len() && s[i].0 == k {
        s.update(i, (k, v))
    } else {
        s.insert(i, (k, v))
    }
}

/// The list without `k`.
pub open spec fn without<V>(s: Seq<(Ipv6Addr, V)>, k: Ipv6Addr) -> Seq<(Ipv6Addr, V)> {
    let i = place(s, k);
    if i < s.len() && s[i].0 == k {
        s.remove(i)
    } else {
        s
    }
}

pub proof fn place_bound<V>(s: Seq<(Ipv6Addr, V)>, k: Ipv6Addr)
    ensures
        0 <= place(s, k) <= s.len(),
        forall|i: int| 0 <= i < place(s, k) ==> (#[trigger] s[i]).0.bits < k.bits,
        place(s, k) < s.len() ==> s[place(s, k)].0.bits >= k.bits,
    decreases s.len(),
{
    if s.len() > 0 && s[0].0.bits < k.bits {
        let t = s.drop_first();
        place_bound(t, k);
        assert forall|i: int| 0 <= i < place(s, k) implies (#[trigger] s[i]).0.bits < k.bits by {
            if i > 0 {
                assert(s[i] == t[i - 1]);
            }
        }
        if place(s, k) < s.len() {
            assert(s[place(s, k)] == t[place(t, k)]);
        }
    }
}

pub proof fn place_found<V>(s: Seq<(Ipv6Addr, V)>, k: Ipv6Addr, n: int)
    requires
        0 <= n <= s.len(),
        forall|i: int| 0 <= i < n ==> (#[trigger] s[i]).0.bits < k.bits,
        n < s.len() ==> s[n].0.bits >= k.bits,
    ensures
        place(s, k) == n,
    decreases n,
{
    if n > 0 {
        let t = s.drop_first();
        assert forall|i: int| 0 <= i < n - 1 implies (#[trigger] t[i]).0.bits < k.bits by {
            assert(t[i] == s[i + 1]);
        }
        assert(s[0].0.bits < k.bits);
        place_found(t, k, n - 1);
    }
}

pub proof fn put_ordered<V>(s: Seq<(Ipv6Addr, V)>, k: Ipv6Addr, v: V)
    requires
        ordered(s),
    ensures
        ordered(put(s, k, v)),
{
    place_bound(s, k);
}

pub proof fn without_ordered<V>(s: Seq<(Ipv6Addr, V)>, k: Ipv6Addr)
    requires
        ordered(s),
    ensures
        ordered(without(s, k)),
{
    place_bound(s, k);
}

/// Where `k` belongs.
pub fn find<V>(v: &Vec<(Ipv6Addr, V)>, k: Ipv6Addr) -> (n: usize)
    ensures
        n == place(v@, k),
        n <= v@.len(),
{
    let mut n: usize = 0;
    while n < v.len() && v[n].0.bits < k.bits
        invariant
            n <= v@.len(),
            forall|i: int| 0 <= i < n ==> (#[trigger] v@[i]).0.bits < k.bits,
        decreases v@.len() - n,
    {
        n = n + 1;
    }
    proof {
        place_found(v@, k, n as int);
    }
    n
}

/// An address with its expiry.
pub type Expiring = Seq<(Ipv6Addr, Option<Instant>)>;

/// Sets the expiry of `k`.
pub fn set(v: &mut Vec<(Ipv6Addr, Option<Instant>)>, k: Ipv6Addr, e: Option<Instant>)
    ensures
        final(v)@ == put(old(v)@, k, e),
{
    let n: usize = find(v, k);
    if n < v.len() && v[n].0 == k {
        v.set(n, (k, e));
    } else {
        v.insert(n, (k, e));
    }
}

/// Drops `k`.
pub fn unset(v: &mut Vec<(Ipv6Addr, Option<Instant>)>, k: Ipv6Addr)
    ensures
        final(v)@ == without(old(v)@, k),
{
    let n: usize = find(v, k);
    if n < v.len() && v[n].0 == k {
        v.remove(n);
    }
}

/// The entries whose expiry lies ahead.
pub open spec fn live(s: Expiring, now: Instant) -> Expiring
    decreases s.len(),
{
    if s.len() == 0 {
        s
    } else if ahead(s.last().1, now) {
        live(s.drop_last(), now).push(s.last())
    } else {
        live(s.drop_last(), now)
    }
}

pub proof fn live_ordered(s: Expiring, now: Instant)
    requires
        ordered(s),
    ensures
        ordered(live(s, now)),
        live(s, now).len() <= s.len(),
        s.len() > 0 ==> forall|i: int|
            0 <= i < live(s, now).len() ==> (#[trigger] live(s, now)[i]).0.bits
                <= s.last().0.bits,
        forall|i: int| 0 <= i < live(s, now).len() ==> s.contains(#[trigger] live(s, now)[i]),
    decreases s.len(),
{
    if s.len() > 0 {
        let t = s.drop_last();
        live_ordered(t, now);
        assert forall|i: int| 0 <= i < live(t, now).len() implies (#[trigger] live(t, now)[i]).0.bits
            < s.last().0.bits && s.contains(live(t, now)[i]) by {
            assert(t.contains(live(t, now)[i]));
            let j = choose|j: int| 0 <= j < t.len() && t[j] == live(t, now)[i];
            assert(s[j] == live(t, now)[i]);
        }
        assert(s.contains(s.last())) by {
            assert(s[s.len() - 1] == s.last());
        }
        if ahead(s.last().1, now) {
            assert forall|i: int| 0 <= i < live(s, now).len() implies s.contains(
                #[trigger] live(s, now)[i],
            ) by {
                if i < live(t, now).len() {
                    assert(live(s, now)[i] == live(t, now)[i]);
                }
            }
        }
    }
}

/// Drops the entries whose expiry has come.
pub fn retain(v: &mut Vec<(Ipv6Addr, Option<Instant>)>, now: Instant)
    ensures
        final(v)@ == live(old(v)@, now),
{
    let mut out: Vec<(Ipv6Addr, Option<Instant>)> = Vec::new();
    let mut i: usize = 0;
    assert(v@.take(0) =~= Seq::empty());
    while i < v.len()
        invariant
            i <= v@.len(),
            v@ == old(v)@,
            out@ == live(v@.take(i as int), now),
        decreases v@.len() - i,
    {
        assert(v@.take(i + 1).drop_last() =~= v@.take(i as int));
        if is_ahead(v[i].1, now) {
            out.push(v[i]);
        }
        i = i + 1;
    }
    assert(v@.take(i as int) =~= v@);
    *v = out;
}

/// The addresses whose expiry lies ahead.
pub open spec fn live_keys(s: Expiring, now: Instant) -> Seq<Ipv6Addr> {
    live(s, now).map_values(|e: (Ipv6Addr, Option<Instant>)| e.0)
}

/// The addresses whose expiry lies ahead, in order.
pub fn keys(v: &Vec<(Ipv6Addr, Option<Instant>)>, now: Instant) -> (out: Vec<Ipv6Addr>)
    ensures
        out@ == live_keys(v@, now),
{
    let mut out: Vec<Ipv6Addr> = Vec::new();
    let mut i: usize = 0;
    assert(v@.take(0) =~= Seq::empty());
    assert(out@ =~= live_keys(v@.take(0), now));
    while i < v.len()
        invariant
            i <= v@.len(),
            out@ == live_keys(v@.take(i as int), now),
        decreases v@.len() - i,
    {
        let ghost next = v@.take(i + 1);
        assert(next.drop_last() =~= v@.take(i as int));
        if is_ahead(v[i].1, now) {
            out.push(v[i].0);
        }
        i = i + 1;
        assert(out@ =~= live_keys(next, now));
    }
    assert(v@.take(i as int) =~= v@);
    out
}

/// The first address whose expiry lies ahead.
pub open spec fn first_live(s: Expiring, now: Instant) -> Option<Ipv6Addr>
    decreases s.len(),
{
    if s.len() == 0 {
        None
    } else if ahead(s[0].1, now) {
        Some(s[0].0)
    } else {
        first_live(s.drop_first(), now)
    }
}

/// The first address whose expiry lies ahead.
pub fn first(v: &Vec<(Ipv6Addr, Option<Instant>)>, now: Instant) -> (r: Option<Ipv6Addr>)
    ensures
        r == first_live(v@, now),
{
    let mut i: usize = 0;
    assert(v@.skip(0) =~= v@);
    while i < v.len()
        invariant
            i <= v@.len(),
            first_live(v@, now) == first_live(v@.skip(i as int), now),
        decreases v@.len() - i,
    {
        if is_ahead(v[i].1, now) {
            return Some(v[i].0);
        }
        assert(v@.skip(i as int).drop_first() =~= v@.skip(i + 1));
        i = i + 1;
    }
    None
}

/// The soonest expiry.
pub open spec fn soonest(s: Expiring) -> Option<Instant>
    decreases s.len(),
{
    if s.len() == 0 {
        None
    } else {
        sooner(soonest(s.drop_last()), s.last().1)
    }
}

/// The soonest expiry.
pub fn soonest_of(v: &Vec<(Ipv6Addr, Option<Instant>)>) -> (r: Option<Instant>)
    ensures
        r == soonest(v@),
{
    let mut r: Option<Instant> = None;
    let mut i: usize = 0;
    while i < v.len()
        invariant
            i <= v@.len(),
            r == soonest(v@.take(i as int)),
        decreases v@.len() - i,
    {
        assert(v@.take(i + 1).drop_last() =~= v@.take(i as int));
        r = sooner_of(r, v[i].1);
        i = i + 1;
    }
    assert(v@.take(i as int) =~= v@);
    r
}

/// Names with their expiry.
pub type Names = Seq<(Seq<char>, Option<Instant>)>;

/// The same as values.
pub open spec fn names_view(v: Seq<(String, Option<Instant>)>) -> Names {
    Seq::new(v.len(), |i: int| (v[i].0@, v[i].1))
}

/// Names in strictly rising order.
pub open spec fn names_ordered(s: Names) -> bool {
    forall|i: int, j: int|
        0 <= i < j < s.len() ==> text::before((#[trigger] s[i]).0, (#[trigger] s[j]).0)
}

/// How many names come before `k`.
pub open spec fn name_place(s: Names, k: Seq<char>) -> int
    decreases s.len(),
{
    if s.len() > 0 && text::before(s[0].0, k) {
        1 + name_place(s.drop_first(), k)
    } else {
        0
    }
}

/// The list with this expiry for `k`.
pub open spec fn name_put(s: Names, k: Seq<char>, e: Option<Instant>) -> Names {
    let i = name_place(s, k);
    if i < s.len() && s[i].0 == k {
        s.update(i, (k, e))
    } else {
        s.insert(i, (k, e))
    }
}

/// The list without `k`.
pub open spec fn name_without(s: Names, k: Seq<char>) -> Names {
    let i = name_place(s, k);
    if i < s.len() && s[i].0 == k {
        s.remove(i)
    } else {
        s
    }
}

proof fn name_place_found(s: Names, k: Seq<char>, n: int)
    requires
        0 <= n <= s.len(),
        forall|i: int| 0 <= i < n ==> text::before((#[trigger] s[i]).0, k),
        n < s.len() ==> !text::before(s[n].0, k),
    ensures
        name_place(s, k) == n,
    decreases n,
{
    if n > 0 {
        let t = s.drop_first();
        assert forall|i: int| 0 <= i < n - 1 implies text::before((#[trigger] t[i]).0, k) by {
            assert(t[i] == s[i + 1]);
        }
        assert(text::before(s[0].0, k));
        name_place_found(t, k, n - 1);
    }
}

pub proof fn name_place_bound(s: Names, k: Seq<char>)
    ensures
        0 <= name_place(s, k) <= s.len(),
        forall|i: int| 0 <= i < name_place(s, k) ==> text::before((#[trigger] s[i]).0, k),
        name_place(s, k) < s.len() ==> !text::before(s[name_place(s, k)].0, k),
    decreases s.len(),
{
    if s.len() > 0 && text::before(s[0].0, k) {
        let t = s.drop_first();
        name_place_bound(t, k);
        assert forall|i: int| 0 <= i < name_place(s, k) implies text::before(
            (#[trigger] s[i]).0,
            k,
        ) by {
            if i > 0 {
                assert(s[i] == t[i - 1]);
            }
        }
        if name_place(s, k) < s.len() {
            assert(s[name_place(s, k)] == t[name_place(t, k)]);
        }
    }
}

pub proof fn name_put_ordered(s: Names, k: Seq<char>, e: Option<Instant>)
    requires
        names_ordered(s),
    ensures
        names_ordered(name_put(s, k, e)),
{
    name_place_bound(s, k);
    let i = name_place(s, k);
    let t = name_put(s, k, e);
    assert forall|a: int, b: int| 0 <= a < b < t.len() implies text::before(
        (#[trigger] t[a]).0,
        (#[trigger] t[b]).0,
    ) by {
        if i < s.len() {
            text::before_total(s[i].0, k);
        }
        if i < s.len() && s[i].0 == k {
            assert(t[a].0 == s[a].0 && t[b].0 == s[b].0);
        } else if b == i {
            assert(t[a] == s[a]);
        } else if a == i {
            assert(t[b] == s[b - 1]);
            if b - 1 > i {
                text::before_trans(k, s[i].0, s[b - 1].0);
            }
        } else if b < i {
            assert(t[a] == s[a] && t[b] == s[b]);
        } else if a < i {
            assert(t[a] == s[a] && t[b] == s[b - 1]);
        } else {
            assert(t[a] == s[a - 1] && t[b] == s[b - 1]);
        }
    }
}

pub proof fn name_without_ordered(s: Names, k: Seq<char>)
    requires
        names_ordered(s),
    ensures
        names_ordered(name_without(s, k)),
{
    name_place_bound(s, k);
}

fn name_find(v: &Vec<(String, Option<Instant>)>, k: &str) -> (n: usize)
    ensures
        n == name_place(names_view(v@), k@),
        n <= v@.len(),
{
    let mut n: usize = 0;
    while n < v.len() && text::comes_before(v[n].0.as_str(), k)
        invariant
            n <= v@.len(),
            forall|i: int|
                0 <= i < n ==> text::before((#[trigger] names_view(v@)[i]).0, k@),
        decreases v@.len() - n,
    {
        n = n + 1;
    }
    proof {
        name_place_found(names_view(v@), k@, n as int);
    }
    n
}

/// Sets the expiry of a name.
pub fn name_set(v: &mut Vec<(String, Option<Instant>)>, k: &String, e: Option<Instant>)
    ensures
        names_view(final(v)@) == name_put(names_view(old(v)@), k@, e),
{
    let n: usize = name_find(v, k.as_str());
    if n < v.len() && text::same(v[n].0.as_str(), k.as_str()) {
        v.set(n, (k.clone(), e));
    } else {
        v.insert(n, (k.clone(), e));
    }
    assert(names_view(v@) =~= name_put(names_view(old(v)@), k@, e));
}

/// Drops a name.
pub fn name_unset(v: &mut Vec<(String, Option<Instant>)>, k: &String)
    ensures
        names_view(final(v)@) == name_without(names_view(old(v)@), k@),
{
    let n: usize = name_find(v, k.as_str());
    if n < v.len() && text::same(v[n].0.as_str(), k.as_str()) {
        v.remove(n);
    }
    assert(names_view(v@) =~= name_without(names_view(old(v)@), k@));
}

/// The names whose expiry lies ahead.
pub open spec fn live_names(s: Names, now: Instant) -> Names
    decreases s.len(),
{
    if s.len() == 0 {
        s
    } else if ahead(s.last().1, now) {
        live_names(s.drop_last(), now).push(s.last())
    } else {
        live_names(s.drop_last(), now)
    }
}

pub proof fn live_names_ordered(s: Names, now: Instant)
    requires
        names_ordered(s),
    ensures
        names_ordered(live_names(s, now)),
        forall|i: int|
            0 <= i < live_names(s, now).len() ==> s.contains(#[trigger] live_names(s, now)[i]),
    decreases s.len(),
{
    if s.len() > 0 {
        let t = s.drop_last();
        live_names_ordered(t, now);
        assert forall|i: int| 0 <= i < live_names(t, now).len() implies text::before(
            (#[trigger] live_names(t, now)[i]).0,
            s.last().0,
        ) && s.contains(live_names(t, now)[i]) by {
            assert(t.contains(live_names(t, now)[i]));
            let j = choose|j: int| 0 <= j < t.len() && t[j] == live_names(t, now)[i];
            assert(s[j] == live_names(t, now)[i]);
        }
        assert(s.contains(s.last())) by {
            assert(s[s.len() - 1] == s.last());
        }
        if ahead(s.last().1, now) {
            assert forall|i: int| 0 <= i < live_names(s, now).len() implies s.contains(
                #[trigger] live_names(s, now)[i],
            ) by {
                if i < live_names(t, now).len() {
                    assert(live_names(s, now)[i] == live_names(t, now)[i]);
                }
            }
        }
    }
}

/// Drops the names whose expiry has come.
pub fn name_retain(v: &mut Vec<(String, Option<Instant>)>, now: Instant)
    ensures
        names_view(final(v)@) == live_names(names_view(old(v)@), now),
{
    let mut out: Vec<(String, Option<Instant>)> = Vec::new();
    let mut i: usize = 0;
    let ghost all = names_view(v@);
    assert(all.take(0) =~= Seq::empty());
    assert(names_view(out@) =~= Seq::empty());
    while i < v.len()
        invariant
            i <= v@.len(),
            all == names_view(v@),
            v@ == old(v)@,
            names_view(out@) == live_names(all.take(i as int), now),
        decreases v@.len() - i,
    {
        let ghost next = all.take(i + 1);
        let ghost before = names_view(out@);
        assert(next.drop_last() =~= all.take(i as int));
        if is_ahead(v[i].1, now) {
            out.push((v[i].0.clone(), v[i].1));
            assert(names_view(out@) =~= before.push(all[i as int]));
        }
        i = i + 1;
    }
    assert(all.take(i as int) =~= all);
    *v = out;
}

/// The names whose expiry lies ahead.
pub open spec fn live_texts(s: Names, now: Instant) -> Seq<Seq<char>> {
    live_names(s, now).map_values(|e: (Seq<char>, Option<Instant>)| e.0)
}

/// The names whose expiry lies ahead, in order.
pub fn name_keys(v: &Vec<(String, Option<Instant>)>, now: Instant) -> (out: Vec<String>)
    ensures
        text::list_view(out@) == live_texts(names_view(v@), now),
{
    let mut out: Vec<String> = Vec::new();
    let mut i: usize = 0;
    let ghost all = names_view(v@);
    assert(all.take(0) =~= Seq::empty());
    assert(text::list_view(out@) =~= live_texts(all.take(0), now));
    while i < v.len()
        invariant
            i <= v@.len(),
            all == names_view(v@),
            text::list_view(out@) == live_texts(all.take(i as int), now),
        decreases v@.len() - i,
    {
        let ghost next = all.take(i + 1);
        let ghost before = text::list_view(out@);
        assert(next.drop_last() =~= all.take(i as int));
        if is_ahead(v[i].1, now) {
            out.push(v[i].0.clone());
            assert(text::list_view(out@) =~= before.push(all[i as int].0));
        }
        i = i + 1;
        assert(text::list_view(out@) =~= live_texts(next, now));
    }
    assert(all.take(i as int) =~= all);
    out
}

/// The soonest expiry of a name.
pub open spec fn names_soonest(s: Names) -> Option<Instant>
    decreases s.len(),
{
    if s.len() == 0 {
        None
    } else {
        sooner(names_soonest(s.drop_last()), s.last().1)
    }
}

/// The soonest expiry of a name.
pub fn names_soonest_of(v: &Vec<(String, Option<Instant>)>) -> (r: Option<Instant>)
    ensures
        r == names_soonest(names_view(v@)),
{
    let mut r: Option<Instant> = None;
    let mut i: usize = 0;
    let ghost all = names_view(v@);
    while i < v.len()
        invariant
            i <= v@.len(),
            all == names_view(v@),
            r == names_soonest(all.take(i as int)),
        decreases v@.len() - i,
    {
        assert(all.take(i + 1).drop_last() =~= all.take(i as int));
        r = sooner_of(r, v[i].1);
        i = i + 1;
    }
    assert(all.take(i as int) =~= all);
    r
}

} // verus!
