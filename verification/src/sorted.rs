//! Maps from text to anything, as lists in the order of their keys.

use vstd::prelude::*;
use vstd::string::*;
use crate::text;

verus! {

/// The keys of a list.
pub open spec fn keys<V>(s: Seq<(Seq<char>, V)>) -> Seq<Seq<char>> {
    s.map_values(|e: (Seq<char>, V)| e.0)
}

/// The keys of a list of strings.
pub open spec fn raw_keys<T>(s: Seq<(String, T)>) -> Seq<Seq<char>> {
    s.map_values(|e: (String, T)| e.0@)
}

/// How many keys come before `k`, from the front.
pub open spec fn key_place(s: Seq<Seq<char>>, k: Seq<char>) -> int
    decreases s.len(),
{
    if s.len() > 0 && text::before(s[0], k) {
        1 + key_place(s.drop_first(), k)
    } else {
        0
    }
}

/// Keys in strictly rising order.
pub open spec fn rising(s: Seq<Seq<char>>) -> bool {
    forall|i: int, j: int| 0 <= i < j < s.len() ==> text::before(#[trigger] s[i], #[trigger] s[j])
}

/// A list in strictly rising order of its keys.
pub open spec fn ordered<V>(s: Seq<(Seq<char>, V)>) -> bool {
    rising(keys(s))
}

/// Where `k` belongs.
pub open spec fn place<V>(s: Seq<(Seq<char>, V)>, k: Seq<char>) -> int {
    key_place(keys(s), k)
}

/// Whether `k` is in the list.
pub open spec fn has<V>(s: Seq<(Seq<char>, V)>, k: Seq<char>) -> bool {
    place(s, k) < s.len() && s[place(s, k)].0 == k
}

/// What the list has for `k`.
pub open spec fn get<V>(s: Seq<(Seq<char>, V)>, k: Seq<char>) -> Option<V> {
    if has(s, k) {
        Some(s[place(s, k)].1)
    } else {
        None
    }
}

/// The list with `v` for `k`.
pub open spec fn put<V>(s: Seq<(Seq<char>, V)>, k: Seq<char>, v: V) -> Seq<(Seq<char>, V)> {
    if has(s, k) {
        s.update(place(s, k), (k, v))
    } else {
        s.insert(place(s, k), (k, v))
    }
}

pub proof fn key_place_bound(s: Seq<Seq<char>>, k: Seq<char>)
    ensures
        0 <= key_place(s, k) <= s.len(),
        forall|i: int| 0 <= i < key_place(s, k) ==> text::before(#[trigger] s[i], k),
        key_place(s, k) < s.len() ==> !text::before(s[key_place(s, k)], k),
    decreases s.len(),
{
    if s.len() > 0 && text::before(s[0], k) {
        let t = s.drop_first();
        key_place_bound(t, k);
        assert forall|i: int| 0 <= i < key_place(s, k) implies text::before(#[trigger] s[i], k) by {
            if i > 0 {
                assert(s[i] == t[i - 1]);
            }
        }
        if key_place(s, k) < s.len() {
            assert(s[key_place(s, k)] == t[key_place(t, k)]);
        }
    }
}

pub proof fn key_place_found(s: Seq<Seq<char>>, k: Seq<char>, n: int)
    requires
        0 <= n <= s.len(),
        forall|i: int| 0 <= i < n ==> text::before(#[trigger] s[i], k),
        n < s.len() ==> !text::before(s[n], k),
    ensures
        key_place(s, k) == n,
    decreases n,
{
    if n > 0 {
        let t = s.drop_first();
        assert(text::before(s[0], k));
        assert forall|i: int| 0 <= i < n - 1 implies text::before(#[trigger] t[i], k) by {
            assert(t[i] == s[i + 1]);
        }
        key_place_found(t, k, n - 1);
    }
}

/// A list with one more entry is in order.
pub proof fn put_ordered<V>(s: Seq<(Seq<char>, V)>, k: Seq<char>, v: V)
    requires
        ordered(s),
    ensures
        ordered(put(s, k, v)),
{
    let ks = keys(s);
    key_place_bound(ks, k);
    let i = place(s, k);
    let t = keys(put(s, k, v));
    if has(s, k) {
        assert(t =~= ks);
    } else {
        assert(t =~= ks.insert(i, k));
        assert forall|a: int, b: int| 0 <= a < b < t.len() implies text::before(
            #[trigger] t[a],
            #[trigger] t[b],
        ) by {
            if i < ks.len() {
                text::before_total(ks[i], k);
                assert(ks[i] == s[i].0);
            }
            if b == i {
                assert(t[a] == ks[a]);
            } else if a == i {
                assert(t[b] == ks[b - 1]);
                if b - 1 > i {
                    text::before_trans(k, ks[i], ks[b - 1]);
                }
            } else if b < i {
                assert(t[a] == ks[a] && t[b] == ks[b]);
            } else if a < i {
                assert(t[a] == ks[a] && t[b] == ks[b - 1]);
            } else {
                assert(t[a] == ks[a - 1] && t[b] == ks[b - 1]);
            }
        }
    }
}

/// What an ordered list has for a key is what stands there.
pub proof fn get_at<V>(s: Seq<(Seq<char>, V)>, n: int)
    requires
        ordered(s),
        0 <= n < s.len(),
    ensures
        get(s, s[n].0) == Some(s[n].1),
        place(s, s[n].0) == n,
{
    let ks = keys(s);
    let k = s[n].0;
    assert(ks[n] == k);
    text::before_total(k, k);
    assert forall|i: int| 0 <= i < n implies text::before(#[trigger] ks[i], k) by {
        assert(text::before(ks[i], ks[n]));
    }
    key_place_found(ks, k, n);
}

/// What was put for a key is had for it, and every other key keeps what it
/// had.
pub proof fn put_get<V>(s: Seq<(Seq<char>, V)>, k: Seq<char>, v: V, j: Seq<char>)
    requires
        ordered(s),
    ensures
        get(put(s, k, v), j) == if j == k {
            Some(v)
        } else {
            get(s, j)
        },
{
    put_ordered(s, k, v);
    let t = put(s, k, v);
    let i = place(s, k);
    key_place_bound(keys(s), k);
    assert(t[i] == (k, v));
    get_at(t, i);
    if j != k {
        if has(s, j) {
            let m = place(s, j);
            key_place_bound(keys(s), j);
            let n = if has(s, k) || m < i {
                m
            } else {
                m + 1
            };
            assert(t[n] == s[m]);
            get_at(t, n);
        } else if has(t, j) {
            let n = place(t, j);
            key_place_bound(keys(t), j);
            let m = if has(s, k) || n < i {
                n
            } else {
                n - 1
            };
            assert(n != i);
            assert(s[m] == t[n]);
            get_at(s, m);
        }
    }
}

/// Where `k` belongs.
pub fn find<T>(v: &Vec<(String, T)>, k: &str) -> (n: usize)
    ensures
        n == key_place(raw_keys(v@), k@),
        n <= v@.len(),
{
    let ghost ks = raw_keys(v@);
    let mut n: usize = 0;
    while n < v.len() && text::comes_before(v[n].0.as_str(), k)
        invariant
            n <= v@.len(),
            ks == raw_keys(v@),
            forall|i: int| 0 <= i < n ==> text::before(#[trigger] ks[i], k@),
        decreases v@.len() - n,
    {
        assert(ks[n as int] == v@[n as int].0@);
        n = n + 1;
    }
    proof {
        if n < v@.len() {
            assert(ks[n as int] == v@[n as int].0@);
        }
        key_place_found(ks, k@, n as int);
    }
    n
}

} // verus!
