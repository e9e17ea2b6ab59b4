//! What is written is read back.

use vstd::prelude::*;
use vstd::string::*;
use super::{
    DnsScopeV, InterfaceStatusV, LeaseStatusV, Level, ReplyV, RequestV, SnapshotV, Sort, StatusV, WireErrorV,
};
use super::decode;
use super::decode::{Read, ReplyFields, RequestFields, TokenV, Tokens};
use super::encode;
use super::encode::ItemV;

verus! {

/// Whether a value that was written is one that was read.
pub open spec fn reads_as(item: ItemV, token: TokenV) -> bool {
    match (item, token) {
        (ItemV::Fields(n), TokenV::Fields(m)) => n == m,
        (ItemV::List(n), TokenV::List { count, .. }) => n == count,
        (ItemV::Str(s), TokenV::Str(r)) => s == r,
        (ItemV::Bool(b), TokenV::Bool(c)) => b == c,
        (ItemV::Uint(n), TokenV::Uint(m)) => n == m,
        (ItemV::Nil, TokenV::Nil) => true,
        _ => false,
    }
}

/// Whether what is read begins with what was written.
#[verifier::opaque]
pub open spec fn written(items: Seq<ItemV>, t: Tokens) -> bool {
    &&& t.len() >= items.len()
    &&& forall|i: int| 0 <= i < items.len() ==> reads_as(#[trigger] items[i], t[i])
}

/// Whether the bytes that are left are counted as they can be: every value
/// takes one at least.
#[verifier::opaque]
pub open spec fn plausible(t: Tokens) -> bool {
    forall|i: int|
        0 <= i < t.len() && (#[trigger] t[i]) is List ==> t[i]->left >= t.len() - i - 1
}

/// Whether the wire can count the elements of a list.
pub open spec fn countable<T>(s: Seq<T>) -> bool {
    s.len() < 0x1_0000_0000
}

/// Whether the wire can count what an interface lists.
pub open spec fn interface_fits(i: InterfaceStatusV) -> bool {
    countable(i.addresses) && countable(i.dns) && countable(i.search)
}

/// Whether the wire can count what a scope lists.
pub open spec fn scope_fits(s: DnsScopeV) -> bool {
    countable(s.servers) && countable(s.domains) && countable(s.ntp) && countable(s.addresses)
}

/// Whether the wire can count what a reply lists.
pub open spec fn reply_fits(r: ReplyV) -> bool {
    match r {
        ReplyV::Status(s) => countable(s.interfaces) && forall|k: int|
            0 <= k < s.interfaces.len() ==> interface_fits(#[trigger] s.interfaces[k]),
        ReplyV::Snapshot(s) => countable(s.scopes) && forall|k: int|
            0 <= k < s.scopes.len() ==> scope_fits(#[trigger] s.scopes[k]),
        _ => true,
    }
}

// ---- keys ------------------------------------------------------------------

/// Enough of a word to tell the keys apart.
spec fn code(s: Seq<char>) -> int {
    s.len() * 1000000 + (s[0] as int) * 1000 + s[s.len() - 1] as int
}

proof fn key_codes()
    ensures
        code("ifid"@) == 4105100,
        code("name"@) == 4110101,
        code("index"@) == 5105120,
        code("mac"@) == 3109099,
        code("path"@) == 4112104,
        code("driver"@) == 6100114,
        code("profile"@) == 7112101,
        code("managed"@) == 7109100,
        code("enabled"@) == 7101100,
        code("up"@) == 2117112,
        code("carrier"@) == 7099114,
        code("level"@) == 5108108,
        code("addresses"@) == 9097115,
        code("gateway"@) == 7103121,
        code("dns"@) == 3100115,
        code("search"@) == 6115104,
        code("lease"@) == 5108101,
        code("server"@) == 6115114,
        code("expires_in"@) == 10101110,
        code("state"@) == 5115101,
        code("servers"@) == 7115115,
        code("domains"@) == 7100115,
        code("ntp"@) == 3110112,
        code("default_route"@) == 13100101,
        code("exclusive"@) == 9101101,
        code("metric"@) == 6109099,
        code("ok"@) == 2111107,
        code("error"@) == 5101114,
        code("kind"@) == 4107100,
        code("scopes"@) == 6115115,
        code("hostname"@) == 8104101,
        code("interfaces"@) == 10105115,
        code("query"@) == 5113121,
        code("interface"@) == 9105101,
        code("status"@) == 6115115,
        code("renew"@) == 5114119,
        code("reconcile"@) == 9114101,
        code("subscribe"@) == 9115101,
        code("snapshot"@) == 8115116,
{
    reveal_strlit("ifid");
    reveal_strlit("name");
    reveal_strlit("index");
    reveal_strlit("mac");
    reveal_strlit("path");
    reveal_strlit("driver");
    reveal_strlit("profile");
    reveal_strlit("managed");
    reveal_strlit("enabled");
    reveal_strlit("up");
    reveal_strlit("carrier");
    reveal_strlit("level");
    reveal_strlit("addresses");
    reveal_strlit("gateway");
    reveal_strlit("dns");
    reveal_strlit("search");
    reveal_strlit("lease");
    reveal_strlit("server");
    reveal_strlit("expires_in");
    reveal_strlit("state");
    reveal_strlit("servers");
    reveal_strlit("domains");
    reveal_strlit("ntp");
    reveal_strlit("default_route");
    reveal_strlit("exclusive");
    reveal_strlit("metric");
    reveal_strlit("ok");
    reveal_strlit("error");
    reveal_strlit("kind");
    reveal_strlit("scopes");
    reveal_strlit("hostname");
    reveal_strlit("interfaces");
    reveal_strlit("query");
    reveal_strlit("interface");
    reveal_strlit("status");
    reveal_strlit("renew");
    reveal_strlit("reconcile");
    reveal_strlit("subscribe");
    reveal_strlit("snapshot");
}

// ---- pieces ----------------------------------------------------------------

proof fn piece(a: Seq<ItemV>, b: Seq<ItemV>, t: Tokens)
    requires
        written(a + b, t),
    ensures
        written(a, t),
        written(b, t.skip(a.len() as int)),
        a.len() + b.len() <= t.len(),
        t.skip(a.len() as int).skip(b.len() as int) == t.skip((a + b).len() as int),
{
    reveal(written);
    assert(t.skip(a.len() as int).skip(b.len() as int) =~= t.skip((a + b).len() as int));
    let ab = a + b;
    assert forall|i: int| 0 <= i < a.len() implies reads_as(#[trigger] a[i], t[i]) by {
        assert(ab[i] == a[i]);
    }
    let u = t.skip(a.len() as int);
    assert forall|i: int| 0 <= i < b.len() implies reads_as(#[trigger] b[i], u[i]) by {
        assert(ab[a.len() + i] == b[i]);
    }
}

proof fn short(a: Seq<ItemV>, t: Tokens)
    requires
        written(a, t),
    ensures
        a.len() <= t.len(),
{
    reveal(written);
}

proof fn still_plausible(t: Tokens, n: int)
    requires
        plausible(t),
        0 <= n <= t.len(),
    ensures
        plausible(t.skip(n)),
{
    reveal(written);
    reveal(plausible);
    let u = t.skip(n);
    assert forall|i: int| 0 <= i < u.len() && (#[trigger] u[i]) is List implies u[i]->left
        >= u.len() - i - 1 by {
        assert(t[n + i] == u[i]);
    }
}

proof fn firsts(t: Tokens)
    requires
        t.len() > 0,
    ensures
        t.drop_first() == t.skip(1),
{
    assert(t.drop_first() =~= t.skip(1));
}

proof fn firsts_two(t: Tokens)
    requires
        t.len() > 1,
    ensures
        t.drop_first() == t.skip(1),
        t.skip(1).drop_first() == t.skip(2),
        t.skip(1)[0] == t[1],
        t.skip(1).len() > 0,
{
    assert(t.drop_first() =~= t.skip(1));
    assert(t.skip(1).drop_first() =~= t.skip(2));
}

proof fn str_read(key: Seq<char>, v: Seq<char>, t: Tokens)
    requires
        written(encode::str_field(key, v), t),
    ensures
        decode::str_from(t) == Ok::<_, WireErrorV>((key, t.skip(1))),
        decode::str_from(t.skip(1)) == Ok::<_, WireErrorV>((v, t.skip(2))),
        decode::opt_from(t.skip(1)) == Ok::<_, WireErrorV>((Some(v), t.skip(2))),
        t.len() >= 2,
{
    reveal(written);
    reveal(plausible);
    let f = encode::str_field(key, v);
    assert(reads_as(f[0], t[0]) && reads_as(f[1], t[1]));
    firsts_two(t);
}

proof fn opt_read(key: Seq<char>, v: Option<Seq<char>>, t: Tokens)
    requires
        written(encode::opt_field(key, v), t),
    ensures
        decode::str_from(t) == Ok::<_, WireErrorV>((key, t.skip(1))),
        decode::opt_from(t.skip(1)) == Ok::<_, WireErrorV>((v, t.skip(2))),
        t.len() >= 2,
{
    reveal(written);
    reveal(plausible);
    let f = encode::opt_field(key, v);
    assert(reads_as(f[0], t[0]) && reads_as(f[1], t[1]));
    firsts_two(t);
}

proof fn bool_read(key: Seq<char>, v: bool, t: Tokens)
    requires
        written(encode::bool_field(key, v), t),
    ensures
        decode::str_from(t) == Ok::<_, WireErrorV>((key, t.skip(1))),
        decode::bool_from(t.skip(1)) == Ok::<_, WireErrorV>((v, t.skip(2))),
        t.len() >= 2,
{
    reveal(written);
    reveal(plausible);
    let f = encode::bool_field(key, v);
    assert(reads_as(f[0], t[0]) && reads_as(f[1], t[1]));
    firsts_two(t);
}

proof fn uint_read(key: Seq<char>, v: u64, t: Tokens)
    requires
        written(encode::uint_field(key, v), t),
    ensures
        decode::str_from(t) == Ok::<_, WireErrorV>((key, t.skip(1))),
        decode::uint_from(t.skip(1)) == Ok::<_, WireErrorV>((v, t.skip(2))),
        v < 0x1_0000_0000 ==> decode::u32_from(t.skip(1)) == Ok::<_, WireErrorV>(
            (v as u32, t.skip(2)),
        ),
        t.len() >= 2,
{
    reveal(written);
    reveal(plausible);
    let f = encode::uint_field(key, v);
    assert(reads_as(f[0], t[0]) && reads_as(f[1], t[1]));
    firsts_two(t);
}

proof fn level_read(key: Seq<char>, v: Level, t: Tokens)
    requires
        written(encode::str_field(key, v.name()), t),
    ensures
        decode::str_from(t) == Ok::<_, WireErrorV>((key, t.skip(1))),
        decode::level_from(t.skip(1)) == Ok::<_, WireErrorV>((v, t.skip(2))),
        t.len() >= 2,
{
    str_read(key, v.name(), t);
    super::levels_parse(v);
}

proof fn texts_read(v: Seq<Seq<char>>, t: Tokens)
    requires
        written(encode::texts(v), t),
    ensures
        decode::strs_from(t, v.len()) == Ok::<_, WireErrorV>((v, t.skip(v.len() as int))),
    decreases v.len(),
{
    reveal(written);
    reveal(plausible);
    if v.len() == 0 {
        assert(t.skip(0) =~= t);
        assert(v =~= Seq::empty());
    } else {
        let w = v.drop_last();
        assert forall|i: int| 0 <= i < w.len() implies reads_as(
            #[trigger] encode::texts(w)[i],
            t[i],
        ) by {
            assert(encode::texts(v)[i] == encode::texts(w)[i]);
        }
        texts_read(w, t);
        let u = t.skip(w.len() as int);
        assert(reads_as(encode::texts(v)[w.len() as int], t[w.len() as int]));
        assert(u.drop_first() =~= t.skip(v.len() as int));
        assert(w.push(v.last()) =~= v);
    }
}

proof fn list_read(key: Seq<char>, v: Seq<Seq<char>>, t: Tokens)
    requires
        written(encode::list_field(key, v), t),
        countable(v),
        plausible(t),
    ensures
        decode::str_from(t) == Ok::<_, WireErrorV>((key, t.skip(1))),
        decode::list_from(t.skip(1)) == Ok::<_, WireErrorV>((v, t.skip(2 + v.len() as int))),
        t.len() >= 2 + v.len(),
{
    reveal(written);
    reveal(plausible);
    let head = seq![ItemV::Str(key), ItemV::List(encode::count(v.len()))];
    piece(head, encode::texts(v), t);
    assert(reads_as(head[0], t[0]) && reads_as(head[1], t[1]));
    firsts_two(t);
    texts_read(v, t.skip(2));
    assert(t.skip(2).skip(v.len() as int) =~= t.skip(2 + v.len() as int));
}

proof fn step<S>(
    t: Tokens,
    n: nat,
    seen: Seq<Seq<char>>,
    s: S,
    f: spec_fn(S, Seq<char>, Tokens) -> Read<S>,
    key: Seq<char>,
    u: Tokens,
    s2: S,
    t2: Tokens,
)
    requires
        n > 0,
        decode::str_from(t) == Ok::<_, WireErrorV>((key, u)),
        !seen.contains(key),
        f(s, key, u) == Ok::<_, WireErrorV>((s2, t2)),
    ensures
        decode::fields_from(t, n, seen, s, f) == decode::fields_from(
            t2,
            (n - 1) as nat,
            seen.push(key),
            s2,
            f,
        ),
{
}

/// No word of the list has this code.
spec fn unlike(seen: Seq<Seq<char>>, c: int) -> bool {
    forall|i: int| 0 <= i < seen.len() ==> code(#[trigger] seen[i]) != c
}

proof fn fresh(seen: Seq<Seq<char>>, key: Seq<char>)
    requires
        unlike(seen, code(key)),
    ensures
        !seen.contains(key),
{
}

proof fn lease_map_read(l: LeaseStatusV, t: Tokens)
    requires
        written(encode::lease_field(Some(l)), t),
    ensures
        decode::str_from(t) == Ok::<_, WireErrorV>(("lease"@, t.skip(1))),
        decode::lease_from(t.skip(1)) == Ok::<_, WireErrorV>((l, t.skip(8))),
        t.len() >= 8,
{
    key_codes();
    let f = |s: LeaseStatusV, k: Seq<char>, r: Tokens| decode::lease_entry(s, k, r);
    let p0 = seq![ItemV::Str("lease"@), ItemV::Fields(3)];
    let g1 = encode::str_field("server"@, l.server);
    let p1 = p0 + g1;
    let g2 = encode::uint_field("expires_in"@, l.expires_in);
    let p2 = p1 + g2;
    let g3 = encode::str_field("state"@, l.state);
    let p3 = p2 + g3;
    piece(p2, g3, t);
    piece(p1, g2, t);
    piece(p0, g1, t);
    let seen0 = Seq::<Seq<char>>::empty();
    let s0 = super::no_lease();
    let t0 = t.skip(p0.len() as int);
    str_read("server"@, l.server, t0);
    let t1 = t.skip(p1.len() as int);
    assert(t0.skip(g1.len() as int) =~= t1);
    let s1 = LeaseStatusV { server: l.server, ..s0 };
    assert(unlike(seen0, code("server"@)));
    fresh(seen0, "server"@);
    let seen1 = seen0.push("server"@);
    step(t0, 3, seen0, s0, f, "server"@, t0.skip(1), s1, t1);
    uint_read("expires_in"@, l.expires_in, t1);
    let t2 = t.skip(p2.len() as int);
    assert(t1.skip(g2.len() as int) =~= t2);
    let s2 = LeaseStatusV { expires_in: l.expires_in, ..s1 };
    assert(unlike(seen1, code("expires_in"@)));
    fresh(seen1, "expires_in"@);
    let seen2 = seen1.push("expires_in"@);
    step(t1, 2, seen1, s1, f, "expires_in"@, t1.skip(1), s2, t2);
    str_read("state"@, l.state, t2);
    let t3 = t.skip(p3.len() as int);
    assert(t2.skip(g3.len() as int) =~= t3);
    let s3 = LeaseStatusV { state: l.state, ..s2 };
    assert(unlike(seen2, code("state"@)));
    fresh(seen2, "state"@);
    let seen3 = seen2.push("state"@);
    step(t2, 1, seen2, s2, f, "state"@, t2.skip(1), s3, t3);
    assert(reads_as(p0[0], t[0]) && reads_as(p0[1], t[1])) by {
        reveal(written);
    }
    firsts_two(t);
    assert(s3 =~= l);
}

proof fn lease_read(lease: Option<LeaseStatusV>, t: Tokens)
    requires
        written(encode::lease_field(lease), t),
    ensures
        decode::str_from(t) == Ok::<_, WireErrorV>(("lease"@, t.skip(1))),
        decode::lease_or_nil(t.skip(1), None) == Ok::<_, WireErrorV>(
            (lease, t.skip(encode::lease_field(lease).len() as int)),
        ),
        t.len() >= encode::lease_field(lease).len(),
{
    reveal(written);
    match lease {
        None => {
            let f = encode::lease_field(lease);
            assert(reads_as(f[0], t[0]) && reads_as(f[1], t[1]));
            firsts_two(t);
        },
        Some(l) => {
            lease_map_read(l, t);
            let head = seq![ItemV::Str("lease"@), ItemV::Fields(3)];
            let rest = encode::str_field("server"@, l.server) + encode::uint_field(
                "expires_in"@,
                l.expires_in,
            ) + encode::str_field("state"@, l.state);
            assert(encode::lease_field(lease) =~= head + rest);
            piece(head, rest, t);
            assert(reads_as(head[1], t[1]));
            firsts_two(t);
        },
    }
}

/// The keys of what an interface is.
spec fn head_keys() -> Seq<Seq<char>> {
    seq!["ifid"@, "name"@, "index"@, "mac"@, "path"@, "driver"@, "profile"@]
}

/// An interface of which only what it is has been read.
spec fn headed(i: InterfaceStatusV) -> InterfaceStatusV {
    InterfaceStatusV {
        ifid: i.ifid,
        name: i.name,
        index: i.index,
        mac: i.mac,
        path: i.path,
        driver: i.driver,
        profile: i.profile,
        ..super::no_interface()
    }
}

spec fn interface_taker() -> spec_fn(InterfaceStatusV, Seq<char>, Tokens) -> Read<InterfaceStatusV> {
    |i: InterfaceStatusV, k: Seq<char>, r: Tokens| decode::interface_entry(i, k, r)
}

proof fn interface_ifid(i: InterfaceStatusV, s: InterfaceStatusV, seen: Seq<Seq<char>>, n: nat, t: Tokens)
    requires
        written(encode::str_field("ifid"@, i.ifid), t),
        plausible(t),
        n > 0,
        unlike(seen, code("ifid"@)),
    ensures
        decode::fields_from(t, n, seen, s, interface_taker()) == decode::fields_from(
            t.skip(encode::str_field("ifid"@, i.ifid).len() as int),
            (n - 1) as nat,
            seen.push("ifid"@),
            InterfaceStatusV { ifid: i.ifid, ..s },
            interface_taker(),
        ),
{
    key_codes();
    reveal(decode::interface_entry);
    str_read("ifid"@, i.ifid, t);
    fresh(seen, "ifid"@);
    let after = InterfaceStatusV { ifid: i.ifid, ..s };
    let rest = t.skip(encode::str_field("ifid"@, i.ifid).len() as int);
    step(t, n, seen, s, interface_taker(), "ifid"@, t.skip(1), after, rest);
}

proof fn interface_name(i: InterfaceStatusV, s: InterfaceStatusV, seen: Seq<Seq<char>>, n: nat, t: Tokens)
    requires
        written(encode::str_field("name"@, i.name), t),
        plausible(t),
        n > 0,
        unlike(seen, code("name"@)),
    ensures
        decode::fields_from(t, n, seen, s, interface_taker()) == decode::fields_from(
            t.skip(encode::str_field("name"@, i.name).len() as int),
            (n - 1) as nat,
            seen.push("name"@),
            InterfaceStatusV { name: i.name, ..s },
            interface_taker(),
        ),
{
    key_codes();
    reveal(decode::interface_entry);
    str_read("name"@, i.name, t);
    fresh(seen, "name"@);
    let after = InterfaceStatusV { name: i.name, ..s };
    let rest = t.skip(encode::str_field("name"@, i.name).len() as int);
    step(t, n, seen, s, interface_taker(), "name"@, t.skip(1), after, rest);
}

proof fn interface_index(i: InterfaceStatusV, s: InterfaceStatusV, seen: Seq<Seq<char>>, n: nat, t: Tokens)
    requires
        written(encode::uint_field("index"@, i.index as u64), t),
        plausible(t),
        n > 0,
        unlike(seen, code("index"@)),
    ensures
        decode::fields_from(t, n, seen, s, interface_taker()) == decode::fields_from(
            t.skip(encode::uint_field("index"@, i.index as u64).len() as int),
            (n - 1) as nat,
            seen.push("index"@),
            InterfaceStatusV { index: i.index, ..s },
            interface_taker(),
        ),
{
    key_codes();
    reveal(decode::interface_entry);
    uint_read("index"@, i.index as u64, t);
    fresh(seen, "index"@);
    let after = InterfaceStatusV { index: i.index, ..s };
    let rest = t.skip(encode::uint_field("index"@, i.index as u64).len() as int);
    step(t, n, seen, s, interface_taker(), "index"@, t.skip(1), after, rest);
}

proof fn interface_mac(i: InterfaceStatusV, s: InterfaceStatusV, seen: Seq<Seq<char>>, n: nat, t: Tokens)
    requires
        written(encode::str_field("mac"@, i.mac), t),
        plausible(t),
        n > 0,
        unlike(seen, code("mac"@)),
    ensures
        decode::fields_from(t, n, seen, s, interface_taker()) == decode::fields_from(
            t.skip(encode::str_field("mac"@, i.mac).len() as int),
            (n - 1) as nat,
            seen.push("mac"@),
            InterfaceStatusV { mac: i.mac, ..s },
            interface_taker(),
        ),
{
    key_codes();
    reveal(decode::interface_entry);
    str_read("mac"@, i.mac, t);
    fresh(seen, "mac"@);
    let after = InterfaceStatusV { mac: i.mac, ..s };
    let rest = t.skip(encode::str_field("mac"@, i.mac).len() as int);
    step(t, n, seen, s, interface_taker(), "mac"@, t.skip(1), after, rest);
}

proof fn interface_path(i: InterfaceStatusV, s: InterfaceStatusV, seen: Seq<Seq<char>>, n: nat, t: Tokens)
    requires
        written(encode::str_field("path"@, i.path), t),
        plausible(t),
        n > 0,
        unlike(seen, code("path"@)),
    ensures
        decode::fields_from(t, n, seen, s, interface_taker()) == decode::fields_from(
            t.skip(encode::str_field("path"@, i.path).len() as int),
            (n - 1) as nat,
            seen.push("path"@),
            InterfaceStatusV { path: i.path, ..s },
            interface_taker(),
        ),
{
    key_codes();
    reveal(decode::interface_entry);
    str_read("path"@, i.path, t);
    fresh(seen, "path"@);
    let after = InterfaceStatusV { path: i.path, ..s };
    let rest = t.skip(encode::str_field("path"@, i.path).len() as int);
    step(t, n, seen, s, interface_taker(), "path"@, t.skip(1), after, rest);
}

proof fn interface_driver(i: InterfaceStatusV, s: InterfaceStatusV, seen: Seq<Seq<char>>, n: nat, t: Tokens)
    requires
        written(encode::str_field("driver"@, i.driver), t),
        plausible(t),
        n > 0,
        unlike(seen, code("driver"@)),
    ensures
        decode::fields_from(t, n, seen, s, interface_taker()) == decode::fields_from(
            t.skip(encode::str_field("driver"@, i.driver).len() as int),
            (n - 1) as nat,
            seen.push("driver"@),
            InterfaceStatusV { driver: i.driver, ..s },
            interface_taker(),
        ),
{
    key_codes();
    reveal(decode::interface_entry);
    str_read("driver"@, i.driver, t);
    fresh(seen, "driver"@);
    let after = InterfaceStatusV { driver: i.driver, ..s };
    let rest = t.skip(encode::str_field("driver"@, i.driver).len() as int);
    step(t, n, seen, s, interface_taker(), "driver"@, t.skip(1), after, rest);
}

proof fn interface_profile(i: InterfaceStatusV, s: InterfaceStatusV, seen: Seq<Seq<char>>, n: nat, t: Tokens)
    requires
        written(encode::opt_field("profile"@, i.profile), t),
        plausible(t),
        n > 0,
        unlike(seen, code("profile"@)),
    ensures
        decode::fields_from(t, n, seen, s, interface_taker()) == decode::fields_from(
            t.skip(encode::opt_field("profile"@, i.profile).len() as int),
            (n - 1) as nat,
            seen.push("profile"@),
            InterfaceStatusV { profile: i.profile, ..s },
            interface_taker(),
        ),
{
    key_codes();
    reveal(decode::interface_entry);
    opt_read("profile"@, i.profile, t);
    fresh(seen, "profile"@);
    let after = InterfaceStatusV { profile: i.profile, ..s };
    let rest = t.skip(encode::opt_field("profile"@, i.profile).len() as int);
    step(t, n, seen, s, interface_taker(), "profile"@, t.skip(1), after, rest);
}

#[verifier::spinoff_prover]
proof fn interface_head_read(i: InterfaceStatusV, t: Tokens)
    requires
        written(encode::interface_head(i), t),
        plausible(t),
    ensures
        decode::interface_from(t) == decode::fields_from(
            t.skip(15),
            10,
            head_keys(),
            headed(i),
            interface_taker(),
        ),
        t.len() >= 15,
{
    key_codes();
    let f = interface_taker();
    let p0 = seq![ItemV::Fields(17)];
    let g1 = encode::str_field("ifid"@, i.ifid);
    let p1 = p0 + g1;
    let g2 = encode::str_field("name"@, i.name);
    let p2 = p1 + g2;
    let g3 = encode::uint_field("index"@, i.index as u64);
    let p3 = p2 + g3;
    let g4 = encode::str_field("mac"@, i.mac);
    let p4 = p3 + g4;
    let g5 = encode::str_field("path"@, i.path);
    let p5 = p4 + g5;
    let g6 = encode::str_field("driver"@, i.driver);
    let p6 = p5 + g6;
    let g7 = encode::opt_field("profile"@, i.profile);
    let p7 = p6 + g7;
    piece(p6, g7, t);
    piece(p5, g6, t);
    piece(p4, g5, t);
    piece(p3, g4, t);
    piece(p2, g3, t);
    piece(p1, g2, t);
    piece(p0, g1, t);
    let seen0 = Seq::<Seq<char>>::empty();
    let s0 = super::no_interface();
    let t0 = t.skip(p0.len() as int);
    short(p0, t);
    still_plausible(t, p0.len() as int);
    interface_ifid(i, s0, seen0, 17, t0);
    let t1 = t.skip(p1.len() as int);
    let s1 = InterfaceStatusV { ifid: i.ifid, ..s0 };
    let seen1 = seen0.push("ifid"@);
    short(p1, t);
    still_plausible(t, p1.len() as int);
    interface_name(i, s1, seen1, 16, t1);
    let t2 = t.skip(p2.len() as int);
    let s2 = InterfaceStatusV { name: i.name, ..s1 };
    let seen2 = seen1.push("name"@);
    short(p2, t);
    still_plausible(t, p2.len() as int);
    interface_index(i, s2, seen2, 15, t2);
    let t3 = t.skip(p3.len() as int);
    let s3 = InterfaceStatusV { index: i.index, ..s2 };
    let seen3 = seen2.push("index"@);
    short(p3, t);
    still_plausible(t, p3.len() as int);
    interface_mac(i, s3, seen3, 14, t3);
    let t4 = t.skip(p4.len() as int);
    let s4 = InterfaceStatusV { mac: i.mac, ..s3 };
    let seen4 = seen3.push("mac"@);
    short(p4, t);
    still_plausible(t, p4.len() as int);
    interface_path(i, s4, seen4, 13, t4);
    let t5 = t.skip(p5.len() as int);
    let s5 = InterfaceStatusV { path: i.path, ..s4 };
    let seen5 = seen4.push("path"@);
    short(p5, t);
    still_plausible(t, p5.len() as int);
    interface_driver(i, s5, seen5, 12, t5);
    let t6 = t.skip(p6.len() as int);
    let s6 = InterfaceStatusV { driver: i.driver, ..s5 };
    let seen6 = seen5.push("driver"@);
    short(p6, t);
    still_plausible(t, p6.len() as int);
    interface_profile(i, s6, seen6, 11, t6);
    let t7 = t.skip(p7.len() as int);
    let s7 = InterfaceStatusV { profile: i.profile, ..s6 };
    let seen7 = seen6.push("profile"@);
    assert(t.len() > 0 && reads_as(p0[0], t[0])) by {
        reveal(written);
    }
    firsts(t);
    assert(s7 =~= headed(i));
    assert(seen7 =~= head_keys());
}

proof fn interface_managed(i: InterfaceStatusV, s: InterfaceStatusV, seen: Seq<Seq<char>>, n: nat, t: Tokens)
    requires
        written(encode::bool_field("managed"@, i.managed), t),
        plausible(t),
        n > 0,
        unlike(seen, code("managed"@)),
    ensures
        decode::fields_from(t, n, seen, s, interface_taker()) == decode::fields_from(
            t.skip(encode::bool_field("managed"@, i.managed).len() as int),
            (n - 1) as nat,
            seen.push("managed"@),
            InterfaceStatusV { managed: i.managed, ..s },
            interface_taker(),
        ),
{
    key_codes();
    reveal(decode::interface_entry);
    bool_read("managed"@, i.managed, t);
    fresh(seen, "managed"@);
    let after = InterfaceStatusV { managed: i.managed, ..s };
    let rest = t.skip(encode::bool_field("managed"@, i.managed).len() as int);
    step(t, n, seen, s, interface_taker(), "managed"@, t.skip(1), after, rest);
}

proof fn interface_enabled(i: InterfaceStatusV, s: InterfaceStatusV, seen: Seq<Seq<char>>, n: nat, t: Tokens)
    requires
        written(encode::bool_field("enabled"@, i.enabled), t),
        plausible(t),
        n > 0,
        unlike(seen, code("enabled"@)),
    ensures
        decode::fields_from(t, n, seen, s, interface_taker()) == decode::fields_from(
            t.skip(encode::bool_field("enabled"@, i.enabled).len() as int),
            (n - 1) as nat,
            seen.push("enabled"@),
            InterfaceStatusV { enabled: i.enabled, ..s },
            interface_taker(),
        ),
{
    key_codes();
    reveal(decode::interface_entry);
    bool_read("enabled"@, i.enabled, t);
    fresh(seen, "enabled"@);
    let after = InterfaceStatusV { enabled: i.enabled, ..s };
    let rest = t.skip(encode::bool_field("enabled"@, i.enabled).len() as int);
    step(t, n, seen, s, interface_taker(), "enabled"@, t.skip(1), after, rest);
}

proof fn interface_up(i: InterfaceStatusV, s: InterfaceStatusV, seen: Seq<Seq<char>>, n: nat, t: Tokens)
    requires
        written(encode::bool_field("up"@, i.up), t),
        plausible(t),
        n > 0,
        unlike(seen, code("up"@)),
    ensures
        decode::fields_from(t, n, seen, s, interface_taker()) == decode::fields_from(
            t.skip(encode::bool_field("up"@, i.up).len() as int),
            (n - 1) as nat,
            seen.push("up"@),
            InterfaceStatusV { up: i.up, ..s },
            interface_taker(),
        ),
{
    key_codes();
    reveal(decode::interface_entry);
    bool_read("up"@, i.up, t);
    fresh(seen, "up"@);
    let after = InterfaceStatusV { up: i.up, ..s };
    let rest = t.skip(encode::bool_field("up"@, i.up).len() as int);
    step(t, n, seen, s, interface_taker(), "up"@, t.skip(1), after, rest);
}

proof fn interface_carrier(i: InterfaceStatusV, s: InterfaceStatusV, seen: Seq<Seq<char>>, n: nat, t: Tokens)
    requires
        written(encode::bool_field("carrier"@, i.carrier), t),
        plausible(t),
        n > 0,
        unlike(seen, code("carrier"@)),
    ensures
        decode::fields_from(t, n, seen, s, interface_taker()) == decode::fields_from(
            t.skip(encode::bool_field("carrier"@, i.carrier).len() as int),
            (n - 1) as nat,
            seen.push("carrier"@),
            InterfaceStatusV { carrier: i.carrier, ..s },
            interface_taker(),
        ),
{
    key_codes();
    reveal(decode::interface_entry);
    bool_read("carrier"@, i.carrier, t);
    fresh(seen, "carrier"@);
    let after = InterfaceStatusV { carrier: i.carrier, ..s };
    let rest = t.skip(encode::bool_field("carrier"@, i.carrier).len() as int);
    step(t, n, seen, s, interface_taker(), "carrier"@, t.skip(1), after, rest);
}

proof fn interface_level(i: InterfaceStatusV, s: InterfaceStatusV, seen: Seq<Seq<char>>, n: nat, t: Tokens)
    requires
        written(encode::str_field("level"@, i.level.name()), t),
        plausible(t),
        n > 0,
        unlike(seen, code("level"@)),
    ensures
        decode::fields_from(t, n, seen, s, interface_taker()) == decode::fields_from(
            t.skip(encode::str_field("level"@, i.level.name()).len() as int),
            (n - 1) as nat,
            seen.push("level"@),
            InterfaceStatusV { level: i.level, ..s },
            interface_taker(),
        ),
{
    key_codes();
    reveal(decode::interface_entry);
    level_read("level"@, i.level, t);
    fresh(seen, "level"@);
    let after = InterfaceStatusV { level: i.level, ..s };
    let rest = t.skip(encode::str_field("level"@, i.level.name()).len() as int);
    step(t, n, seen, s, interface_taker(), "level"@, t.skip(1), after, rest);
}

proof fn interface_addresses(i: InterfaceStatusV, s: InterfaceStatusV, seen: Seq<Seq<char>>, n: nat, t: Tokens)
    requires
        written(encode::list_field("addresses"@, i.addresses), t),
        plausible(t),
        countable(i.addresses),
        n > 0,
        unlike(seen, code("addresses"@)),
    ensures
        decode::fields_from(t, n, seen, s, interface_taker()) == decode::fields_from(
            t.skip(encode::list_field("addresses"@, i.addresses).len() as int),
            (n - 1) as nat,
            seen.push("addresses"@),
            InterfaceStatusV { addresses: i.addresses, ..s },
            interface_taker(),
        ),
{
    key_codes();
    reveal(decode::interface_entry);
    list_read("addresses"@, i.addresses, t);
    fresh(seen, "addresses"@);
    let after = InterfaceStatusV { addresses: i.addresses, ..s };
    let rest = t.skip(encode::list_field("addresses"@, i.addresses).len() as int);
    step(t, n, seen, s, interface_taker(), "addresses"@, t.skip(1), after, rest);
}

proof fn interface_gateway(i: InterfaceStatusV, s: InterfaceStatusV, seen: Seq<Seq<char>>, n: nat, t: Tokens)
    requires
        written(encode::opt_field("gateway"@, i.gateway), t),
        plausible(t),
        n > 0,
        unlike(seen, code("gateway"@)),
    ensures
        decode::fields_from(t, n, seen, s, interface_taker()) == decode::fields_from(
            t.skip(encode::opt_field("gateway"@, i.gateway).len() as int),
            (n - 1) as nat,
            seen.push("gateway"@),
            InterfaceStatusV { gateway: i.gateway, ..s },
            interface_taker(),
        ),
{
    key_codes();
    reveal(decode::interface_entry);
    opt_read("gateway"@, i.gateway, t);
    fresh(seen, "gateway"@);
    let after = InterfaceStatusV { gateway: i.gateway, ..s };
    let rest = t.skip(encode::opt_field("gateway"@, i.gateway).len() as int);
    step(t, n, seen, s, interface_taker(), "gateway"@, t.skip(1), after, rest);
}

proof fn interface_dns(i: InterfaceStatusV, s: InterfaceStatusV, seen: Seq<Seq<char>>, n: nat, t: Tokens)
    requires
        written(encode::list_field("dns"@, i.dns), t),
        plausible(t),
        countable(i.dns),
        n > 0,
        unlike(seen, code("dns"@)),
    ensures
        decode::fields_from(t, n, seen, s, interface_taker()) == decode::fields_from(
            t.skip(encode::list_field("dns"@, i.dns).len() as int),
            (n - 1) as nat,
            seen.push("dns"@),
            InterfaceStatusV { dns: i.dns, ..s },
            interface_taker(),
        ),
{
    key_codes();
    reveal(decode::interface_entry);
    list_read("dns"@, i.dns, t);
    fresh(seen, "dns"@);
    let after = InterfaceStatusV { dns: i.dns, ..s };
    let rest = t.skip(encode::list_field("dns"@, i.dns).len() as int);
    step(t, n, seen, s, interface_taker(), "dns"@, t.skip(1), after, rest);
}

proof fn interface_search(i: InterfaceStatusV, s: InterfaceStatusV, seen: Seq<Seq<char>>, n: nat, t: Tokens)
    requires
        written(encode::list_field("search"@, i.search), t),
        plausible(t),
        countable(i.search),
        n > 0,
        unlike(seen, code("search"@)),
    ensures
        decode::fields_from(t, n, seen, s, interface_taker()) == decode::fields_from(
            t.skip(encode::list_field("search"@, i.search).len() as int),
            (n - 1) as nat,
            seen.push("search"@),
            InterfaceStatusV { search: i.search, ..s },
            interface_taker(),
        ),
{
    key_codes();
    reveal(decode::interface_entry);
    list_read("search"@, i.search, t);
    fresh(seen, "search"@);
    let after = InterfaceStatusV { search: i.search, ..s };
    let rest = t.skip(encode::list_field("search"@, i.search).len() as int);
    step(t, n, seen, s, interface_taker(), "search"@, t.skip(1), after, rest);
}

proof fn interface_lease(i: InterfaceStatusV, s: InterfaceStatusV, seen: Seq<Seq<char>>, n: nat, t: Tokens)
    requires
        written(encode::lease_field(i.lease), t),
        plausible(t),
        s.lease is None,
        n > 0,
        unlike(seen, code("lease"@)),
    ensures
        decode::fields_from(t, n, seen, s, interface_taker()) == decode::fields_from(
            t.skip(encode::lease_field(i.lease).len() as int),
            (n - 1) as nat,
            seen.push("lease"@),
            InterfaceStatusV { lease: i.lease, ..s },
            interface_taker(),
        ),
{
    key_codes();
    reveal(decode::interface_entry);
    lease_read(i.lease, t);
    fresh(seen, "lease"@);
    let after = InterfaceStatusV { lease: i.lease, ..s };
    let rest = t.skip(encode::lease_field(i.lease).len() as int);
    step(t, n, seen, s, interface_taker(), "lease"@, t.skip(1), after, rest);
}

#[verifier::spinoff_prover]
proof fn interface_tail_read(i: InterfaceStatusV, t: Tokens)
    requires
        written(encode::interface_tail(i), t),
        plausible(t),
        interface_fits(i),
    ensures
        decode::fields_from(t, 10, head_keys(), headed(i), interface_taker()) == Ok::<
            _,
            WireErrorV,
        >((i, t.skip(encode::interface_tail(i).len() as int))),
{
    key_codes();
    let f = interface_taker();
    let p0 = Seq::<ItemV>::empty();
    let g1 = encode::bool_field("managed"@, i.managed);
    let p1 = p0 + g1;
    let g2 = encode::bool_field("enabled"@, i.enabled);
    let p2 = p1 + g2;
    let g3 = encode::bool_field("up"@, i.up);
    let p3 = p2 + g3;
    let g4 = encode::bool_field("carrier"@, i.carrier);
    let p4 = p3 + g4;
    let g5 = encode::str_field("level"@, i.level.name());
    let p5 = p4 + g5;
    let g6 = encode::list_field("addresses"@, i.addresses);
    let p6 = p5 + g6;
    let g7 = encode::opt_field("gateway"@, i.gateway);
    let p7 = p6 + g7;
    let g8 = encode::list_field("dns"@, i.dns);
    let p8 = p7 + g8;
    let g9 = encode::list_field("search"@, i.search);
    let p9 = p8 + g9;
    let g10 = encode::lease_field(i.lease);
    let p10 = p9 + g10;
    assert(encode::interface_tail(i) =~= p10);
    piece(p9, g10, t);
    piece(p8, g9, t);
    piece(p7, g8, t);
    piece(p6, g7, t);
    piece(p5, g6, t);
    piece(p4, g5, t);
    piece(p3, g4, t);
    piece(p2, g3, t);
    piece(p1, g2, t);
    piece(p0, g1, t);
    let seen0 = head_keys();
    let s0 = headed(i);
    let t0 = t.skip(p0.len() as int);
    short(p0, t);
    still_plausible(t, p0.len() as int);
    interface_managed(i, s0, seen0, 10, t0);
    let t1 = t.skip(p1.len() as int);
    let s1 = InterfaceStatusV { managed: i.managed, ..s0 };
    let seen1 = seen0.push("managed"@);
    short(p1, t);
    still_plausible(t, p1.len() as int);
    interface_enabled(i, s1, seen1, 9, t1);
    let t2 = t.skip(p2.len() as int);
    let s2 = InterfaceStatusV { enabled: i.enabled, ..s1 };
    let seen2 = seen1.push("enabled"@);
    short(p2, t);
    still_plausible(t, p2.len() as int);
    interface_up(i, s2, seen2, 8, t2);
    let t3 = t.skip(p3.len() as int);
    let s3 = InterfaceStatusV { up: i.up, ..s2 };
    let seen3 = seen2.push("up"@);
    short(p3, t);
    still_plausible(t, p3.len() as int);
    interface_carrier(i, s3, seen3, 7, t3);
    let t4 = t.skip(p4.len() as int);
    let s4 = InterfaceStatusV { carrier: i.carrier, ..s3 };
    let seen4 = seen3.push("carrier"@);
    short(p4, t);
    still_plausible(t, p4.len() as int);
    interface_level(i, s4, seen4, 6, t4);
    let t5 = t.skip(p5.len() as int);
    let s5 = InterfaceStatusV { level: i.level, ..s4 };
    let seen5 = seen4.push("level"@);
    short(p5, t);
    still_plausible(t, p5.len() as int);
    interface_addresses(i, s5, seen5, 5, t5);
    let t6 = t.skip(p6.len() as int);
    let s6 = InterfaceStatusV { addresses: i.addresses, ..s5 };
    let seen6 = seen5.push("addresses"@);
    short(p6, t);
    still_plausible(t, p6.len() as int);
    interface_gateway(i, s6, seen6, 4, t6);
    let t7 = t.skip(p7.len() as int);
    let s7 = InterfaceStatusV { gateway: i.gateway, ..s6 };
    let seen7 = seen6.push("gateway"@);
    short(p7, t);
    still_plausible(t, p7.len() as int);
    interface_dns(i, s7, seen7, 3, t7);
    let t8 = t.skip(p8.len() as int);
    let s8 = InterfaceStatusV { dns: i.dns, ..s7 };
    let seen8 = seen7.push("dns"@);
    short(p8, t);
    still_plausible(t, p8.len() as int);
    interface_search(i, s8, seen8, 2, t8);
    let t9 = t.skip(p9.len() as int);
    let s9 = InterfaceStatusV { search: i.search, ..s8 };
    let seen9 = seen8.push("search"@);
    short(p9, t);
    still_plausible(t, p9.len() as int);
    interface_lease(i, s9, seen9, 1, t9);
    let t10 = t.skip(p10.len() as int);
    let s10 = InterfaceStatusV { lease: i.lease, ..s9 };
    let seen10 = seen9.push("lease"@);
    assert(t.skip(0) =~= t);
    assert(s10 =~= i);
}

proof fn interface_read(i: InterfaceStatusV, t: Tokens)
    requires
        written(encode::interface_items(i), t),
        plausible(t),
        interface_fits(i),
    ensures
        decode::interface_from(t) == Ok::<_, WireErrorV>(
            (i, t.skip(encode::interface_items(i).len() as int)),
        ),
{
    let head = encode::interface_head(i);
    let tail = encode::interface_tail(i);
    piece(head, tail, t);
    interface_head_read(i, t);
    short(head, t);
    still_plausible(t, 15);
    assert(head.len() == 15);
    interface_tail_read(i, t.skip(15));
    assert(t.skip(15).skip(tail.len() as int) =~= t.skip(encode::interface_items(i).len() as int));
}

spec fn scope_taker() -> spec_fn(DnsScopeV, Seq<char>, Tokens) -> Read<DnsScopeV> {
    |x: DnsScopeV, k: Seq<char>, r: Tokens| decode::scope_entry(x, k, r)
}

proof fn scope_ifid(o: DnsScopeV, s: DnsScopeV, seen: Seq<Seq<char>>, n: nat, t: Tokens)
    requires
        written(encode::str_field("ifid"@, o.ifid), t),
        plausible(t),
        n > 0,
        unlike(seen, code("ifid"@)),
    ensures
        decode::fields_from(t, n, seen, s, scope_taker()) == decode::fields_from(
            t.skip(encode::str_field("ifid"@, o.ifid).len() as int),
            (n - 1) as nat,
            seen.push("ifid"@),
            DnsScopeV { ifid: o.ifid, ..s },
            scope_taker(),
        ),
{
    key_codes();
    reveal(decode::scope_entry);
    str_read("ifid"@, o.ifid, t);
    fresh(seen, "ifid"@);
    let after = DnsScopeV { ifid: o.ifid, ..s };
    let rest = t.skip(encode::str_field("ifid"@, o.ifid).len() as int);
    step(t, n, seen, s, scope_taker(), "ifid"@, t.skip(1), after, rest);
}

proof fn scope_name(o: DnsScopeV, s: DnsScopeV, seen: Seq<Seq<char>>, n: nat, t: Tokens)
    requires
        written(encode::str_field("name"@, o.name), t),
        plausible(t),
        n > 0,
        unlike(seen, code("name"@)),
    ensures
        decode::fields_from(t, n, seen, s, scope_taker()) == decode::fields_from(
            t.skip(encode::str_field("name"@, o.name).len() as int),
            (n - 1) as nat,
            seen.push("name"@),
            DnsScopeV { name: o.name, ..s },
            scope_taker(),
        ),
{
    key_codes();
    reveal(decode::scope_entry);
    str_read("name"@, o.name, t);
    fresh(seen, "name"@);
    let after = DnsScopeV { name: o.name, ..s };
    let rest = t.skip(encode::str_field("name"@, o.name).len() as int);
    step(t, n, seen, s, scope_taker(), "name"@, t.skip(1), after, rest);
}

proof fn scope_servers(o: DnsScopeV, s: DnsScopeV, seen: Seq<Seq<char>>, n: nat, t: Tokens)
    requires
        written(encode::list_field("servers"@, o.servers), t),
        plausible(t),
        countable(o.servers),
        n > 0,
        unlike(seen, code("servers"@)),
    ensures
        decode::fields_from(t, n, seen, s, scope_taker()) == decode::fields_from(
            t.skip(encode::list_field("servers"@, o.servers).len() as int),
            (n - 1) as nat,
            seen.push("servers"@),
            DnsScopeV { servers: o.servers, ..s },
            scope_taker(),
        ),
{
    key_codes();
    reveal(decode::scope_entry);
    list_read("servers"@, o.servers, t);
    fresh(seen, "servers"@);
    let after = DnsScopeV { servers: o.servers, ..s };
    let rest = t.skip(encode::list_field("servers"@, o.servers).len() as int);
    step(t, n, seen, s, scope_taker(), "servers"@, t.skip(1), after, rest);
}

proof fn scope_domains(o: DnsScopeV, s: DnsScopeV, seen: Seq<Seq<char>>, n: nat, t: Tokens)
    requires
        written(encode::list_field("domains"@, o.domains), t),
        plausible(t),
        countable(o.domains),
        n > 0,
        unlike(seen, code("domains"@)),
    ensures
        decode::fields_from(t, n, seen, s, scope_taker()) == decode::fields_from(
            t.skip(encode::list_field("domains"@, o.domains).len() as int),
            (n - 1) as nat,
            seen.push("domains"@),
            DnsScopeV { domains: o.domains, ..s },
            scope_taker(),
        ),
{
    key_codes();
    reveal(decode::scope_entry);
    list_read("domains"@, o.domains, t);
    fresh(seen, "domains"@);
    let after = DnsScopeV { domains: o.domains, ..s };
    let rest = t.skip(encode::list_field("domains"@, o.domains).len() as int);
    step(t, n, seen, s, scope_taker(), "domains"@, t.skip(1), after, rest);
}

proof fn scope_ntp(o: DnsScopeV, s: DnsScopeV, seen: Seq<Seq<char>>, n: nat, t: Tokens)
    requires
        written(encode::list_field("ntp"@, o.ntp), t),
        plausible(t),
        countable(o.ntp),
        n > 0,
        unlike(seen, code("ntp"@)),
    ensures
        decode::fields_from(t, n, seen, s, scope_taker()) == decode::fields_from(
            t.skip(encode::list_field("ntp"@, o.ntp).len() as int),
            (n - 1) as nat,
            seen.push("ntp"@),
            DnsScopeV { ntp: o.ntp, ..s },
            scope_taker(),
        ),
{
    key_codes();
    reveal(decode::scope_entry);
    list_read("ntp"@, o.ntp, t);
    fresh(seen, "ntp"@);
    let after = DnsScopeV { ntp: o.ntp, ..s };
    let rest = t.skip(encode::list_field("ntp"@, o.ntp).len() as int);
    step(t, n, seen, s, scope_taker(), "ntp"@, t.skip(1), after, rest);
}

proof fn scope_addresses(o: DnsScopeV, s: DnsScopeV, seen: Seq<Seq<char>>, n: nat, t: Tokens)
    requires
        written(encode::list_field("addresses"@, o.addresses), t),
        plausible(t),
        countable(o.addresses),
        n > 0,
        unlike(seen, code("addresses"@)),
    ensures
        decode::fields_from(t, n, seen, s, scope_taker()) == decode::fields_from(
            t.skip(encode::list_field("addresses"@, o.addresses).len() as int),
            (n - 1) as nat,
            seen.push("addresses"@),
            DnsScopeV { addresses: o.addresses, ..s },
            scope_taker(),
        ),
{
    key_codes();
    reveal(decode::scope_entry);
    list_read("addresses"@, o.addresses, t);
    fresh(seen, "addresses"@);
    let after = DnsScopeV { addresses: o.addresses, ..s };
    let rest = t.skip(encode::list_field("addresses"@, o.addresses).len() as int);
    step(t, n, seen, s, scope_taker(), "addresses"@, t.skip(1), after, rest);
}

proof fn scope_default_route(o: DnsScopeV, s: DnsScopeV, seen: Seq<Seq<char>>, n: nat, t: Tokens)
    requires
        written(encode::bool_field("default_route"@, o.default_route), t),
        plausible(t),
        n > 0,
        unlike(seen, code("default_route"@)),
    ensures
        decode::fields_from(t, n, seen, s, scope_taker()) == decode::fields_from(
            t.skip(encode::bool_field("default_route"@, o.default_route).len() as int),
            (n - 1) as nat,
            seen.push("default_route"@),
            DnsScopeV { default_route: o.default_route, ..s },
            scope_taker(),
        ),
{
    key_codes();
    reveal(decode::scope_entry);
    bool_read("default_route"@, o.default_route, t);
    fresh(seen, "default_route"@);
    let after = DnsScopeV { default_route: o.default_route, ..s };
    let rest = t.skip(encode::bool_field("default_route"@, o.default_route).len() as int);
    step(t, n, seen, s, scope_taker(), "default_route"@, t.skip(1), after, rest);
}

proof fn scope_exclusive(o: DnsScopeV, s: DnsScopeV, seen: Seq<Seq<char>>, n: nat, t: Tokens)
    requires
        written(encode::bool_field("exclusive"@, o.exclusive), t),
        plausible(t),
        n > 0,
        unlike(seen, code("exclusive"@)),
    ensures
        decode::fields_from(t, n, seen, s, scope_taker()) == decode::fields_from(
            t.skip(encode::bool_field("exclusive"@, o.exclusive).len() as int),
            (n - 1) as nat,
            seen.push("exclusive"@),
            DnsScopeV { exclusive: o.exclusive, ..s },
            scope_taker(),
        ),
{
    key_codes();
    reveal(decode::scope_entry);
    bool_read("exclusive"@, o.exclusive, t);
    fresh(seen, "exclusive"@);
    let after = DnsScopeV { exclusive: o.exclusive, ..s };
    let rest = t.skip(encode::bool_field("exclusive"@, o.exclusive).len() as int);
    step(t, n, seen, s, scope_taker(), "exclusive"@, t.skip(1), after, rest);
}

proof fn scope_metric(o: DnsScopeV, s: DnsScopeV, seen: Seq<Seq<char>>, n: nat, t: Tokens)
    requires
        written(encode::uint_field("metric"@, o.metric as u64), t),
        plausible(t),
        n > 0,
        unlike(seen, code("metric"@)),
    ensures
        decode::fields_from(t, n, seen, s, scope_taker()) == decode::fields_from(
            t.skip(encode::uint_field("metric"@, o.metric as u64).len() as int),
            (n - 1) as nat,
            seen.push("metric"@),
            DnsScopeV { metric: o.metric, ..s },
            scope_taker(),
        ),
{
    key_codes();
    reveal(decode::scope_entry);
    uint_read("metric"@, o.metric as u64, t);
    fresh(seen, "metric"@);
    let after = DnsScopeV { metric: o.metric, ..s };
    let rest = t.skip(encode::uint_field("metric"@, o.metric as u64).len() as int);
    step(t, n, seen, s, scope_taker(), "metric"@, t.skip(1), after, rest);
}

proof fn scope_level(o: DnsScopeV, s: DnsScopeV, seen: Seq<Seq<char>>, n: nat, t: Tokens)
    requires
        written(encode::str_field("level"@, o.level.name()), t),
        plausible(t),
        n > 0,
        unlike(seen, code("level"@)),
    ensures
        decode::fields_from(t, n, seen, s, scope_taker()) == decode::fields_from(
            t.skip(encode::str_field("level"@, o.level.name()).len() as int),
            (n - 1) as nat,
            seen.push("level"@),
            DnsScopeV { level: o.level, ..s },
            scope_taker(),
        ),
{
    key_codes();
    reveal(decode::scope_entry);
    level_read("level"@, o.level, t);
    fresh(seen, "level"@);
    let after = DnsScopeV { level: o.level, ..s };
    let rest = t.skip(encode::str_field("level"@, o.level.name()).len() as int);
    step(t, n, seen, s, scope_taker(), "level"@, t.skip(1), after, rest);
}

#[verifier::spinoff_prover]
proof fn scope_read(s: DnsScopeV, t: Tokens)
    requires
        written(encode::scope_items(s), t),
        plausible(t),
        scope_fits(s),
    ensures
        decode::scope_from(t) == Ok::<_, WireErrorV>(
            (s, t.skip(encode::scope_items(s).len() as int)),
        ),
{
    key_codes();
    let f = scope_taker();
    let p0 = seq![ItemV::Fields(10)];
    let g1 = encode::str_field("ifid"@, s.ifid);
    let p1 = p0 + g1;
    let g2 = encode::str_field("name"@, s.name);
    let p2 = p1 + g2;
    let g3 = encode::list_field("servers"@, s.servers);
    let p3 = p2 + g3;
    let g4 = encode::list_field("domains"@, s.domains);
    let p4 = p3 + g4;
    let g5 = encode::list_field("ntp"@, s.ntp);
    let p5 = p4 + g5;
    let g6 = encode::list_field("addresses"@, s.addresses);
    let p6 = p5 + g6;
    let g7 = encode::bool_field("default_route"@, s.default_route);
    let p7 = p6 + g7;
    let g8 = encode::bool_field("exclusive"@, s.exclusive);
    let p8 = p7 + g8;
    let g9 = encode::uint_field("metric"@, s.metric as u64);
    let p9 = p8 + g9;
    let g10 = encode::str_field("level"@, s.level.name());
    let p10 = p9 + g10;
    piece(p9, g10, t);
    piece(p8, g9, t);
    piece(p7, g8, t);
    piece(p6, g7, t);
    piece(p5, g6, t);
    piece(p4, g5, t);
    piece(p3, g4, t);
    piece(p2, g3, t);
    piece(p1, g2, t);
    piece(p0, g1, t);
    let seen0 = Seq::<Seq<char>>::empty();
    let s0 = super::no_scope();
    let t0 = t.skip(p0.len() as int);
    short(p0, t);
    still_plausible(t, p0.len() as int);
    scope_ifid(s, s0, seen0, 10, t0);
    let t1 = t.skip(p1.len() as int);
    let s1 = DnsScopeV { ifid: s.ifid, ..s0 };
    let seen1 = seen0.push("ifid"@);
    short(p1, t);
    still_plausible(t, p1.len() as int);
    scope_name(s, s1, seen1, 9, t1);
    let t2 = t.skip(p2.len() as int);
    let s2 = DnsScopeV { name: s.name, ..s1 };
    let seen2 = seen1.push("name"@);
    short(p2, t);
    still_plausible(t, p2.len() as int);
    scope_servers(s, s2, seen2, 8, t2);
    let t3 = t.skip(p3.len() as int);
    let s3 = DnsScopeV { servers: s.servers, ..s2 };
    let seen3 = seen2.push("servers"@);
    short(p3, t);
    still_plausible(t, p3.len() as int);
    scope_domains(s, s3, seen3, 7, t3);
    let t4 = t.skip(p4.len() as int);
    let s4 = DnsScopeV { domains: s.domains, ..s3 };
    let seen4 = seen3.push("domains"@);
    short(p4, t);
    still_plausible(t, p4.len() as int);
    scope_ntp(s, s4, seen4, 6, t4);
    let t5 = t.skip(p5.len() as int);
    let s5 = DnsScopeV { ntp: s.ntp, ..s4 };
    let seen5 = seen4.push("ntp"@);
    short(p5, t);
    still_plausible(t, p5.len() as int);
    scope_addresses(s, s5, seen5, 5, t5);
    let t6 = t.skip(p6.len() as int);
    let s6 = DnsScopeV { addresses: s.addresses, ..s5 };
    let seen6 = seen5.push("addresses"@);
    short(p6, t);
    still_plausible(t, p6.len() as int);
    scope_default_route(s, s6, seen6, 4, t6);
    let t7 = t.skip(p7.len() as int);
    let s7 = DnsScopeV { default_route: s.default_route, ..s6 };
    let seen7 = seen6.push("default_route"@);
    short(p7, t);
    still_plausible(t, p7.len() as int);
    scope_exclusive(s, s7, seen7, 3, t7);
    let t8 = t.skip(p8.len() as int);
    let s8 = DnsScopeV { exclusive: s.exclusive, ..s7 };
    let seen8 = seen7.push("exclusive"@);
    short(p8, t);
    still_plausible(t, p8.len() as int);
    scope_metric(s, s8, seen8, 2, t8);
    let t9 = t.skip(p9.len() as int);
    let s9 = DnsScopeV { metric: s.metric, ..s8 };
    let seen9 = seen8.push("metric"@);
    short(p9, t);
    still_plausible(t, p9.len() as int);
    scope_level(s, s9, seen9, 1, t9);
    let t10 = t.skip(p10.len() as int);
    let s10 = DnsScopeV { level: s.level, ..s9 };
    let seen10 = seen9.push("level"@);
    assert(t.len() > 0 && reads_as(p0[0], t[0])) by {
        reveal(written);
    }
    firsts(t);
    assert(s10 =~= s);
}

proof fn interfaces_read(s: Seq<InterfaceStatusV>, t: Tokens)
    requires
        written(encode::interfaces_items(s), t),
        plausible(t),
        forall|k: int| 0 <= k < s.len() ==> interface_fits(#[trigger] s[k]),
    ensures
        decode::interfaces_from(t, s.len()) == Ok::<_, WireErrorV>(
            (s, t.skip(encode::interfaces_items(s).len() as int)),
        ),
    decreases s.len(),
{
    if s.len() == 0 {
        assert(t.skip(0) =~= t);
        assert(s =~= Seq::empty());
    } else {
        let w = s.drop_last();
        let a = encode::interfaces_items(w);
        let b = encode::interface_items(s.last());
        piece(a, b, t);
        interfaces_read(w, t);
        short(a, t);
        still_plausible(t, a.len() as int);
        interface_read(s.last(), t.skip(a.len() as int));
        assert(t.skip(a.len() as int).skip(b.len() as int) =~= t.skip(
            encode::interfaces_items(s).len() as int,
        ));
        assert(w.push(s.last()) =~= s);
    }
}

proof fn scopes_read(s: Seq<DnsScopeV>, t: Tokens)
    requires
        written(encode::scopes_items(s), t),
        plausible(t),
        forall|k: int| 0 <= k < s.len() ==> scope_fits(#[trigger] s[k]),
    ensures
        decode::scopes_from(t, s.len()) == Ok::<_, WireErrorV>(
            (s, t.skip(encode::scopes_items(s).len() as int)),
        ),
    decreases s.len(),
{
    if s.len() == 0 {
        assert(t.skip(0) =~= t);
        assert(s =~= Seq::empty());
    } else {
        let w = s.drop_last();
        let a = encode::scopes_items(w);
        let b = encode::scope_items(s.last());
        piece(a, b, t);
        scopes_read(w, t);
        short(a, t);
        still_plausible(t, a.len() as int);
        scope_read(s.last(), t.skip(a.len() as int));
        assert(t.skip(a.len() as int).skip(b.len() as int) =~= t.skip(
            encode::scopes_items(s).len() as int,
        ));
        assert(w.push(s.last()) =~= s);
    }
}

// ---- laws ------------------------------------------------------------------

proof fn plain_request(query: Seq<char>, t: Tokens)
    requires
        written(seq![ItemV::Fields(1)] + encode::str_field("query"@, query), t),
    ensures
        decode::request_fields(t) matches Ok((s, _)) && s == (RequestFields {
            query: Some(query),
            interface: None,
        }),
{
    key_codes();
    let f = |s: RequestFields, k: Seq<char>, r: Tokens| decode::request_field(s, k, r);
    let p0 = seq![ItemV::Fields(1)];
    let g1 = encode::str_field("query"@, query);
    let p1 = p0 + g1;
    piece(p0, g1, t);
    let seen0 = Seq::<Seq<char>>::empty();
    let s0 = RequestFields { query: None, interface: None };
    let t0 = t.skip(p0.len() as int);
    str_read("query"@, query, t0);
    let t1 = t.skip(p1.len() as int);
    assert(t0.skip(g1.len() as int) =~= t1);
    let s1 = RequestFields { query: Some(query), ..s0 };
    assert(unlike(seen0, code("query"@)));
    fresh(seen0, "query"@);
    let seen1 = seen0.push("query"@);
    step(t0, 1, seen0, s0, f, "query"@, t0.skip(1), s1, t1);
    assert(t.len() > 0 && reads_as(p0[0], t[0])) by {
        reveal(written);
    }
    firsts(t);
}

proof fn renew_request(interface: Seq<char>, t: Tokens)
    requires
        written(encode::request_items(RequestV::Renew { interface }), t),
    ensures
        decode::request_fields(t) matches Ok((s, _)) && s == (RequestFields {
            query: Some("renew"@),
            interface: Some(interface),
        }),
{
    key_codes();
    let f = |s: RequestFields, k: Seq<char>, r: Tokens| decode::request_field(s, k, r);
    let p0 = seq![ItemV::Fields(2)];
    let g1 = encode::str_field("query"@, "renew"@);
    let p1 = p0 + g1;
    let g2 = encode::str_field("interface"@, interface);
    let p2 = p1 + g2;
    piece(p1, g2, t);
    piece(p0, g1, t);
    let seen0 = Seq::<Seq<char>>::empty();
    let s0 = RequestFields { query: None, interface: None };
    let t0 = t.skip(p0.len() as int);
    str_read("query"@, "renew"@, t0);
    let t1 = t.skip(p1.len() as int);
    assert(t0.skip(g1.len() as int) =~= t1);
    let s1 = RequestFields { query: Some("renew"@), ..s0 };
    assert(unlike(seen0, code("query"@)));
    fresh(seen0, "query"@);
    let seen1 = seen0.push("query"@);
    step(t0, 2, seen0, s0, f, "query"@, t0.skip(1), s1, t1);
    str_read("interface"@, interface, t1);
    let t2 = t.skip(p2.len() as int);
    assert(t1.skip(g2.len() as int) =~= t2);
    let s2 = RequestFields { interface: Some(interface), ..s1 };
    assert(unlike(seen1, code("interface"@)));
    fresh(seen1, "interface"@);
    let seen2 = seen1.push("interface"@);
    step(t1, 1, seen1, s1, f, "interface"@, t1.skip(1), s2, t2);
    assert(t.len() > 0 && reads_as(p0[0], t[0])) by {
        reveal(written);
    }
    firsts(t);
}

/// A request that was written is the request that is read.
pub proof fn requests_round_trip(r: RequestV, t: Tokens)
    requires
        written(encode::request_items(r), t),
    ensures
        decode::request_decoded(t) == Ok::<_, WireErrorV>(r),
{
    key_codes();
    match r {
        RequestV::Status => plain_request("status"@, t),
        RequestV::Reconcile => plain_request("reconcile"@, t),
        RequestV::Subscribe => plain_request("subscribe"@, t),
        RequestV::Renew { interface } => renew_request(interface, t),
    }
}

spec fn reply_taker() -> spec_fn(ReplyFields, Seq<char>, Tokens) -> Read<ReplyFields> {
    |s: ReplyFields, k: Seq<char>, r: Tokens| decode::reply_entry(s, k, r)
}

#[verifier::spinoff_prover]
proof fn done_reply(t: Tokens)
    requires
        written(encode::reply_items(ReplyV::Done), t),
    ensures
        decode::reply_decoded(t) == Ok::<_, WireErrorV>(ReplyV::Done),
{
    key_codes();
    let f = reply_taker();
    reveal(decode::reply_entry);
    let p0 = seq![ItemV::Fields(1)];
    let g1 = encode::bool_field("ok"@, true);
    let p1 = p0 + g1;
    piece(p0, g1, t);
    let seen0 = Seq::<Seq<char>>::empty();
    let s0 = decode::no_reply();
    let t0 = t.skip(p0.len() as int);
    bool_read("ok"@, true, t0);
    let t1 = t.skip(p1.len() as int);
    assert(t0.skip(g1.len() as int) =~= t1);
    let s1 = ReplyFields { ok: Some(true), ..s0 };
    assert(unlike(seen0, code("ok"@)));
    fresh(seen0, "ok"@);
    let seen1 = seen0.push("ok"@);
    step(t0, 1, seen0, s0, f, "ok"@, t0.skip(1), s1, t1);
    assert(t.len() > 0 && reads_as(p0[0], t[0])) by {
        reveal(written);
    }
    firsts(t);
}

#[verifier::spinoff_prover]
proof fn error_reply(e: Seq<char>, t: Tokens)
    requires
        written(encode::reply_items(ReplyV::Error(e)), t),
    ensures
        decode::reply_decoded(t) == Ok::<_, WireErrorV>(ReplyV::Error(e)),
{
    key_codes();
    let f = reply_taker();
    reveal(decode::reply_entry);
    let p0 = seq![ItemV::Fields(2)];
    let g1 = encode::bool_field("ok"@, false);
    let p1 = p0 + g1;
    let g2 = encode::str_field("error"@, e);
    let p2 = p1 + g2;
    piece(p1, g2, t);
    piece(p0, g1, t);
    let seen0 = Seq::<Seq<char>>::empty();
    let s0 = decode::no_reply();
    let t0 = t.skip(p0.len() as int);
    bool_read("ok"@, false, t0);
    let t1 = t.skip(p1.len() as int);
    assert(t0.skip(g1.len() as int) =~= t1);
    let s1 = ReplyFields { ok: Some(false), ..s0 };
    assert(unlike(seen0, code("ok"@)));
    fresh(seen0, "ok"@);
    let seen1 = seen0.push("ok"@);
    step(t0, 2, seen0, s0, f, "ok"@, t0.skip(1), s1, t1);
    str_read("error"@, e, t1);
    let t2 = t.skip(p2.len() as int);
    assert(t1.skip(g2.len() as int) =~= t2);
    let s2 = ReplyFields { error: Some(e), ..s1 };
    assert(unlike(seen1, code("error"@)));
    fresh(seen1, "error"@);
    let seen2 = seen1.push("error"@);
    step(t1, 1, seen1, s1, f, "error"@, t1.skip(1), s2, t2);
    assert(t.len() > 0 && reads_as(p0[0], t[0])) by {
        reveal(written);
    }
    firsts(t);
}

spec fn scopes_list(s: Seq<DnsScopeV>) -> Seq<ItemV> {
    seq![ItemV::Str("scopes"@), ItemV::List(encode::count(s.len()))] + encode::scopes_items(s)
}

proof fn scope_array_read(s: Seq<DnsScopeV>, t: Tokens)
    requires
        written(scopes_list(s), t),
        plausible(t),
        countable(s),
        forall|k: int| 0 <= k < s.len() ==> scope_fits(#[trigger] s[k]),
    ensures
        decode::str_from(t) == Ok::<_, WireErrorV>(("scopes"@, t.skip(1))),
        decode::scopes_from_array(t.skip(1)) == Ok::<_, WireErrorV>(
            (s, t.skip(scopes_list(s).len() as int)),
        ),
{
    let head = seq![ItemV::Str("scopes"@), ItemV::List(encode::count(s.len()))];
    let tail = encode::scopes_items(s);
    piece(head, tail, t);
    assert(t.len() >= 2 && reads_as(head[0], t[0]) && reads_as(head[1], t[1])) by {
        reveal(written);
    }
    firsts_two(t);
    still_plausible(t, 2);
    scopes_read(s, t.skip(2));
    assert(t.skip(2).skip(tail.len() as int) =~= t.skip((head + tail).len() as int));
}

spec fn interfaces_list(s: Seq<InterfaceStatusV>) -> Seq<ItemV> {
    seq![ItemV::Str("interfaces"@), ItemV::List(encode::count(s.len()))] + encode::interfaces_items(s)
}

proof fn interface_array_read(s: Seq<InterfaceStatusV>, t: Tokens)
    requires
        written(interfaces_list(s), t),
        plausible(t),
        countable(s),
        forall|k: int| 0 <= k < s.len() ==> interface_fits(#[trigger] s[k]),
    ensures
        decode::str_from(t) == Ok::<_, WireErrorV>(("interfaces"@, t.skip(1))),
        decode::interfaces_from_array(t.skip(1)) == Ok::<_, WireErrorV>(
            (s, t.skip(interfaces_list(s).len() as int)),
        ),
{
    let head = seq![ItemV::Str("interfaces"@), ItemV::List(encode::count(s.len()))];
    let tail = encode::interfaces_items(s);
    piece(head, tail, t);
    assert(t.len() >= 2 && reads_as(head[0], t[0]) && reads_as(head[1], t[1])) by {
        reveal(written);
    }
    firsts_two(t);
    still_plausible(t, 2);
    interfaces_read(s, t.skip(2));
    assert(t.skip(2).skip(tail.len() as int) =~= t.skip((head + tail).len() as int));
}

proof fn snapshot_ok(b: SnapshotV, s: ReplyFields, seen: Seq<Seq<char>>, n: nat, t: Tokens)
    requires
        written(encode::bool_field("ok"@, true), t),
        plausible(t),
        n > 0,
        unlike(seen, code("ok"@)),
    ensures
        decode::fields_from(t, n, seen, s, reply_taker()) == decode::fields_from(
            t.skip(encode::bool_field("ok"@, true).len() as int),
            (n - 1) as nat,
            seen.push("ok"@),
            ReplyFields { ok: Some(true), ..s },
            reply_taker(),
        ),
{
    key_codes();
    reveal(decode::reply_entry);
    bool_read("ok"@, true, t);
    fresh(seen, "ok"@);
    let after = ReplyFields { ok: Some(true), ..s };
    let rest = t.skip(encode::bool_field("ok"@, true).len() as int);
    step(t, n, seen, s, reply_taker(), "ok"@, t.skip(1), after, rest);
}

proof fn snapshot_kind(b: SnapshotV, s: ReplyFields, seen: Seq<Seq<char>>, n: nat, t: Tokens)
    requires
        written(encode::str_field("kind"@, "snapshot"@), t),
        plausible(t),
        n > 0,
        unlike(seen, code("kind"@)),
    ensures
        decode::fields_from(t, n, seen, s, reply_taker()) == decode::fields_from(
            t.skip(encode::str_field("kind"@, "snapshot"@).len() as int),
            (n - 1) as nat,
            seen.push("kind"@),
            ReplyFields { kind: Some("snapshot"@), ..s },
            reply_taker(),
        ),
{
    key_codes();
    reveal(decode::reply_entry);
    str_read("kind"@, "snapshot"@, t);
    fresh(seen, "kind"@);
    let after = ReplyFields { kind: Some("snapshot"@), ..s };
    let rest = t.skip(encode::str_field("kind"@, "snapshot"@).len() as int);
    step(t, n, seen, s, reply_taker(), "kind"@, t.skip(1), after, rest);
}

proof fn snapshot_hostname(b: SnapshotV, s: ReplyFields, seen: Seq<Seq<char>>, n: nat, t: Tokens)
    requires
        written(encode::str_field("hostname"@, b.hostname), t),
        plausible(t),
        n > 0,
        unlike(seen, code("hostname"@)),
    ensures
        decode::fields_from(t, n, seen, s, reply_taker()) == decode::fields_from(
            t.skip(encode::str_field("hostname"@, b.hostname).len() as int),
            (n - 1) as nat,
            seen.push("hostname"@),
            ReplyFields { hostname: b.hostname, has_status: true, ..s },
            reply_taker(),
        ),
{
    key_codes();
    reveal(decode::reply_entry);
    str_read("hostname"@, b.hostname, t);
    fresh(seen, "hostname"@);
    let after = ReplyFields { hostname: b.hostname, has_status: true, ..s };
    let rest = t.skip(encode::str_field("hostname"@, b.hostname).len() as int);
    step(t, n, seen, s, reply_taker(), "hostname"@, t.skip(1), after, rest);
}

proof fn snapshot_scopes(b: SnapshotV, s: ReplyFields, seen: Seq<Seq<char>>, n: nat, t: Tokens)
    requires
        written(scopes_list(b.scopes), t),
        plausible(t),
        countable(b.scopes),
        forall|k: int| 0 <= k < b.scopes.len() ==> scope_fits(#[trigger] b.scopes[k]),
        n > 0,
        unlike(seen, code("scopes"@)),
    ensures
        decode::fields_from(t, n, seen, s, reply_taker()) == decode::fields_from(
            t.skip(scopes_list(b.scopes).len() as int),
            (n - 1) as nat,
            seen.push("scopes"@),
            ReplyFields { scopes: b.scopes, ..s },
            reply_taker(),
        ),
{
    key_codes();
    reveal(decode::reply_entry);
    scope_array_read(b.scopes, t);
    fresh(seen, "scopes"@);
    let after = ReplyFields { scopes: b.scopes, ..s };
    let rest = t.skip(scopes_list(b.scopes).len() as int);
    step(t, n, seen, s, reply_taker(), "scopes"@, t.skip(1), after, rest);
}

#[verifier::spinoff_prover]
proof fn snapshot_reply(b: SnapshotV, t: Tokens)
    requires
        written(encode::reply_items(ReplyV::Snapshot(b)), t),
        plausible(t),
        reply_fits(ReplyV::Snapshot(b)),
    ensures
        decode::reply_decoded(t) == Ok::<_, WireErrorV>(ReplyV::Snapshot(b)),
{
    key_codes();
    let f = reply_taker();
    let p0 = seq![ItemV::Fields(4)];
    let g1 = encode::bool_field("ok"@, true);
    let p1 = p0 + g1;
    let g2 = encode::str_field("kind"@, "snapshot"@);
    let p2 = p1 + g2;
    let g3 = encode::str_field("hostname"@, b.hostname);
    let p3 = p2 + g3;
    let g4 = scopes_list(b.scopes);
    let p4 = p3 + g4;
    assert(encode::reply_items(ReplyV::Snapshot(b)) =~= p4);
    piece(p3, g4, t);
    piece(p2, g3, t);
    piece(p1, g2, t);
    piece(p0, g1, t);
    let seen0 = Seq::<Seq<char>>::empty();
    let s0 = decode::no_reply();
    let t0 = t.skip(p0.len() as int);
    short(p0, t);
    still_plausible(t, p0.len() as int);
    snapshot_ok(b, s0, seen0, 4, t0);
    let t1 = t.skip(p1.len() as int);
    let s1 = ReplyFields { ok: Some(true), ..s0 };
    let seen1 = seen0.push("ok"@);
    short(p1, t);
    still_plausible(t, p1.len() as int);
    snapshot_kind(b, s1, seen1, 3, t1);
    let t2 = t.skip(p2.len() as int);
    let s2 = ReplyFields { kind: Some("snapshot"@), ..s1 };
    let seen2 = seen1.push("kind"@);
    short(p2, t);
    still_plausible(t, p2.len() as int);
    snapshot_hostname(b, s2, seen2, 2, t2);
    let t3 = t.skip(p3.len() as int);
    let s3 = ReplyFields { hostname: b.hostname, has_status: true, ..s2 };
    let seen3 = seen2.push("hostname"@);
    short(p3, t);
    still_plausible(t, p3.len() as int);
    snapshot_scopes(b, s3, seen3, 1, t3);
    let t4 = t.skip(p4.len() as int);
    let s4 = ReplyFields { scopes: b.scopes, ..s3 };
    let seen4 = seen3.push("scopes"@);
    assert(t.len() > 0 && reads_as(p0[0], t[0])) by {
        reveal(written);
    }
    firsts(t);
}

proof fn status_ok(b: StatusV, s: ReplyFields, seen: Seq<Seq<char>>, n: nat, t: Tokens)
    requires
        written(encode::bool_field("ok"@, true), t),
        plausible(t),
        n > 0,
        unlike(seen, code("ok"@)),
    ensures
        decode::fields_from(t, n, seen, s, reply_taker()) == decode::fields_from(
            t.skip(encode::bool_field("ok"@, true).len() as int),
            (n - 1) as nat,
            seen.push("ok"@),
            ReplyFields { ok: Some(true), ..s },
            reply_taker(),
        ),
{
    key_codes();
    reveal(decode::reply_entry);
    bool_read("ok"@, true, t);
    fresh(seen, "ok"@);
    let after = ReplyFields { ok: Some(true), ..s };
    let rest = t.skip(encode::bool_field("ok"@, true).len() as int);
    step(t, n, seen, s, reply_taker(), "ok"@, t.skip(1), after, rest);
}

proof fn status_hostname(b: StatusV, s: ReplyFields, seen: Seq<Seq<char>>, n: nat, t: Tokens)
    requires
        written(encode::str_field("hostname"@, b.hostname), t),
        plausible(t),
        n > 0,
        unlike(seen, code("hostname"@)),
    ensures
        decode::fields_from(t, n, seen, s, reply_taker()) == decode::fields_from(
            t.skip(encode::str_field("hostname"@, b.hostname).len() as int),
            (n - 1) as nat,
            seen.push("hostname"@),
            ReplyFields { hostname: b.hostname, has_status: true, ..s },
            reply_taker(),
        ),
{
    key_codes();
    reveal(decode::reply_entry);
    str_read("hostname"@, b.hostname, t);
    fresh(seen, "hostname"@);
    let after = ReplyFields { hostname: b.hostname, has_status: true, ..s };
    let rest = t.skip(encode::str_field("hostname"@, b.hostname).len() as int);
    step(t, n, seen, s, reply_taker(), "hostname"@, t.skip(1), after, rest);
}

proof fn status_level(b: StatusV, s: ReplyFields, seen: Seq<Seq<char>>, n: nat, t: Tokens)
    requires
        written(encode::str_field("level"@, b.level.name()), t),
        plausible(t),
        n > 0,
        unlike(seen, code("level"@)),
    ensures
        decode::fields_from(t, n, seen, s, reply_taker()) == decode::fields_from(
            t.skip(encode::str_field("level"@, b.level.name()).len() as int),
            (n - 1) as nat,
            seen.push("level"@),
            ReplyFields { level: b.level, has_status: true, ..s },
            reply_taker(),
        ),
{
    key_codes();
    reveal(decode::reply_entry);
    level_read("level"@, b.level, t);
    fresh(seen, "level"@);
    let after = ReplyFields { level: b.level, has_status: true, ..s };
    let rest = t.skip(encode::str_field("level"@, b.level.name()).len() as int);
    step(t, n, seen, s, reply_taker(), "level"@, t.skip(1), after, rest);
}

proof fn status_interfaces(b: StatusV, s: ReplyFields, seen: Seq<Seq<char>>, n: nat, t: Tokens)
    requires
        written(interfaces_list(b.interfaces), t),
        plausible(t),
        countable(b.interfaces),
        forall|k: int| 0 <= k < b.interfaces.len() ==> interface_fits(#[trigger] b.interfaces[k]),
        n > 0,
        unlike(seen, code("interfaces"@)),
    ensures
        decode::fields_from(t, n, seen, s, reply_taker()) == decode::fields_from(
            t.skip(interfaces_list(b.interfaces).len() as int),
            (n - 1) as nat,
            seen.push("interfaces"@),
            ReplyFields { interfaces: b.interfaces, has_status: true, ..s },
            reply_taker(),
        ),
{
    key_codes();
    reveal(decode::reply_entry);
    interface_array_read(b.interfaces, t);
    fresh(seen, "interfaces"@);
    let after = ReplyFields { interfaces: b.interfaces, has_status: true, ..s };
    let rest = t.skip(interfaces_list(b.interfaces).len() as int);
    step(t, n, seen, s, reply_taker(), "interfaces"@, t.skip(1), after, rest);
}

#[verifier::spinoff_prover]
proof fn status_reply(b: StatusV, t: Tokens)
    requires
        written(encode::reply_items(ReplyV::Status(b)), t),
        plausible(t),
        reply_fits(ReplyV::Status(b)),
    ensures
        decode::reply_decoded(t) == Ok::<_, WireErrorV>(ReplyV::Status(b)),
{
    key_codes();
    let f = reply_taker();
    let p0 = seq![ItemV::Fields(4)];
    let g1 = encode::bool_field("ok"@, true);
    let p1 = p0 + g1;
    let g2 = encode::str_field("hostname"@, b.hostname);
    let p2 = p1 + g2;
    let g3 = encode::str_field("level"@, b.level.name());
    let p3 = p2 + g3;
    let g4 = interfaces_list(b.interfaces);
    let p4 = p3 + g4;
    assert(encode::reply_items(ReplyV::Status(b)) =~= p4);
    piece(p3, g4, t);
    piece(p2, g3, t);
    piece(p1, g2, t);
    piece(p0, g1, t);
    let seen0 = Seq::<Seq<char>>::empty();
    let s0 = decode::no_reply();
    let t0 = t.skip(p0.len() as int);
    short(p0, t);
    still_plausible(t, p0.len() as int);
    status_ok(b, s0, seen0, 4, t0);
    let t1 = t.skip(p1.len() as int);
    let s1 = ReplyFields { ok: Some(true), ..s0 };
    let seen1 = seen0.push("ok"@);
    short(p1, t);
    still_plausible(t, p1.len() as int);
    status_hostname(b, s1, seen1, 3, t1);
    let t2 = t.skip(p2.len() as int);
    let s2 = ReplyFields { hostname: b.hostname, has_status: true, ..s1 };
    let seen2 = seen1.push("hostname"@);
    short(p2, t);
    still_plausible(t, p2.len() as int);
    status_level(b, s2, seen2, 2, t2);
    let t3 = t.skip(p3.len() as int);
    let s3 = ReplyFields { level: b.level, has_status: true, ..s2 };
    let seen3 = seen2.push("level"@);
    short(p3, t);
    still_plausible(t, p3.len() as int);
    status_interfaces(b, s3, seen3, 1, t3);
    let t4 = t.skip(p4.len() as int);
    let s4 = ReplyFields { interfaces: b.interfaces, has_status: true, ..s3 };
    let seen4 = seen3.push("interfaces"@);
    assert(t.len() > 0 && reads_as(p0[0], t[0])) by {
        reveal(written);
    }
    firsts(t);
}

/// A reply that was written is the reply that is read, every field of it. Only
/// a list with more elements than the wire can count is excepted.
pub proof fn replies_round_trip(r: ReplyV, t: Tokens)
    requires
        written(encode::reply_items(r), t),
        plausible(t),
        reply_fits(r),
    ensures
        decode::reply_decoded(t) == Ok::<_, WireErrorV>(r),
{
    match r {
        ReplyV::Done => done_reply(t),
        ReplyV::Error(e) => error_reply(e, t),
        ReplyV::Snapshot(b) => snapshot_reply(b, t),
        ReplyV::Status(b) => status_reply(b, t),
    }
}

/// A key that comes twice in a map is an error, whatever the map is.
pub proof fn duplicates_are_refused<S>(
    t: Tokens,
    n: nat,
    seen: Seq<Seq<char>>,
    s: S,
    field: spec_fn(S, Seq<char>, Tokens) -> Read<S>,
    key: Seq<char>,
    rest: Tokens,
)
    requires
        n > 0,
        decode::str_from(t) == Ok::<_, WireErrorV>((key, rest)),
        seen.contains(key),
    ensures
        decode::fields_from(t, n, seen, s, field) == Err::<(S, Tokens), _>(
            WireErrorV::Duplicate(key),
        ),
{
}

/// An entry of a request under a key the protocol does not know says nothing:
/// its value, whatever it is, is passed over.
pub proof fn unknown_keys_are_ignored(s: RequestFields, key: Seq<char>, t: Tokens)
    requires
        key != "query"@,
        key != "interface"@,
    ensures
        match (decode::request_field(s, key, t), decode::skipped(t, 1)) {
            (Ok((s2, rest)), Some(after)) => s2 == s && rest == after,
            (Err(e), None) => e == decode::unread(t, Sort::Any),
            _ => false,
        },
{
}

/// A list that counts more elements than the message has bytes left is refused
/// for its size.
pub proof fn a_count_the_message_cannot_hold_is_refused(t: Tokens, count: nat, left: nat)
    requires
        t.len() > 0,
        t[0] == (TokenV::List { count, left }),
        count > left,
    ensures
        decode::list_from(t) == Err::<(Seq<Seq<char>>, Tokens), _>(WireErrorV::TooLarge(count)),
{
}

} // verus!
