//! What the registry, the policy and the network say, and what is made of it.

use vstd::prelude::*;
use vstd::string::*;
use vstd::utf8::*;
use crate::addr;
use crate::addr::{IpAddr, Ipv4Addr};
use crate::addr6;
use crate::bytes;
use crate::digest;
use crate::text;
use super::config;
use super::config::{RawValueV, ValueType};
use super::intent;
use super::inventory;
use super::ipv6;
use super::matching;
use super::model;
use super::model::LinkV;
use super::networks;
use super::networks::SignalsV;
use super::policy::OutcomeV;
use super::profile;
use super::profile::OnExpiry;

verus! {

// ---- intents ----------------------------------------------------------------

/// A profile that a link joins with is carried over: its own name, the link's name as
/// the only key, DHCP where addresses are offered over IPv4, and the rest field by
/// field; the link is to be up.
pub proof fn a_joined_profile_is_carried_over(name: Seq<char>, p: profile::ProfileV)
    ensures
        intent::meant_for(name, OutcomeV::Join(p)) matches Some(x) && {
            let a = x.profile.address;
            let d = x.profile.dns;
            &&& x.up && x.profile.name == p.path && x.profile.managed
            &&& x.profile.matches.name == Some(name)
            &&& x.profile.matches.mac is None && x.profile.matches.path is None
            &&& x.profile.matches.driver is None && x.profile.matches.kind is None
            &&& a.dhcp4 == (p.address.offered && p.address.ipv4)
            &&& a.gateway == p.address.gateway && a.link_local == p.address.link_local
            &&& a.on_lease_expiry == matching::OnLeaseExpiry::Keep <==> p.address.on_expiry
                == OnExpiry::Keep
            &&& a.send_hostname == p.address.announce_hostname
            &&& a.accept_hostname == p.address.accept_hostname
            &&& a.route_metric == p.address.route_metric && a.mtu == p.address.mtu
            &&& d.search == p.dns.domains && d.use_from_dhcp == p.dns.offered
            &&& d.default_route == p.dns.default_route && d.exclusive == p.dns.exclusive
        },
{
}

/// A link judged down is kept down with nothing on it; of one that is ignored nothing
/// is meant.
pub proof fn a_link_judged_down_gets_nothing(name: Seq<char>)
    ensures
        intent::meant_for(name, OutcomeV::Ignore) is None,
        intent::meant_for(name, OutcomeV::Down) matches Some(x) && {
            &&& !x.up && x.profile.managed && x.profile.matches.name == Some(name)
            &&& !x.profile.address.dhcp4 && x.profile.address.statics.len() == 0
            &&& x.profile.address.gateway is None && !x.profile.address.link_local
            &&& x.profile.dns.servers.len() == 0 && x.profile.dns.search.len() == 0
        },
{
}

/// Of a list of fixed addresses, and of servers, those of IPv4 are taken, in their
/// order.
pub proof fn addresses_of_ipv4_are_taken(
    s: Seq<profile::StaticAddress>,
    x: profile::StaticAddress,
    t: Seq<IpAddr>,
    y: IpAddr,
)
    ensures
        intent::v4_statics(Seq::empty()).len() == 0,
        intent::v4_statics(s.push(x)) == match x.address {
            IpAddr::V4(a) => intent::v4_statics(s).push(
                matching::StaticAddress { address: a, prefix: x.prefix },
            ),
            IpAddr::V6(_) => intent::v4_statics(s),
        },
        intent::v4_servers(Seq::empty()).len() == 0,
        intent::v4_servers(t.push(y)) == match y {
            IpAddr::V4(a) => intent::v4_servers(t).push(a),
            IpAddr::V6(_) => intent::v4_servers(t),
        },
{
    assert(s.push(x).drop_last() =~= s);
    assert(t.push(y).drop_last() =~= t);
}

/// The fixed addresses and servers of a joined profile are those of IPv4.
pub proof fn a_joined_profile_keeps_its_addresses(name: Seq<char>, p: profile::ProfileV)
    ensures
        intent::meant_for(name, OutcomeV::Join(p)) matches Some(x)
            && x.profile.address.statics == intent::v4_statics(p.address.statics)
            && x.profile.dns.servers == intent::v4_servers(p.dns.servers),
{
}

// ---- networks ---------------------------------------------------------------

/// A network is known by the DHCP server and the subnet; failing those, by the router
/// and the first prefix of IPv6; failing those too, not at all.
pub proof fn a_network_is_known_by_who_runs_it(s: SignalsV)
    ensures
        networks::basis(s) == if s.server is Some && s.subnet is Some {
            Some(
                "dhcp:"@ + addr::v4_text(s.server->0) + "|"@ + addr::v4_text((s.subnet->0).0) + "/"@
                    + text::decimal((s.subnet->0).1 as nat),
            )
        } else if s.router6 is Some && s.prefixes6.len() > 0 {
            Some(
                "ra:"@ + addr6::v6_text(s.router6->0) + "|"@ + addr6::v6_text(s.prefixes6[0].0)
                    + "/"@ + text::decimal(s.prefixes6[0].1 as nat),
            )
        } else {
            None
        },
        networks::identified(s) is Some <==> networks::basis(s) is Some,
        networks::identified(s) matches Some(id) ==> id == model::uuid_text(
            model::uuid_bytes(
                digest::sha1_of(
                    encode_utf8("peios-netd-network|"@) + encode_utf8(s.kind) + encode_utf8("|"@)
                        + encode_utf8(networks::basis(s)->0),
                ),
            ),
        ),
{
}

// ---- the registry -----------------------------------------------------------

/// What is stored as text ends at its first zero, or at its end where it has none.
pub proof fn stored_text_ends_at_the_first_zero(t: Seq<u8>, rest: Seq<u8>)
    requires
        forall|i: int| 0 <= i < t.len() ==> #[trigger] t[i] != 0,
    ensures
        config::stored_text(t) == if valid_utf8(t) {
            Some(decode_utf8(t))
        } else {
            None
        },
        config::stored_text(t + seq![0u8] + rest) == config::stored_text(t),
{
    let all = t + seq![0u8] + rest;
    bytes::zero_at_found(t, t.len() as int);
    bytes::zero_at_found(all, t.len() as int);
    assert(t.take(t.len() as int) =~= t);
    assert(all.take(t.len() as int) =~= t);
}

/// What is stored as a list of texts goes from zero to zero, what is empty or is no
/// text left out.
pub proof fn stored_texts_go_from_zero_to_zero(t: Seq<u8>, rest: Seq<u8>)
    requires
        forall|i: int| 0 <= i < t.len() ==> #[trigger] t[i] != 0,
    ensures
        config::stored_texts(Seq::empty()).len() == 0,
        ({
            let all = config::stored_texts(t + seq![0u8] + rest);
            if t.len() > 0 && valid_utf8(t) {
                all == seq![decode_utf8(t)] + config::stored_texts(rest)
            } else {
                all == config::stored_texts(rest)
            }
        }),
{
    let all = t + seq![0u8] + rest;
    let n = t.len() as int;
    bytes::zero_at_found(all, n);
    assert(all.take(n) =~= t);
    assert(all.skip(n + 1) =~= rest);
    assert(Seq::<Seq<char>>::empty() + config::stored_texts(rest) =~= config::stored_texts(rest));
}

/// Numbers are stored in four or eight bytes, the first the smallest; those of eight
/// may be below zero. Texts and lists of texts are read as such, and anything else, or
/// of another length, is none of these.
pub proof fn values_are_read_as_they_are_stored(d: Seq<u8>)
    ensures
        d.len() == 4 ==> config::lowered(ValueType::Dword, d) == RawValueV::Int(
            (d[0] + d[1] * 0x100 + d[2] * 0x1_0000 + d[3] * 0x100_0000) as i64,
        ),
        d.len() != 4 ==> config::lowered(ValueType::Dword, d) == RawValueV::Other,
        d.len() != 8 ==> config::lowered(ValueType::Qword, d) == RawValueV::Other,
        d.len() == 8 && d[7] < 0x80 ==> (config::lowered(ValueType::Qword, d) matches RawValueV::Int(
            n,
        ) && n == low(d) + high(d) * 0x1_0000_0000),
        d.len() == 8 && d[7] >= 0x80 ==> (config::lowered(
            ValueType::Qword,
            d,
        ) matches RawValueV::Int(n) && n == low(d) + high(d) * 0x1_0000_0000
            - 0x1_0000_0000_0000_0000),
        config::lowered(ValueType::Sz, d) == config::lowered(ValueType::ExpandSz, d),
        config::lowered(ValueType::Sz, d) == match config::stored_text(d) {
            Some(s) => RawValueV::Str(s),
            None => RawValueV::Other,
        },
        config::lowered(ValueType::MultiSz, d) == RawValueV::List(config::stored_texts(d)),
        config::lowered(ValueType::Binary, d) == RawValueV::Other,
        config::lowered(ValueType::Other, d) == RawValueV::Other,
{
    if d.len() == 4 || d.len() == 8 {
        reveal_with_fuel(bytes::le_nat, 10);
        let a = d.drop_first();
        let b = a.drop_first();
        let c = b.drop_first();
        let e = c.drop_first();
        assert(bytes::le_nat(d) == d[0] + 256 * bytes::le_nat(a));
        assert(bytes::le_nat(a) == d[1] + 256 * bytes::le_nat(b));
        assert(bytes::le_nat(b) == d[2] + 256 * bytes::le_nat(c));
        assert(bytes::le_nat(c) == d[3] + 256 * bytes::le_nat(e));
        if d.len() == 8 {
            let f = e.drop_first();
            let g = f.drop_first();
            let h = g.drop_first();
            assert(h.drop_first().len() == 0);
            assert(bytes::le_nat(e) == d[4] + 256 * bytes::le_nat(f));
            assert(bytes::le_nat(f) == d[5] + 256 * bytes::le_nat(g));
            assert(bytes::le_nat(g) == d[6] + 256 * bytes::le_nat(h));
            assert(bytes::le_nat(h) == d[7]);
            assert(bytes::le_nat(e) == high(d));
            assert(bytes::le_nat(d) == low(d) + high(d) * 0x1_0000_0000);
        } else {
            assert(e.len() == 0);
        }
    }
}

/// The number in the first four of eight bytes.
pub open spec fn low(d: Seq<u8>) -> int {
    d[0] + d[1] * 0x100 + d[2] * 0x1_0000 + d[3] * 0x100_0000
}

/// The number in the last four of eight bytes.
pub open spec fn high(d: Seq<u8>) -> int {
    d[4] + d[5] * 0x100 + d[6] * 0x1_0000 + d[7] * 0x100_0000
}

// ---- the inventory ----------------------------------------------------------

/// The inventory has six values of a link: what it is called, its hardware address,
/// where it sits, its driver, what it is, and its profile; empty where there is none.
pub proof fn the_inventory_has_six_values(
    link: LinkV,
    path: Seq<char>,
    driver: Seq<char>,
    profile: Option<Seq<char>>,
)
    ensures
        ({
            let v = inventory::values_of(link, path, driver, profile);
            &&& v.len() == 6
            &&& v[0] == ("Name"@, link.name)
            &&& v[1].0 == "MAC"@ && v[1].1 == if link.mac is Some {
                model::colon_hex(link.mac->0)
            } else {
                Seq::empty()
            }
            &&& v[2] == ("Path"@, path)
            &&& v[3] == ("Driver"@, driver)
            &&& v[4] == ("Type"@, link.kind.name())
            &&& v[5].0 == "Profile"@ && v[5].1 == if profile is Some {
                profile->0
            } else {
                Seq::empty()
            }
        }),
{
}

/// A value is written where what is stored does not read the same, with a zero behind
/// it.
pub proof fn a_value_is_written_where_it_differs(stored: Option<Seq<u8>>, value: Seq<char>)
    ensures
        inventory::write_due(stored, value) is None <==> stored is Some && config::stored_text(
            stored->0,
        ) == Some(value),
        inventory::write_due(stored, value) matches Some(d) ==> d == encode_utf8(value) + seq![0u8],
{
    assert(encode_utf8(value).push(0) =~= encode_utf8(value) + seq![0u8]);
}

// ---- the kernel's own handling ----------------------------------------------

/// The kernel's handling of advertisements is switched off for all interfaces, for
/// those to come, and for each that is there.
pub proof fn advertisements_are_left_to_the_daemon(present: Seq<Seq<char>>, name: Seq<char>)
    ensures
        ipv6::switched(Seq::empty()) == seq!["all"@, "default"@],
        ipv6::switched(present.push(name)) == if name == "all"@ || name == "default"@ {
            ipv6::switched(present)
        } else {
            ipv6::switched(present).push(name)
        },
        ipv6::switch_path(name) == "/proc/sys/net/ipv6/conf/"@ + name + "/accept_ra"@,
{
    assert(present.push(name).drop_last() =~= present);
}

/// A subnet begins where the bits behind its prefix are clear, and holds the address.
pub proof fn a_subnet_holds_its_address(a: Ipv4Addr, prefix: u8)
    ensures
        ({
            let b = addr::block_start(a, prefix).bits;
            &&& prefix == 0 ==> b == 0
            &&& prefix == 8 ==> b == a.bits as int / 0x100_0000 * 0x100_0000
            &&& prefix == 16 ==> b == a.bits as int / 0x1_0000 * 0x1_0000
            &&& prefix == 24 ==> b == a.bits as int / 0x100 * 0x100
            &&& prefix >= 32 ==> b == a.bits
            &&& b <= a.bits < b + addr::block_size(prefix)
        }),
{
    addr::block_fits(a, prefix);
    vstd::arithmetic::power2::lemma2_to64();
    let n = addr::block_size(prefix) as int;
    assert(0 <= a.bits as int % n < n) by (nonlinear_arith)
        requires
            n >= 1,
    ;
}

} // verus!
