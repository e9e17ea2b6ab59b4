//! How the values of a profile are spelled.

use vstd::prelude::*;
use vstd::string::*;
use crate::addr;
use crate::addr::{IpAddr, Ipv4Addr, Ipv6Addr};
use crate::addr6;
use crate::text;
use super::config::RawValueV;
use super::profile;
use super::profile::{AddressConfigV, StaticAddress};

verus! {

/// A switch is on with a number other than zero, or with on, yes, true or 1; off with
/// zero, or with off, no, false or 0, in any case; it is neither where it is empty, and
/// anything else is no switch.
pub proof fn switches_are_spelled(s: Seq<char>, n: i64, l: Seq<Seq<char>>)
    ensures
        profile::switch_in(RawValueV::Int(n)) == Some(Some(n != 0)),
        profile::switch_in(RawValueV::Other) is None,
        profile::switch_in(RawValueV::List(l)) == if l.len() == 0 {
            Some(None::<bool>)
        } else {
            None
        },
        s.len() == 0 ==> profile::switch_in(RawValueV::Str(s)) == Some(None::<bool>),
        s.len() > 0 ==> {
            let w = text::lowered(s);
            let on = w == "on"@ || w == "yes"@ || w == "true"@ || w == "1"@;
            let off = w == "off"@ || w == "no"@ || w == "false"@ || w == "0"@;
            profile::switch_in(RawValueV::Str(s)) == if on {
                Some(Some(true))
            } else if off {
                Some(Some(false))
            } else {
                None
            }
        },
{
}

/// A number is one of 32 bits, or a text that spells one, blanks around it left out;
/// an empty value is none.
pub proof fn numbers_are_spelled(s: Seq<char>, n: i64)
    ensures
        profile::number_in(RawValueV::Int(n)) == if 0 <= n <= 0xffff_ffff {
            Some(Some(n as u32))
        } else {
            None
        },
        profile::number_in(RawValueV::Other) is None,
        s.len() == 0 ==> profile::number_in(RawValueV::Str(s)) == Some(None::<u32>),
        s.len() > 0 ==> match text::unsigned_value(text::trimmed(s), 0xffff_ffff) {
            Some(v) => profile::number_in(RawValueV::Str(s)) == Some(Some(v as u32)),
            None => profile::number_in(RawValueV::Str(s)) is None,
        },
{
}

/// A list is one, what is empty left out, or one text alone.
pub proof fn lists_are_spelled(l: Seq<Seq<char>>, s: Seq<char>, n: i64)
    ensures
        profile::list_in(RawValueV::Int(n)) is None,
        profile::list_in(RawValueV::Other) is None,
        profile::list_in(RawValueV::Str(s)) == Some(
            if s.len() > 0 {
                seq![s]
            } else {
                Seq::empty()
            },
        ),
        profile::list_in(RawValueV::List(Seq::empty())) == Some(Seq::<Seq<char>>::empty()),
        ({
            let before = profile::list_in(RawValueV::List(l));
            let after = profile::list_in(RawValueV::List(l.push(s)));
            before is Some && after == if s.len() > 0 {
                Some(before->0.push(s))
            } else {
                before
            }
        }),
{
    assert(l.push(s).drop_last() =~= l);
    assert(profile::nonempty(Seq::<Seq<char>>::empty()) =~= Seq::<Seq<char>>::empty());
}

/// A fixed address is an address, a slash, and a prefix length of at most 32 for IPv4
/// and 128 for IPv6; blanks around either do not count.
pub proof fn fixed_addresses_are_spelled(a: Seq<char>, p: Seq<char>)
    requires
        forall|i: int| 0 <= i < a.len() ==> a[i] != '/',
    ensures
        profile::cidr_parsed(a) is None,
        profile::cidr_parsed(a + seq!['/'] + p) == match (
            addr6::ip_parsed(text::trimmed(a)),
            text::unsigned_value(text::trimmed(p), 255),
        ) {
            (Some(IpAddr::V4(x)), Some(n)) => if n <= 32 {
                Some(StaticAddress { address: IpAddr::V4(x), prefix: n as u8 })
            } else {
                None
            },
            (Some(IpAddr::V6(x)), Some(n)) => if n <= 128 {
                Some(StaticAddress { address: IpAddr::V6(x), prefix: n as u8 })
            } else {
                None
            },
            _ => None,
        },
{
    let s = a + seq!['/'] + p;
    let n = a.len() as int;
    addr::index_of_found(a, '/', n);
    addr::index_of_found(s, '/', n);
    assert(s.take(n) =~= a);
    assert(s.skip(n + 1) =~= p);
}

/// Lists of addresses, of gateways and of servers are read one by one. The first that
/// cannot be read is the one that is named; of two gateways of a family the last
/// counts.
pub proof fn addresses_are_read_one_by_one(l: Seq<Seq<char>>, s: Seq<char>)
    ensures
        profile::statics_in(l.push(s)) == match (profile::statics_in(l), profile::cidr_parsed(s)) {
            (Err(e), _) => Err::<Seq<StaticAddress>, Seq<char>>(e),
            (Ok(v), Some(a)) => Ok(v.push(a)),
            (Ok(_), None) => Err(s),
        },
        profile::servers_in(l.push(s)) == match (
            profile::servers_in(l),
            addr6::ip_parsed(text::trimmed(s)),
        ) {
            (Err(e), _) => Err::<Seq<IpAddr>, Seq<char>>(e),
            (Ok(v), Some(a)) => Ok(v.push(a)),
            (Ok(_), None) => Err(s),
        },
        profile::gateways_in(l.push(s)) == match (
            profile::gateways_in(l),
            addr6::ip_parsed(text::trimmed(s)),
        ) {
            (Err(e), _) => Err::<(Option<Ipv4Addr>, Option<Ipv6Addr>), Seq<char>>(e),
            (Ok(g), Some(IpAddr::V4(a))) => Ok((Some(a), g.1)),
            (Ok(g), Some(IpAddr::V6(a))) => Ok((g.0, Some(a))),
            (Ok(_), None) => Err(s),
        },
        profile::statics_in(Seq::empty()) == Ok::<Seq<StaticAddress>, Seq<char>>(Seq::empty()),
        profile::servers_in(Seq::empty()) == Ok::<Seq<IpAddr>, Seq<char>>(Seq::empty()),
        profile::gateways_in(Seq::empty()) == Ok::<
            (Option<Ipv4Addr>, Option<Ipv6Addr>),
            Seq<char>,
        >((None, None)),
{
    assert(l.push(s).drop_last() =~= l);
}

/// The families are `ipv4` and `ipv6`, in any case; each is wanted once it is named,
/// and anything else is refused.
pub proof fn families_are_read_one_by_one(l: Seq<Seq<char>>, s: Seq<char>)
    ensures
        profile::families_in(Seq::empty()) == Ok::<(bool, bool), Seq<char>>((false, false)),
        profile::families_in(l) matches Err(e) ==> profile::families_in(l.push(s)) == Err::<
            (bool, bool),
            Seq<char>,
        >(e),
        profile::families_in(l) matches Ok(f) ==> {
            let w = text::lowered(s);
            let all = profile::families_in(l.push(s));
            &&& w == "ipv4"@ ==> all == Ok::<(bool, bool), Seq<char>>((true, f.1))
            &&& w == "ipv6"@ ==> all == Ok::<(bool, bool), Seq<char>>((f.0, true))
            &&& w != "ipv4"@ && w != "ipv6"@ ==> all == Err::<(bool, bool), Seq<char>>(s)
        },
{
    assert(l.push(s).drop_last() =~= l);
    reveal_strlit("ipv4");
    reveal_strlit("ipv6");
    assert("ipv4"@[3] != "ipv6"@[3]);
}

/// Each setting of the routes, the MTU and the hostname goes by its name and touches
/// its own field alone.
pub proof fn settings_go_by_their_names(path: Seq<char>, a: AddressConfigV, v: RawValueV)
    ensures
        profile::switch_in(v) matches Some(b) ==> {
            let on = b == Some(true);
            &&& profile::route_step(path, a, "route.offered"@, v) == Some(
                Ok::<AddressConfigV, Seq<char>>(AddressConfigV { route_offered: on, ..a }),
            )
            &&& profile::route_step(path, a, "mtu.offered"@, v) == Some(
                Ok::<AddressConfigV, Seq<char>>(AddressConfigV { mtu_offered: on, ..a }),
            )
            &&& profile::route_step(path, a, "hostname.announce"@, v) == Some(
                Ok::<AddressConfigV, Seq<char>>(AddressConfigV { announce_hostname: on, ..a }),
            )
            &&& profile::route_step(path, a, "hostname.offered"@, v) == Some(
                Ok::<AddressConfigV, Seq<char>>(AddressConfigV { accept_hostname: on, ..a }),
            )
        },
        profile::number_in(v) matches Some(n) ==> {
            &&& profile::route_step(path, a, "route.metric"@, v) == Some(
                Ok::<AddressConfigV, Seq<char>>(AddressConfigV { route_metric: n, ..a }),
            )
            &&& n is None ==> profile::route_step(path, a, "mtu.value"@, v) == Some(
                Ok::<AddressConfigV, Seq<char>>(AddressConfigV { mtu: None, ..a }),
            )
            &&& n is Some && n->0 >= 68 ==> profile::route_step(path, a, "mtu.value"@, v) == Some(
                Ok::<AddressConfigV, Seq<char>>(AddressConfigV { mtu: n, ..a }),
            )
            &&& n is Some && n->0 < 68 ==> (profile::route_step(
                path,
                a,
                "mtu.value"@,
                v,
            ) matches Some(r) && r is Err)
        },
{
    reveal_strlit("route.offered");
    reveal_strlit("route.gateway");
    reveal_strlit("route.metric");
    reveal_strlit("mtu.offered");
    reveal_strlit("mtu.value");
    reveal_strlit("hostname.announce");
    reveal_strlit("hostname.offered");
    assert("route.offered"@.len() == 13 && "route.gateway"@.len() == 13);
    assert("route.metric"@.len() == 12 && "mtu.offered"@.len() == 11 && "mtu.value"@.len() == 9);
    assert("hostname.announce"@.len() == 17 && "hostname.offered"@.len() == 16);
}

} // verus!
