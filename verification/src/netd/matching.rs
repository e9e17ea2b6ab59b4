//! Which profile claims a link.
//!
//! Every non-empty match key must match; a profile with no keys matches
//! nothing (a profile that claimed every interface by accident would be a
//! worse default than one that claims none). Values are compared
//! case-insensitively with one `*` wildcard allowed anywhere.

use vstd::prelude::*;
use vstd::string::*;
use crate::addr;
use crate::addr::Ipv4Addr;
use crate::text;
use super::model;
use super::model::{Identity, Link, LinkV};

verus! {

/// The keys by which a profile claims links; those not given ask nothing.
#[derive(Debug, PartialEq, Eq)]
pub struct Match {
    pub name: Option<String>,
    pub mac: Option<String>,
    pub path: Option<String>,
    pub driver: Option<String>,
    /// The link's kind, as `LinkKind::as_str` names it.
    pub kind: Option<String>,
}

/// The same as values.
#[verifier::ext_equal]
pub struct MatchV {
    pub name: Option<Seq<char>>,
    pub mac: Option<Seq<char>>,
    pub path: Option<Seq<char>>,
    pub driver: Option<Seq<char>>,
    pub kind: Option<Seq<char>>,
}

impl View for Match {
    type V = MatchV;

    open spec fn view(&self) -> MatchV {
        MatchV {
            name: text::opt_view(self.name),
            mac: text::opt_view(self.mac),
            path: text::opt_view(self.path),
            driver: text::opt_view(self.driver),
            kind: text::opt_view(self.kind),
        }
    }
}

impl Default for Match {
    fn default() -> (m: Match)
        ensures
            m@ == (MatchV { name: None, mac: None, path: None, driver: None, kind: None }),
    {
        Match { name: None, mac: None, path: None, driver: None, kind: None }
    }
}

impl Clone for Match {
    fn clone(&self) -> (r: Match)
        ensures
            r@ == self@,
    {
        Match {
            name: self.name.clone(),
            mac: self.mac.clone(),
            path: self.path.clone(),
            driver: self.driver.clone(),
            kind: self.kind.clone(),
        }
    }
}

/// What to do with an address whose lease was lost.
#[derive(Debug, Clone, Copy, PartialEq, Eq, Structural)]
pub enum OnLeaseExpiry {
    Drop,
    Keep,
}

/// A fixed address and the length of its prefix.
#[derive(Debug, Clone, Copy, PartialEq, Eq, Structural)]
pub struct StaticAddress {
    pub address: Ipv4Addr,
    pub prefix: u8,
}

/// How a claimed link is addressed.
#[derive(Debug, PartialEq, Eq)]
pub struct AddressConfig {
    /// Ask for a lease.
    pub dhcp4: bool,
    pub statics: Vec<StaticAddress>,
    pub gateway: Option<Ipv4Addr>,
    /// Self-assign 169.254/16 while nobody answers.
    pub link_local: bool,
    pub on_lease_expiry: OnLeaseExpiry,
    /// Tell the server our name.
    pub send_hostname: bool,
    /// Adopt the server's name for us if we have none.
    pub accept_hostname: bool,
    pub route_metric: Option<u32>,
    pub mtu: Option<u32>,
}

/// The same as values.
#[verifier::ext_equal]
pub struct AddressConfigV {
    pub dhcp4: bool,
    pub statics: Seq<StaticAddress>,
    pub gateway: Option<Ipv4Addr>,
    pub link_local: bool,
    pub on_lease_expiry: OnLeaseExpiry,
    pub send_hostname: bool,
    pub accept_hostname: bool,
    pub route_metric: Option<u32>,
    pub mtu: Option<u32>,
}

impl View for AddressConfig {
    type V = AddressConfigV;

    open spec fn view(&self) -> AddressConfigV {
        AddressConfigV {
            dhcp4: self.dhcp4,
            statics: self.statics@,
            gateway: self.gateway,
            link_local: self.link_local,
            on_lease_expiry: self.on_lease_expiry,
            send_hostname: self.send_hostname,
            accept_hostname: self.accept_hostname,
            route_metric: self.route_metric,
            mtu: self.mtu,
        }
    }
}

impl Default for AddressConfig {
    fn default() -> (c: AddressConfig)
        ensures
            c@ == (AddressConfigV {
                dhcp4: false,
                statics: Seq::empty(),
                gateway: None,
                link_local: false,
                on_lease_expiry: OnLeaseExpiry::Drop,
                send_hostname: false,
                accept_hostname: false,
                route_metric: None,
                mtu: None,
            }),
    {
        AddressConfig {
            dhcp4: false,
            statics: Vec::new(),
            gateway: None,
            link_local: false,
            on_lease_expiry: OnLeaseExpiry::Drop,
            send_hostname: false,
            accept_hostname: false,
            route_metric: None,
            mtu: None,
        }
    }
}

impl Clone for AddressConfig {
    fn clone(&self) -> (r: AddressConfig)
        ensures
            r@ == self@,
    {
        AddressConfig {
            dhcp4: self.dhcp4,
            statics: vstd::slice::slice_to_vec(self.statics.as_slice()),
            gateway: self.gateway,
            link_local: self.link_local,
            on_lease_expiry: self.on_lease_expiry,
            send_hostname: self.send_hostname,
            accept_hostname: self.accept_hostname,
            route_metric: self.route_metric,
            mtu: self.mtu,
        }
    }
}

/// What a claimed link contributes to name resolution.
#[derive(Debug, PartialEq, Eq)]
pub struct DnsConfig {
    pub servers: Vec<Ipv4Addr>,
    pub search: Vec<String>,
    /// Believe the lease's servers and domains.
    pub use_from_dhcp: bool,
    /// Its servers take names no domain matches; by default those of a link
    /// with a default route do.
    pub default_route: Option<bool>,
    /// While it is up, no other link's servers are used.
    pub exclusive: bool,
}

/// The same as values.
#[verifier::ext_equal]
pub struct DnsConfigV {
    pub servers: Seq<Ipv4Addr>,
    pub search: Seq<Seq<char>>,
    pub use_from_dhcp: bool,
    pub default_route: Option<bool>,
    pub exclusive: bool,
}

impl View for DnsConfig {
    type V = DnsConfigV;

    open spec fn view(&self) -> DnsConfigV {
        DnsConfigV {
            servers: self.servers@,
            search: text::list_view(self.search@),
            use_from_dhcp: self.use_from_dhcp,
            default_route: self.default_route,
            exclusive: self.exclusive,
        }
    }
}

impl Default for DnsConfig {
    fn default() -> (c: DnsConfig)
        ensures
            c@ == (DnsConfigV {
                servers: Seq::empty(),
                search: Seq::empty(),
                use_from_dhcp: false,
                default_route: None,
                exclusive: false,
            }),
    {
        let c: DnsConfig = DnsConfig {
            servers: Vec::new(),
            search: Vec::new(),
            use_from_dhcp: false,
            default_route: None,
            exclusive: false,
        };
        assert(text::list_view(c.search@) =~= Seq::empty());
        c
    }
}

impl Clone for DnsConfig {
    fn clone(&self) -> (r: DnsConfig)
        ensures
            r@ == self@,
    {
        DnsConfig {
            servers: vstd::slice::slice_to_vec(self.servers.as_slice()),
            search: text::copy_list(&self.search),
            use_from_dhcp: self.use_from_dhcp,
            default_route: self.default_route,
            exclusive: self.exclusive,
        }
    }
}

/// A profile that claims links by what they are.
#[derive(Debug, PartialEq, Eq)]
pub struct Profile {
    pub name: String,
    pub priority: u32,
    /// Whether a link it claims is configured at all, or only watched.
    pub managed: bool,
    pub matches: Match,
    pub address: AddressConfig,
    pub dns: DnsConfig,
}

/// The same as values.
#[verifier::ext_equal]
pub struct ProfileV {
    pub name: Seq<char>,
    pub priority: u32,
    pub managed: bool,
    pub matches: MatchV,
    pub address: AddressConfigV,
    pub dns: DnsConfigV,
}

impl View for Profile {
    type V = ProfileV;

    open spec fn view(&self) -> ProfileV {
        ProfileV {
            name: self.name@,
            priority: self.priority,
            managed: self.managed,
            matches: self.matches@,
            address: self.address@,
            dns: self.dns@,
        }
    }
}

impl Clone for Profile {
    fn clone(&self) -> (r: Profile)
        ensures
            r@ == self@,
    {
        Profile {
            name: self.name.clone(),
            priority: self.priority,
            managed: self.managed,
            matches: self.matches.clone(),
            address: self.address.clone(),
            dns: self.dns.clone(),
        }
    }
}

/// Whether small-lettered `v` is small-lettered `p`, with the first `*` of `p`
/// standing for any text.
pub open spec fn fits(p: Seq<char>, v: Seq<char>) -> bool {
    let star = addr::index_of(p, '*');
    if star >= p.len() {
        p == v
    } else {
        let head = p.take(star);
        let tail = p.skip(star + 1);
        exists|middle: Seq<char>| v == #[trigger] (head + middle) + tail
    }
}

/// Whether a value matches a pattern.
pub open spec fn globs(pattern: Seq<char>, value: Seq<char>) -> bool {
    fits(text::lowered(pattern), text::lowered(value))
}

proof fn fits_from(p: Seq<char>, v: Seq<char>, star: int)
    requires
        0 <= star < p.len(),
        star == addr::index_of(p, '*'),
    ensures
        fits(p, v) == (v.len() >= p.len() - 1 && v.take(star) == p.take(star) && v.skip(
            v.len() - (p.len() - star - 1),
        ) == p.skip(star + 1)),
{
    let head = p.take(star);
    let tail = p.skip(star + 1);
    if v.len() >= p.len() - 1 && v.take(star) == head && v.skip(v.len() - tail.len()) == tail {
        let middle = v.subrange(star, v.len() - tail.len());
        assert(v =~= (head + middle) + tail);
    }
    if fits(p, v) {
        let middle = choose|middle: Seq<char>| v == #[trigger] (head + middle) + tail;
        assert(v.take(star) =~= head);
        assert(v.skip(v.len() - tail.len()) =~= tail);
    }
}

/// One `*`-glob, case-insensitive.
pub fn glob(pattern: &str, value: &str) -> (r: bool)
    ensures
        r == globs(pattern@, value@),
{
    let lower_p: String = text::lower(pattern);
    let lower_v: String = text::lower(value);
    let p: Vec<char> = text::chars(lower_p.as_str());
    let v: Vec<char> = text::chars(lower_v.as_str());
    let n: usize = p.len();
    let m: usize = v.len();
    assert(p@.subrange(0, n as int) =~= p@);
    let star: usize = addr::find(p.as_slice(), 0, n, '*');
    if star >= n {
        return text::same(lower_p.as_str(), lower_v.as_str());
    }
    proof {
        fits_from(p@, v@, star as int);
    }
    if m < n - 1 {
        return false;
    }
    let ghost head = p@.take(star as int);
    let ghost start = v@.take(star as int);
    let ghost tail = p@.skip(star + 1);
    let ghost end = v@.skip(m - (n - star - 1));
    let mut i: usize = 0;
    while i < star
        invariant
            i <= star < n,
            n == p@.len(),
            m == v@.len(),
            m >= n - 1,
            head == p@.take(star as int),
            start == v@.take(star as int),
            globs(pattern@, value@) == (start == head && end == tail),
            forall|k: int| 0 <= k < i ==> p@[k] == v@[k],
        decreases star - i,
    {
        if p[i] != v[i] {
            assert(head[i as int] != start[i as int]);
            return false;
        }
        i = i + 1;
    }
    assert(start =~= head);
    let shift: usize = m - (n - 1);
    i = star + 1;
    while i < n
        invariant
            star + 1 <= i <= n,
            n == p@.len(),
            m == v@.len(),
            m >= n - 1,
            shift == m - (n - 1),
            tail == p@.skip(star + 1),
            end == v@.skip(m - (n - star - 1)),
            globs(pattern@, value@) == (end == tail),
            forall|k: int| star + 1 <= k < i ==> p@[k] == v@[k - 1 + shift],
        decreases n - i,
    {
        if p[i] != v[i - 1 + shift] {
            assert(tail[i - star - 1] == p@[i as int]);
            assert(end[i - star - 1] == v@[i - 1 + shift]);
            return false;
        }
        i = i + 1;
    }
    assert(end =~= tail);
    true
}

/// Whether a key that may be given matches a value that may be there.
pub open spec fn key_fits(pattern: Option<Seq<char>>, value: Option<Seq<char>>) -> bool {
    match pattern {
        None => true,
        Some(p) => match value {
            Some(v) => globs(p, v),
            None => false,
        },
    }
}

/// A hardware address in text.
pub open spec fn mac_text(mac: Option<Seq<u8>>) -> Option<Seq<char>> {
    match mac {
        Some(m) => Some(model::colon_hex(m)),
        None => None,
    }
}

/// Whether the keys claim the link: every key that is given fits, and one is
/// given.
pub open spec fn claims(m: MatchV, link: LinkV, path: Seq<char>, driver: Seq<char>) -> bool {
    &&& key_fits(m.name, Some(link.name))
    &&& key_fits(m.mac, mac_text(link.mac))
    &&& key_fits(m.path, Some(path))
    &&& key_fits(m.driver, Some(driver))
    &&& key_fits(m.kind, Some(link.kind.name()))
    &&& (m.name is Some || m.mac is Some || m.path is Some || m.driver is Some || m.kind is Some)
}

fn key_matches(pattern: &Option<String>, value: &str) -> (r: bool)
    ensures
        r == key_fits(text::opt_view(*pattern), Some(value@)),
{
    match pattern {
        None => true,
        Some(p) => glob(p.as_str(), value),
    }
}

/// Whether the keys claim the link.
pub fn matches(m: &Match, link: &Link, identity: &Identity) -> (r: bool)
    ensures
        r == claims(m@, link@, identity.path@, identity.driver@),
{
    let mac: bool = match (&m.mac, &link.mac) {
        (None, _) => true,
        (Some(p), Some(a)) => glob(p.as_str(), model::format_mac(a).as_str()),
        (Some(_), None) => false,
    };
    let any: bool = m.name.is_some() || m.mac.is_some() || m.path.is_some() || m.driver.is_some()
        || m.kind.is_some();
    any && mac && key_matches(&m.name, link.name.as_str()) && key_matches(
        &m.path,
        identity.path.as_str(),
    ) && key_matches(&m.driver, identity.driver.as_str()) && key_matches(
        &m.kind,
        link.kind.as_str(),
    )
}

/// Profiles as values.
pub open spec fn profiles_view(s: Seq<Profile>) -> Seq<ProfileV> {
    s.map_values(|p: Profile| p@)
}

/// The first profile of a list that claims the link.
pub open spec fn chosen(
    profiles: Seq<ProfileV>,
    link: LinkV,
    path: Seq<char>,
    driver: Seq<char>,
) -> Option<ProfileV>
    decreases profiles.len(),
{
    if profiles.len() == 0 {
        None
    } else if claims(profiles[0].matches, link, path, driver) {
        Some(profiles[0])
    } else {
        chosen(profiles.drop_first(), link, path, driver)
    }
}

/// The winning profile, if any. `profiles` is already sorted by priority.
pub fn select<'a>(profiles: &'a Vec<Profile>, link: &Link, identity: &Identity) -> (r: Option<
    &'a Profile,
>)
    ensures
        match r {
            Some(p) => chosen(profiles_view(profiles@), link@, identity.path@, identity.driver@)
                == Some(p@),
            None => chosen(profiles_view(profiles@), link@, identity.path@, identity.driver@)
                is None,
        },
{
    let ghost all = profiles_view(profiles@);
    let mut i: usize = 0;
    assert(all.skip(0) =~= all);
    while i < profiles.len()
        invariant
            i <= profiles@.len(),
            all == profiles_view(profiles@),
            chosen(all, link@, identity.path@, identity.driver@) == chosen(
                all.skip(i as int),
                link@,
                identity.path@,
                identity.driver@,
            ),
        decreases profiles@.len() - i,
    {
        assert(all.skip(i as int)[0] == profiles@[i as int]@);
        assert(all.skip(i as int).drop_first() =~= all.skip(i + 1));
        if matches(&profiles[i].matches, link, identity) {
            return Some(&profiles[i]);
        }
        i = i + 1;
    }
    None
}

// ---- laws ------------------------------------------------------------------

/// A profile with no keys claims nothing.
pub proof fn no_keys_claim_nothing(link: LinkV, path: Seq<char>, driver: Seq<char>)
    ensures
        !claims(
            MatchV { name: None, mac: None, path: None, driver: None, kind: None },
            link,
            path,
            driver,
        ),
{
}

/// A key more never claims more.
pub proof fn every_given_key_must_match(
    m: MatchV,
    name: Seq<char>,
    link: LinkV,
    path: Seq<char>,
    driver: Seq<char>,
)
    requires
        claims(MatchV { name: Some(name), ..m }, link, path, driver),
    ensures
        globs(name, link.name),
        (m.mac is Some || m.path is Some || m.driver is Some || m.kind is Some) ==> claims(
            MatchV { name: None, ..m },
            link,
            path,
            driver,
        ),
{
}

/// The case of ASCII letters makes no difference to a match.
pub proof fn case_makes_no_difference(p: Seq<char>, q: Seq<char>, v: Seq<char>, w: Seq<char>)
    requires
        text::lowered(p) == text::lowered(q),
        text::lowered(v) == text::lowered(w),
    ensures
        globs(p, v) == globs(q, w),
{
}

/// The winner claims the link, and nothing before it in the list does.
pub proof fn first_in_order_wins(
    profiles: Seq<ProfileV>,
    link: LinkV,
    path: Seq<char>,
    driver: Seq<char>,
)
    ensures
        match chosen(profiles, link, path, driver) {
            Some(p) => exists|n: int|
                0 <= n < profiles.len() && #[trigger] profiles[n] == p && claims(
                    p.matches,
                    link,
                    path,
                    driver,
                ) && forall|k: int|
                    0 <= k < n ==> !claims((#[trigger] profiles[k]).matches, link, path, driver),
            None => forall|k: int|
                0 <= k < profiles.len() ==> !claims(
                    (#[trigger] profiles[k]).matches,
                    link,
                    path,
                    driver,
                ),
        },
    decreases profiles.len(),
{
    if profiles.len() > 0 && !claims(profiles[0].matches, link, path, driver) {
        let rest = profiles.drop_first();
        first_in_order_wins(rest, link, path, driver);
        assert forall|k: int| 0 <= k < rest.len() implies rest[k] == profiles[k + 1] by {}
        match chosen(rest, link, path, driver) {
            Some(p) => {
                let n = choose|n: int|
                    0 <= n < rest.len() && #[trigger] rest[n] == p && claims(
                        p.matches,
                        link,
                        path,
                        driver,
                    ) && forall|k: int|
                        0 <= k < n ==> !claims((#[trigger] rest[k]).matches, link, path, driver);
                assert(profiles[n + 1] == p);
                assert forall|k: int| 0 <= k < n + 1 implies !claims(
                    (#[trigger] profiles[k]).matches,
                    link,
                    path,
                    driver,
                ) by {
                    if k > 0 {
                        assert(rest[k - 1] == profiles[k]);
                    }
                }
            },
            None => {
                assert forall|k: int| 0 <= k < profiles.len() implies !claims(
                    (#[trigger] profiles[k]).matches,
                    link,
                    path,
                    driver,
                ) by {
                    if k > 0 {
                        assert(rest[k - 1] == profiles[k]);
                    }
                }
            },
        }
    }
}

} // verus!
