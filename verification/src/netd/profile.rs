//! Profiles: how an interface stands on a network.
//!
//! `Machine\System\Network\Profiles\<path>` is the profile tree. A profile is
//! a key with flat dotted values (`Address.Offered`, `Dns.Servers`,
//! `Route.Metric`) and no match block: which interfaces stand in it is the
//! interface layer's decision (`policy`), by a `JOIN(path)` verdict.
//!
//! Subkeys inherit: `office\london` carries every value of `office` and
//! overrides those it names, per value name and wholesale (a list replaces a
//! list). A present-but-empty value means *none*; an absent value means
//! *inherit*. `Enabled = 0` makes a key and its subtree invisible.
//!
//! Every compiled default is "believe nothing, do nothing": a bare profile
//! brings the link up and nothing else. The shipped `default` profile is where
//! the friendly behaviour lives, visibly and deletably.

use vstd::prelude::*;
use vstd::string::*;
use crate::addr;
use crate::addr::{IpAddr, Ipv4Addr, Ipv6Addr};
use crate::addr6;
use crate::sorted;
use crate::text;
use super::config;
use super::config::{RawKey, RawValue, RawValueV, ValuesV};

verus! {

/// What to do with an address whose lease has expired.
#[derive(Debug, Clone, Copy, PartialEq, Eq, Structural)]
pub enum OnExpiry {
    Drop,
    Keep,
}

/// An address and the length of its prefix.
#[derive(Debug, Clone, Copy, PartialEq, Eq, Structural)]
pub struct StaticAddress {
    pub address: IpAddr,
    pub prefix: u8,
}

/// The `Address`, `Route`, `Hostname` and `Mtu` bundles: how the interface
/// gets addressed, finds its way out, and what it tells the network about
/// itself.
#[derive(Debug, PartialEq, Eq)]
pub struct AddressConfig {
    /// `Address.Offered`: take the address the network offers (DHCPv4, IPv6
    /// autoconfiguration).
    pub offered: bool,
    /// `Address.Families`: whether the bundle deals in IPv4 at all.
    pub ipv4: bool,
    /// `Address.Families`: whether the bundle deals in IPv6 at all.
    pub ipv6: bool,
    /// `Address.Static`.
    pub statics: Vec<StaticAddress>,
    /// `Address.LinkLocal`: self-assign 169.254/16 while nobody answers.
    pub link_local: bool,
    /// `Address.Temporary`: RFC 8981 temporary addresses beside the stable.
    pub temporary: bool,
    /// `Address.OnExpiry`.
    pub on_expiry: OnExpiry,
    /// `Route.Offered`: take the way out, and extra routes, the network offers
    /// (the lease's gateway and classless routes; the routers' advertised
    /// default).
    pub route_offered: bool,
    /// `Route.Gateway`, IPv4 entry.
    pub gateway: Option<Ipv4Addr>,
    /// `Route.Gateway`, IPv6 entry.
    pub gateway6: Option<Ipv6Addr>,
    /// `Route.Metric`.
    pub route_metric: Option<u32>,
    /// `Mtu.Offered`: take the packet size limit the network offers.
    pub mtu_offered: bool,
    /// `Mtu.Value`.
    pub mtu: Option<u32>,
    /// `Hostname.Announce`: tell the network our name (DHCP option 12).
    pub announce_hostname: bool,
    /// `Hostname.Offered`: adopt the network's name for us if we have none.
    pub accept_hostname: bool,
}

/// The same as values.
#[verifier::ext_equal]
pub struct AddressConfigV {
    pub offered: bool,
    pub ipv4: bool,
    pub ipv6: bool,
    pub statics: Seq<StaticAddress>,
    pub link_local: bool,
    pub temporary: bool,
    pub on_expiry: OnExpiry,
    pub route_offered: bool,
    pub gateway: Option<Ipv4Addr>,
    pub gateway6: Option<Ipv6Addr>,
    pub route_metric: Option<u32>,
    pub mtu_offered: bool,
    pub mtu: Option<u32>,
    pub announce_hostname: bool,
    pub accept_hostname: bool,
}

impl View for AddressConfig {
    type V = AddressConfigV;

    open spec fn view(&self) -> AddressConfigV {
        AddressConfigV {
            offered: self.offered,
            ipv4: self.ipv4,
            ipv6: self.ipv6,
            statics: self.statics@,
            link_local: self.link_local,
            temporary: self.temporary,
            on_expiry: self.on_expiry,
            route_offered: self.route_offered,
            gateway: self.gateway,
            gateway6: self.gateway6,
            route_metric: self.route_metric,
            mtu_offered: self.mtu_offered,
            mtu: self.mtu,
            announce_hostname: self.announce_hostname,
            accept_hostname: self.accept_hostname,
        }
    }
}

/// Believe nothing, do nothing, in both families.
pub open spec fn address_default() -> AddressConfigV {
    AddressConfigV {
        offered: false,
        ipv4: true,
        ipv6: true,
        statics: Seq::empty(),
        link_local: false,
        temporary: false,
        on_expiry: OnExpiry::Drop,
        route_offered: false,
        gateway: None,
        gateway6: None,
        route_metric: None,
        mtu_offered: false,
        mtu: None,
        announce_hostname: false,
        accept_hostname: false,
    }
}

impl Default for AddressConfig {
    fn default() -> (a: AddressConfig)
        ensures
            a@ == address_default(),
    {
        AddressConfig {
            offered: false,
            ipv4: true,
            ipv6: true,
            statics: Vec::new(),
            link_local: false,
            temporary: false,
            on_expiry: OnExpiry::Drop,
            route_offered: false,
            gateway: None,
            gateway6: None,
            route_metric: None,
            mtu_offered: false,
            mtu: None,
            announce_hostname: false,
            accept_hostname: false,
        }
    }
}

impl Clone for AddressConfig {
    fn clone(&self) -> (r: AddressConfig)
        ensures
            r@ == self@,
    {
        AddressConfig {
            offered: self.offered,
            ipv4: self.ipv4,
            ipv6: self.ipv6,
            statics: vstd::slice::slice_to_vec(self.statics.as_slice()),
            link_local: self.link_local,
            temporary: self.temporary,
            on_expiry: self.on_expiry,
            route_offered: self.route_offered,
            gateway: self.gateway,
            gateway6: self.gateway6,
            route_metric: self.route_metric,
            mtu_offered: self.mtu_offered,
            mtu: self.mtu,
            announce_hostname: self.announce_hostname,
            accept_hostname: self.accept_hostname,
        }
    }
}

impl AddressConfig {
    /// Run a DHCPv4 client: the address is offered and IPv4 is in play.
    pub fn dhcp4(&self) -> (r: bool)
        ensures
            r == (self.offered && self.ipv4),
    {
        self.offered && self.ipv4
    }

    /// Solicit routers and autoconfigure: the address is offered and IPv6 is
    /// in play.
    pub fn autoconf6(&self) -> (r: bool)
        ensures
            r == (self.offered && self.ipv6),
    {
        self.offered && self.ipv6
    }
}

/// The `Dns` bundle: what the interface contributes to name resolution.
#[derive(Debug, PartialEq, Eq)]
pub struct DnsConfig {
    /// `Dns.Servers`: our own, in order, before any offered.
    pub servers: Vec<IpAddr>,
    /// `Dns.Domains`: domains these servers answer for.
    pub domains: Vec<String>,
    /// `Dns.Offered`: also take what the network said (the lease's servers and
    /// search list, the routers' RDNSS and DNSSL, a stateless DHCPv6 answer)
    /// after our own.
    pub offered: bool,
    /// `Dns.Default`: take names no domain claims. Absent follows the default
    /// route.
    pub default_route: Option<bool>,
    /// `Dns.Exclusive`: while up, nobody else's servers are consulted.
    pub exclusive: bool,
}

/// The same as values.
#[verifier::ext_equal]
pub struct DnsConfigV {
    pub servers: Seq<IpAddr>,
    pub domains: Seq<Seq<char>>,
    pub offered: bool,
    pub default_route: Option<bool>,
    pub exclusive: bool,
}

impl View for DnsConfig {
    type V = DnsConfigV;

    open spec fn view(&self) -> DnsConfigV {
        DnsConfigV {
            servers: self.servers@,
            domains: text::list_view(self.domains@),
            offered: self.offered,
            default_route: self.default_route,
            exclusive: self.exclusive,
        }
    }
}

/// Nothing contributed.
pub open spec fn dns_default() -> DnsConfigV {
    DnsConfigV {
        servers: Seq::empty(),
        domains: Seq::empty(),
        offered: false,
        default_route: None,
        exclusive: false,
    }
}

impl Default for DnsConfig {
    fn default() -> (d: DnsConfig)
        ensures
            d@ == dns_default(),
    {
        let d: DnsConfig = DnsConfig {
            servers: Vec::new(),
            domains: Vec::new(),
            offered: false,
            default_route: None,
            exclusive: false,
        };
        assert(d@.domains =~= Seq::empty());
        d
    }
}

impl Clone for DnsConfig {
    fn clone(&self) -> (r: DnsConfig)
        ensures
            r@ == self@,
    {
        DnsConfig {
            servers: vstd::slice::slice_to_vec(self.servers.as_slice()),
            domains: text::copy_list(&self.domains),
            offered: self.offered,
            default_route: self.default_route,
            exclusive: self.exclusive,
        }
    }
}

/// A resolved profile: inheritance applied, vocabulary parsed.
#[derive(Debug, PartialEq, Eq)]
pub struct Profile {
    /// The path under `Profiles\`, `/`-separated, as written.
    pub path: String,
    /// Whether this key and every ancestor are enabled. A disabled profile is
    /// invisible: a rule that names it abstains.
    pub enabled: bool,
    pub address: AddressConfig,
    pub dns: DnsConfig,
}

/// The same as values.
#[verifier::ext_equal]
pub struct ProfileV {
    pub path: Seq<char>,
    pub enabled: bool,
    pub address: AddressConfigV,
    pub dns: DnsConfigV,
}

impl View for Profile {
    type V = ProfileV;

    open spec fn view(&self) -> ProfileV {
        ProfileV {
            path: self.path@,
            enabled: self.enabled,
            address: self.address@,
            dns: self.dns@,
        }
    }
}

impl Clone for Profile {
    fn clone(&self) -> (r: Profile)
        ensures
            r@ == self@,
    {
        Profile {
            path: self.path.clone(),
            enabled: self.enabled,
            address: self.address.clone(),
            dns: self.dns.clone(),
        }
    }
}

/// Profiles by lower-cased path, in order.
pub type ProfilesV = Seq<(Seq<char>, ProfileV)>;

/// Profiles as values.
pub open spec fn profiles_view(v: Seq<(String, Profile)>) -> ProfilesV {
    Seq::new(v.len(), |i: int| (v[i].0@, v[i].1@))
}

/// Profiles by lower-cased path.
#[derive(Debug, PartialEq, Eq)]
pub struct Profiles(pub Vec<(String, Profile)>);

impl View for Profiles {
    type V = ProfilesV;

    open spec fn view(&self) -> ProfilesV {
        profiles_view(self.0@)
    }
}

impl Profiles {
    /// No profiles.
    pub fn new() -> (p: Profiles)
        ensures
            p@ == Seq::<(Seq<char>, ProfileV)>::empty(),
    {
        let p: Profiles = Profiles(Vec::new());
        assert(p@ =~= Seq::<(Seq<char>, ProfileV)>::empty());
        p
    }

    /// The profile with this lower-cased path.
    pub fn get(&self, path: &str) -> (r: Option<&Profile>)
        ensures
            match r {
                Some(p) => sorted::get(self@, path@) == Some(p@),
                None => sorted::get(self@, path@) is None,
            },
    {
        let n: usize = sorted::find(&self.0, path);
        assert(sorted::keys(self@) =~= sorted::raw_keys(self.0@));
        if n < self.0.len() && text::same(self.0[n].0.as_str(), path) {
            Some(&self.0[n].1)
        } else {
            None
        }
    }

    /// Puts a profile in for this path.
    fn insert(&mut self, path: String, profile: Profile)
        ensures
            final(self)@ == sorted::put(old(self)@, path@, profile@),
    {
        let n: usize = sorted::find(&self.0, path.as_str());
        let ghost all = self@;
        let ghost entry = (path@, profile@);
        assert(sorted::keys(self@) =~= sorted::raw_keys(self.0@));
        if n < self.0.len() && text::same(self.0[n].0.as_str(), path.as_str()) {
            self.0.set(n, (path, profile));
            assert(self@ =~= all.update(n as int, entry));
        } else {
            self.0.insert(n, (path, profile));
            assert(self@ =~= all.insert(n as int, entry));
        }
    }
}

// ---- values ----------------------------------------------------------------

/// A switch: a number other than zero, or a word for it.
pub open spec fn bool_in(v: RawValueV) -> Option<bool> {
    match v {
        RawValueV::Int(n) => Some(n != 0),
        RawValueV::Str(s) => {
            let l = text::lowered(s);
            if l == "on"@ || l == "yes"@ || l == "true"@ || l == "1"@ {
                Some(true)
            } else if l == "off"@ || l == "no"@ || l == "false"@ || l == "0"@ {
                Some(false)
            } else {
                None
            }
        },
        _ => None,
    }
}

fn as_bool(v: &RawValue) -> (r: Option<bool>)
    ensures
        r == bool_in(v@),
{
    match v {
        RawValue::Int(n) => Some(*n != 0),
        RawValue::Str(s) => {
            let l: String = text::lower(s.as_str());
            let l: &str = l.as_str();
            if text::same(l, "on") || text::same(l, "yes") || text::same(l, "true") || text::same(
                l,
                "1",
            ) {
                Some(true)
            } else if text::same(l, "off") || text::same(l, "no") || text::same(l, "false")
                || text::same(l, "0") {
                Some(false)
            } else {
                None
            }
        },
        _ => None,
    }
}

/// A number of thirty-two bits.
pub open spec fn u32_in(v: RawValueV) -> Option<u32> {
    match v {
        RawValueV::Int(n) => if 0 <= n <= u32::MAX {
            Some(n as u32)
        } else {
            None
        },
        RawValueV::Str(s) => match text::unsigned_value(text::trimmed(s), u32::MAX as nat) {
            Some(n) => Some(n as u32),
            None => None,
        },
        _ => None,
    }
}

fn as_u32(v: &RawValue) -> (r: Option<u32>)
    ensures
        r == u32_in(v@),
{
    match v {
        RawValue::Int(n) => if 0 <= *n && *n <= 0xffff_ffff {
            Some(*n as u32)
        } else {
            None
        },
        RawValue::Str(s) => text::parse_unsigned(text::trim(s.as_str()).as_str(), 0xffff_ffff),
        _ => None,
    }
}

/// Whether a value is there but empty, which means none: no text, or no items.
pub open spec fn empty_in(v: RawValueV) -> bool {
    match v {
        RawValueV::Str(s) => s.len() == 0,
        RawValueV::List(items) => items.len() == 0,
        _ => false,
    }
}

fn is_empty(v: &RawValue) -> (r: bool)
    ensures
        r == empty_in(v@),
{
    match v {
        RawValue::Str(s) => s.as_str().unicode_len() == 0,
        RawValue::List(items) => items.len() == 0,
        _ => false,
    }
}

/// A switch that may be none.
pub open spec fn switch_in(v: RawValueV) -> Option<Option<bool>> {
    if empty_in(v) {
        Some(None)
    } else {
        match bool_in(v) {
            Some(b) => Some(Some(b)),
            None => None,
        }
    }
}

/// A number that may be none.
pub open spec fn number_in(v: RawValueV) -> Option<Option<u32>> {
    if empty_in(v) {
        Some(None)
    } else {
        match u32_in(v) {
            Some(n) => Some(Some(n)),
            None => None,
        }
    }
}

/// Whether a switch is on; none is off, as every compiled default is.
pub open spec fn is_on(b: Option<bool>) -> bool {
    b == Some(true)
}

/// The texts of a list that are not empty.
pub open spec fn nonempty(s: Seq<Seq<char>>) -> Seq<Seq<char>>
    decreases s.len(),
{
    if s.len() == 0 {
        s
    } else if s.last().len() > 0 {
        nonempty(s.drop_last()).push(s.last())
    } else {
        nonempty(s.drop_last())
    }
}

/// A list: a single text is a list of one, and an empty one is the empty list
/// (the "none" override).
pub open spec fn list_in(v: RawValueV) -> Option<Seq<Seq<char>>> {
    match v {
        RawValueV::List(items) => Some(nonempty(items)),
        RawValueV::Str(s) => Some(
            if s.len() == 0 {
                Seq::empty()
            } else {
                seq![s]
            },
        ),
        _ => None,
    }
}

/// The views of an optional list.
pub open spec fn opt_list(v: Option<Vec<String>>) -> Option<Seq<Seq<char>>> {
    match v {
        Some(l) => Some(text::list_view(l@)),
        None => None,
    }
}

fn as_list(v: &RawValue) -> (r: Option<Vec<String>>)
    ensures
        opt_list(r) == list_in(v@),
{
    match v {
        RawValue::List(items) => {
            let ghost all = text::list_view(items@);
            let mut out: Vec<String> = Vec::new();
            let mut i: usize = 0;
            assert(all.take(0) =~= Seq::empty());
            assert(text::list_view(out@) =~= Seq::empty());
            while i < items.len()
                invariant
                    i <= items@.len(),
                    all == text::list_view(items@),
                    text::list_view(out@) == nonempty(all.take(i as int)),
                decreases items@.len() - i,
            {
                assert(all.take(i + 1).drop_last() =~= all.take(i as int));
                let ghost before = text::list_view(out@);
                if items[i].as_str().unicode_len() > 0 {
                    out.push(items[i].clone());
                    assert(text::list_view(out@) =~= before.push(all[i as int]));
                }
                i = i + 1;
            }
            assert(all.take(i as int) =~= all);
            Some(out)
        },
        RawValue::Str(s) => {
            let mut out: Vec<String> = Vec::new();
            if s.as_str().unicode_len() > 0 {
                out.push(s.clone());
                assert(text::list_view(out@) =~= seq![s@]);
            } else {
                assert(text::list_view(out@) =~= Seq::empty());
            }
            Some(out)
        },
        _ => None,
    }
}

/// A text; a number is its decimal form.
pub open spec fn text_in(v: RawValueV) -> Option<Seq<char>> {
    match v {
        RawValueV::Str(s) => Some(s),
        RawValueV::Int(n) => Some(text::signed_decimal(n as int)),
        _ => None,
    }
}

fn as_str(v: &RawValue) -> (r: Option<String>)
    ensures
        text::opt_view(r) == text_in(v@),
{
    match v {
        RawValue::Str(s) => Some(s.clone()),
        RawValue::Int(n) => Some(text::signed_decimal_of(*n)),
        _ => None,
    }
}

/// The most that a prefix length of this family can be.
pub open spec fn family_bits(a: IpAddr) -> nat {
    if a is V4 {
        32
    } else {
        128
    }
}

/// An address and a prefix length with a slash between them.
pub open spec fn cidr_parsed(s: Seq<char>) -> Option<StaticAddress> {
    let i = addr::index_of(s, '/');
    if i >= s.len() {
        None
    } else {
        match (
            addr6::ip_parsed(text::trimmed(s.take(i))),
            text::unsigned_value(text::trimmed(s.skip(i + 1)), 255),
        ) {
            (Some(address), Some(p)) => if p <= family_bits(address) {
                Some(StaticAddress { address, prefix: p as u8 })
            } else {
                None
            },
            _ => None,
        }
    }
}

/// Reads an address and a prefix length with a slash between them.
pub fn parse_cidr(s: &str) -> (r: Option<StaticAddress>)
    ensures
        r == cidr_parsed(s@),
{
    let v: Vec<char> = text::chars(s);
    let n: usize = v.len();
    assert(v@.subrange(0, n as int) =~= v@);
    let i: usize = addr::find(v.as_slice(), 0, n, '/');
    if i == n {
        return None;
    }
    let a: String = text::from_chars(vstd::slice::slice_subrange(v.as_slice(), 0, i));
    let p: String = text::from_chars(vstd::slice::slice_subrange(v.as_slice(), i + 1, n));
    assert(v@.subrange(0, i as int) =~= v@.take(i as int));
    assert(v@.subrange(i + 1, n as int) =~= v@.skip(i + 1));
    let address: IpAddr = match IpAddr::parse(text::trim(a.as_str()).as_str()) {
        Some(address) => address,
        None => {
            return None;
        },
    };
    let bits: u32 = if address.is_ipv4() {
        32
    } else {
        128
    };
    match text::parse_unsigned(text::trim(p.as_str()).as_str(), 255) {
        Some(prefix) => if prefix <= bits {
            Some(StaticAddress { address, prefix: prefix as u8 })
        } else {
            None
        },
        None => None,
    }
}

// ---- vocabulary ------------------------------------------------------------

/// What is said of a profile.
pub open spec fn said(path: Seq<char>, what: Seq<char>) -> Seq<char> {
    "profile "@ + path + ": "@ + what
}

fn say(path: &str, what: &str) -> (s: String)
    ensures
        s@ == said(path@, what@),
{
    text::cat4("profile ", path, ": ", what)
}

/// That a value has the wrong type.
pub open spec fn wrong_shape(path: Seq<char>, name: Seq<char>) -> Seq<char> {
    said(path, name + " has the wrong shape"@)
}

fn bad(path: &str, name: &str) -> (s: String)
    ensures
        s@ == wrong_shape(path@, name@),
{
    say(path, text::cat2(name, " has the wrong shape").as_str())
}

/// That an item of a value is not understood.
pub open spec fn bad_item(path: Seq<char>, label: Seq<char>, item: Seq<char>) -> Seq<char> {
    said(path, label + ": "@ + text::debug_quoted(item))
}

fn refuse_item(path: &str, label: &str, item: &str) -> (s: String)
    ensures
        s@ == bad_item(path@, label@, item@),
{
    say(path, text::cat3(label, ": ", text::quoted(item).as_str()).as_str())
}

/// Which families a list names, IPv4 and IPv6; else the first item that is
/// neither.
pub open spec fn families_in(l: Seq<Seq<char>>) -> Result<(bool, bool), Seq<char>>
    decreases l.len(),
{
    if l.len() == 0 {
        Ok((false, false))
    } else {
        match families_in(l.drop_last()) {
            Err(e) => Err(e),
            Ok((v4, v6)) => {
                let f = text::lowered(l.last());
                if f == "ipv4"@ {
                    Ok((true, v6))
                } else if f == "ipv6"@ {
                    Ok((v4, true))
                } else {
                    Err(l.last())
                }
            },
        }
    }
}

fn families(l: &Vec<String>) -> (r: Result<(bool, bool), String>)
    ensures
        match (r, families_in(text::list_view(l@))) {
            (Ok(x), Ok(y)) => x == y,
            (Err(e), Err(f)) => e@ == f,
            _ => false,
        },
{
    let ghost all = text::list_view(l@);
    let mut v4: bool = false;
    let mut v6: bool = false;
    let mut i: usize = 0;
    assert(all.take(0) =~= Seq::empty());
    while i < l.len()
        invariant
            i <= l@.len(),
            all == text::list_view(l@),
            families_in(all.take(i as int)) == Ok::<(bool, bool), Seq<char>>((v4, v6)),
        decreases l@.len() - i,
    {
        assert(all.take(i + 1).drop_last() =~= all.take(i as int));
        let f: String = text::lower(l[i].as_str());
        if text::same(f.as_str(), "ipv4") {
            v4 = true;
        } else if text::same(f.as_str(), "ipv6") {
            v6 = true;
        } else {
            proof {
                families_in_stops(all, i + 1);
            }
            return Err(l[i].clone());
        }
        i = i + 1;
    }
    assert(all.take(i as int) =~= all);
    Ok((v4, v6))
}

proof fn families_in_stops(l: Seq<Seq<char>>, n: int)
    requires
        0 <= n <= l.len(),
        families_in(l.take(n)) is Err,
    ensures
        families_in(l) == families_in(l.take(n)),
    decreases l.len() - n,
{
    if n < l.len() {
        assert(l.take(n + 1).drop_last() =~= l.take(n));
        families_in_stops(l, n + 1);
    } else {
        assert(l.take(n) =~= l);
    }
}

/// The addresses a list gives; else the first item that is none.
pub open spec fn statics_in(l: Seq<Seq<char>>) -> Result<Seq<StaticAddress>, Seq<char>>
    decreases l.len(),
{
    if l.len() == 0 {
        Ok(Seq::empty())
    } else {
        match statics_in(l.drop_last()) {
            Err(e) => Err(e),
            Ok(before) => match cidr_parsed(l.last()) {
                Some(a) => Ok(before.push(a)),
                None => Err(l.last()),
            },
        }
    }
}

proof fn statics_in_stops(l: Seq<Seq<char>>, n: int)
    requires
        0 <= n <= l.len(),
        statics_in(l.take(n)) is Err,
    ensures
        statics_in(l) == statics_in(l.take(n)),
    decreases l.len() - n,
{
    if n < l.len() {
        assert(l.take(n + 1).drop_last() =~= l.take(n));
        statics_in_stops(l, n + 1);
    } else {
        assert(l.take(n) =~= l);
    }
}

fn statics(l: &Vec<String>) -> (r: Result<Vec<StaticAddress>, String>)
    ensures
        match (r, statics_in(text::list_view(l@))) {
            (Ok(x), Ok(y)) => x@ == y,
            (Err(e), Err(f)) => e@ == f,
            _ => false,
        },
{
    let ghost all = text::list_view(l@);
    let mut out: Vec<StaticAddress> = Vec::new();
    let mut i: usize = 0;
    assert(all.take(0) =~= Seq::empty());
    while i < l.len()
        invariant
            i <= l@.len(),
            all == text::list_view(l@),
            statics_in(all.take(i as int)) == Ok::<Seq<StaticAddress>, Seq<char>>(out@),
        decreases l@.len() - i,
    {
        assert(all.take(i + 1).drop_last() =~= all.take(i as int));
        match parse_cidr(l[i].as_str()) {
            Some(a) => {
                out.push(a);
            },
            None => {
                proof {
                    statics_in_stops(all, i + 1);
                }
                return Err(l[i].clone());
            },
        }
        i = i + 1;
    }
    assert(all.take(i as int) =~= all);
    Ok(out)
}

/// The last gateway of each family that a list gives; else the first item that
/// is no address.
pub open spec fn gateways_in(l: Seq<Seq<char>>) -> Result<
    (Option<Ipv4Addr>, Option<Ipv6Addr>),
    Seq<char>,
>
    decreases l.len(),
{
    if l.len() == 0 {
        Ok((None, None))
    } else {
        match gateways_in(l.drop_last()) {
            Err(e) => Err(e),
            Ok((g4, g6)) => match addr6::ip_parsed(text::trimmed(l.last())) {
                Some(IpAddr::V4(a)) => Ok((Some(a), g6)),
                Some(IpAddr::V6(a)) => Ok((g4, Some(a))),
                None => Err(l.last()),
            },
        }
    }
}

proof fn gateways_in_stops(l: Seq<Seq<char>>, n: int)
    requires
        0 <= n <= l.len(),
        gateways_in(l.take(n)) is Err,
    ensures
        gateways_in(l) == gateways_in(l.take(n)),
    decreases l.len() - n,
{
    if n < l.len() {
        assert(l.take(n + 1).drop_last() =~= l.take(n));
        gateways_in_stops(l, n + 1);
    } else {
        assert(l.take(n) =~= l);
    }
}

fn gateways(l: &Vec<String>) -> (r: Result<(Option<Ipv4Addr>, Option<Ipv6Addr>), String>)
    ensures
        match (r, gateways_in(text::list_view(l@))) {
            (Ok(x), Ok(y)) => x == y,
            (Err(e), Err(f)) => e@ == f,
            _ => false,
        },
{
    let ghost all = text::list_view(l@);
    let mut g4: Option<Ipv4Addr> = None;
    let mut g6: Option<Ipv6Addr> = None;
    let mut i: usize = 0;
    assert(all.take(0) =~= Seq::empty());
    while i < l.len()
        invariant
            i <= l@.len(),
            all == text::list_view(l@),
            gateways_in(all.take(i as int)) == Ok::<
                (Option<Ipv4Addr>, Option<Ipv6Addr>),
                Seq<char>,
            >((g4, g6)),
        decreases l@.len() - i,
    {
        assert(all.take(i + 1).drop_last() =~= all.take(i as int));
        match IpAddr::parse(text::trim(l[i].as_str()).as_str()) {
            Some(IpAddr::V4(a)) => {
                g4 = Some(a);
            },
            Some(IpAddr::V6(a)) => {
                g6 = Some(a);
            },
            None => {
                proof {
                    gateways_in_stops(all, i + 1);
                }
                return Err(l[i].clone());
            },
        }
        i = i + 1;
    }
    assert(all.take(i as int) =~= all);
    Ok((g4, g6))
}

/// The servers a list gives; else the first item that is no address.
pub open spec fn servers_in(l: Seq<Seq<char>>) -> Result<Seq<IpAddr>, Seq<char>>
    decreases l.len(),
{
    if l.len() == 0 {
        Ok(Seq::empty())
    } else {
        match servers_in(l.drop_last()) {
            Err(e) => Err(e),
            Ok(before) => match addr6::ip_parsed(text::trimmed(l.last())) {
                Some(a) => Ok(before.push(a)),
                None => Err(l.last()),
            },
        }
    }
}

proof fn servers_in_stops(l: Seq<Seq<char>>, n: int)
    requires
        0 <= n <= l.len(),
        servers_in(l.take(n)) is Err,
    ensures
        servers_in(l) == servers_in(l.take(n)),
    decreases l.len() - n,
{
    if n < l.len() {
        assert(l.take(n + 1).drop_last() =~= l.take(n));
        servers_in_stops(l, n + 1);
    } else {
        assert(l.take(n) =~= l);
    }
}

fn servers(l: &Vec<String>) -> (r: Result<Vec<IpAddr>, String>)
    ensures
        match (r, servers_in(text::list_view(l@))) {
            (Ok(x), Ok(y)) => x@ == y,
            (Err(e), Err(f)) => e@ == f,
            _ => false,
        },
{
    let ghost all = text::list_view(l@);
    let mut out: Vec<IpAddr> = Vec::new();
    let mut i: usize = 0;
    assert(all.take(0) =~= Seq::empty());
    while i < l.len()
        invariant
            i <= l@.len(),
            all == text::list_view(l@),
            servers_in(all.take(i as int)) == Ok::<Seq<IpAddr>, Seq<char>>(out@),
        decreases l@.len() - i,
    {
        assert(all.take(i + 1).drop_last() =~= all.take(i as int));
        match IpAddr::parse(text::trim(l[i].as_str()).as_str()) {
            Some(a) => {
                out.push(a);
            },
            None => {
                proof {
                    servers_in_stops(all, i + 1);
                }
                return Err(l[i].clone());
            },
        }
        i = i + 1;
    }
    assert(all.take(i as int) =~= all);
    Ok(out)
}

/// A bundle with one value taken in, or what is wrong with the value; nothing
/// where the name is not one of the bundle's.
pub open spec fn address_step(
    path: Seq<char>,
    a: AddressConfigV,
    name: Seq<char>,
    v: RawValueV,
) -> Option<Result<AddressConfigV, Seq<char>>> {
    let shape = Err::<AddressConfigV, Seq<char>>(wrong_shape(path, name));
    if name == "address.offered"@ {
        Some(
            match switch_in(v) {
                Some(b) => Ok(AddressConfigV { offered: is_on(b), ..a }),
                None => shape,
            },
        )
    } else if name == "address.families"@ {
        Some(
            match list_in(v) {
                Some(l) => match families_in(l) {
                    Ok((v4, v6)) => Ok(AddressConfigV { ipv4: v4, ipv6: v6, ..a }),
                    Err(f) => Err(bad_item(path, "Address.Families"@, f)),
                },
                None => shape,
            },
        )
    } else if name == "address.static"@ {
        Some(
            match list_in(v) {
                Some(l) => match statics_in(l) {
                    Ok(s) => Ok(AddressConfigV { statics: s, ..a }),
                    Err(f) => Err(bad_item(path, "Address.Static"@, f)),
                },
                None => shape,
            },
        )
    } else if name == "address.linklocal"@ {
        Some(
            match switch_in(v) {
                Some(b) => Ok(AddressConfigV { link_local: is_on(b), ..a }),
                None => shape,
            },
        )
    } else if name == "address.temporary"@ {
        Some(
            match switch_in(v) {
                Some(b) => Ok(AddressConfigV { temporary: is_on(b), ..a }),
                None => shape,
            },
        )
    } else if name == "address.onexpiry"@ {
        Some(
            if empty_in(v) {
                Ok(AddressConfigV { on_expiry: OnExpiry::Drop, ..a })
            } else {
                match text_in(v) {
                    Some(s) => {
                        let l = text::lowered(s);
                        if l == "drop"@ {
                            Ok(AddressConfigV { on_expiry: OnExpiry::Drop, ..a })
                        } else if l == "keep"@ {
                            Ok(AddressConfigV { on_expiry: OnExpiry::Keep, ..a })
                        } else {
                            Err(bad_item(path, "Address.OnExpiry"@, l))
                        }
                    },
                    None => shape,
                }
            },
        )
    } else {
        None
    }
}

/// The same for the routes, the MTU and the hostname.
pub open spec fn route_step(
    path: Seq<char>,
    a: AddressConfigV,
    name: Seq<char>,
    v: RawValueV,
) -> Option<Result<AddressConfigV, Seq<char>>> {
    let shape = Err::<AddressConfigV, Seq<char>>(wrong_shape(path, name));
    if name == "route.offered"@ {
        Some(
            match switch_in(v) {
                Some(b) => Ok(AddressConfigV { route_offered: is_on(b), ..a }),
                None => shape,
            },
        )
    } else if name == "route.gateway"@ {
        Some(
            match list_in(v) {
                Some(l) => match gateways_in(l) {
                    Ok((g4, g6)) => Ok(AddressConfigV { gateway: g4, gateway6: g6, ..a }),
                    Err(f) => Err(bad_item(path, "Route.Gateway"@, f)),
                },
                None => shape,
            },
        )
    } else if name == "route.metric"@ {
        Some(
            match number_in(v) {
                Some(n) => Ok(AddressConfigV { route_metric: n, ..a }),
                None => shape,
            },
        )
    } else if name == "mtu.offered"@ {
        Some(
            match switch_in(v) {
                Some(b) => Ok(AddressConfigV { mtu_offered: is_on(b), ..a }),
                None => shape,
            },
        )
    } else if name == "mtu.value"@ {
        Some(
            match number_in(v) {
                Some(Some(n)) => if n < 68 {
                    Err(said(path, "Mtu.Value "@ + text::decimal(n as nat) + " is below 68"@))
                } else {
                    Ok(AddressConfigV { mtu: Some(n), ..a })
                },
                Some(None) => Ok(AddressConfigV { mtu: None, ..a }),
                None => shape,
            },
        )
    } else if name == "hostname.announce"@ {
        Some(
            match switch_in(v) {
                Some(b) => Ok(AddressConfigV { announce_hostname: is_on(b), ..a }),
                None => shape,
            },
        )
    } else if name == "hostname.offered"@ {
        Some(
            match switch_in(v) {
                Some(b) => Ok(AddressConfigV { accept_hostname: is_on(b), ..a }),
                None => shape,
            },
        )
    } else {
        None
    }
}

/// The same for name resolution.
pub open spec fn dns_step(
    path: Seq<char>,
    d: DnsConfigV,
    name: Seq<char>,
    v: RawValueV,
) -> Option<Result<DnsConfigV, Seq<char>>> {
    let shape = Err::<DnsConfigV, Seq<char>>(wrong_shape(path, name));
    if name == "dns.offered"@ {
        Some(
            match switch_in(v) {
                Some(b) => Ok(DnsConfigV { offered: is_on(b), ..d }),
                None => shape,
            },
        )
    } else if name == "dns.servers"@ {
        Some(
            match list_in(v) {
                Some(l) => match servers_in(l) {
                    Ok(s) => Ok(DnsConfigV { servers: s, ..d }),
                    Err(f) => Err(bad_item(path, "Dns.Servers"@, f)),
                },
                None => shape,
            },
        )
    } else if name == "dns.domains"@ {
        Some(
            match list_in(v) {
                Some(l) => Ok(DnsConfigV { domains: l, ..d }),
                None => shape,
            },
        )
    } else if name == "dns.default"@ {
        Some(
            match switch_in(v) {
                Some(b) => Ok(DnsConfigV { default_route: b, ..d }),
                None => shape,
            },
        )
    } else if name == "dns.exclusive"@ {
        Some(
            match switch_in(v) {
                Some(b) => Ok(DnsConfigV { exclusive: is_on(b), ..d }),
                None => shape,
            },
        )
    } else {
        None
    }
}

/// Both bundles of a profile.
pub type Bundles = (AddressConfigV, DnsConfigV);

/// The bundles with one value taken in, or what is wrong with it.
#[verifier::opaque]
pub open spec fn step(path: Seq<char>, b: Bundles, name: Seq<char>, v: RawValueV) -> Result<
    Bundles,
    Seq<char>,
> {
    match (
        address_step(path, b.0, name, v),
        route_step(path, b.0, name, v),
        dns_step(path, b.1, name, v),
    ) {
        (Some(Ok(a)), _, _) => Ok((a, b.1)),
        (Some(Err(e)), _, _) => Err(e),
        (None, Some(Ok(a)), _) => Ok((a, b.1)),
        (None, Some(Err(e)), _) => Err(e),
        (None, None, Some(Ok(d))) => Ok((b.0, d)),
        (None, None, Some(Err(e))) => Err(e),
        (None, None, None) => Err(said(path, "unknown value "@ + name)),
    }
}

/// The bundles with all values taken in, in order; the first thing wrong where
/// something is.
pub open spec fn steps(path: Seq<char>, values: ValuesV) -> Result<Bundles, Seq<char>>
    decreases values.len(),
{
    if values.len() == 0 {
        Ok((address_default(), dns_default()))
    } else {
        match steps(path, values.drop_last()) {
            Err(e) => Err(e),
            Ok(b) => step(path, b, values.last().0, values.last().1),
        }
    }
}

/// Whether a bundle deals in the family of an address.
pub open spec fn in_family(a: AddressConfigV, s: StaticAddress) -> bool {
    match s.address {
        IpAddr::V4(_) => a.ipv4,
        IpAddr::V6(_) => a.ipv6,
    }
}

/// The addresses of a list in the families of a bundle.
pub open spec fn in_families(a: AddressConfigV, s: Seq<StaticAddress>) -> Seq<StaticAddress>
    decreases s.len(),
{
    if s.len() == 0 {
        s
    } else if in_family(a, s.last()) {
        in_families(a, s.drop_last()).push(s.last())
    } else {
        in_families(a, s.drop_last())
    }
}

/// The bundles that values give. Statics outside the bundle's families are not
/// an error the operator should have to see twice: the family switch simply
/// wins.
pub open spec fn parsed(path: Seq<char>, values: ValuesV) -> Result<Bundles, Seq<char>> {
    match steps(path, values) {
        Ok((a, d)) => Ok((AddressConfigV { statics: in_families(a, a.statics), ..a }, d)),
        Err(e) => Err(e),
    }
}

/// What became of a value: taken in, refused, or not of this bundle.
enum Taken {
    Yes,
    No(String),
    Elsewhere,
}

fn take_switch(path: &str, name: &str, v: &RawValue) -> (r: Result<Option<bool>, String>)
    ensures
        match r {
            Ok(b) => switch_in(v@) == Some(b),
            Err(e) => switch_in(v@) is None && e@ == wrong_shape(path@, name@),
        },
{
    if is_empty(v) {
        return Ok(None);
    }
    match as_bool(v) {
        Some(b) => Ok(Some(b)),
        None => Err(bad(path, name)),
    }
}

fn take_bool(path: &str, name: &str, v: &RawValue) -> (r: Result<bool, String>)
    ensures
        match r {
            Ok(b) => switch_in(v@) matches Some(x) && b == is_on(x),
            Err(e) => switch_in(v@) is None && e@ == wrong_shape(path@, name@),
        },
{
    match take_switch(path, name, v) {
        Ok(Some(b)) => Ok(b),
        Ok(None) => Ok(false),
        Err(e) => Err(e),
    }
}

fn take_list(path: &str, name: &str, v: &RawValue) -> (r: Result<Vec<String>, String>)
    ensures
        match r {
            Ok(l) => list_in(v@) == Some(text::list_view(l@)),
            Err(e) => list_in(v@) is None && e@ == wrong_shape(path@, name@),
        },
{
    match as_list(v) {
        Some(l) => Ok(l),
        None => Err(bad(path, name)),
    }
}

fn take_u32(path: &str, name: &str, v: &RawValue) -> (r: Result<Option<u32>, String>)
    ensures
        match r {
            Ok(n) => number_in(v@) == Some(n),
            Err(e) => number_in(v@) is None && e@ == wrong_shape(path@, name@),
        },
{
    if is_empty(v) {
        return Ok(None);
    }
    match as_u32(v) {
        Some(n) => Ok(Some(n)),
        None => Err(bad(path, name)),
    }
}

#[verifier::rlimit(50)]
fn take_address(path: &str, a: &mut AddressConfig, name: &str, v: &RawValue) -> (r: Taken)
    ensures
        match (r, address_step(path@, old(a)@, name@, v@)) {
            (Taken::Yes, Some(Ok(x))) => final(a)@ == x,
            (Taken::No(e), Some(Err(f))) => e@ == f,
            (Taken::Elsewhere, None) => final(a)@ == old(a)@,
            _ => false,
        },
{
    if text::same(name, "address.offered") {
        match take_bool(path, name, v) {
            Ok(b) => {
                a.offered = b;
            },
            Err(e) => {
                return Taken::No(e);
            },
        }
    } else if text::same(name, "address.families") {
        match take_list(path, name, v) {
            Ok(l) => match families(&l) {
                Ok((v4, v6)) => {
                    a.ipv4 = v4;
                    a.ipv6 = v6;
                },
                Err(f) => {
                    return Taken::No(refuse_item(path, "Address.Families", f.as_str()));
                },
            },
            Err(e) => {
                return Taken::No(e);
            },
        }
    } else if text::same(name, "address.static") {
        match take_list(path, name, v) {
            Ok(l) => match statics(&l) {
                Ok(s) => {
                    a.statics = s;
                },
                Err(f) => {
                    return Taken::No(refuse_item(path, "Address.Static", f.as_str()));
                },
            },
            Err(e) => {
                return Taken::No(e);
            },
        }
    } else if text::same(name, "address.linklocal") {
        match take_bool(path, name, v) {
            Ok(b) => {
                a.link_local = b;
            },
            Err(e) => {
                return Taken::No(e);
            },
        }
    } else if text::same(name, "address.temporary") {
        match take_bool(path, name, v) {
            Ok(b) => {
                a.temporary = b;
            },
            Err(e) => {
                return Taken::No(e);
            },
        }
    } else if text::same(name, "address.onexpiry") {
        if is_empty(v) {
            a.on_expiry = OnExpiry::Drop;
            return Taken::Yes;
        }
        match as_str(v) {
            Some(s) => {
                let l: String = text::lower(s.as_str());
                if text::same(l.as_str(), "drop") {
                    a.on_expiry = OnExpiry::Drop;
                } else if text::same(l.as_str(), "keep") {
                    a.on_expiry = OnExpiry::Keep;
                } else {
                    return Taken::No(refuse_item(path, "Address.OnExpiry", l.as_str()));
                }
            },
            None => {
                return Taken::No(bad(path, name));
            },
        }
    } else {
        return Taken::Elsewhere;
    }
    Taken::Yes
}

#[verifier::rlimit(50)]
fn take_route(path: &str, a: &mut AddressConfig, name: &str, v: &RawValue) -> (r: Taken)
    ensures
        match (r, route_step(path@, old(a)@, name@, v@)) {
            (Taken::Yes, Some(Ok(x))) => final(a)@ == x,
            (Taken::No(e), Some(Err(f))) => e@ == f,
            (Taken::Elsewhere, None) => final(a)@ == old(a)@,
            _ => false,
        },
{
    if text::same(name, "route.offered") {
        match take_bool(path, name, v) {
            Ok(b) => {
                a.route_offered = b;
            },
            Err(e) => {
                return Taken::No(e);
            },
        }
    } else if text::same(name, "route.gateway") {
        match take_list(path, name, v) {
            Ok(l) => match gateways(&l) {
                Ok((g4, g6)) => {
                    a.gateway = g4;
                    a.gateway6 = g6;
                },
                Err(f) => {
                    return Taken::No(refuse_item(path, "Route.Gateway", f.as_str()));
                },
            },
            Err(e) => {
                return Taken::No(e);
            },
        }
    } else if text::same(name, "route.metric") {
        match take_u32(path, name, v) {
            Ok(n) => {
                a.route_metric = n;
            },
            Err(e) => {
                return Taken::No(e);
            },
        }
    } else if text::same(name, "mtu.offered") {
        match take_bool(path, name, v) {
            Ok(b) => {
                a.mtu_offered = b;
            },
            Err(e) => {
                return Taken::No(e);
            },
        }
    } else if text::same(name, "mtu.value") {
        match take_u32(path, name, v) {
            Ok(Some(n)) => {
                if n < 68 {
                    let what: String = text::cat3(
                        "Mtu.Value ",
                        text::decimal_of(n as u64).as_str(),
                        " is below 68",
                    );
                    return Taken::No(say(path, what.as_str()));
                }
                a.mtu = Some(n);
            },
            Ok(None) => {
                a.mtu = None;
            },
            Err(e) => {
                return Taken::No(e);
            },
        }
    } else if text::same(name, "hostname.announce") {
        match take_bool(path, name, v) {
            Ok(b) => {
                a.announce_hostname = b;
            },
            Err(e) => {
                return Taken::No(e);
            },
        }
    } else if text::same(name, "hostname.offered") {
        match take_bool(path, name, v) {
            Ok(b) => {
                a.accept_hostname = b;
            },
            Err(e) => {
                return Taken::No(e);
            },
        }
    } else {
        return Taken::Elsewhere;
    }
    Taken::Yes
}

fn take_dns(path: &str, d: &mut DnsConfig, name: &str, v: &RawValue) -> (r: Taken)
    ensures
        match (r, dns_step(path@, old(d)@, name@, v@)) {
            (Taken::Yes, Some(Ok(x))) => final(d)@ == x,
            (Taken::No(e), Some(Err(f))) => e@ == f,
            (Taken::Elsewhere, None) => final(d)@ == old(d)@,
            _ => false,
        },
{
    if text::same(name, "dns.offered") {
        match take_bool(path, name, v) {
            Ok(b) => {
                d.offered = b;
            },
            Err(e) => {
                return Taken::No(e);
            },
        }
    } else if text::same(name, "dns.servers") {
        match take_list(path, name, v) {
            Ok(l) => match servers(&l) {
                Ok(s) => {
                    d.servers = s;
                },
                Err(f) => {
                    return Taken::No(refuse_item(path, "Dns.Servers", f.as_str()));
                },
            },
            Err(e) => {
                return Taken::No(e);
            },
        }
    } else if text::same(name, "dns.domains") {
        match take_list(path, name, v) {
            Ok(l) => {
                d.domains = l;
            },
            Err(e) => {
                return Taken::No(e);
            },
        }
    } else if text::same(name, "dns.default") {
        match take_switch(path, name, v) {
            Ok(b) => {
                d.default_route = b;
            },
            Err(e) => {
                return Taken::No(e);
            },
        }
    } else if text::same(name, "dns.exclusive") {
        match take_bool(path, name, v) {
            Ok(b) => {
                d.exclusive = b;
            },
            Err(e) => {
                return Taken::No(e);
            },
        }
    } else {
        return Taken::Elsewhere;
    }
    Taken::Yes
}

fn take(path: &str, a: &mut AddressConfig, d: &mut DnsConfig, name: &str, v: &RawValue) -> (r:
    Result<(), String>)
    ensures
        match (r, step(path@, (old(a)@, old(d)@), name@, v@)) {
            (Ok(_), Ok(b)) => (final(a)@, final(d)@) == b,
            (Err(e), Err(f)) => e@ == f,
            _ => false,
        },
{
    proof {
        reveal(step);
    }
    match take_address(path, a, name, v) {
        Taken::Yes => {
            return Ok(());
        },
        Taken::No(e) => {
            return Err(e);
        },
        Taken::Elsewhere => {},
    }
    match take_route(path, a, name, v) {
        Taken::Yes => {
            return Ok(());
        },
        Taken::No(e) => {
            return Err(e);
        },
        Taken::Elsewhere => {},
    }
    match take_dns(path, d, name, v) {
        Taken::Yes => Ok(()),
        Taken::No(e) => Err(e),
        Taken::Elsewhere => Err(say(path, text::cat2("unknown value ", name).as_str())),
    }
}

proof fn steps_stop(path: Seq<char>, values: ValuesV, n: int)
    requires
        0 <= n <= values.len(),
        steps(path, values.take(n)) is Err,
    ensures
        steps(path, values) == steps(path, values.take(n)),
    decreases values.len() - n,
{
    if n < values.len() {
        assert(values.take(n + 1).drop_last() =~= values.take(n));
        steps_stop(path, values, n + 1);
    } else {
        assert(values.take(n) =~= values);
    }
}

fn keep_families(a: &AddressConfig) -> (out: Vec<StaticAddress>)
    ensures
        out@ == in_families(a@, a@.statics),
{
    let mut out: Vec<StaticAddress> = Vec::new();
    let mut i: usize = 0;
    assert(a.statics@.take(0) =~= Seq::empty());
    while i < a.statics.len()
        invariant
            i <= a.statics@.len(),
            out@ == in_families(a@, a.statics@.take(i as int)),
        decreases a.statics@.len() - i,
    {
        assert(a.statics@.take(i + 1).drop_last() =~= a.statics@.take(i as int));
        let keep: bool = match a.statics[i].address {
            IpAddr::V4(_) => a.ipv4,
            IpAddr::V6(_) => a.ipv6,
        };
        if keep {
            out.push(a.statics[i]);
        }
        i = i + 1;
    }
    assert(a.statics@.take(i as int) =~= a.statics@);
    out
}

/// The bundles that a profile's effective values give.
pub fn parse(path: &str, values: &Vec<(String, RawValue)>) -> (r: Result<
    (AddressConfig, DnsConfig),
    String,
>)
    ensures
        match (r, parsed(path@, config::values_view(values@))) {
            (Ok(x), Ok(b)) => (x.0@, x.1@) == b,
            (Err(e), Err(f)) => e@ == f,
            _ => false,
        },
{
    let ghost all = config::values_view(values@);
    let mut a: AddressConfig = AddressConfig::default();
    let mut d: DnsConfig = DnsConfig::default();
    let mut i: usize = 0;
    assert(all.take(0) =~= Seq::empty());
    while i < values.len()
        invariant
            i <= values@.len(),
            all == config::values_view(values@),
            steps(path@, all.take(i as int)) == Ok::<Bundles, Seq<char>>((a@, d@)),
        decreases values@.len() - i,
    {
        assert(all.take(i + 1).drop_last() =~= all.take(i as int));
        assert(all[i as int] == (values@[i as int].0@, values@[i as int].1@));
        match take(path, &mut a, &mut d, values[i].0.as_str(), &values[i].1) {
            Ok(_) => {},
            Err(e) => {
                proof {
                    steps_stop(path@, all, i + 1);
                }
                return Err(e);
            },
        }
        i = i + 1;
    }
    assert(all.take(i as int) =~= all);
    a.statics = keep_families(&a);
    Ok((a, d))
}

// ---- inheritance -----------------------------------------------------------

/// The vocabulary, lower-cased. Anything else refuses the generation, as an
/// unknown condition name does in a rule.
pub open spec fn in_vocabulary(name: Seq<char>) -> bool {
    name == "address.offered"@ || name == "address.families"@ || name == "address.static"@ || name == "address.linklocal"@ || name == "address.temporary"@ || name == "address.onexpiry"@ || name == "route.offered"@ || name == "route.gateway"@ || name == "route.metric"@ || name == "dns.offered"@ || name == "dns.servers"@ || name == "dns.domains"@ || name == "dns.default"@ || name == "dns.exclusive"@ || name == "hostname.offered"@ || name == "hostname.announce"@ || name == "mtu.offered"@ || name == "mtu.value"@
}

fn known(name: &str) -> (r: bool)
    ensures
        r == in_vocabulary(name@),
{
    text::same(name, "address.offered") || text::same(name, "address.families") || text::same(name, "address.static") || text::same(name, "address.linklocal") || text::same(name, "address.temporary") || text::same(name, "address.onexpiry") || text::same(name, "route.offered") || text::same(name, "route.gateway") || text::same(name, "route.metric") || text::same(name, "dns.offered") || text::same(name, "dns.servers") || text::same(name, "dns.domains") || text::same(name, "dns.default") || text::same(name, "dns.exclusive") || text::same(name, "hostname.offered") || text::same(name, "hostname.announce") || text::same(name, "mtu.offered") || text::same(name, "mtu.value")
}

/// A key's name that cannot be part of a path.
pub open spec fn bad_name(name: Seq<char>) -> bool {
    name.len() == 0 || name.contains('/') || name.contains('\\')
}

fn has_char(s: &Vec<char>, c: char) -> (r: bool)
    ensures
        r == s@.contains(c),
{
    let mut i: usize = 0;
    while i < s.len()
        invariant
            i <= s@.len(),
            forall|j: int| 0 <= j < i ==> s@[j] != c,
        decreases s@.len() - i,
    {
        if s[i] == c {
            assert(s@[i as int] == c);
            return true;
        }
        i = i + 1;
    }
    false
}

fn is_bad_name(name: &str) -> (r: bool)
    ensures
        r == bad_name(name@),
{
    let v: Vec<char> = text::chars(name);
    v.len() == 0 || has_char(&v, '/') || has_char(&v, '\\')
}

/// The path of a key under its parent's.
pub open spec fn path_of(parent: Seq<char>, name: Seq<char>) -> Seq<char> {
    if parent.len() == 0 {
        name
    } else {
        parent + "/"@ + name
    }
}

/// What a key amounts to once its own values are taken in: the values in
/// effect, and whether it is enabled.
pub open spec fn own_values(
    path: Seq<char>,
    values: ValuesV,
    inherited: ValuesV,
    enabled: bool,
) -> Result<(ValuesV, bool), Seq<char>>
    decreases values.len(),
{
    if values.len() == 0 {
        Ok((inherited, enabled))
    } else {
        match own_values(path, values.drop_last(), inherited, enabled) {
            Err(e) => Err(e),
            Ok((effective, on)) => {
                let name = values.last().0;
                let lower = text::lowered(name);
                if lower == "enabled"@ {
                    match bool_in(values.last().1) {
                        Some(b) => Ok((effective, on && b)),
                        None => Err(said(path, "Enabled is not 0 or 1"@)),
                    }
                } else if !in_vocabulary(lower) {
                    Err(said(path, "unknown value "@ + name))
                } else {
                    Ok((sorted::put(effective, lower, values.last().1), on))
                }
            },
        }
    }
}

/// A key's own profile and the values in effect under it, or the first thing
/// wrong with it.
pub open spec fn own_profile(
    name: Seq<char>,
    values: ValuesV,
    parent: Seq<char>,
    inherited: ValuesV,
    enabled: bool,
) -> Result<(ValuesV, ProfileV), Seq<char>> {
    let path = path_of(parent, name);
    if bad_name(name) {
        Err(said(parent, "bad key name "@ + text::debug_quoted(name)))
    } else {
        match own_values(path, values, inherited, enabled) {
            Err(e) => Err(e),
            Ok((effective, on)) => match parsed(path, effective) {
                Err(e) => Err(e),
                Ok((address, dns)) => Ok(
                    (effective, ProfileV { path, enabled: on, address, dns }),
                ),
            },
        }
    }
}

/// A key and everything under it resolved into `out`, or the first thing wrong
/// with it.
pub open spec fn walked(
    key: RawKey,
    parent: Seq<char>,
    inherited: ValuesV,
    enabled: bool,
    out: ProfilesV,
) -> Result<ProfilesV, Seq<char>>
    decreases key, 0nat,
{
    match own_profile(
        key.name@,
        config::values_view(key.values@),
        parent,
        inherited,
        enabled,
    ) {
        Err(e) => Err(e),
        Ok((effective, p)) => walked_children(
            key.children@,
            key.children@.len(),
            p.path,
            effective,
            p.enabled,
            sorted::put(out, text::lowered(p.path), p),
        ),
    }
}

/// The first `n` keys of a list resolved into `out`.
pub open spec fn walked_children(
    children: Seq<RawKey>,
    n: nat,
    parent: Seq<char>,
    inherited: ValuesV,
    enabled: bool,
    out: ProfilesV,
) -> Result<ProfilesV, Seq<char>>
    decreases children, n,
{
    if n == 0 || n > children.len() {
        Ok(out)
    } else {
        match walked_children(children, (n - 1) as nat, parent, inherited, enabled, out) {
            Err(e) => Err(e),
            Ok(before) => walked(children[n - 1], parent, inherited, enabled, before),
        }
    }
}

/// Every profile under the `Profiles` key, by lower-cased path.
pub open spec fn resolved(root: RawKey) -> Result<ProfilesV, Seq<char>> {
    walked_children(
        root.children@,
        root.children@.len(),
        Seq::empty(),
        Seq::empty(),
        true,
        Seq::empty(),
    )
}

proof fn own_values_stop(path: Seq<char>, v: ValuesV, inherited: ValuesV, on: bool, n: int)
    requires
        0 <= n <= v.len(),
        own_values(path, v.take(n), inherited, on) is Err,
    ensures
        own_values(path, v, inherited, on) == own_values(path, v.take(n), inherited, on),
    decreases v.len() - n,
{
    if n < v.len() {
        assert(v.take(n + 1).drop_last() =~= v.take(n));
        own_values_stop(path, v, inherited, on, n + 1);
    } else {
        assert(v.take(n) =~= v);
    }
}

fn copy_values(v: &Vec<(String, RawValue)>) -> (out: Vec<(String, RawValue)>)
    ensures
        config::values_view(out@) == config::values_view(v@),
{
    let mut out: Vec<(String, RawValue)> = Vec::new();
    let mut i: usize = 0;
    let ghost all = config::values_view(v@);
    assert(config::values_view(out@) =~= all.take(0));
    while i < v.len()
        invariant
            i <= v@.len(),
            all == config::values_view(v@),
            config::values_view(out@) == all.take(i as int),
        decreases v@.len() - i,
    {
        let name: String = v[i].0.clone();
        let value: RawValue = v[i].1.clone();
        assert(all[i as int] == (name@, value@));
        let ghost before = config::values_view(out@);
        out.push((name, value));
        i = i + 1;
        assert(config::values_view(out@) =~= before.push((name@, value@)));
        assert(config::values_view(out@) =~= all.take(i as int));
    }
    assert(all.take(i as int) =~= all);
    out
}

fn put_value(v: &mut Vec<(String, RawValue)>, name: String, value: RawValue)
    ensures
        config::values_view(final(v)@) == sorted::put(
            config::values_view(old(v)@),
            name@,
            value@,
        ),
{
    let n: usize = sorted::find(v, name.as_str());
    let ghost all = config::values_view(v@);
    let ghost entry = (name@, value@);
    assert(sorted::keys(all) =~= sorted::raw_keys(v@));
    if n < v.len() && text::same(v[n].0.as_str(), name.as_str()) {
        v.set(n, (name, value));
        assert(config::values_view(v@) =~= all.update(n as int, entry));
    } else {
        v.insert(n, (name, value));
        assert(config::values_view(v@) =~= all.insert(n as int, entry));
    }
}

fn take_own(
    path: &str,
    values: &Vec<(String, RawValue)>,
    inherited: &Vec<(String, RawValue)>,
    enabled: bool,
) -> (r: Result<(Vec<(String, RawValue)>, bool), String>)
    ensures
        match (
            r,
            own_values(
                path@,
                config::values_view(values@),
                config::values_view(inherited@),
                enabled,
            ),
        ) {
            (Ok(x), Ok(y)) => (config::values_view(x.0@), x.1) == y,
            (Err(e), Err(f)) => e@ == f,
            _ => false,
        },
{
    let ghost all = config::values_view(values@);
    let ghost base = config::values_view(inherited@);
    let mut effective: Vec<(String, RawValue)> = copy_values(inherited);
    let mut on: bool = enabled;
    let mut i: usize = 0;
    assert(all.take(0) =~= Seq::empty());
    while i < values.len()
        invariant
            i <= values@.len(),
            all == config::values_view(values@),
            base == config::values_view(inherited@),
            own_values(path@, all.take(i as int), base, enabled) == Ok::<
                (ValuesV, bool),
                Seq<char>,
            >((config::values_view(effective@), on)),
        decreases values@.len() - i,
    {
        assert(all.take(i + 1).drop_last() =~= all.take(i as int));
        assert(all[i as int] == (values@[i as int].0@, values@[i as int].1@));
        let lower: String = text::lower(values[i].0.as_str());
        if text::same(lower.as_str(), "enabled") {
            match as_bool(&values[i].1) {
                Some(b) => {
                    on = on && b;
                },
                None => {
                    proof {
                        own_values_stop(path@, all, base, enabled, i + 1);
                    }
                    return Err(say(path, "Enabled is not 0 or 1"));
                },
            }
        } else {
            if !known(lower.as_str()) {
                proof {
                    own_values_stop(path@, all, base, enabled, i + 1);
                }
                return Err(
                    say(path, text::cat2("unknown value ", values[i].0.as_str()).as_str()),
                );
            }
            put_value(&mut effective, lower, values[i].1.clone());
        }
        i = i + 1;
    }
    assert(all.take(i as int) =~= all);
    Ok((effective, on))
}

/// A key's own profile and the values in effect under it.
fn take_profile(
    key: &RawKey,
    parent: &str,
    inherited: &Vec<(String, RawValue)>,
    enabled: bool,
) -> (r: Result<(Vec<(String, RawValue)>, Profile), String>)
    ensures
        match (
            r,
            own_profile(
                key.name@,
                config::values_view(key.values@),
                parent@,
                config::values_view(inherited@),
                enabled,
            ),
        ) {
            (Ok(x), Ok(y)) => (config::values_view(x.0@), x.1@) == y,
            (Err(e), Err(f)) => e@ == f,
            _ => false,
        },
{
    if is_bad_name(key.name.as_str()) {
        let what: String = text::cat2("bad key name ", text::quoted(key.name.as_str()).as_str());
        return Err(say(parent, what.as_str()));
    }
    let path: String = if parent.unicode_len() == 0 {
        key.name.clone()
    } else {
        text::cat3(parent, "/", key.name.as_str())
    };
    let (effective, on): (Vec<(String, RawValue)>, bool) = match take_own(
        path.as_str(),
        &key.values,
        inherited,
        enabled,
    ) {
        Ok(x) => x,
        Err(e) => {
            return Err(e);
        },
    };
    match parse(path.as_str(), &effective) {
        Ok((address, dns)) => Ok((effective, Profile { path, enabled: on, address, dns })),
        Err(e) => Err(e),
    }
}

fn walk(
    key: &RawKey,
    parent: &str,
    inherited: &Vec<(String, RawValue)>,
    enabled: bool,
    out: &mut Profiles,
) -> (r: Result<(), String>)
    ensures
        match (
            r,
            walked(*key, parent@, config::values_view(inherited@), enabled, old(out)@),
        ) {
            (Ok(_), Ok(p)) => final(out)@ == p,
            (Err(e), Err(f)) => e@ == f,
            _ => false,
        },
    decreases *key, 0nat,
{
    let (effective, profile): (Vec<(String, RawValue)>, Profile) = match take_profile(
        key,
        parent,
        inherited,
        enabled,
    ) {
        Ok(x) => x,
        Err(e) => {
            return Err(e);
        },
    };
    let path: String = profile.path.clone();
    let on: bool = profile.enabled;
    out.insert(text::lower(path.as_str()), profile);
    walk_children(&key.children, path.as_str(), &effective, on, out)
}

fn walk_children(
    children: &Vec<RawKey>,
    parent: &str,
    inherited: &Vec<(String, RawValue)>,
    enabled: bool,
    out: &mut Profiles,
) -> (r: Result<(), String>)
    ensures
        match (
            r,
            walked_children(
                children@,
                children@.len(),
                parent@,
                config::values_view(inherited@),
                enabled,
                old(out)@,
            ),
        ) {
            (Ok(_), Ok(p)) => final(out)@ == p,
            (Err(e), Err(f)) => e@ == f,
            _ => false,
        },
    decreases children@, children@.len(),
{
    let ghost start = out@;
    let ghost values = config::values_view(inherited@);
    let mut i: usize = 0;
    while i < children.len()
        invariant
            i <= children@.len(),
            start == old(out)@,
            values == config::values_view(inherited@),
            walked_children(children@, i as nat, parent@, values, enabled, start) == Ok::<
                ProfilesV,
                Seq<char>,
            >(out@),
        decreases children@.len() - i,
    {
        match walk(&children[i], parent, inherited, enabled, out) {
            Ok(_) => {},
            Err(e) => {
                proof {
                    children_stop(
                        children@,
                        (i + 1) as nat,
                        parent@,
                        values,
                        enabled,
                        start,
                    );
                }
                return Err(e);
            },
        }
        i = i + 1;
    }
    Ok(())
}

proof fn children_stop(
    c: Seq<RawKey>,
    n: nat,
    parent: Seq<char>,
    inherited: ValuesV,
    on: bool,
    out: ProfilesV,
)
    requires
        n <= c.len(),
        walked_children(c, n, parent, inherited, on, out) is Err,
    ensures
        walked_children(c, c.len(), parent, inherited, on, out) == walked_children(
            c,
            n,
            parent,
            inherited,
            on,
            out,
        ),
    decreases c.len() - n,
{
    if n < c.len() {
        children_stop(c, n + 1, parent, inherited, on, out);
    }
}

/// Resolves every profile under the `Profiles` key, keyed by lower-cased path
/// (registry key names are case-insensitive). `root` is the `Profiles` key
/// itself; its own values are ignored.
pub fn resolve(root: &RawKey) -> (r: Result<Profiles, String>)
    ensures
        match (r, resolved(*root)) {
            (Ok(p), Ok(q)) => p@ == q,
            (Err(e), Err(f)) => e@ == f,
            _ => false,
        },
{
    let mut out: Profiles = Profiles::new();
    let none: Vec<(String, RawValue)> = Vec::new();
    assert(config::values_view(none@) =~= Seq::empty());
    assert(""@ =~= Seq::<char>::empty()) by {
        reveal_strlit("");
    }
    match walk_children(&root.children, "", &none, true, &mut out) {
        Ok(_) => Ok(out),
        Err(e) => Err(e),
    }
}

// ---- laws ------------------------------------------------------------------

/// A bare profile believes nothing and does nothing.
pub proof fn a_bare_profile_does_nothing(path: Seq<char>)
    ensures
        parsed(path, Seq::empty()) == Ok::<Bundles, Seq<char>>((address_default(), dns_default())),
{
    assert(in_families(address_default(), Seq::empty()) =~= Seq::empty());
}

proof fn in_families_members(a: AddressConfigV, s: Seq<StaticAddress>)
    ensures
        forall|i: int| 0 <= i < in_families(a, s).len() ==> in_family(a, #[trigger] in_families(a, s)[i]),
    decreases s.len(),
{
    if s.len() > 0 {
        let t = s.drop_last();
        in_families_members(a, t);
        assert forall|i: int| 0 <= i < in_families(a, s).len() implies in_family(
            a,
            #[trigger] in_families(a, s)[i],
        ) by {
            if i < in_families(a, t).len() {
                assert(in_families(a, s)[i] == in_families(a, t)[i]);
            }
        }
    }
}

/// Families gate the whole bundle: no static address of a family that the
/// bundle does not deal in survives.
pub proof fn families_gate_the_statics(path: Seq<char>, values: ValuesV)
    ensures
        parsed(path, values) matches Ok((a, d)) ==> forall|i: int|
            0 <= i < a.statics.len() ==> in_family(a, #[trigger] a.statics[i]),
{
    match steps(path, values) {
        Ok((a, d)) => {
            in_families_members(a, a.statics);
            let b = AddressConfigV { statics: in_families(a, a.statics), ..a };
            assert forall|i: int| 0 <= i < b.statics.len() implies in_family(
                b,
                #[trigger] b.statics[i],
            ) by {
                assert(in_family(a, in_families(a, a.statics)[i]));
            }
        },
        Err(_) => {},
    }
}

#[verifier::rlimit(50)]
proof fn steps_keep_the_mtu(path: Seq<char>, values: ValuesV)
    ensures
        steps(path, values) matches Ok((a, d)) ==> (a.mtu matches Some(m) ==> m >= 68),
    decreases values.len(),
{
    if values.len() > 0 {
        steps_keep_the_mtu(path, values.drop_last());
        match steps(path, values.drop_last()) {
            Ok(b) => {
                reveal(step);
                address_keeps_the_mtu(path, b.0, values.last().0, values.last().1);
                route_keeps_the_mtu(path, b.0, values.last().0, values.last().1);
            },
            Err(_) => {},
        }
    }
}

#[verifier::rlimit(50)]
proof fn address_keeps_the_mtu(path: Seq<char>, a: AddressConfigV, name: Seq<char>, v: RawValueV)
    ensures
        address_step(path, a, name, v) matches Some(Ok(b)) ==> b.mtu == a.mtu,
{
}

#[verifier::rlimit(50)]
proof fn route_keeps_the_mtu(path: Seq<char>, a: AddressConfigV, name: Seq<char>, v: RawValueV)
    ensures
        route_step(path, a, name, v) matches Some(Ok(b)) ==> b.mtu == a.mtu || (b.mtu matches Some(
            m,
        ) ==> m >= 68),
{
}

/// No profile asks for an MTU below IPv4's minimum.
pub proof fn mtus_are_usable(path: Seq<char>, values: ValuesV)
    ensures
        parsed(path, values) matches Ok((a, d)) ==> (a.mtu matches Some(m) ==> m >= 68),
{
    steps_keep_the_mtu(path, values);
}

/// The bundles with what this name stands for set to none: no number and no
/// list, a switch off, and in no family at all.
pub open spec fn cleared(b: Bundles, name: Seq<char>) -> Bundles {
    let (a, d) = b;
    if name == "address.offered"@ {
        (AddressConfigV { offered: false, ..a }, d)
    } else if name == "address.families"@ {
        (AddressConfigV { ipv4: false, ipv6: false, ..a }, d)
    } else if name == "address.static"@ {
        (AddressConfigV { statics: Seq::empty(), ..a }, d)
    } else if name == "address.linklocal"@ {
        (AddressConfigV { link_local: false, ..a }, d)
    } else if name == "address.temporary"@ {
        (AddressConfigV { temporary: false, ..a }, d)
    } else if name == "address.onexpiry"@ {
        (AddressConfigV { on_expiry: OnExpiry::Drop, ..a }, d)
    } else if name == "route.offered"@ {
        (AddressConfigV { route_offered: false, ..a }, d)
    } else if name == "route.gateway"@ {
        (AddressConfigV { gateway: None, gateway6: None, ..a }, d)
    } else if name == "route.metric"@ {
        (AddressConfigV { route_metric: None, ..a }, d)
    } else if name == "mtu.offered"@ {
        (AddressConfigV { mtu_offered: false, ..a }, d)
    } else if name == "mtu.value"@ {
        (AddressConfigV { mtu: None, ..a }, d)
    } else if name == "hostname.announce"@ {
        (AddressConfigV { announce_hostname: false, ..a }, d)
    } else if name == "hostname.offered"@ {
        (AddressConfigV { accept_hostname: false, ..a }, d)
    } else if name == "dns.offered"@ {
        (a, DnsConfigV { offered: false, ..d })
    } else if name == "dns.servers"@ {
        (a, DnsConfigV { servers: Seq::empty(), ..d })
    } else if name == "dns.domains"@ {
        (a, DnsConfigV { domains: Seq::empty(), ..d })
    } else if name == "dns.default"@ {
        (a, DnsConfigV { default_route: None, ..d })
    } else {
        (a, DnsConfigV { exclusive: false, ..d })
    }
}

/// A value of the vocabulary that is there but empty is never refused, and
/// means none, whatever was said before it.
#[verifier::rlimit(50)]
pub proof fn a_present_but_empty_value_means_none(
    path: Seq<char>,
    b: Bundles,
    name: Seq<char>,
    v: RawValueV,
)
    requires
        in_vocabulary(name),
        empty_in(v),
    ensures
        step(path, b, name, v) == Ok::<Bundles, Seq<char>>(cleared(b, name)),
{
    reveal(step);
    assert(list_in(v) is Some ==> list_in(v)->Some_0 =~= Seq::empty());
}

/// Whether a key's own values name this one.
pub open spec fn names_value(values: ValuesV, lower: Seq<char>) -> bool {
    exists|i: int| 0 <= i < values.len() && text::lowered((#[trigger] values[i]).0) == lower
}

proof fn own_values_ordered(path: Seq<char>, values: ValuesV, inherited: ValuesV, on: bool)
    requires
        sorted::ordered(inherited),
    ensures
        own_values(path, values, inherited, on) matches Ok(x) ==> sorted::ordered(x.0),
    decreases values.len(),
{
    if values.len() > 0 {
        own_values_ordered(path, values.drop_last(), inherited, on);
        match own_values(path, values.drop_last(), inherited, on) {
            Ok((e, _)) => {
                sorted::put_ordered(e, text::lowered(values.last().0), values.last().1);
            },
            Err(_) => {},
        }
    }
}

/// A key carries every value of its parent that it does not name itself.
pub proof fn what_is_not_named_is_inherited(
    path: Seq<char>,
    values: ValuesV,
    inherited: ValuesV,
    on: bool,
    lower: Seq<char>,
)
    requires
        sorted::ordered(inherited),
        !names_value(values, lower),
    ensures
        own_values(path, values, inherited, on) matches Ok((effective, _)) ==> sorted::get(
            effective,
            lower,
        ) == sorted::get(inherited, lower),
    decreases values.len(),
{
    if values.len() > 0 {
        let t = values.drop_last();
        if names_value(t, lower) {
            let i = choose|i: int|
                0 <= i < t.len() && text::lowered((#[trigger] t[i]).0) == lower;
            assert(values[i] == t[i]);
        }
        assert(text::lowered(values[values.len() - 1].0) != lower);
        what_is_not_named_is_inherited(path, t, inherited, on, lower);
        own_values_ordered(path, t, inherited, on);
        match own_values(path, t, inherited, on) {
            Ok((e, _)) => {
                sorted::put_get(e, text::lowered(values.last().0), values.last().1, lower);
            },
            Err(_) => {},
        }
    }
}

/// A value that a key names replaces its parent's wholesale.
pub proof fn what_is_named_is_overridden(
    path: Seq<char>,
    values: ValuesV,
    inherited: ValuesV,
    on: bool,
    i: int,
)
    requires
        sorted::ordered(inherited),
        0 <= i < values.len(),
        text::lowered(values[i].0) != "enabled"@,
        forall|j: int|
            i < j < values.len() ==> text::lowered((#[trigger] values[j]).0) != text::lowered(
                values[i].0,
            ),
    ensures
        own_values(path, values, inherited, on) matches Ok((effective, _)) ==> sorted::get(
            effective,
            text::lowered(values[i].0),
        ) == Some(values[i].1),
    decreases values.len(),
{
    let t = values.drop_last();
    let lower = text::lowered(values[i].0);
    own_values_ordered(path, t, inherited, on);
    if i < t.len() {
        assert forall|j: int| i < j < t.len() implies text::lowered((#[trigger] t[j]).0)
            != text::lowered(t[i].0) by {
            assert(t[j] == values[j]);
        }
        what_is_named_is_overridden(path, t, inherited, on, i);
        assert(text::lowered(values[values.len() - 1].0) != lower);
    }
    match own_values(path, t, inherited, on) {
        Ok((e, _)) => {
            sorted::put_get(e, text::lowered(values.last().0), values.last().1, lower);
        },
        Err(_) => {},
    }
}

proof fn own_values_stay_off(path: Seq<char>, values: ValuesV, inherited: ValuesV)
    ensures
        own_values(path, values, inherited, false) matches Ok(x) ==> !x.1,
    decreases values.len(),
{
    if values.len() > 0 {
        own_values_stay_off(path, values.drop_last(), inherited);
    }
}

/// Every profile of `b` that is enabled was in `a`, as it is.
pub open spec fn adds_only_disabled(a: ProfilesV, b: ProfilesV) -> bool {
    forall|p: Seq<char>| #[trigger]
        sorted::get(b, p) == sorted::get(a, p) || (sorted::get(b, p) matches Some(x) && !x.enabled)
}

/// Nothing under a disabled key is enabled: a child cannot re-enable itself.
pub proof fn a_disabled_subtree_is_invisible(
    key: RawKey,
    parent: Seq<char>,
    inherited: ValuesV,
    out: ProfilesV,
)
    requires
        sorted::ordered(out),
    ensures
        walked(key, parent, inherited, false, out) matches Ok(p) ==> adds_only_disabled(out, p)
            && sorted::ordered(p),
    decreases key, 0nat,
{
    let path = path_of(parent, key.name@);
    let values = config::values_view(key.values@);
    own_values_stay_off(path, values, inherited);
    match own_profile(key.name@, values, parent, inherited, false) {
        Ok((effective, own)) => {
            let k = text::lowered(own.path);
            let with = sorted::put(out, k, own);
            sorted::put_ordered(out, k, own);
            assert(adds_only_disabled(out, with)) by {
                assert forall|p: Seq<char>| #[trigger]
                    sorted::get(with, p) == sorted::get(out, p) || (sorted::get(with, p)
                        matches Some(x) && !x.enabled) by {
                    sorted::put_get(out, k, own, p);
                }
            }
            disabled_children(key.children@, key.children@.len(), own.path, effective, with);
            match walked(key, parent, inherited, false, out) {
                Ok(p) => {
                    assert forall|q: Seq<char>| #[trigger]
                        sorted::get(p, q) == sorted::get(out, q) || (sorted::get(p, q)
                            matches Some(x) && !x.enabled) by {
                        assert(sorted::get(p, q) == sorted::get(with, q) || (sorted::get(p, q)
                            matches Some(x) && !x.enabled));
                        assert(sorted::get(with, q) == sorted::get(out, q) || (sorted::get(with, q)
                            matches Some(x) && !x.enabled));
                    }
                },
                Err(_) => {},
            }
        },
        Err(_) => {},
    }
}

proof fn disabled_children(
    c: Seq<RawKey>,
    n: nat,
    parent: Seq<char>,
    inherited: ValuesV,
    out: ProfilesV,
)
    requires
        sorted::ordered(out),
        n <= c.len(),
    ensures
        walked_children(c, n, parent, inherited, false, out) matches Ok(p) ==> adds_only_disabled(
            out,
            p,
        ) && sorted::ordered(p),
    decreases c, n,
{
    if n > 0 {
        disabled_children(c, (n - 1) as nat, parent, inherited, out);
        match walked_children(c, (n - 1) as nat, parent, inherited, false, out) {
            Ok(before) => {
                a_disabled_subtree_is_invisible(c[n - 1], parent, inherited, before);
                match walked(c[n - 1], parent, inherited, false, before) {
                    Ok(p) => {
                        assert forall|q: Seq<char>| #[trigger]
                            sorted::get(p, q) == sorted::get(out, q) || (sorted::get(p, q)
                                matches Some(x) && !x.enabled) by {
                            assert(sorted::get(p, q) == sorted::get(before, q) || (sorted::get(
                                p,
                                q,
                            ) matches Some(x) && !x.enabled));
                            assert(sorted::get(before, q) == sorted::get(out, q) || (sorted::get(
                                before,
                                q,
                            ) matches Some(x) && !x.enabled));
                        }
                    },
                    Err(_) => {},
                }
            },
            Err(_) => {},
        }
    }
}

} // verus!
