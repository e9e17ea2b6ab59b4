//! The per-interface SLAAC state machine (RFC 4861/4862), clock-injected and
//! socket-free.
//!
//! The caller feeds it time (`Engine::tick`) and router advertisements
//! (`Engine::receive`) and performs the actions it returns; what the interface
//! should look like is read back with `Engine::addresses`,
//! `Engine::default_router` and the DNS accessors. The engine never decides
//! *whether* IPv6 is wanted, that is the profile's call, only what the routers
//! on the link have said and what follows from it.
//!
//! Addresses are stable-privacy (RFC 7217): a keyed digest of the prefix and
//! the interface's stable identity, so the same box on the same network keeps
//! its address across boots without ever putting a MAC on the wire. Temporary
//! addresses (RFC 8981) are formed alongside them per profile.

use vstd::prelude::*;
use vstd::string::*;
use vstd::utf8::*;
use crate::addr::Ipv6Addr;
use crate::bytes;
use crate::clock;
use crate::clock::{Duration, Instant};
use crate::digest;
use crate::dhcp6;
use crate::rng;
use crate::text;
use super::packet;
use super::packet::{Dnssl, DnsslV, PrefixInfo, Rdnss, RdnssV, RouterAdvert, RouterAdvertV};
use super::table;
use super::table::{Expiring, Names};

verus! {

/// Initial solicitation interval in nanoseconds (RFC 4861 section 10).
pub const SOLICIT_INTERVAL: u64 = 4_000_000_000;

/// Solicitations at that interval before backing off.
pub const SOLICITS_BEFORE_BACKOFF: u32 = 3;

/// Backoff ceiling in nanoseconds while no router answers (RFC 7559 section
/// 2).
pub const MAX_SOLICIT_INTERVAL: u64 = 3600_000_000_000;

/// RFC 4862 section 5.5.3(e): an unauthenticated advertisement may not cut a
/// prefix's remaining valid lifetime below two hours. In nanoseconds.
pub const TWO_HOURS: u64 = 7200_000_000_000;

/// RFC 8981 defaults in nanoseconds: how long a temporary address is preferred
/// and valid.
pub const TEMP_PREFERRED: u64 = 86_400_000_000_000;

pub const TEMP_VALID: u64 = 172_800_000_000_000;

/// Live temporary addresses per prefix (the current one plus deprecated
/// survivors kept for existing connections).
pub const MAX_TEMPS: usize = 4;

/// Draws for a temporary identifier before the search settles for a counted
/// one. The generator does not repeat that soon; the bound makes the search
/// end.
pub const MAX_DRAWS: u64 = 0xffff_ffff_ffff_ffff;

/// The latest time that any lifetime reaches.
pub const LAST: u64 = 0x8000_0000_0000_0000;

/// Two to the sixty-fourth: the size of a /64.
pub open spec fn half() -> nat {
    0x1_0000_0000_0000_0000
}

#[derive(Debug, PartialEq, Eq)]
pub struct Config {
    /// The interface's stable identity. RFC 7217's `Net_Iface` parameter,
    /// chosen so a kernel rename changes nothing.
    pub interface: String,
    /// The machine's secret key for stable-privacy addresses.
    pub secret: [u8; 32],
    /// Form temporary addresses too (RFC 8981); the profile's call.
    pub temporary: bool,
    /// The MAC for the solicitation's source link-layer option.
    pub mac: Option<[u8; 6]>,
    /// Seed for solicitation jitter and temporary interface identifiers.
    pub seed: u64,
}

/// What the caller must do.
#[derive(Debug, PartialEq, Eq)]
pub enum Action {
    /// Send this ICMPv6 body to all-routers (`ff02::2`), hop limit 255.
    Solicit(Vec<u8>),
    /// Addresses, routes or DNS changed; reconcile and republish.
    Changed,
}

/// The same as values.
#[verifier::ext_equal]
pub enum ActionV {
    Solicit(Seq<u8>),
    Changed,
}

impl View for Action {
    type V = ActionV;

    open spec fn view(&self) -> ActionV {
        match self {
            Action::Solicit(b) => ActionV::Solicit(b@),
            Action::Changed => ActionV::Changed,
        }
    }
}

/// Each action as values.
pub open spec fn views(a: Seq<Action>) -> Seq<ActionV> {
    a.map_values(|x: Action| x@)
}

/// One address the interface should carry.
#[derive(Debug, Clone, Copy, PartialEq, Eq, PartialOrd, Ord, Structural)]
pub struct DesiredAddress {
    pub address: Ipv6Addr,
    pub prefix: u8,
    /// Past its preferred lifetime: keep it for existing connections, but
    /// nothing new should choose it (preferred lifetime 0 in the kernel).
    pub deprecated: bool,
    /// The prefix is on-link (L): the kernel may derive a prefix route from
    /// the address. Off-link prefixes must not get one.
    pub on_link: bool,
}

/// A temporary address.
#[derive(Debug, Clone, Copy, PartialEq, Eq, Structural)]
pub struct Temp {
    pub address: Ipv6Addr,
    pub preferred_until: Instant,
    pub valid_until: Instant,
}

/// A prefix and the addresses formed in it. `None` for a lifetime is forever.
#[verifier::ext_equal]
pub struct PrefixV {
    pub on_link: bool,
    pub valid_until: Option<Instant>,
    pub preferred_until: Option<Instant>,
    pub stable: Ipv6Addr,
    pub temps: Seq<Temp>,
}

/// Prefixes in the order of their keys.
pub type Prefixes = Seq<(Ipv6Addr, PrefixV)>;

struct Prefix {
    on_link: bool,
    /// `None` is forever (a lifetime of `u32::MAX`).
    valid_until: Option<Instant>,
    preferred_until: Option<Instant>,
    stable: Ipv6Addr,
    temps: Vec<Temp>,
}

impl View for Prefix {
    type V = PrefixV;

    closed spec fn view(&self) -> PrefixV {
        PrefixV {
            on_link: self.on_link,
            valid_until: self.valid_until,
            preferred_until: self.preferred_until,
            stable: self.stable,
            temps: self.temps@,
        }
    }
}

spec fn prefixes_view(v: Seq<(Ipv6Addr, Prefix)>) -> Prefixes {
    Seq::new(v.len(), |i: int| (v[i].0, v[i].1@))
}

/// Everything the caller can observe, in one comparable value; `Changed` is
/// emitted exactly when it differs, so no transition can be missed and no
/// no-op can be reported.
#[verifier::ext_equal]
pub struct SightV {
    pub addresses: Seq<DesiredAddress>,
    pub router: Option<Ipv6Addr>,
    pub dns: Seq<Ipv6Addr>,
    pub search: Seq<Seq<char>>,
    pub mtu: Option<u32>,
    pub dhcp6: bool,
}

struct Sight {
    addresses: Vec<DesiredAddress>,
    router: Option<Ipv6Addr>,
    dns: Vec<Ipv6Addr>,
    search: Vec<String>,
    mtu: Option<u32>,
    dhcp6: bool,
}

impl View for Sight {
    type V = SightV;

    closed spec fn view(&self) -> SightV {
        SightV {
            addresses: self.addresses@,
            router: self.router,
            dns: self.dns@,
            search: text::list_view(self.search@),
            mtu: self.mtu,
            dhcp6: self.dhcp6,
        }
    }
}

/// The engine's state as values.
#[verifier::ext_equal]
pub struct EngineV {
    pub interface: Seq<char>,
    pub secret: Seq<u8>,
    pub temporary: bool,
    pub mac: Option<Seq<u8>>,
    pub rng: u64,
    pub solicit_at: Option<Instant>,
    pub interval: Duration,
    pub solicits: u32,
    pub routers: Expiring,
    pub prefixes: Prefixes,
    pub rdnss: Expiring,
    pub dnssl: Names,
    pub mtu: Option<u32>,
    pub dhcp6_wanted: bool,
    pub seen: SightV,
    pub at: Instant,
}

/// A new state and the actions that go with it.
pub type Step = (EngineV, Seq<ActionV>);

/// When a lifetime in seconds ends; the largest number is forever.
pub open spec fn until_time(now: Instant, seconds: u32) -> Option<Instant> {
    if seconds == u32::MAX {
        None
    } else {
        Some(Instant { nanos: (now.nanos + seconds * 1_000_000_000) as u64 })
    }
}

/// The /64 that an address lies in, as its first address.
pub open spec fn home(a: Ipv6Addr) -> Ipv6Addr {
    Ipv6Addr { bits: (a.bits as nat / half() * half()) as u128 }
}

/// The interface identifier of an address: its low half.
pub open spec fn iid_of(a: Ipv6Addr) -> nat {
    a.bits as nat % half()
}

/// The address in the /64 of `prefix` with this identifier.
pub open spec fn joined(prefix: Ipv6Addr, iid: u64) -> Ipv6Addr {
    Ipv6Addr { bits: (prefix.bits as nat / half() * half() + iid) as u128 }
}

/// RFC 5453: interface identifiers that must not be autoconfigured: the
/// subnet-router anycast (all zero), the range `0200:5EFF:FE00::/40`, and the
/// reserved anycast block `FDFF:FFFF:FFFF:FF80` to `FDFF:FFFF:FFFF:FFFF`.
pub open spec fn reserved(iid: nat) -> bool {
    iid == 0 || iid / 0x100_0000 == 0x02_005e_fffe || 0xfdff_ffff_ffff_ff80 <= iid
        <= 0xfdff_ffff_ffff_ffff
}

/// What is hashed for the `counter`th try at a stable identifier: a label, the
/// secret, the network half of the prefix, the interface's identity and the
/// counter.
pub open spec fn stable_input(
    secret: Seq<u8>,
    prefix: Ipv6Addr,
    interface: Seq<char>,
    counter: nat,
) -> Seq<u8> {
    encode_utf8("peios-ndp-stable-iid|"@) + secret + bytes::be_bytes(
        prefix.bits as nat / half(),
        8,
    ) + encode_utf8(interface) + seq![counter as u8]
}

/// The identifier in a digest: the number its first eight bytes spell.
pub open spec fn digest_iid(d: Seq<u8>) -> u64 {
    bytes::be_nat(d.take(8)) as u64
}

/// The stable identifier from the `counter`th try on: the first that is not
/// reserved of eight, else one.
pub open spec fn stable_iid(
    secret: Seq<u8>,
    prefix: Ipv6Addr,
    interface: Seq<char>,
    counter: nat,
) -> u64
    decreases 8 - counter,
{
    if counter >= 8 {
        1
    } else {
        let iid = digest_iid(digest::sha1_of(stable_input(secret, prefix, interface, counter)));
        if reserved(iid as nat) {
            stable_iid(secret, prefix, interface, counter + 1)
        } else {
            iid
        }
    }
}

/// The stable address of an interface in a prefix.
pub open spec fn stable_of(secret: Seq<u8>, prefix: Ipv6Addr, interface: Seq<char>) -> Ipv6Addr {
    joined(prefix, stable_iid(secret, prefix, interface, 0))
}

/// Whether an address of this prefix is in use.
pub open spec fn taken(p: PrefixV, a: Ipv6Addr) -> bool {
    a == p.stable || exists|i: int| 0 <= i < p.temps.len() && (#[trigger] p.temps[i]).address == a
}

/// Whether an identifier may be used for a new address.
pub open spec fn free(prefix: Ipv6Addr, p: PrefixV, iid: u64) -> bool {
    !reserved(iid as nat) && !taken(p, joined(prefix, iid))
}

/// Whether `iid` is the smallest identifier from one on that is not in use.
pub open spec fn is_spare(prefix: Ipv6Addr, p: PrefixV, iid: u64) -> bool {
    &&& 1 <= iid
    &&& !taken(p, joined(prefix, iid))
    &&& forall|j: u64| 1 <= j < iid ==> taken(p, #[trigger] joined(prefix, j))
}

/// The smallest identifier from one on that is not in use.
pub open spec fn spare(prefix: Ipv6Addr, p: PrefixV) -> u64 {
    choose|iid: u64| is_spare(prefix, p, iid)
}

/// The identifier of two draws: the low half of each.
pub open spec fn drawn_iid(a: u64, b: u64) -> u64 {
    (a % 0x1_0000_0000 * 0x1_0000_0000 + b % 0x1_0000_0000) as u64
}

/// A random identifier that may be used, and the generator after it; after
/// too many draws, a counted one.
pub open spec fn temp_iid(rng: u64, prefix: Ipv6Addr, p: PrefixV, draws: nat) -> (u64, u64)
    decreases draws,
{
    let a = rng::stirred(rng);
    let b = rng::stirred(a);
    if draws == 0 {
        (spare(prefix, p), rng)
    } else if free(prefix, p, drawn_iid(a, b)) {
        (drawn_iid(a, b), b)
    } else {
        temp_iid(b, prefix, p, (draws - 1) as nat)
    }
}

/// A time, but no later than the limit.
pub open spec fn clamped(t: int, limit: Option<Instant>) -> Instant {
    match limit {
        Some(l) => if l.nanos < t {
            l
        } else {
            Instant { nanos: t as u64 }
        },
        None => Instant { nanos: t as u64 },
    }
}

/// A new temporary address, and the generator after it. It is preferred for a
/// day less up to ten minutes, so that machines do not regenerate in step
/// (RFC 8981 section 3.8), and valid for two, neither longer than its prefix.
pub open spec fn new_temp_of(rng: u64, now: Instant, prefix: Ipv6Addr, p: PrefixV) -> (Temp, u64) {
    let (iid, after) = temp_iid(rng, prefix, p, MAX_DRAWS as nat);
    let last = rng::stirred(after);
    let preferred = TEMP_PREFERRED - (last % 600) * 1_000_000_000;
    (
        Temp {
            address: joined(prefix, iid),
            preferred_until: clamped(now.nanos + preferred, p.preferred_until),
            valid_until: clamped(now.nanos + TEMP_VALID as int, p.valid_until),
        },
        last,
    )
}

/// The temporary addresses still valid.
pub open spec fn valid_temps(t: Seq<Temp>, now: Instant) -> Seq<Temp>
    decreases t.len(),
{
    if t.len() == 0 {
        t
    } else if t.last().valid_until.nanos > now.nanos {
        valid_temps(t.drop_last(), now).push(t.last())
    } else {
        valid_temps(t.drop_last(), now)
    }
}

/// The last few, so that there is room for one more.
pub open spec fn recent(t: Seq<Temp>) -> Seq<Temp> {
    if t.len() >= MAX_TEMPS {
        t.skip(t.len() - (MAX_TEMPS - 1))
    } else {
        t
    }
}

/// The prefixes still valid.
pub open spec fn valid_prefixes(s: Prefixes, now: Instant) -> Prefixes
    decreases s.len(),
{
    if s.len() == 0 {
        s
    } else if table::ahead(s.last().1.valid_until, now) {
        valid_prefixes(s.drop_last(), now).push(s.last())
    } else {
        valid_prefixes(s.drop_last(), now)
    }
}

/// A prefix without its outdated temporary addresses.
pub open spec fn pruned(p: PrefixV, now: Instant) -> PrefixV {
    PrefixV { temps: valid_temps(p.temps, now), ..p }
}

/// A prefix with room for one more temporary address: the oldest make way.
pub open spec fn roomy(p: PrefixV) -> PrefixV {
    PrefixV { temps: recent(p.temps), ..p }
}

/// Whether a prefix wants a new temporary address: it is itself preferred and
/// its newest one is not.
pub open spec fn wants_temp(p: PrefixV, now: Instant) -> bool {
    table::ahead(p.preferred_until, now) && !(p.temps.len() > 0
        && p.temps.last().preferred_until.nanos > now.nanos)
}

/// The prefixes with their temporary addresses kept up, and the generator
/// after that.
pub open spec fn refreshed(s: Prefixes, rng: u64, temporary: bool, now: Instant) -> (Prefixes, u64)
    decreases s.len(),
{
    if s.len() == 0 {
        (s, rng)
    } else {
        let (done, r) = refreshed(s.drop_last(), rng, temporary, now);
        let p = pruned(s.last().1, now);
        if temporary && wants_temp(p, now) {
            let q = roomy(p);
            let (t, r2) = new_temp_of(r, now, s.last().0, q);
            (done.push((s.last().0, PrefixV { temps: q.temps.push(t), ..q })), r2)
        } else {
            (done.push((s.last().0, p)), r)
        }
    }
}

/// The order of addresses: by address, then by each other field.
pub open spec fn ranks(a: DesiredAddress, b: DesiredAddress) -> bool {
    if a.address.bits != b.address.bits {
        a.address.bits < b.address.bits
    } else if a.prefix != b.prefix {
        a.prefix < b.prefix
    } else if a.deprecated != b.deprecated {
        !a.deprecated
    } else {
        !a.on_link && b.on_link
    }
}

/// How many of `s` come no later than `x`, from the front.
pub open spec fn rank(s: Seq<DesiredAddress>, x: DesiredAddress) -> int
    decreases s.len(),
{
    if s.len() > 0 && !ranks(x, s[0]) {
        1 + rank(s.drop_first(), x)
    } else {
        0
    }
}

/// `s` with `x` in its place.
pub open spec fn placed(s: Seq<DesiredAddress>, x: DesiredAddress) -> Seq<DesiredAddress> {
    s.insert(rank(s, x), x)
}

/// What the interface should carry of a temporary address.
pub open spec fn temp_wanted(p: PrefixV, t: Temp, now: Instant) -> DesiredAddress {
    DesiredAddress {
        address: t.address,
        prefix: 64,
        deprecated: !table::ahead(p.preferred_until, now) || t.preferred_until.nanos <= now.nanos,
        on_link: p.on_link,
    }
}

/// What the interface should carry of a prefix's stable address.
pub open spec fn stable_wanted(p: PrefixV, now: Instant) -> DesiredAddress {
    DesiredAddress {
        address: p.stable,
        prefix: 64,
        deprecated: !table::ahead(p.preferred_until, now),
        on_link: p.on_link,
    }
}

/// `acc` with the first `n` temporary addresses of a prefix, those valid.
pub open spec fn temps_placed(
    acc: Seq<DesiredAddress>,
    p: PrefixV,
    n: nat,
    now: Instant,
) -> Seq<DesiredAddress>
    decreases n,
{
    if n == 0 {
        acc
    } else {
        let before = temps_placed(acc, p, (n - 1) as nat, now);
        let t = p.temps[n - 1];
        if t.valid_until.nanos > now.nanos {
            placed(before, temp_wanted(p, t, now))
        } else {
            before
        }
    }
}

/// The addresses of all prefixes, those valid, in order.
pub open spec fn wanted(s: Prefixes, now: Instant) -> Seq<DesiredAddress>
    decreases s.len(),
{
    if s.len() == 0 {
        Seq::empty()
    } else {
        let before = wanted(s.drop_last(), now);
        let p = s.last().1;
        if table::ahead(p.valid_until, now) {
            temps_placed(placed(before, stable_wanted(p, now)), p, p.temps.len(), now)
        } else {
            before
        }
    }
}

/// The soonest lifetime of these temporary addresses to end, of those preferred
/// the ones not over at `at`.
pub open spec fn temps_soonest(t: Seq<Temp>, at: Instant) -> Option<Instant>
    decreases t.len(),
{
    if t.len() == 0 {
        None
    } else {
        table::sooner(
            table::sooner(
                temps_soonest(t.drop_last(), at),
                table::still(Some(t.last().preferred_until), at),
            ),
            Some(t.last().valid_until),
        )
    }
}

/// The soonest lifetime of a prefix or an address in it to end, of those
/// preferred the ones not over at `at`.
pub open spec fn prefixes_soonest(s: Prefixes, at: Instant) -> Option<Instant>
    decreases s.len(),
{
    if s.len() == 0 {
        None
    } else {
        let p = s.last().1;
        table::sooner(
            table::sooner(
                table::sooner(prefixes_soonest(s.drop_last(), at), p.valid_until),
                table::still(p.preferred_until, at),
            ),
            temps_soonest(p.temps, at),
        )
    }
}

/// What remains of a valid lifetime after an advertisement names a new one. An
/// unauthenticated advertisement may extend the lifetime freely but may not
/// cut what remains below two hours, else one spoofed packet invalidates the
/// address. Forever stays forever unless the new value is also long.
pub open spec fn revised(valid_until: Option<Instant>, now: Instant, seconds: u32) -> Option<
    Instant,
> {
    let received = seconds * 1_000_000_000;
    match valid_until {
        Some(t) => {
            let left = if t.nanos >= now.nanos {
                t.nanos - now.nanos
            } else {
                0
            };
            if received > TWO_HOURS || received > left {
                until_time(now, seconds)
            } else if left <= TWO_HOURS {
                Some(Instant { nanos: (now.nanos + left) as u64 })
            } else {
                Some(Instant { nanos: (now.nanos + TWO_HOURS) as u64 })
            }
        },
        None => if received > TWO_HOURS {
            until_time(now, seconds)
        } else {
            None
        },
    }
}

/// What holds of a prefix and its addresses: they lie in it, no identifier is
/// reserved, no two addresses are the same, and no more than a few are
/// temporary.
pub open spec fn prefix_ok(k: Ipv6Addr, p: PrefixV) -> bool {
    &&& home(k) == k
    &&& home(p.stable) == k
    &&& !reserved(iid_of(p.stable))
    &&& p.temps.len() <= MAX_TEMPS
    &&& (p.valid_until matches Some(t) ==> t.nanos <= LAST)
    &&& (p.preferred_until matches Some(t) ==> t.nanos <= LAST)
    &&& forall|i: int|
        0 <= i < p.temps.len() ==> home((#[trigger] p.temps[i]).address) == k && !reserved(
            iid_of(p.temps[i].address),
        ) && p.temps[i].address != p.stable
    &&& forall|i: int, j: int|
        0 <= i < j < p.temps.len() ==> (#[trigger] p.temps[i]).address != (
        #[trigger] p.temps[j]).address
}

impl EngineV {
    pub open spec fn wf(&self) -> bool {
        &&& self.secret.len() == 32
        &&& SOLICIT_INTERVAL <= self.interval.nanos <= MAX_SOLICIT_INTERVAL
        &&& table::ordered(self.routers)
        &&& table::ordered(self.prefixes)
        &&& table::ordered(self.rdnss)
        &&& table::names_ordered(self.dnssl)
        &&& forall|i: int|
            0 <= i < self.prefixes.len() ==> prefix_ok(
                (#[trigger] self.prefixes[i]).0,
                self.prefixes[i].1,
            )
    }

    /// Everything the caller can observe.
    pub open spec fn sight(&self, now: Instant) -> SightV {
        SightV {
            addresses: wanted(self.prefixes, now),
            router: table::first_live(self.routers, now),
            dns: table::live_keys(self.rdnss, now),
            search: table::live_texts(self.dnssl, now),
            mtu: self.mtu,
            dhcp6: self.dhcp6_wanted,
        }
    }

    /// What is left once everything outdated is dropped. With no router left,
    /// soliciting starts again (RFC 7559 keeps a host looking, else a rebooted
    /// router is never found).
    pub open spec fn expired(&self, now: Instant) -> EngineV {
        let routers = table::live(self.routers, now);
        let again = routers.len() == 0 && self.solicit_at is None;
        let kept = refreshed(
            valid_prefixes(self.prefixes, now),
            self.rng,
            self.temporary,
            now,
        );
        EngineV {
            routers,
            solicits: if again {
                0
            } else {
                self.solicits
            },
            interval: if again {
                Duration { nanos: SOLICIT_INTERVAL }
            } else {
                self.interval
            },
            solicit_at: if again {
                Some(now)
            } else {
                self.solicit_at
            },
            rdnss: table::live(self.rdnss, now),
            dnssl: table::live_names(self.dnssl, now),
            prefixes: kept.0,
            rng: kept.1,
            at: now,
            ..*self
        }
    }

    /// `Changed` after `actions` where what can be observed differs from what
    /// was last seen.
    pub open spec fn shown(&self, now: Instant, actions: Seq<ActionV>) -> Step {
        let sight = self.sight(now);
        if sight == self.seen {
            (*self, actions)
        } else {
            (EngineV { seen: sight, ..*self }, actions.push(ActionV::Changed))
        }
    }

    /// The interval for the next solicitation once one more has been sent.
    pub open spec fn next_interval(&self) -> Duration {
        if self.solicits + 1 >= SOLICITS_BEFORE_BACKOFF {
            Duration {
                nanos: if 2 * self.interval.nanos < MAX_SOLICIT_INTERVAL {
                    (2 * self.interval.nanos) as u64
                } else {
                    MAX_SOLICIT_INTERVAL
                },
            }
        } else {
            self.interval
        }
    }

    /// An interval with a tenth of jitter either way, in nanoseconds, for
    /// this draw.
    pub open spec fn jittered(interval: Duration, draw: u64) -> int {
        let millis = interval.nanos as int / 1_000_000;
        (millis - millis / 10 + draw as int % (millis / 5 + 1)) * 1_000_000
    }

    /// A solicitation, where one is due.
    pub open spec fn solicit_if_due(&self, now: Instant) -> Step {
        match self.solicit_at {
            Some(at) => if now.nanos >= at.nanos {
                let interval = self.next_interval();
                let r = rng::stirred(self.rng);
                (
                    EngineV {
                        rng: r,
                        solicits: if self.solicits < u32::MAX {
                            (self.solicits + 1) as u32
                        } else {
                            u32::MAX
                        },
                        interval,
                        solicit_at: Some(
                            Instant { nanos: (now.nanos + Self::jittered(interval, r)) as u64 },
                        ),
                        ..*self
                    },
                    seq![ActionV::Solicit(packet::solicitation(self.mac))],
                )
            } else {
                (*self, Seq::empty())
            },
            None => (*self, Seq::empty()),
        }
    }

    /// Timers: every lifetime, then solicitation.
    pub open spec fn tick(&self, now: Instant) -> Step {
        let (e, actions) = self.expired(now).solicit_if_due(now);
        e.shown(now, actions)
    }

    /// Begin soliciting.
    pub open spec fn start(&self, now: Instant) -> Step {
        EngineV {
            solicits: 0,
            interval: (Duration { nanos: SOLICIT_INTERVAL }),
            solicit_at: Some(now),
            ..*self
        }.tick(now)
    }

    /// One advertised prefix taken in. Only autonomous /64s form addresses
    /// (RFC 4862 section 5.5.3: the interface identifier is 64 bits, anything
    /// else is ignored), and a preferred lifetime beyond the valid one is
    /// nonsense. What the router put after the 64 bits is ignored.
    pub open spec fn with_prefix(&self, now: Instant, info: PrefixInfo) -> EngineV {
        let k = home(info.prefix);
        let i = table::place(self.prefixes, k);
        if !info.autonomous || info.length != 64 || info.preferred > info.valid {
            *self
        } else if i < self.prefixes.len() && self.prefixes[i].0 == k {
            let p = self.prefixes[i].1;
            EngineV {
                prefixes: self.prefixes.update(
                    i,
                    (
                        k,
                        PrefixV {
                            on_link: info.on_link,
                            preferred_until: until_time(now, info.preferred),
                            valid_until: revised(p.valid_until, now, info.valid),
                            ..p
                        },
                    ),
                ),
                ..*self
            }
        } else if info.valid > 0 {
            let p = PrefixV {
                on_link: info.on_link,
                valid_until: until_time(now, info.valid),
                preferred_until: until_time(now, info.preferred),
                stable: stable_of(self.secret, k, self.interface),
                temps: Seq::empty(),
            };
            if self.temporary && info.preferred > 0 {
                let (t, rng) = new_temp_of(self.rng, now, k, p);
                EngineV {
                    prefixes: self.prefixes.insert(i, (k, PrefixV { temps: seq![t], ..p })),
                    rng,
                    ..*self
                }
            } else {
                EngineV { prefixes: self.prefixes.insert(i, (k, p)), ..*self }
            }
        } else {
            *self
        }
    }

    /// The first `n` advertised prefixes taken in.
    pub open spec fn with_prefixes(&self, now: Instant, s: Seq<PrefixInfo>) -> EngineV
        decreases s.len(),
    {
        if s.len() == 0 {
            *self
        } else {
            self.with_prefixes(now, s.drop_last()).with_prefix(now, s.last())
        }
    }

    /// What an advertisement says of its router and of the link taken in.
    pub open spec fn with_router(&self, now: Instant, source: Ipv6Addr, ra: RouterAdvertV) -> EngineV {
        EngineV {
            routers: if ra.router_lifetime > 0 {
                table::put(
                    self.routers,
                    source,
                    Some(Instant { nanos: (now.nanos + ra.router_lifetime * 1_000_000_000) as u64 }),
                )
            } else {
                table::without(self.routers, source)
            },
            solicit_at: if ra.router_lifetime > 0 {
                None
            } else {
                self.solicit_at
            },
            dhcp6_wanted: self.dhcp6_wanted || ra.managed || ra.other_config,
            mtu: match ra.mtu {
                Some(m) => Some(m),
                None => self.mtu,
            },
            ..*self
        }
    }

    /// An advertisement taken in.
    pub open spec fn receive(&self, now: Instant, source: Ipv6Addr, body: Seq<u8>) -> Step {
        match packet::decoded(body) {
            Some(ra) => {
                let e = self.with_router(now, source, ra).with_prefixes(now, ra.prefixes);
                EngineV {
                    rdnss: servers_taken(e.rdnss, now, ra.rdnss),
                    dnssl: domains_taken(e.dnssl, now, ra.dnssl),
                    ..e
                }.expired(now).shown(now, Seq::empty())
            },
            None => (*self, Seq::empty()),
        }
    }

    /// When the next thing is due. A preferred lifetime that was over when the
    /// engine was last called has been seen to.
    pub open spec fn next_deadline(&self) -> Option<Instant> {
        table::sooner(
            table::sooner(
                table::sooner(
                    table::sooner(self.solicit_at, table::soonest(self.routers)),
                    prefixes_soonest(self.prefixes, self.at),
                ),
                table::soonest(self.rdnss),
            ),
            table::names_soonest(self.dnssl),
        )
    }
}

/// The servers of one option taken in: dropped with a lifetime of zero.
pub open spec fn server_list_taken(
    s: Expiring,
    now: Instant,
    lifetime: u32,
    servers: Seq<Ipv6Addr>,
) -> Expiring
    decreases servers.len(),
{
    if servers.len() == 0 {
        s
    } else {
        let before = server_list_taken(s, now, lifetime, servers.drop_last());
        if lifetime == 0 {
            table::without(before, servers.last())
        } else {
            table::put(before, servers.last(), until_time(now, lifetime))
        }
    }
}

/// The servers of all options taken in.
pub open spec fn servers_taken(s: Expiring, now: Instant, r: Seq<RdnssV>) -> Expiring
    decreases r.len(),
{
    if r.len() == 0 {
        s
    } else {
        server_list_taken(
            servers_taken(s, now, r.drop_last()),
            now,
            r.last().lifetime,
            r.last().servers,
        )
    }
}

/// The domains of one option taken in: dropped with a lifetime of zero.
pub open spec fn domain_list_taken(
    s: Names,
    now: Instant,
    lifetime: u32,
    domains: Seq<Seq<char>>,
) -> Names
    decreases domains.len(),
{
    if domains.len() == 0 {
        s
    } else {
        let before = domain_list_taken(s, now, lifetime, domains.drop_last());
        if lifetime == 0 {
            table::name_without(before, domains.last())
        } else {
            table::name_put(before, domains.last(), until_time(now, lifetime))
        }
    }
}

/// The domains of all options taken in.
pub open spec fn domains_taken(s: Names, now: Instant, d: Seq<DnsslV>) -> Names
    decreases d.len(),
{
    if d.len() == 0 {
        s
    } else {
        domain_list_taken(
            domains_taken(s, now, d.drop_last()),
            now,
            d.last().lifetime,
            d.last().domains,
        )
    }
}

pub struct Engine {
    config: Config,
    rng: u64,
    solicit_at: Option<Instant>,
    solicit_interval: Duration,
    solicits: u32,
    /// Default routers by link-local source, with when they stop being one.
    routers: Vec<(Ipv6Addr, Option<Instant>)>,
    prefixes: Vec<(Ipv6Addr, Prefix)>,
    rdnss: Vec<(Ipv6Addr, Option<Instant>)>,
    dnssl: Vec<(String, Option<Instant>)>,
    mtu: Option<u32>,
    /// Latched when any router advertises M or O. Cleared only by restart:
    /// the flag is a property of the link's routers, and a link where DHCPv6
    /// stops being offered is a link that bounced.
    dhcp6_wanted: bool,
    /// What the caller last saw; `Changed` is emitted when the current view
    /// differs. Held rather than recomputed around each call because time
    /// alone changes the view: a deprecation is a transition even though no
    /// packet arrived.
    last_view: Sight,
    /// When the engine was last called.
    last_at: Instant,
}

impl View for Engine {
    type V = EngineV;

    closed spec fn view(&self) -> EngineV {
        EngineV {
            interface: self.config.interface@,
            secret: self.config.secret@,
            temporary: self.config.temporary,
            mac: match self.config.mac {
                Some(m) => Some(m@),
                None => None,
            },
            rng: self.rng,
            solicit_at: self.solicit_at,
            interval: self.solicit_interval,
            solicits: self.solicits,
            routers: self.routers@,
            prefixes: prefixes_view(self.prefixes@),
            rdnss: self.rdnss@,
            dnssl: table::names_view(self.dnssl@),
            mtu: self.mtu,
            dhcp6_wanted: self.dhcp6_wanted,
            seen: self.last_view@,
            at: self.last_at,
        }
    }
}

/// An engine that has heard nothing.
pub open spec fn idle(config: Config) -> EngineV {
    EngineV {
        interface: config.interface@,
        secret: config.secret@,
        temporary: config.temporary,
        mac: match config.mac {
            Some(m) => Some(m@),
            None => None,
        },
        rng: config.seed | 1,
        solicit_at: None,
        interval: (Duration { nanos: SOLICIT_INTERVAL }),
        solicits: 0,
        routers: Seq::empty(),
        prefixes: Seq::empty(),
        rdnss: Seq::empty(),
        dnssl: Seq::empty(),
        mtu: None,
        dhcp6_wanted: false,
        seen: (SightV {
            addresses: Seq::empty(),
            router: None,
            dns: Seq::empty(),
            search: Seq::empty(),
            mtu: None,
            dhcp6: false,
        }),
        at: (Instant { nanos: 0 }),
    }
}

// ---- identifiers -----------------------------------------------------------

/// Whether an interface identifier must not be autoconfigured.
pub fn reserved_iid(iid: &[u8; 8]) -> (r: bool)
    ensures
        r == reserved(bytes::be_nat(iid@)),
{
    assert(iid@.subrange(0, 8) =~= iid@);
    is_reserved(bytes::u64_at(iid.as_slice(), 0))
}

fn is_reserved(iid: u64) -> (r: bool)
    ensures
        r == reserved(iid as nat),
{
    iid == 0 || iid / 0x100_0000 == 0x02_005e_fffe || (0xfdff_ffff_ffff_ff80 <= iid && iid
        <= 0xfdff_ffff_ffff_ffff)
}

fn join(prefix: Ipv6Addr, iid: u64) -> (a: Ipv6Addr)
    ensures
        a == joined(prefix, iid),
        home(a) == home(prefix),
        iid_of(a) == iid,
{
    let a: Ipv6Addr = Ipv6Addr {
        bits: prefix.bits / 0x1_0000_0000_0000_0000 * 0x1_0000_0000_0000_0000 + iid as u128,
    };
    a
}

pub(crate) proof fn joined_facts(prefix: Ipv6Addr, iid: u64)
    ensures
        home(joined(prefix, iid)) == home(prefix),
        iid_of(joined(prefix, iid)) == iid,
{
}

fn home_of(a: Ipv6Addr) -> (r: Ipv6Addr)
    ensures
        r == home(a),
        home(r) == r,
{
    Ipv6Addr { bits: a.bits / 0x1_0000_0000_0000_0000 * 0x1_0000_0000_0000_0000 }
}

fn until(now: Instant, seconds: u32) -> (r: Option<Instant>)
    requires
        now.nanos <= clock::HORIZON,
    ensures
        r == until_time(now, seconds),
        r matches Some(t) ==> t.nanos <= LAST,
{
    if seconds == u32::MAX {
        None
    } else {
        Some(now.plus(Duration::from_secs(seconds)))
    }
}

/// The identifier that a digest gives, unless it is reserved.
pub fn iid_from_digest(d: &[u8]) -> (r: Option<u64>)
    requires
        d@.len() >= 8,
    ensures
        r == if reserved(digest_iid(d@) as nat) {
            None::<u64>
        } else {
            Some(digest_iid(d@))
        },
{
    proof {
        assert(d@.subrange(0, 8) =~= d@.take(8));
    }
    let iid: u64 = bytes::u64_at(d, 0);
    if is_reserved(iid) {
        None
    } else {
        Some(iid)
    }
}

fn is_taken(p: &Prefix, a: Ipv6Addr) -> (r: bool)
    ensures
        r == taken(p@, a),
{
    if a == p.stable {
        return true;
    }
    let mut i: usize = 0;
    while i < p.temps.len()
        invariant
            i <= p.temps@.len(),
            forall|j: int| 0 <= j < i ==> (#[trigger] p.temps@[j]).address != a,
        decreases p.temps@.len() - i,
    {
        if p.temps[i].address == a {
            assert(p@.temps[i as int].address == a);
            return true;
        }
        i = i + 1;
    }
    false
}

/// Which slot holds the address with this identifier: the stable one or a
/// temporary one.
spec fn slot(prefix: Ipv6Addr, p: PrefixV, iid: u64) -> int {
    if joined(prefix, iid) == p.stable {
        0
    } else {
        1 + choose|i: int| 0 <= i < p.temps.len() && (#[trigger] p.temps[i]).address == joined(prefix, iid)
    }
}

proof fn slot_facts(prefix: Ipv6Addr, p: PrefixV, iid: u64)
    requires
        taken(p, joined(prefix, iid)),
    ensures
        0 <= slot(prefix, p, iid) <= p.temps.len(),
        slot(prefix, p, iid) == 0 ==> joined(prefix, iid) == p.stable,
        slot(prefix, p, iid) > 0 ==> p.temps[slot(prefix, p, iid) - 1].address == joined(prefix, iid),
{
}

fn counted(prefix: Ipv6Addr, p: &Prefix) -> (iid: u64)
    requires
        p@.temps.len() < 0x1_0000,
    ensures
        iid == spare(prefix, p@),
        free(prefix, p@, iid),
{
    let mut iid: u64 = 1;
    let ghost mut last: u64 = 1;
    proof {
        last = spare_search(prefix, p@, 1, Set::empty());
    }
    while is_taken(p, join(prefix, iid))
        invariant
            1 <= iid <= last <= 0x1_0002,
            is_spare(prefix, p@, last),
            forall|j: u64| 1 <= j < iid ==> taken(p@, #[trigger] joined(prefix, j)),
        decreases last - iid,
    {
        assert(iid != last);
        iid = iid + 1;
    }
    proof {
        assert(is_spare(prefix, p@, iid));
        let c = spare(prefix, p@);
        assert(is_spare(prefix, p@, c));
        if c < iid {
            assert(taken(p@, joined(prefix, c)));
        } else if iid < c {
            assert(taken(p@, joined(prefix, iid)));
        }
    }
    iid
}

proof fn spare_search(prefix: Ipv6Addr, p: PrefixV, iid: u64, used: Set<int>) -> (c: u64)
    requires
        p.temps.len() < 0x1_0000,
        1 <= iid <= p.temps.len() + 2,
        used.finite(),
        used.len() == iid - 1,
        used.subset_of(vstd::set_lib::set_int_range(0, p.temps.len() + 1 as int)),
        forall|j: u64| 1 <= j < iid ==> taken(p, #[trigger] joined(prefix, j)),
        forall|x: int| used.contains(x) ==> exists|j: u64|
            1 <= j < iid && x == #[trigger] slot(prefix, p, j),
    ensures
        is_spare(prefix, p, c),
        c <= p.temps.len() + 2,
    decreases p.temps.len() + 2 - iid,
{
    if !taken(p, joined(prefix, iid)) {
        iid
    } else {
        let n = p.temps.len() + 1;
        let x = slot(prefix, p, iid);
        slot_facts(prefix, p, iid);
        if used.contains(x) {
            let j = choose|j: u64| 1 <= j < iid && x == #[trigger] slot(prefix, p, j);
            assert(taken(p, joined(prefix, j)));
            slot_facts(prefix, p, j);
            joined_facts(prefix, j);
            joined_facts(prefix, iid);
            assert(false);
        }
        let more = used.insert(x);
        vstd::set_lib::lemma_int_range(0, n as int);
        vstd::set_lib::lemma_len_subset(more, vstd::set_lib::set_int_range(0, n as int));
        assert forall|y: int| more.contains(y) implies exists|j: u64|
            1 <= j < iid + 1 && y == #[trigger] slot(prefix, p, j) by {
            if y == x {
                assert(y == slot(prefix, p, iid));
            } else {
                let j = choose|j: u64| 1 <= j < iid && y == #[trigger] slot(prefix, p, j);
                assert(y == slot(prefix, p, j));
            }
        }
        spare_search(prefix, p, (iid + 1) as u64, more)
    }
}

/// The identifier that is found for a new temporary address may be used.
pub(crate) proof fn temp_is_free(rng: u64, prefix: Ipv6Addr, p: PrefixV, draws: nat)
    requires
        p.temps.len() < 0x1_0000,
    ensures
        free(prefix, p, temp_iid(rng, prefix, p, draws).0),
    decreases draws,
{
    if draws == 0 {
        let d = spare_search(prefix, p, 1, Set::empty());
        let c = spare(prefix, p);
        assert(is_spare(prefix, p, c));
        if d < c {
            assert(taken(p, joined(prefix, d)));
        } else if c < d {
            assert(taken(p, joined(prefix, c)));
        }
    } else {
        temp_is_free(rng::stirred(rng::stirred(rng)), prefix, p, (draws - 1) as nat);
    }
}

/// A new temporary address, and the generator after it.
fn new_temp(rng: u64, now: Instant, prefix: Ipv6Addr, p: &Prefix) -> (r: (Temp, u64))
    requires
        now.nanos <= clock::HORIZON,
        p@.temps.len() < 0x1_0000,
    ensures
        r == new_temp_of(rng, now, prefix, p@),
        home(r.0.address) == home(prefix),
        !reserved(iid_of(r.0.address)),
        !taken(p@, r.0.address),
{
    let mut r: u64 = rng;
    let mut left: u64 = MAX_DRAWS;
    let mut found: Option<u64> = None;
    while left > 0 && found.is_none()
        invariant
            match found {
                Some(iid) => (iid, r) == temp_iid(rng, prefix, p@, MAX_DRAWS as nat) && free(
                    prefix,
                    p@,
                    iid,
                ),
                None => temp_iid(r, prefix, p@, left as nat) == temp_iid(
                    rng,
                    prefix,
                    p@,
                    MAX_DRAWS as nat,
                ),
            },
        decreases
                left + if found is None {
                    1int
                } else {
                    0int
                },
    {
        let a: u64 = rng::next(r);
        let b: u64 = rng::next(a);
        let iid: u64 = a % 0x1_0000_0000 * 0x1_0000_0000 + b % 0x1_0000_0000;
        r = b;
        if !is_reserved(iid) && !is_taken(p, join(prefix, iid)) {
            found = Some(iid);
        } else {
            left = left - 1;
        }
    }
    let iid: u64 = match found {
        Some(iid) => iid,
        None => counted(prefix, p),
    };
    let last: u64 = rng::next(r);
    let preferred: u64 = TEMP_PREFERRED - last % 600 * clock::NANOS;
    let temp: Temp = Temp {
        address: join(prefix, iid),
        preferred_until: clamp(now.nanos + preferred, p.preferred_until),
        valid_until: clamp(now.nanos + TEMP_VALID, p.valid_until),
    };
    (temp, last)
}

fn clamp(t: u64, limit: Option<Instant>) -> (r: Instant)
    ensures
        r == clamped(t as int, limit),
{
    match limit {
        Some(l) => if l.nanos < t {
            l
        } else {
            Instant { nanos: t }
        },
        None => Instant { nanos: t },
    }
}

// ---- addresses in order ----------------------------------------------------

fn comes_before(a: &DesiredAddress, b: &DesiredAddress) -> (r: bool)
    ensures
        r == ranks(*a, *b),
{
    if a.address.bits != b.address.bits {
        a.address.bits < b.address.bits
    } else if a.prefix != b.prefix {
        a.prefix < b.prefix
    } else if a.deprecated != b.deprecated {
        !a.deprecated
    } else {
        !a.on_link && b.on_link
    }
}

proof fn rank_found(s: Seq<DesiredAddress>, x: DesiredAddress, n: int)
    requires
        0 <= n <= s.len(),
        forall|i: int| 0 <= i < n ==> !ranks(x, #[trigger] s[i]),
        n < s.len() ==> ranks(x, s[n]),
    ensures
        rank(s, x) == n,
    decreases n,
{
    if n > 0 {
        let t = s.drop_first();
        assert(!ranks(x, s[0]));
        assert forall|i: int| 0 <= i < n - 1 implies !ranks(x, #[trigger] t[i]) by {
            assert(t[i] == s[i + 1]);
        }
        rank_found(t, x, n - 1);
    }
}

pub proof fn rank_bound(s: Seq<DesiredAddress>, x: DesiredAddress)
    ensures
        0 <= rank(s, x) <= s.len(),
        forall|i: int| 0 <= i < rank(s, x) ==> !ranks(x, #[trigger] s[i]),
        rank(s, x) < s.len() ==> ranks(x, s[rank(s, x)]),
    decreases s.len(),
{
    if s.len() > 0 && !ranks(x, s[0]) {
        let t = s.drop_first();
        rank_bound(t, x);
        assert forall|i: int| 0 <= i < rank(s, x) implies !ranks(x, #[trigger] s[i]) by {
            if i > 0 {
                assert(s[i] == t[i - 1]);
            }
        }
        if rank(s, x) < s.len() {
            assert(s[rank(s, x)] == t[rank(t, x)]);
        }
    }
}

fn put_in_place(v: &mut Vec<DesiredAddress>, x: DesiredAddress)
    ensures
        final(v)@ == placed(old(v)@, x),
{
    let mut n: usize = 0;
    while n < v.len() && !comes_before(&x, &v[n])
        invariant
            n <= v@.len(),
            v@ == old(v)@,
            forall|i: int| 0 <= i < n ==> !ranks(x, #[trigger] v@[i]),
        decreases v@.len() - n,
    {
        n = n + 1;
    }
    proof {
        rank_found(v@, x, n as int);
    }
    v.insert(n, x);
}

fn same_addresses(a: &Vec<DesiredAddress>, b: &Vec<DesiredAddress>) -> (r: bool)
    ensures
        r == (a@ == b@),
{
    if a.len() != b.len() {
        return false;
    }
    let mut i: usize = 0;
    while i < a.len()
        invariant
            i <= a@.len(),
            a@.len() == b@.len(),
            forall|j: int| 0 <= j < i ==> a@[j] == b@[j],
        decreases a@.len() - i,
    {
        if a[i] != b[i] {
            return false;
        }
        i = i + 1;
    }
    assert(a@ =~= b@);
    true
}

impl Sight {
    fn same(&self, other: &Sight) -> (r: bool)
        ensures
            r == (self@ == other@),
    {
        same_addresses(&self.addresses, &other.addresses) && self.router == other.router
            && dhcp6::same_addresses(&self.dns, &other.dns) && text::same_list(
            &self.search,
            &other.search,
        ) && self.mtu == other.mtu && self.dhcp6 == other.dhcp6
    }
}

pub(crate) proof fn refreshed_ok(s: Prefixes, rng: u64, temporary: bool, now: Instant)
    requires
        now.nanos <= clock::HORIZON,
        table::ordered(s),
        forall|i: int| 0 <= i < s.len() ==> prefix_ok((#[trigger] s[i]).0, s[i].1),
    ensures
        refreshed(s, rng, temporary, now).0.len() == s.len(),
        forall|i: int|
            0 <= i < s.len() ==> (#[trigger] refreshed(s, rng, temporary, now).0[i]).0 == s[i].0,
        table::ordered(refreshed(s, rng, temporary, now).0),
    decreases s.len(),
{
    if s.len() > 0 {
        let t = s.drop_last();
        assert forall|i: int| 0 <= i < t.len() implies prefix_ok((#[trigger] t[i]).0, t[i].1) by {
            assert(t[i] == s[i]);
        }
        refreshed_ok(t, rng, temporary, now);
        let out = refreshed(s, rng, temporary, now).0;
        assert forall|i: int| 0 <= i < s.len() implies (#[trigger] out[i]).0 == s[i].0 by {
            if i < t.len() {
                assert(out[i] == refreshed(t, rng, temporary, now).0[i]);
            }
        }
    }
}

proof fn valid_temps_facts(t: Seq<Temp>, now: Instant)
    ensures
        valid_temps(t, now).len() <= t.len(),
        forall|i: int| 0 <= i < valid_temps(t, now).len() ==> t.contains(#[trigger] valid_temps(t, now)[i]),
        (forall|i: int, j: int|
            0 <= i < j < t.len() ==> (#[trigger] t[i]).address != (#[trigger] t[j]).address) ==> (
        forall|i: int, j: int|
            0 <= i < j < valid_temps(t, now).len() ==> (#[trigger] valid_temps(t, now)[i]).address
                != (#[trigger] valid_temps(t, now)[j]).address),
    decreases t.len(),
{
    if t.len() > 0 {
        let u = t.drop_last();
        valid_temps_facts(u, now);
        let vu = valid_temps(u, now);
        assert forall|i: int| 0 <= i < vu.len() implies t.contains(#[trigger] vu[i]) by {
            assert(u.contains(vu[i]));
            let j = choose|j: int| 0 <= j < u.len() && u[j] == vu[i];
            assert(t[j] == vu[i]);
        }
        assert(t[t.len() - 1] == t.last());
        let v = valid_temps(t, now);
        assert forall|i: int| 0 <= i < v.len() implies t.contains(#[trigger] v[i]) by {
            if i < vu.len() {
                assert(v[i] == vu[i]);
            }
        }
        if forall|i: int, j: int|
            0 <= i < j < t.len() ==> (#[trigger] t[i]).address != (#[trigger] t[j]).address {
            assert forall|i: int, j: int| 0 <= i < j < v.len() implies (#[trigger] v[i]).address
                != (#[trigger] v[j]).address by {
                assert forall|i: int, j: int| 0 <= i < j < u.len() implies (
                #[trigger] u[i]).address != (#[trigger] u[j]).address by {
                    assert(u[i] == t[i] && u[j] == t[j]);
                }
                if j < vu.len() {
                    assert(v[i] == vu[i] && v[j] == vu[j]);
                } else {
                    assert(v[i] == vu[i]);
                    assert(u.contains(vu[i]));
                    let k = choose|k: int| 0 <= k < u.len() && u[k] == vu[i];
                    assert(t[k] == vu[i]);
                }
            }
        }
    }
}

pub(crate) proof fn pruned_ok(k: Ipv6Addr, p: PrefixV, now: Instant)
    requires
        prefix_ok(k, p),
    ensures
        prefix_ok(k, pruned(p, now)),
{
    valid_temps_facts(p.temps, now);
    let v = valid_temps(p.temps, now);
    assert forall|i: int| 0 <= i < v.len() implies home((#[trigger] v[i]).address) == k && !reserved(
        iid_of(v[i].address),
    ) && v[i].address != p.stable by {
        assert(p.temps.contains(v[i]));
        let j = choose|j: int| 0 <= j < p.temps.len() && p.temps[j] == v[i];
        assert(p.temps[j] == v[i]);
    }
}

pub(crate) proof fn roomy_ok(k: Ipv6Addr, p: PrefixV)
    requires
        prefix_ok(k, p),
    ensures
        prefix_ok(k, roomy(p)),
        roomy(p).temps.len() < MAX_TEMPS,
{
    let t = p.temps;
    let r = recent(t);
    let o = t.len() - r.len();
    assert forall|i: int| 0 <= i < r.len() implies home((#[trigger] r[i]).address) == k && !reserved(
        iid_of(r[i].address),
    ) && r[i].address != p.stable by {
        assert(r[i] == t[i + o]);
    }
    assert forall|i: int, j: int| 0 <= i < j < r.len() implies (#[trigger] r[i]).address != (
    #[trigger] r[j]).address by {
        assert(r[i] == t[i + o] && r[j] == t[j + o]);
    }
}

pub(crate) proof fn pushed_ok(k: Ipv6Addr, p: PrefixV, t: Temp)
    requires
        prefix_ok(k, p),
        p.temps.len() < MAX_TEMPS,
        home(t.address) == k,
        !reserved(iid_of(t.address)),
        !taken(p, t.address),
    ensures
        prefix_ok(k, PrefixV { temps: p.temps.push(t), ..p }),
{
    let q = p.temps.push(t);
    assert forall|i: int, j: int| 0 <= i < j < q.len() implies (#[trigger] q[i]).address != (
    #[trigger] q[j]).address by {
        if j == p.temps.len() {
            assert(q[i] == p.temps[i]);
            if p.temps[i].address == t.address {
                assert(taken(p, t.address));
            }
        }
    }
}

fn live_temps(t: &Vec<Temp>, now: Instant) -> (out: Vec<Temp>)
    ensures
        out@ == valid_temps(t@, now),
{
    let mut out: Vec<Temp> = Vec::new();
    let mut i: usize = 0;
    assert(t@.take(0) =~= Seq::empty());
    while i < t.len()
        invariant
            i <= t@.len(),
            out@ == valid_temps(t@.take(i as int), now),
        decreases t@.len() - i,
    {
        assert(t@.take(i + 1).drop_last() =~= t@.take(i as int));
        if t[i].valid_until.nanos > now.nanos {
            out.push(t[i]);
        }
        i = i + 1;
    }
    assert(t@.take(i as int) =~= t@);
    out
}

/// Keeps the last few, so that there is room for one more.
fn make_room(t: Vec<Temp>) -> (out: Vec<Temp>)
    ensures
        out@ == recent(t@),
{
    let mut out: Vec<Temp> = t;
    if out.len() >= MAX_TEMPS {
        let from: usize = out.len() - (MAX_TEMPS - 1);
        let ghost before = out@;
        let tail: Vec<Temp> = out.split_off(from);
        assert(tail@ =~= before.skip(from as int));
        tail
    } else {
        out
    }
}

/// Keeps one prefix up.
fn refresh(k: Ipv6Addr, p: &Prefix, rng: u64, temporary: bool, now: Instant) -> (r: (Prefix, u64))
    requires
        prefix_ok(k, p@),
        now.nanos <= clock::HORIZON,
    ensures
        ({
            let q = pruned(p@, now);
            if temporary && wants_temp(q, now) {
                let room = roomy(q);
                let (t, r2) = new_temp_of(rng, now, k, room);
                r.0@ == (PrefixV { temps: room.temps.push(t), ..room }) && r.1 == r2
            } else {
                r.0@ == q && r.1 == rng
            }
        }),
        prefix_ok(k, r.0@),
{
    let mut q: Prefix = Prefix {
        on_link: p.on_link,
        valid_until: p.valid_until,
        preferred_until: p.preferred_until,
        stable: p.stable,
        temps: live_temps(&p.temps, now),
    };
    proof {
        pruned_ok(k, p@, now);
        assert(q@ == pruned(p@, now));
    }
    let newest: bool = q.temps.len() > 0 && q.temps[q.temps.len() - 1].preferred_until.nanos
        > now.nanos;
    if temporary && table::is_ahead(q.preferred_until, now) && !newest {
        proof {
            roomy_ok(k, q@);
        }
        let ghost full = q@;
        q.temps = make_room(q.temps);
        assert(q@ == roomy(full));
        let (t, after) = new_temp(rng, now, k, &q);
        proof {
            pushed_ok(k, q@, t);
        }
        q.temps.push(t);
        (q, after)
    } else {
        (q, rng)
    }
}

pub(crate) proof fn valid_prefixes_ok(s: Prefixes, now: Instant)
    requires
        table::ordered(s),
        forall|i: int| 0 <= i < s.len() ==> prefix_ok((#[trigger] s[i]).0, s[i].1),
    ensures
        table::ordered(valid_prefixes(s, now)),
        valid_prefixes(s, now).len() <= s.len(),
        forall|i: int|
            0 <= i < valid_prefixes(s, now).len() ==> prefix_ok(
                (#[trigger] valid_prefixes(s, now)[i]).0,
                valid_prefixes(s, now)[i].1,
            ) && s.contains(valid_prefixes(s, now)[i]),
    decreases s.len(),
{
    if s.len() > 0 {
        let t = s.drop_last();
        assert forall|i: int| 0 <= i < t.len() implies prefix_ok((#[trigger] t[i]).0, t[i].1) by {
            assert(t[i] == s[i]);
        }
        valid_prefixes_ok(t, now);
        let vt = valid_prefixes(t, now);
        let v = valid_prefixes(s, now);
        assert(s[s.len() - 1] == s.last());
        assert forall|i: int| 0 <= i < vt.len() implies s.contains(#[trigger] vt[i]) && vt[i].0.bits
            < s.last().0.bits by {
            assert(t.contains(vt[i]));
            let j = choose|j: int| 0 <= j < t.len() && t[j] == vt[i];
            assert(s[j] == vt[i]);
        }
        assert forall|i: int| 0 <= i < v.len() implies prefix_ok((#[trigger] v[i]).0, v[i].1)
            && s.contains(v[i]) by {
            if i < vt.len() {
                assert(v[i] == vt[i]);
            }
        }
    }
}

impl Engine {
    pub fn new(config: Config) -> (e: Engine)
        ensures
            e@ == idle(config),
            e@.wf(),
    {
        let rng: u64 = config.seed | 1;
        let e: Engine = Engine {
            config,
            rng,
            solicit_at: None,
            solicit_interval: Duration { nanos: SOLICIT_INTERVAL },
            solicits: 0,
            routers: Vec::new(),
            prefixes: Vec::new(),
            rdnss: Vec::new(),
            dnssl: Vec::new(),
            mtu: None,
            dhcp6_wanted: false,
            last_view: Sight {
                addresses: Vec::new(),
                router: None,
                dns: Vec::new(),
                search: Vec::new(),
                mtu: None,
                dhcp6: false,
            },
            last_at: Instant { nanos: 0 },
        };
        proof {
            assert(e@.prefixes =~= Seq::empty());
            assert(e@.dnssl =~= Seq::empty());
            assert(e@.seen.search =~= Seq::empty());
        }
        e
    }

    /// Begin soliciting.
    pub fn start(&mut self, now: Instant) -> (actions: Vec<Action>)
        requires
            old(self)@.wf(),
            now.nanos <= clock::HORIZON,
        ensures
            (final(self)@, views(actions@)) == old(self)@.start(now),
            final(self)@.wf(),
    {
        self.solicits = 0;
        self.solicit_interval = Duration { nanos: SOLICIT_INTERVAL };
        self.solicit_at = Some(now);
        self.tick(now)
    }

    /// Timers: solicitation, and every lifetime.
    pub fn tick(&mut self, now: Instant) -> (actions: Vec<Action>)
        requires
            old(self)@.wf(),
            now.nanos <= clock::HORIZON,
        ensures
            (final(self)@, views(actions@)) == old(self)@.tick(now),
            final(self)@.wf(),
    {
        self.expire(now);
        let mut actions: Vec<Action> = Vec::new();
        assert(views(actions@) =~= Seq::<ActionV>::empty());
        let due: bool = match self.solicit_at {
            Some(at) => now.nanos >= at.nanos,
            None => false,
        };
        if due {
            if self.solicits >= SOLICITS_BEFORE_BACKOFF - 1 {
                self.solicit_interval =
                Duration {
                    nanos: if self.solicit_interval.nanos * 2 < MAX_SOLICIT_INTERVAL {
                        self.solicit_interval.nanos * 2
                    } else {
                        MAX_SOLICIT_INTERVAL
                    },
                };
            }
            self.solicits = self.solicits.saturating_add(1);
            let wait: Duration = self.jitter(self.solicit_interval);
            self.solicit_at = Some(now.plus(wait));
            let body: Vec<u8> = match &self.config.mac {
                Some(mac) => packet::solicit(Some(mac)),
                None => packet::solicit(None),
            };
            actions.push(Action::Solicit(body));
            assert(views(actions@) =~= seq![ActionV::Solicit(packet::solicitation(self@.mac))]);
        }
        self.emit_if_changed(now, actions)
    }

    fn emit_if_changed(&mut self, now: Instant, actions: Vec<Action>) -> (r: Vec<Action>)
        requires
            old(self)@.wf(),
        ensures
            (final(self)@, views(r@)) == old(self)@.shown(now, views(actions@)),
            final(self)@.wf(),
    {
        let mut r: Vec<Action> = actions;
        let view: Sight = self.sight(now);
        if !view.same(&self.last_view) {
            self.last_view = view;
            r.push(Action::Changed);
            assert(views(r@) =~= views(actions@).push(ActionV::Changed));
        }
        r
    }

    fn expire(&mut self, now: Instant)
        requires
            old(self)@.wf(),
            now.nanos <= clock::HORIZON,
        ensures
            final(self)@ == old(self)@.expired(now),
            final(self)@.wf(),
    {
        proof {
            table::live_ordered(self@.routers, now);
            table::live_ordered(self@.rdnss, now);
            table::live_names_ordered(self@.dnssl, now);
            valid_prefixes_ok(self@.prefixes, now);
            refreshed_ok(valid_prefixes(self@.prefixes, now), self@.rng, self@.temporary, now);
        }
        table::retain(&mut self.routers, now);
        // Routers all gone: go back to soliciting (RFC 7559 keeps a host
        // looking, else a rebooted router is never found).
        if self.routers.len() == 0 && self.solicit_at.is_none() {
            self.solicits = 0;
            self.solicit_interval = Duration { nanos: SOLICIT_INTERVAL };
            self.solicit_at = Some(now);
        }
        table::retain(&mut self.rdnss, now);
        table::name_retain(&mut self.dnssl, now);
        // Temporary addresses: drop the invalid, regenerate when the newest
        // has gone deprecated while the prefix itself is still preferred.
        let mut kept: Vec<(Ipv6Addr, Prefix)> = Vec::new();
        let mut rng: u64 = self.rng;
        let temporary: bool = self.config.temporary;
        let ghost all = prefixes_view(self.prefixes@);
        let ghost start = rng;
        let mut i: usize = 0;
        proof {
            assert(all.take(0) =~= Seq::empty());
            assert(prefixes_view(kept@) =~= Seq::empty());
        }
        while i < self.prefixes.len()
            invariant
                i <= self.prefixes@.len(),
                all == prefixes_view(self.prefixes@),
                now.nanos <= clock::HORIZON,
                forall|j: int| 0 <= j < all.len() ==> prefix_ok((#[trigger] all[j]).0, all[j].1),
                (prefixes_view(kept@), rng) == refreshed(
                    valid_prefixes(all.take(i as int), now),
                    start,
                    temporary,
                    now,
                ),
                forall|j: int|
                    0 <= j < kept@.len() ==> prefix_ok((#[trigger] kept@[j]).0, kept@[j].1@),
            decreases self.prefixes@.len() - i,
        {
            let ghost before = prefixes_view(kept@);
            let ghost done = valid_prefixes(all.take(i as int), now);
            proof {
                assert(all.take(i + 1).drop_last() =~= all.take(i as int));
                assert(all[i as int] == (self.prefixes@[i as int].0, self.prefixes@[i as int].1@));
                assert(done.push(all[i as int]).drop_last() =~= done);
            }
            let k: Ipv6Addr = self.prefixes[i].0;
            if table::is_ahead(self.prefixes[i].1.valid_until, now) {
                let (p, after) = refresh(k, &self.prefixes[i].1, rng, temporary, now);
                kept.push((k, p));
                rng = after;
                assert(prefixes_view(kept@) =~= before.push((k, p@)));
            }
            i = i + 1;
        }
        proof {
            assert(all.take(i as int) =~= all);
        }
        self.prefixes = kept;
        self.rng = rng;
        self.last_at = now;
        proof {
            assert(self@ =~= old(self)@.expired(now));
            assert forall|j: int| 0 <= j < self@.prefixes.len() implies prefix_ok(
                (#[trigger] self@.prefixes[j]).0,
                self@.prefixes[j].1,
            ) by {
                assert(prefix_ok(kept@[j].0, kept@[j].1@));
            }
        }
    }

    /// When `tick` next wants calling.
    pub fn next_deadline(&self) -> (r: Option<Instant>)
        ensures
            r == self@.next_deadline(),
    {
        let mut deadline: Option<Instant> = table::sooner_of(
            self.solicit_at,
            table::soonest_of(&self.routers),
        );
        deadline = table::sooner_of(deadline, soonest_prefix(&self.prefixes, self.last_at));
        deadline = table::sooner_of(deadline, table::soonest_of(&self.rdnss));
        table::sooner_of(deadline, table::names_soonest_of(&self.dnssl))
    }

    /// The addresses the interface should carry right now.
    pub fn addresses(&self, now: Instant) -> (r: Vec<DesiredAddress>)
        ensures
            r@ == wanted(self@.prefixes, now),
    {
        let mut out: Vec<DesiredAddress> = Vec::new();
        let mut i: usize = 0;
        let ghost all = self@.prefixes;
        assert(all.take(0) =~= Seq::empty());
        while i < self.prefixes.len()
            invariant
                i <= self.prefixes@.len(),
                all == prefixes_view(self.prefixes@),
                out@ == wanted(all.take(i as int), now),
            decreases self.prefixes@.len() - i,
        {
            proof {
                assert(all.take(i + 1).drop_last() =~= all.take(i as int));
                assert(all[i as int] == (self.prefixes@[i as int].0, self.prefixes@[i as int].1@));
            }
            let p: &Prefix = &self.prefixes[i].1;
            if table::is_ahead(p.valid_until, now) {
                place_prefix(&mut out, p, now);
            }
            i = i + 1;
        }
        assert(all.take(i as int) =~= all);
        out
    }

    /// The default router to use, if any: the lowest live link-local, so the
    /// choice is stable while the set is.
    pub fn default_router(&self, now: Instant) -> (r: Option<Ipv6Addr>)
        ensures
            r == table::first_live(self@.routers, now),
    {
        table::first(&self.routers, now)
    }

    /// Whether the routers have said configuration is to be had over DHCPv6
    /// (M or O); the caller runs the information-request client.
    pub fn wants_dhcp6(&self) -> (r: bool)
        ensures
            r == self@.dhcp6_wanted,
    {
        self.dhcp6_wanted
    }

    pub fn dns_servers(&self, now: Instant) -> (r: Vec<Ipv6Addr>)
        ensures
            r@ == table::live_keys(self@.rdnss, now),
    {
        table::keys(&self.rdnss, now)
    }

    pub fn search_domains(&self, now: Instant) -> (r: Vec<String>)
        ensures
            text::list_view(r@) == table::live_texts(self@.dnssl, now),
    {
        table::name_keys(&self.dnssl, now)
    }

    /// The link MTU the routers advertised, if any.
    pub fn mtu(&self) -> (r: Option<u32>)
        ensures
            r == self@.mtu,
    {
        self.mtu
    }

    fn sight(&self, now: Instant) -> (r: Sight)
        ensures
            r@ == self@.sight(now),
    {
        Sight {
            addresses: self.addresses(now),
            router: self.default_router(now),
            dns: self.dns_servers(now),
            search: self.search_domains(now),
            mtu: self.mtu,
            dhcp6: self.dhcp6_wanted,
        }
    }

    /// RFC 7217: a keyed digest of prefix, interface identity and a
    /// duplication counter. Same box, same network, same address, every boot,
    /// and nothing derivable without the secret.
    pub fn stable_address(&self, prefix: &Ipv6Addr) -> (r: Ipv6Addr)
        ensures
            r == stable_of(self@.secret, *prefix, self@.interface),
            home(r) == home(*prefix),
            !reserved(iid_of(r)),
    {
        let mut counter: u8 = 0;
        let network: u64 = (prefix.bits / 0x1_0000_0000_0000_0000) as u64;
        while counter < 8
            invariant
                counter <= 8,
                network == prefix.bits as nat / half(),
                stable_iid(self@.secret, *prefix, self@.interface, 0) == stable_iid(
                    self@.secret,
                    *prefix,
                    self@.interface,
                    counter as nat,
                ),
            decreases 8 - counter,
        {
            let mut input: Vec<u8> = vstd::slice::slice_to_vec(
                "peios-ndp-stable-iid|".as_bytes(),
            );
            bytes::extend(&mut input, self.config.secret.as_slice());
            bytes::push_u64(&mut input, network);
            bytes::extend(&mut input, self.config.interface.as_str().as_bytes());
            input.push(counter);
            assert(input@ =~= stable_input(
                self@.secret,
                *prefix,
                self@.interface,
                counter as nat,
            ));
            let hash: Vec<u8> = digest::sha1(input.as_slice());
            match iid_from_digest(hash.as_slice()) {
                Some(iid) => {
                    return join(*prefix, iid);
                },
                None => {},
            }
            counter = counter + 1;
        }
        // Eight keyed digests all landing in the reserved ranges does not
        // happen; if it somehow does, the all-but-last-bit-clear fallback is
        // valid and still unique enough for a /64 we own.
        join(*prefix, 1)
    }

    fn jitter(&mut self, interval: Duration) -> (d: Duration)
        requires
            interval.nanos <= MAX_SOLICIT_INTERVAL,
        ensures
            final(self)@ == (EngineV { rng: rng::stirred(old(self)@.rng), ..old(self)@ }),
            d.nanos == EngineV::jittered(interval, rng::stirred(old(self)@.rng)),
            d.nanos <= 2 * MAX_SOLICIT_INTERVAL,
    {
        // A tenth either way, so a rack of machines does not solicit in step.
        let millis: u64 = interval.nanos / clock::MILLI;
        self.rng = rng::next(self.rng);
        let draw: u64 = self.rng % (millis / 5 + 1);
        let n: u64 = millis - millis / 10 + draw;
        Duration { nanos: n * clock::MILLI }
    }
}

impl Engine {
    /// Feed one advertisement, already known to have arrived from a link-local
    /// source with hop limit 255 (the socket's checks).
    pub fn receive(&mut self, now: Instant, source: Ipv6Addr, body: &[u8]) -> (actions: Vec<Action>)
        requires
            old(self)@.wf(),
            now.nanos <= clock::HORIZON,
        ensures
            (final(self)@, views(actions@)) == old(self)@.receive(now, source, body@),
            final(self)@.wf(),
    {
        let ra: RouterAdvert = match RouterAdvert::decode(body) {
            Some(ra) => ra,
            None => {
                let none: Vec<Action> = Vec::new();
                assert(views(none@) =~= Seq::<ActionV>::empty());
                return none;
            },
        };
        self.receive_router(now, source, &ra);
        let ghost routed = self@;
        let mut i: usize = 0;
        while i < ra.prefixes.len()
            invariant
                i <= ra.prefixes@.len(),
                now.nanos <= clock::HORIZON,
                self@ == routed.with_prefixes(now, ra.prefixes@.take(i as int)),
                self@.wf(),
            decreases ra.prefixes@.len() - i,
        {
            assert(ra.prefixes@.take(i + 1).drop_last() =~= ra.prefixes@.take(i as int));
            self.receive_prefix(now, &ra.prefixes[i]);
            i = i + 1;
        }
        assert(ra.prefixes@.take(i as int) =~= ra.prefixes@);
        self.receive_servers(now, &ra.rdnss);
        self.receive_domains(now, &ra.dnssl);
        proof {
            assert(ra@.rdnss =~= ra.rdnss@.map_values(|r: Rdnss| r@));
            assert(ra@.dnssl =~= ra.dnssl@.map_values(|d: Dnssl| d@));
        }
        self.expire(now);
        let none: Vec<Action> = Vec::new();
        assert(views(none@) =~= Seq::<ActionV>::empty());
        self.emit_if_changed(now, none)
    }

    fn receive_router(&mut self, now: Instant, source: Ipv6Addr, ra: &RouterAdvert)
        requires
            old(self)@.wf(),
            now.nanos <= clock::HORIZON,
        ensures
            final(self)@ == old(self)@.with_router(now, source, ra@),
            final(self)@.wf(),
    {
        if ra.router_lifetime > 0 {
            let end: Instant = now.plus(Duration::from_secs(ra.router_lifetime as u32));
            proof {
                table::put_ordered(self@.routers, source, Some(end));
            }
            table::set(&mut self.routers, source, Some(end));
            // A router answered; stop soliciting until they are all gone.
            self.solicit_at = None;
        } else {
            proof {
                table::without_ordered(self@.routers, source);
            }
            table::unset(&mut self.routers, source);
        }
        if ra.managed || ra.other_config {
            self.dhcp6_wanted = true;
        }
        if ra.mtu.is_some() {
            self.mtu = ra.mtu;
        }
    }

    fn receive_prefix(&mut self, now: Instant, info: &PrefixInfo)
        requires
            old(self)@.wf(),
            now.nanos <= clock::HORIZON,
        ensures
            final(self)@ == old(self)@.with_prefix(now, *info),
            final(self)@.wf(),
    {
        // Only autonomous /64s form addresses (RFC 4862 section 5.5.3: the
        // interface identifier is 64 bits, anything else is ignored), and a
        // preferred lifetime beyond the valid one is nonsense.
        if !info.autonomous || info.length != 64 || info.preferred > info.valid {
            return;
        }
        let key: Ipv6Addr = home_of(info.prefix);
        let at: usize = table::find(&self.prefixes, key);
        let ghost all = self@.prefixes;
        let ghost raw = self.prefixes@;
        proof {
            same_keys(raw, all, key);
            table::place_bound(all, key);
        }
        if at < self.prefixes.len() && self.prefixes[at].0 == key {
            let p: Prefix = Prefix {
                on_link: info.on_link,
                valid_until: revise(self.prefixes[at].1.valid_until, now, info.valid),
                preferred_until: until(now, info.preferred),
                stable: self.prefixes[at].1.stable,
                temps: vstd::slice::slice_to_vec(self.prefixes[at].1.temps.as_slice()),
            };
            let ghost pv = p@;
            proof {
                assert(all[at as int] == (raw[at as int].0, raw[at as int].1@));
                assert(prefix_ok(all[at as int].0, all[at as int].1));
            }
            self.prefixes.set(at, (key, p));
            proof {
                assert(self@.prefixes =~= all.update(at as int, (key, pv)));
                assert(prefix_ok(key, pv));
            }
        } else if info.valid > 0 {
            let stable: Ipv6Addr = self.stable_address(&key);
            let mut p: Prefix = Prefix {
                on_link: info.on_link,
                valid_until: until(now, info.valid),
                preferred_until: until(now, info.preferred),
                stable,
                temps: Vec::new(),
            };
            assert(prefix_ok(key, p@));
            if self.config.temporary && info.preferred > 0 {
                let (temp, after) = new_temp(self.rng, now, key, &p);
                let ghost before = p@;
                proof {
                    pushed_ok(key, p@, temp);
                }
                self.rng = after;
                p.temps.push(temp);
                assert(p@.temps =~= seq![temp]);
            }
            let ghost pv = p@;
            self.prefixes.insert(at, (key, p));
            proof {
                assert(self@.prefixes =~= all.insert(at as int, (key, pv)));
                let q = self@.prefixes;
                assert(table::ordered(q)) by {
                    table::put_ordered(all, key, pv);
                }
                assert forall|i: int| 0 <= i < q.len() implies prefix_ok(
                    (#[trigger] q[i]).0,
                    q[i].1,
                ) by {
                    if i < at {
                        assert(q[i] == all[i]);
                    } else if i > at {
                        assert(q[i] == all[i - 1]);
                    }
                }
            }
        }
    }

    fn receive_servers(&mut self, now: Instant, r: &Vec<Rdnss>)
        requires
            old(self)@.wf(),
            now.nanos <= clock::HORIZON,
        ensures
            final(self)@ == (EngineV {
                rdnss: servers_taken(old(self)@.rdnss, now, r@.map_values(|x: Rdnss| x@)),
                ..old(self)@
            }),
            final(self)@.wf(),
    {
        let ghost all = r@.map_values(|x: Rdnss| x@);
        let ghost start = self@;
        let mut i: usize = 0;
        while i < r.len()
            invariant
                i <= r@.len(),
                now.nanos <= clock::HORIZON,
                all == r@.map_values(|x: Rdnss| x@),
                self@ == (EngineV {
                    rdnss: servers_taken(start.rdnss, now, all.take(i as int)),
                    ..start
                }),
                self@.wf(),
            decreases r@.len() - i,
        {
            assert(all.take(i + 1).drop_last() =~= all.take(i as int));
            let servers: &Vec<Ipv6Addr> = &r[i].servers;
            let lifetime: u32 = r[i].lifetime;
            let ghost before = self@.rdnss;
            let mut j: usize = 0;
            while j < servers.len()
                invariant
                    j <= servers@.len(),
                    now.nanos <= clock::HORIZON,
                    self@ == (EngineV {
                        rdnss: server_list_taken(
                            before,
                            now,
                            lifetime,
                            servers@.take(j as int),
                        ),
                        ..start
                    }),
                    self@.wf(),
                decreases servers@.len() - j,
            {
                assert(servers@.take(j + 1).drop_last() =~= servers@.take(j as int));
                let server: Ipv6Addr = servers[j];
                if lifetime == 0 {
                    proof {
                        table::without_ordered(self@.rdnss, server);
                    }
                    table::unset(&mut self.rdnss, server);
                } else {
                    let end: Option<Instant> = until(now, lifetime);
                    proof {
                        table::put_ordered(self@.rdnss, server, end);
                    }
                    table::set(&mut self.rdnss, server, end);
                }
                j = j + 1;
            }
            assert(servers@.take(j as int) =~= servers@);
            i = i + 1;
        }
        assert(all.take(i as int) =~= all);
    }

    fn receive_domains(&mut self, now: Instant, d: &Vec<Dnssl>)
        requires
            old(self)@.wf(),
            now.nanos <= clock::HORIZON,
        ensures
            final(self)@ == (EngineV {
                dnssl: domains_taken(old(self)@.dnssl, now, d@.map_values(|x: Dnssl| x@)),
                ..old(self)@
            }),
            final(self)@.wf(),
    {
        let ghost all = d@.map_values(|x: Dnssl| x@);
        let ghost start = self@;
        let mut i: usize = 0;
        while i < d.len()
            invariant
                i <= d@.len(),
                now.nanos <= clock::HORIZON,
                all == d@.map_values(|x: Dnssl| x@),
                self@ == (EngineV {
                    dnssl: domains_taken(start.dnssl, now, all.take(i as int)),
                    ..start
                }),
                self@.wf(),
            decreases d@.len() - i,
        {
            assert(all.take(i + 1).drop_last() =~= all.take(i as int));
            let domains: &Vec<String> = &d[i].domains;
            let lifetime: u32 = d[i].lifetime;
            let ghost names = text::list_view(domains@);
            let ghost before = self@.dnssl;
            let mut j: usize = 0;
            while j < domains.len()
                invariant
                    j <= domains@.len(),
                    now.nanos <= clock::HORIZON,
                    names == text::list_view(domains@),
                    self@ == (EngineV {
                        dnssl: domain_list_taken(before, now, lifetime, names.take(j as int)),
                        ..start
                    }),
                    self@.wf(),
                decreases domains@.len() - j,
            {
                assert(names.take(j + 1).drop_last() =~= names.take(j as int));
                if lifetime == 0 {
                    proof {
                        table::name_without_ordered(self@.dnssl, domains@[j as int]@);
                    }
                    table::name_unset(&mut self.dnssl, &domains[j]);
                } else {
                    let end: Option<Instant> = until(now, lifetime);
                    proof {
                        table::name_put_ordered(self@.dnssl, domains@[j as int]@, end);
                    }
                    table::name_set(&mut self.dnssl, &domains[j], end);
                }
                j = j + 1;
            }
            assert(names.take(j as int) =~= names);
            i = i + 1;
        }
        assert(all.take(i as int) =~= all);
    }
}

proof fn same_keys(raw: Seq<(Ipv6Addr, Prefix)>, all: Prefixes, k: Ipv6Addr)
    requires
        raw.len() == all.len(),
        forall|i: int| 0 <= i < raw.len() ==> (#[trigger] raw[i]).0 == all[i].0,
    ensures
        table::place(raw, k) == table::place(all, k),
    decreases raw.len(),
{
    if raw.len() > 0 {
        let r = raw.drop_first();
        let a = all.drop_first();
        assert(raw[0].0 == all[0].0);
        assert forall|i: int| 0 <= i < r.len() implies (#[trigger] r[i]).0 == a[i].0 by {
            assert(r[i] == raw[i + 1]);
        }
        same_keys(r, a, k);
    }
}

fn revise(valid_until: Option<Instant>, now: Instant, seconds: u32) -> (r: Option<Instant>)
    requires
        now.nanos <= clock::HORIZON,
        valid_until matches Some(t) ==> t.nanos <= LAST,
    ensures
        r == revised(valid_until, now, seconds),
        r matches Some(t) ==> t.nanos <= LAST,
{
    let received: u64 = seconds as u64 * clock::NANOS;
    match valid_until {
        Some(t) => {
            let left: u64 = t.since(now).nanos;
            if received > TWO_HOURS || received > left {
                until(now, seconds)
            } else if left <= TWO_HOURS {
                Some(Instant { nanos: now.nanos + left })
            } else {
                Some(Instant { nanos: now.nanos + TWO_HOURS })
            }
        },
        None => if received > TWO_HOURS {
            until(now, seconds)
        } else {
            None
        },
    }
}

fn place_prefix(out: &mut Vec<DesiredAddress>, p: &Prefix, now: Instant)
    ensures
        final(out)@ == temps_placed(
            placed(old(out)@, stable_wanted(p@, now)),
            p@,
            p@.temps.len(),
            now,
        ),
{
    let deprecated: bool = !table::is_ahead(p.preferred_until, now);
    put_in_place(
        out,
        DesiredAddress { address: p.stable, prefix: 64, deprecated, on_link: p.on_link },
    );
    let ghost base = out@;
    let mut i: usize = 0;
    while i < p.temps.len()
        invariant
            i <= p.temps@.len(),
            deprecated == !table::ahead(p@.preferred_until, now),
            out@ == temps_placed(base, p@, i as nat, now),
        decreases p.temps@.len() - i,
    {
        let t: Temp = p.temps[i];
        if t.valid_until.nanos > now.nanos {
            put_in_place(
                out,
                DesiredAddress {
                    address: t.address,
                    prefix: 64,
                    deprecated: deprecated || t.preferred_until.nanos <= now.nanos,
                    on_link: p.on_link,
                },
            );
        }
        i = i + 1;
    }
}

fn soonest_temp(t: &Vec<Temp>, at: Instant) -> (r: Option<Instant>)
    ensures
        r == temps_soonest(t@, at),
{
    let mut r: Option<Instant> = None;
    let mut i: usize = 0;
    while i < t.len()
        invariant
            i <= t@.len(),
            r == temps_soonest(t@.take(i as int), at),
        decreases t@.len() - i,
    {
        assert(t@.take(i + 1).drop_last() =~= t@.take(i as int));
        r = table::sooner_of(r, table::still_of(Some(t[i].preferred_until), at));
        r = table::sooner_of(r, Some(t[i].valid_until));
        i = i + 1;
    }
    assert(t@.take(i as int) =~= t@);
    r
}

fn soonest_prefix(v: &Vec<(Ipv6Addr, Prefix)>, at: Instant) -> (r: Option<Instant>)
    ensures
        r == prefixes_soonest(prefixes_view(v@), at),
{
    let mut r: Option<Instant> = None;
    let mut i: usize = 0;
    let ghost all = prefixes_view(v@);
    while i < v.len()
        invariant
            i <= v@.len(),
            all == prefixes_view(v@),
            r == prefixes_soonest(all.take(i as int), at),
        decreases v@.len() - i,
    {
        proof {
            assert(all.take(i + 1).drop_last() =~= all.take(i as int));
            assert(all[i as int] == (v@[i as int].0, v@[i as int].1@));
        }
        let p: &Prefix = &v[i].1;
        r = table::sooner_of(r, p.valid_until);
        r = table::sooner_of(r, table::still_of(p.preferred_until, at));
        r = table::sooner_of(r, soonest_temp(&p.temps, at));
        i = i + 1;
    }
    assert(all.take(i as int) =~= all);
    r
}

} // verus!
