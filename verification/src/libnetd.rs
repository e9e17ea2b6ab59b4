//! netd's control wire.
//!
//! netd's control socket is an observability *query* channel: a stream socket
//! at a configured path carrying length-prefixed MessagePack maps, one request
//! and one reply per connection.
//!
//! ```text
//! +---------------------+------------------------+
//! | length u32 LE       | payload (MessagePack)  |
//! +---------------------+------------------------+
//! ```
//!
//! A request is a map with a required `query` string; unknown keys are
//! ignored, duplicates rejected. A reply is a map with `ok` (bool) and either
//! the result fields or `error` (string).
//!
//! This module is deliberately inert: types and a codec, nothing that can act.
//! The codec works on the values of a message; their bytes are MessagePack's
//! business.

pub mod decode;
pub mod encode;
pub mod frame;
pub mod laws;

use vstd::prelude::*;
use vstd::string::*;
use crate::text;

verus! {

/// netd's runtime directory.
pub const NETD_RUN_DIR: &'static str = "/run/netd";

/// The control socket.
pub const CONTROL_SOCKET_PATH: &'static str = "/run/netd/control.sock";

/// Durable state: leases and the DUID.
pub const NETD_STATE_DIR: &'static str = "/var/state/netd";

/// The registry root netd reads its configuration from.
pub const NETWORK_KEY: &'static str = "Machine\\System\\Network";

/// The right to query, on the netd control object.
///
/// Checked against `Machine\System\Network\ControlSecurity` when it exists,
/// else the compiled default: Everyone may query, SYSTEM and Administrators
/// may control.
pub const NETWORK_QUERY: u32 = 0x0000_0001;

/// The right to control.
pub const NETWORK_CONTROL: u32 = 0x0000_0002;

/// Both, and the standard rights.
pub const NETWORK_ALL_ACCESS: u32 = 0x000F_0003;

/// Ceiling on one control message, payload only.
pub const MAX_MESSAGE_BYTES: usize = 65_536;

/// How far along an interface is towards being usable.
///
/// "Online" is not a boolean on Peios: a service says which level it needs.
/// Ordered, so the highest over interfaces is the machine's level.
#[derive(Debug, Clone, Copy, PartialEq, Eq, PartialOrd, Ord, Hash, Structural)]
pub enum Level {
    /// Not configured, or no profile matched it.
    Absent,
    /// Administratively up with carrier.
    Link,
    /// Has at least one usable unicast address.
    Addressed,
    /// Has a default route.
    Routed,
}

impl Default for Level {
    fn default() -> (l: Level)
        ensures
            l == Level::Absent,
    {
        Level::Absent
    }
}

/// The level a word names.
pub open spec fn level_named(s: Seq<char>) -> Option<Level> {
    if s == "absent"@ {
        Some(Level::Absent)
    } else if s == "link"@ {
        Some(Level::Link)
    } else if s == "addressed"@ {
        Some(Level::Addressed)
    } else if s == "routed"@ {
        Some(Level::Routed)
    } else {
        None
    }
}

impl Level {
    /// How far along.
    pub open spec fn rank(self) -> nat {
        match self {
            Level::Absent => 0,
            Level::Link => 1,
            Level::Addressed => 2,
            Level::Routed => 3,
        }
    }

    /// The level's word.
    pub open spec fn name(self) -> Seq<char> {
        match self {
            Level::Absent => "absent"@,
            Level::Link => "link"@,
            Level::Addressed => "addressed"@,
            Level::Routed => "routed"@,
        }
    }

    pub fn as_str(self) -> (s: &'static str)
        ensures
            s@ == self.name(),
    {
        match self {
            Level::Absent => "absent",
            Level::Link => "link",
            Level::Addressed => "addressed",
            Level::Routed => "routed",
        }
    }

    pub fn parse(s: &str) -> (r: Option<Level>)
        ensures
            r == level_named(s@),
    {
        if text::same(s, "absent") {
            Some(Level::Absent)
        } else if text::same(s, "link") {
            Some(Level::Link)
        } else if text::same(s, "addressed") {
            Some(Level::Addressed)
        } else if text::same(s, "routed") {
            Some(Level::Routed)
        } else {
            None
        }
    }

    /// Whether this is as far along as `other`.
    pub fn reaches(self, other: Level) -> (r: bool)
        ensures
            r == (self.rank() >= other.rank()),
    {
        match (self, other) {
            (_, Level::Absent) => true,
            (Level::Absent, _) => false,
            (_, Level::Link) => true,
            (Level::Link, _) => false,
            (_, Level::Addressed) => true,
            (Level::Addressed, _) => false,
            (Level::Routed, Level::Routed) => true,
        }
    }

    /// The further of two.
    pub open spec fn further(self, other: Level) -> Level {
        if other.rank() > self.rank() {
            other
        } else {
            self
        }
    }

    /// The further of two.
    pub fn further_of(self, other: Level) -> (r: Level)
        ensures
            r == self.further(other),
    {
        if self.reaches(other) {
            self
        } else {
            other
        }
    }
}

/// A level's word names it.
pub proof fn levels_parse(l: Level)
    ensures
        level_named(l.name()) == Some(l),
{
    reveal_strlit("absent");
    reveal_strlit("link");
    reveal_strlit("addressed");
    reveal_strlit("routed");
    assert("absent"@.len() == 6 && "absent"@[0] == 'a');
    assert("link"@.len() == 4);
    assert("addressed"@.len() == 9);
    assert("routed"@.len() == 6 && "routed"@[0] == 'r');
}

/// A request to netd.
#[derive(Debug, PartialEq, Eq)]
pub enum Request {
    /// The whole picture: hostname, machine level, every interface.
    Status,
    /// Release and re-acquire the DHCP lease on one interface.
    Renew { interface: String },
    /// Re-run the reconciler now.
    Reconcile,
    /// Stream DNS facts: a `snapshot` reply now, and another every time they
    /// change, on the same connection, until the peer closes it. The one
    /// request that holds a connection open. resolvd is the consumer.
    Subscribe,
}

/// The same as values.
#[verifier::ext_equal]
pub enum RequestV {
    Status,
    Renew { interface: Seq<char> },
    Reconcile,
    Subscribe,
}

impl View for Request {
    type V = RequestV;

    open spec fn view(&self) -> RequestV {
        match self {
            Request::Status => RequestV::Status,
            Request::Renew { interface } => RequestV::Renew { interface: interface@ },
            Request::Reconcile => RequestV::Reconcile,
            Request::Subscribe => RequestV::Subscribe,
        }
    }
}

impl Request {
    /// The right this request needs on the control object.
    pub fn required_right(&self) -> (r: u32)
        ensures
            r == match self@ {
                RequestV::Status => NETWORK_QUERY,
                RequestV::Subscribe => NETWORK_QUERY,
                RequestV::Renew { .. } => NETWORK_CONTROL,
                RequestV::Reconcile => NETWORK_CONTROL,
            },
    {
        match self {
            Request::Status => NETWORK_QUERY,
            Request::Subscribe => NETWORK_QUERY,
            Request::Renew { .. } => NETWORK_CONTROL,
            Request::Reconcile => NETWORK_CONTROL,
        }
    }
}

/// A DHCP lease as reported.
#[derive(Debug, PartialEq, Eq)]
pub struct LeaseStatus {
    pub server: String,
    pub expires_in: u64,
    pub state: String,
}

/// The same as values.
#[verifier::ext_equal]
pub struct LeaseStatusV {
    pub server: Seq<char>,
    pub expires_in: u64,
    pub state: Seq<char>,
}

impl View for LeaseStatus {
    type V = LeaseStatusV;

    open spec fn view(&self) -> LeaseStatusV {
        LeaseStatusV { server: self.server@, expires_in: self.expires_in, state: self.state@ }
    }
}

/// Nothing said of a lease.
pub open spec fn no_lease() -> LeaseStatusV {
    LeaseStatusV { server: Seq::empty(), expires_in: 0, state: Seq::empty() }
}

impl Default for LeaseStatus {
    fn default() -> (l: LeaseStatus)
        ensures
            l@ == no_lease(),
    {
        LeaseStatus { server: String::new(), expires_in: 0, state: String::new() }
    }
}

/// One interface as reported.
#[derive(Debug, PartialEq, Eq)]
pub struct InterfaceStatus {
    pub ifid: String,
    pub name: String,
    pub index: u32,
    pub mac: String,
    pub path: String,
    pub driver: String,
    pub profile: Option<String>,
    pub managed: bool,
    pub enabled: bool,
    pub up: bool,
    pub carrier: bool,
    pub level: Level,
    pub addresses: Vec<String>,
    pub gateway: Option<String>,
    pub dns: Vec<String>,
    pub search: Vec<String>,
    pub lease: Option<LeaseStatus>,
}

/// The same as values.
#[verifier::ext_equal]
pub struct InterfaceStatusV {
    pub ifid: Seq<char>,
    pub name: Seq<char>,
    pub index: u32,
    pub mac: Seq<char>,
    pub path: Seq<char>,
    pub driver: Seq<char>,
    pub profile: Option<Seq<char>>,
    pub managed: bool,
    pub enabled: bool,
    pub up: bool,
    pub carrier: bool,
    pub level: Level,
    pub addresses: Seq<Seq<char>>,
    pub gateway: Option<Seq<char>>,
    pub dns: Seq<Seq<char>>,
    pub search: Seq<Seq<char>>,
    pub lease: Option<LeaseStatusV>,
}

impl View for InterfaceStatus {
    type V = InterfaceStatusV;

    open spec fn view(&self) -> InterfaceStatusV {
        InterfaceStatusV {
            ifid: self.ifid@,
            name: self.name@,
            index: self.index,
            mac: self.mac@,
            path: self.path@,
            driver: self.driver@,
            profile: text::opt_view(self.profile),
            managed: self.managed,
            enabled: self.enabled,
            up: self.up,
            carrier: self.carrier,
            level: self.level,
            addresses: text::list_view(self.addresses@),
            gateway: text::opt_view(self.gateway),
            dns: text::list_view(self.dns@),
            search: text::list_view(self.search@),
            lease: match self.lease {
                Some(l) => Some(l@),
                None => None,
            },
        }
    }
}

/// Nothing said of an interface.
pub open spec fn no_interface() -> InterfaceStatusV {
    InterfaceStatusV {
        ifid: Seq::empty(),
        name: Seq::empty(),
        index: 0,
        mac: Seq::empty(),
        path: Seq::empty(),
        driver: Seq::empty(),
        profile: None,
        managed: false,
        enabled: false,
        up: false,
        carrier: false,
        level: Level::Absent,
        addresses: Seq::empty(),
        gateway: None,
        dns: Seq::empty(),
        search: Seq::empty(),
        lease: None,
    }
}

impl Default for InterfaceStatus {
    fn default() -> (i: InterfaceStatus)
        ensures
            i@ == no_interface(),
    {
        let i: InterfaceStatus = InterfaceStatus {
            ifid: String::new(),
            name: String::new(),
            index: 0,
            mac: String::new(),
            path: String::new(),
            driver: String::new(),
            profile: None,
            managed: false,
            enabled: false,
            up: false,
            carrier: false,
            level: Level::Absent,
            addresses: Vec::new(),
            gateway: None,
            dns: Vec::new(),
            search: Vec::new(),
            lease: None,
        };
        assert(i@ =~= no_interface());
        i
    }
}

/// The `status` reply body.
#[derive(Debug, PartialEq, Eq)]
pub struct Status {
    pub hostname: String,
    pub level: Level,
    pub interfaces: Vec<InterfaceStatus>,
}

/// The same as values.
#[verifier::ext_equal]
pub struct StatusV {
    pub hostname: Seq<char>,
    pub level: Level,
    pub interfaces: Seq<InterfaceStatusV>,
}

/// Interfaces as values.
pub open spec fn interfaces_view(s: Seq<InterfaceStatus>) -> Seq<InterfaceStatusV> {
    s.map_values(|i: InterfaceStatus| i@)
}

impl View for Status {
    type V = StatusV;

    open spec fn view(&self) -> StatusV {
        StatusV {
            hostname: self.hostname@,
            level: self.level,
            interfaces: interfaces_view(self.interfaces@),
        }
    }
}

/// A machine without interfaces or a name.
pub open spec fn no_status() -> StatusV {
    StatusV { hostname: Seq::empty(), level: Level::Absent, interfaces: Seq::empty() }
}

impl Default for Status {
    fn default() -> (s: Status)
        ensures
            s@ == no_status(),
    {
        let s: Status = Status {
            hostname: String::new(),
            level: Level::Absent,
            interfaces: Vec::new(),
        };
        assert(s@ =~= no_status());
        s
    }
}

/// What one interface contributes to name resolution. The unit of the
/// netd -> resolvd channel; everything resolvd needs to route a query is here
/// so it never reads `Profiles\`.
#[derive(Debug, PartialEq, Eq)]
pub struct DnsScope {
    pub ifid: String,
    pub name: String,
    /// Servers in the order to try them: the profile's statics, then the
    /// lease's when `UseFromDHCP`.
    pub servers: Vec<String>,
    /// Search domains, likewise: the profile's, then the lease's domain search
    /// list or domain name.
    pub domains: Vec<String>,
    /// Time servers this interface's lease offered (DHCP option 42).
    ///
    /// Reported unconditionally, because a snapshot describes what the network
    /// *said*. Whether to believe it is timed's decision.
    pub ntp: Vec<String>,
    /// Every unicast address on the interface, CIDR form.
    pub addresses: Vec<String>,
    /// This interface's servers take names no domain matches. True when the
    /// profile says `DNSDefaultRoute`, else when the interface carries a
    /// default route.
    pub default_route: bool,
    /// While this interface is up, no other interface's servers are used for
    /// anything (`DNSExclusive`).
    pub exclusive: bool,
    pub metric: u32,
    pub level: Level,
}

/// The same as values.
#[verifier::ext_equal]
pub struct DnsScopeV {
    pub ifid: Seq<char>,
    pub name: Seq<char>,
    pub servers: Seq<Seq<char>>,
    pub domains: Seq<Seq<char>>,
    pub ntp: Seq<Seq<char>>,
    pub addresses: Seq<Seq<char>>,
    pub default_route: bool,
    pub exclusive: bool,
    pub metric: u32,
    pub level: Level,
}

impl View for DnsScope {
    type V = DnsScopeV;

    open spec fn view(&self) -> DnsScopeV {
        DnsScopeV {
            ifid: self.ifid@,
            name: self.name@,
            servers: text::list_view(self.servers@),
            domains: text::list_view(self.domains@),
            ntp: text::list_view(self.ntp@),
            addresses: text::list_view(self.addresses@),
            default_route: self.default_route,
            exclusive: self.exclusive,
            metric: self.metric,
            level: self.level,
        }
    }
}

/// Nothing contributed.
pub open spec fn no_scope() -> DnsScopeV {
    DnsScopeV {
        ifid: Seq::empty(),
        name: Seq::empty(),
        servers: Seq::empty(),
        domains: Seq::empty(),
        ntp: Seq::empty(),
        addresses: Seq::empty(),
        default_route: false,
        exclusive: false,
        metric: 0,
        level: Level::Absent,
    }
}

impl Default for DnsScope {
    fn default() -> (s: DnsScope)
        ensures
            s@ == no_scope(),
    {
        let s: DnsScope = DnsScope {
            ifid: String::new(),
            name: String::new(),
            servers: Vec::new(),
            domains: Vec::new(),
            ntp: Vec::new(),
            addresses: Vec::new(),
            default_route: false,
            exclusive: false,
            metric: 0,
            level: Level::Absent,
        };
        assert(s@ =~= no_scope());
        s
    }
}

impl Clone for DnsScope {
    fn clone(&self) -> (r: DnsScope)
        ensures
            r@ == self@,
    {
        DnsScope {
            ifid: self.ifid.clone(),
            name: self.name.clone(),
            servers: text::copy_list(&self.servers),
            domains: text::copy_list(&self.domains),
            ntp: text::copy_list(&self.ntp),
            addresses: text::copy_list(&self.addresses),
            default_route: self.default_route,
            exclusive: self.exclusive,
            metric: self.metric,
            level: self.level,
        }
    }
}

/// The `subscribe` reply body: the whole DNS picture. Sent whole every time
/// rather than as deltas — it is a few hundred bytes, and a whole picture
/// cannot be misapplied out of order.
#[derive(Debug, PartialEq, Eq)]
pub struct Snapshot {
    pub hostname: String,
    /// Managed interfaces at `Link` or better, in metric order.
    pub scopes: Vec<DnsScope>,
}

/// The same as values.
#[verifier::ext_equal]
pub struct SnapshotV {
    pub hostname: Seq<char>,
    pub scopes: Seq<DnsScopeV>,
}

/// Scopes as values.
pub open spec fn scopes_view(s: Seq<DnsScope>) -> Seq<DnsScopeV> {
    s.map_values(|i: DnsScope| i@)
}

impl View for Snapshot {
    type V = SnapshotV;

    open spec fn view(&self) -> SnapshotV {
        SnapshotV { hostname: self.hostname@, scopes: scopes_view(self.scopes@) }
    }
}

/// A machine that contributes nothing.
pub open spec fn no_snapshot() -> SnapshotV {
    SnapshotV { hostname: Seq::empty(), scopes: Seq::empty() }
}

impl Default for Snapshot {
    fn default() -> (s: Snapshot)
        ensures
            s@ == no_snapshot(),
    {
        let s: Snapshot = Snapshot { hostname: String::new(), scopes: Vec::new() };
        assert(s@ =~= no_snapshot());
        s
    }
}

impl Clone for Snapshot {
    fn clone(&self) -> (r: Snapshot)
        ensures
            r@ == self@,
    {
        let mut scopes: Vec<DnsScope> = Vec::new();
        let mut i: usize = 0;
        while i < self.scopes.len()
            invariant
                i <= self.scopes@.len(),
                scopes@.len() == i,
                forall|k: int| 0 <= k < i ==> (#[trigger] scopes@[k])@ == self.scopes@[k]@,
            decreases self.scopes@.len() - i,
        {
            scopes.push(self.scopes[i].clone());
            i = i + 1;
        }
        let r: Snapshot = Snapshot { hostname: self.hostname.clone(), scopes };
        assert(r@ =~= self@);
        r
    }
}

/// A reply from netd.
#[derive(Debug, PartialEq, Eq)]
pub enum Reply {
    Done,
    Status(Status),
    Snapshot(Snapshot),
    Error(String),
}

/// The same as values.
#[verifier::ext_equal]
pub enum ReplyV {
    Done,
    Status(StatusV),
    Snapshot(SnapshotV),
    Error(Seq<char>),
}

impl View for Reply {
    type V = ReplyV;

    open spec fn view(&self) -> ReplyV {
        match self {
            Reply::Done => ReplyV::Done,
            Reply::Status(s) => ReplyV::Status(s@),
            Reply::Snapshot(s) => ReplyV::Snapshot(s@),
            Reply::Error(e) => ReplyV::Error(e@),
        }
    }
}

/// What the reader of a message is asked for: a value of some sort, or any, to be
/// passed over.
#[derive(Debug, Clone, Copy, PartialEq, Eq, Structural)]
pub enum Sort {
    Str,
    Bool,
    Uint,
    Fields,
    List,
    Any,
}

/// Where the reader found fault: with so many values left it was asked for one of
/// this sort. And what it says of that, once it has been asked.
#[derive(Debug, PartialEq, Eq)]
pub struct Fault {
    pub left: usize,
    pub wanted: Sort,
    pub words: String,
}

/// The same as values.
#[verifier::ext_equal]
pub struct FaultV {
    pub left: nat,
    pub wanted: Sort,
    pub words: Seq<char>,
}

impl View for Fault {
    type V = FaultV;

    open spec fn view(&self) -> FaultV {
        FaultV { left: self.left as nat, wanted: self.wanted, words: self.words@ }
    }
}

/// What is wrong with a message.
#[derive(Debug, PartialEq, Eq)]
pub enum WireError {
    /// It is not what MessagePack or the protocol says it should be.
    Encoding(Fault),
    Missing(&'static str),
    Duplicate(String),
    UnknownQuery(String),
    TooLarge(usize),
}

/// The same as values.
#[verifier::ext_equal]
pub enum WireErrorV {
    Encoding(FaultV),
    Missing(Seq<char>),
    Duplicate(Seq<char>),
    UnknownQuery(Seq<char>),
    TooLarge(nat),
}

impl View for WireError {
    type V = WireErrorV;

    open spec fn view(&self) -> WireErrorV {
        match self {
            WireError::Encoding(f) => WireErrorV::Encoding(f@),
            WireError::Missing(k) => WireErrorV::Missing(k@),
            WireError::Duplicate(k) => WireErrorV::Duplicate(k@),
            WireError::UnknownQuery(q) => WireErrorV::UnknownQuery(q@),
            WireError::TooLarge(n) => WireErrorV::TooLarge(*n as nat),
        }
    }
}

/// An error with what the reader says of it, where it is the reader that found
/// fault.
pub open spec fn worded(e: WireErrorV, words: Seq<char>) -> WireErrorV {
    match e {
        WireErrorV::Encoding(f) => WireErrorV::Encoding(FaultV { words, ..f }),
        _ => e,
    }
}

/// An error in words.
pub open spec fn error_text(e: WireErrorV) -> Seq<char> {
    match e {
        WireErrorV::Encoding(f) => "malformed message: "@ + f.words,
        WireErrorV::Missing(k) => "missing field "@ + k,
        WireErrorV::Duplicate(k) => "duplicate field "@ + k,
        WireErrorV::UnknownQuery(q) => "unknown query "@ + text::debug_quoted(q),
        WireErrorV::TooLarge(n) => "message of "@ + text::decimal(n)
            + " bytes exceeds the ceiling"@,
    }
}

impl WireError {
    /// The error with what the reader says of it.
    pub fn worded(self, words: String) -> (e: WireError)
        ensures
            e@ == worded(self@, words@),
    {
        match self {
            WireError::Encoding(f) => WireError::Encoding(
                Fault { left: f.left, wanted: f.wanted, words },
            ),
            other => other,
        }
    }

    /// The error in words.
    pub fn to_text(&self) -> (s: String)
        ensures
            s@ == error_text(self@),
    {
        match self {
            WireError::Encoding(f) => text::cat2("malformed message: ", f.words.as_str()),
            WireError::Missing(k) => text::cat2("missing field ", k),
            WireError::Duplicate(k) => text::cat2("duplicate field ", k.as_str()),
            WireError::UnknownQuery(q) => {
                let quoted: String = text::quoted(q.as_str());
                text::cat2("unknown query ", quoted.as_str())
            },
            WireError::TooLarge(n) => {
                let number: String = text::decimal_of(*n as u64);
                text::cat3("message of ", number.as_str(), " bytes exceeds the ceiling")
            },
        }
    }
}

} // verus!
