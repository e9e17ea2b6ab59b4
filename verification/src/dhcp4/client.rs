//! The RFC 2131 client state machine, clock-injected and socket-free.
//!
//! The caller feeds it time (`Client::tick`) and packets (`Client::receive`)
//! and performs the actions it returns. Timers are absolute instants the
//! caller polls with `Client::next_deadline`.
//!
//! ```text
//! Init --discover--> Selecting --offer--> Requesting --ack--> Bound
//!   ^                    | no offer           | nak             | T1
//!   |                    v                    v                 v
//!   |              (link-local, keep        Init            Renewing --ack--> Bound
//!   |               discovering)                                | T2
//!   |                                                           v
//!   +------------------- expiry <--------------------------- Rebinding --ack--> Bound
//!
//! InitReboot --request(known addr)--> Rebooting --ack--> Bound / --nak--> Init
//! ```

use vstd::prelude::*;
use vstd::string::*;
use vstd::utf8::*;
use crate::addr::Ipv4Addr;
use crate::bytes;
use crate::clock;
use crate::clock::{Duration, Instant};
use crate::text;
use super::packet;
use super::packet::option;
use super::packet::lease;
use super::packet::{Lease, Message, MessageType, MessageV};
use super::packet::lease::LeaseV;

verus! {

/// Where to send a message.
#[derive(Debug, Clone, Copy, PartialEq, Eq, Structural)]
pub enum Destination {
    /// Layer-2 broadcast, from 0.0.0.0. The client has no address yet (or is
    /// rebinding and may not trust the old server).
    Broadcast,
    /// Unicast to the server from our bound address. Only in Renewing.
    Unicast { server: Ipv4Addr, from: Ipv4Addr },
}

/// What the caller must do.
#[derive(Debug, PartialEq, Eq)]
pub enum Action {
    Send { message: Message, destination: Destination },
    /// A lease was obtained or renewed; configure the interface.
    Bound(Lease),
    /// Discovery has gone unanswered for a while. Emitted once per Init
    /// cycle; the client keeps discovering.
    NoOffer,
    /// The lease is gone (expired, or refused). Unconfigure the interface.
    Lost,
}

/// An action as values.
#[verifier::ext_equal]
pub enum ActionV {
    Send { message: MessageV, destination: Destination },
    Bound(LeaseV),
    NoOffer,
    Lost,
}

impl View for Action {
    type V = ActionV;

    open spec fn view(&self) -> ActionV {
        match self {
            Action::Send { message, destination } => ActionV::Send {
                message: message@,
                destination: *destination,
            },
            Action::Bound(l) => ActionV::Bound(l@),
            Action::NoOffer => ActionV::NoOffer,
            Action::Lost => ActionV::Lost,
        }
    }
}

/// Each action as values.
pub open spec fn views(a: Seq<Action>) -> Seq<ActionV> {
    a.map_values(|x: Action| x@)
}

#[derive(Debug, PartialEq, Eq)]
pub struct Config {
    pub chaddr: [u8; 6],
    /// Option 61. RFC 4361 form: `0xff` + IAID + DUID.
    pub client_id: Vec<u8>,
    /// Option 12, if the profile wants to announce one.
    pub hostname: Option<String>,
    /// Seed for the retransmission jitter and the XID.
    pub seed: u64,
}

#[derive(Debug, Clone, Copy, PartialEq, Eq, Structural)]
pub enum State {
    Init,
    Selecting,
    Requesting,
    Rebooting,
    Bound,
    Renewing,
    Rebinding,
}

impl State {
    /// The state's name.
    pub open spec fn name(&self) -> Seq<char> {
        match self {
            State::Init => "init"@,
            State::Selecting => "selecting"@,
            State::Requesting => "requesting"@,
            State::Rebooting => "rebooting"@,
            State::Bound => "bound"@,
            State::Renewing => "renewing"@,
            State::Rebinding => "rebinding"@,
        }
    }

    pub fn as_str(&self) -> (s: &'static str)
        ensures
            s@ == self.name(),
    {
        match self {
            State::Init => "init",
            State::Selecting => "selecting",
            State::Requesting => "requesting",
            State::Rebooting => "rebooting",
            State::Bound => "bound",
            State::Renewing => "renewing",
            State::Rebinding => "rebinding",
        }
    }

    /// The states in which there is a lease.
    pub open spec fn leased(self) -> bool {
        self is Bound || self is Renewing || self is Rebinding
    }
}

/// Discovers before `NoOffer` is reported.
pub const DISCOVERS_BEFORE_NO_OFFER: u32 = 3;

/// Requests before giving up on an offer.
pub const MAX_REQUESTS: u32 = 4;

/// Backoff ceiling in nanoseconds, RFC 2131 section 4.1.
pub const MAX_BACKOFF: u64 = 64_000_000_000;

/// The first backoff in nanoseconds.
pub const FIRST_BACKOFF: u64 = 4_000_000_000;

/// Minimum retransmit interval while renewing/rebinding in nanoseconds,
/// section 4.4.5.
pub const MIN_RETRANSMIT: u64 = 60_000_000_000;

/// The client's state as values.
#[verifier::ext_equal]
pub struct ClientV {
    pub chaddr: Seq<u8>,
    pub client_id: Seq<u8>,
    pub hostname: Option<Seq<char>>,
    pub state: State,
    pub rng: u64,
    pub xid: u32,
    pub started: Instant,
    pub retransmit_at: Option<Instant>,
    pub backoff: Duration,
    pub attempts: u32,
    pub no_offer_reported: bool,
    pub offer: Option<MessageV>,
    pub lease: Option<LeaseV>,
    pub bound_at: Option<Instant>,
    pub reboot_address: Option<Ipv4Addr>,
}

/// A new state and the actions that go with it.
pub type Step = (ClientV, Seq<ActionV>);

/// The generator's next state (xorshift).
pub open spec fn stirred(x: u64) -> u64 {
    let a = x ^ (x >> 12);
    let b = a ^ (a << 25);
    b ^ (b >> 27)
}

/// The number drawn from a state of the generator.
pub open spec fn drawn(x: u64) -> u32 {
    (x.wrapping_mul(0x2545_F491_4F6C_DD1D) >> 32) as u32
}

/// `s` seconds after `t`.
pub open spec fn after(t: Instant, s: u32) -> int {
    t.nanos + s * 1_000_000_000
}

impl ClientV {
    /// What holds of a client between calls. A lease exists exactly in the
    /// states that hold one; whenever the client waits for an answer a
    /// retransmission is scheduled; an offer being requested names its
    /// server; unanswered discovery is reported once enough was tried.
    pub open spec fn wf(&self) -> bool {
        &&& self.chaddr.len() == 6
        &&& self.lease is Some <==> self.state.leased()
        &&& self.bound_at is Some <==> self.lease is Some
        &&& (self.bound_at matches Some(t) ==> t.nanos <= clock::HORIZON)
        &&& (self.lease matches Some(l) ==> lease::sound(l))
        &&& FIRST_BACKOFF <= self.backoff.nanos <= MAX_BACKOFF
        &&& self.retransmit_at is None <==> (self.state is Init || self.state is Bound)
        &&& self.state is Requesting ==> self.offer is Some && packet::option_ipv4(
            self.offer->0.options,
            option::SERVER_ID,
        ) is Some
        &&& self.state is Rebooting ==> self.reboot_address is Some
        &&& self.state is Selecting ==> (self.no_offer_reported <==> self.attempts
            >= DISCOVERS_BEFORE_NO_OFFER)
    }

    /// Seconds since the start, as the message says them.
    pub open spec fn elapsed(&self, now: Instant) -> u16 {
        let secs = (if now.nanos >= self.started.nanos {
            now.nanos - self.started.nanos
        } else {
            0
        }) / 1_000_000_000;
        (if secs < 65535 {
            secs
        } else {
            65535
        }) as u16
    }

    /// The start of any message.
    pub open spec fn base(&self, now: Instant) -> MessageV {
        MessageV { secs: self.elapsed(now), ..packet::blank(self.xid, self.chaddr) }
    }

    /// The options that every request carries.
    pub open spec fn common(&self, kind: MessageType) -> packet::OptionsV {
        let head = seq![
            (option::MESSAGE_TYPE, seq![kind.spec_code()]),
            (option::CLIENT_ID, self.client_id),
            (option::MAX_MESSAGE_SIZE, bytes::be_bytes(1500, 2)),
            (option::PARAMETER_REQUEST_LIST, wanted()),
        ];
        match self.hostname {
            Some(h) => head.push((option::HOSTNAME, encode_utf8(h))),
            None => head,
        }
    }

    /// The state once a retransmission has been scheduled: the current
    /// backoff with up to a second of jitter either way, then doubled up to
    /// its ceiling.
    pub open spec fn scheduled(&self, now: Instant) -> ClientV {
        let rng = stirred(self.rng);
        let jitter = (drawn(rng) as int % 2000) * 1_000_000;
        ClientV {
            rng,
            retransmit_at: Some(
                Instant { nanos: (now.nanos + self.backoff.nanos + jitter - 1_000_000_000) as u64 },
            ),
            backoff: (Duration {
                nanos: if self.backoff.nanos * 2 < MAX_BACKOFF {
                    (self.backoff.nanos * 2) as u64
                } else {
                    MAX_BACKOFF
                },
            }),
            ..*self
        }
    }

    /// A broadcast request with these options, and its retransmission.
    pub open spec fn broadcast(&self, now: Instant, options: packet::OptionsV) -> Step {
        (
            self.scheduled(now),
            seq![
                ActionV::Send {
                    message: MessageV { broadcast: true, options, ..self.base(now) },
                    destination: Destination::Broadcast,
                },
            ],
        )
    }

    pub open spec fn send_discover(&self, now: Instant) -> Step {
        let common = self.common(MessageType::Discover);
        self.broadcast(
            now,
            match self.reboot_address {
                Some(a) => common.push((option::REQUESTED_IP, a.octs())),
                None => common,
            },
        )
    }

    /// A fresh transaction number and no attempts, in this state.
    pub open spec fn fresh(&self, state: State) -> ClientV {
        let rng = stirred(self.rng);
        ClientV { state, rng, xid: drawn(rng), attempts: 0, ..*self }
    }

    /// Begin to discover, as every way back to Init does.
    pub open spec fn enter_selecting(&self, now: Instant) -> Step {
        ClientV {
            backoff: (Duration { nanos: FIRST_BACKOFF }),
            offer: None,
            no_offer_reported: false,
            ..self.fresh(State::Selecting)
        }.send_discover(now)
    }

    pub open spec fn send_request_for_offer(&self, now: Instant) -> Step {
        match self.offer {
            Some(offer) => {
                let asked = self.common(MessageType::Request).push(
                    (option::REQUESTED_IP, offer.yiaddr.octs()),
                );
                self.broadcast(
                    now,
                    match packet::lookup(offer.options, option::SERVER_ID) {
                        Some(server) => asked.push((option::SERVER_ID, server)),
                        None => asked,
                    },
                )
            },
            None => self.enter_selecting(now),
        }
    }

    pub open spec fn enter_requesting(&self, now: Instant) -> Step {
        ClientV {
            state: State::Requesting,
            attempts: 0,
            backoff: (Duration { nanos: FIRST_BACKOFF }),
            ..*self
        }.send_request_for_offer(now)
    }

    pub open spec fn send_reboot_request(&self, now: Instant) -> Step {
        match self.reboot_address {
            Some(a) => self.broadcast(
                now,
                self.common(MessageType::Request).push((option::REQUESTED_IP, a.octs())),
            ),
            None => self.enter_selecting(now),
        }
    }

    pub open spec fn enter_rebooting(&self, now: Instant) -> Step {
        ClientV {
            backoff: (Duration { nanos: FIRST_BACKOFF }),
            ..self.fresh(State::Rebooting)
        }.send_reboot_request(now)
    }

    /// Ask to keep the lease: by unicast while renewing, by broadcast while
    /// rebinding; again after half the time to the next boundary, and no
    /// sooner than a minute.
    pub open spec fn send_renewal(&self, now: Instant) -> Step {
        match (self.lease, self.bound_at) {
            (Some(l), Some(bound_at)) => {
                let boundary = after(
                    bound_at,
                    if self.state is Renewing {
                        l.t2
                    } else {
                        l.lease_time
                    },
                );
                let half = (if boundary >= now.nanos {
                    boundary - now.nanos
                } else {
                    0
                }) / 2;
                (
                    ClientV {
                        retransmit_at: Some(
                            Instant {
                                nanos: (now.nanos + if half > MIN_RETRANSMIT {
                                    half
                                } else {
                                    MIN_RETRANSMIT as int
                                }) as u64,
                            },
                        ),
                        ..*self
                    },
                    seq![
                        ActionV::Send {
                            message: MessageV {
                                ciaddr: l.address,
                                options: self.common(MessageType::Request),
                                ..self.base(now)
                            },
                            destination: if self.state is Renewing {
                                Destination::Unicast { server: l.server, from: l.address }
                            } else {
                                Destination::Broadcast
                            },
                        },
                    ],
                )
            },
            _ => (*self, Seq::empty()),
        }
    }

    pub open spec fn enter_renewing(&self, now: Instant) -> Step {
        self.fresh(State::Renewing).send_renewal(now)
    }

    pub open spec fn enter_rebinding(&self, now: Instant) -> Step {
        self.fresh(State::Rebinding).send_renewal(now)
    }

    /// Begin afresh; with a remembered address, ask for that one first.
    pub open spec fn start(&self, now: Instant, previous: Option<Ipv4Addr>) -> Step {
        let c = ClientV {
            started: now,
            lease: None,
            bound_at: None,
            offer: None,
            no_offer_reported: false,
            ..*self
        };
        match previous {
            Some(a) => ClientV { reboot_address: Some(a), ..c }.enter_rebooting(now),
            None => c.enter_selecting(now),
        }
    }

    pub open spec fn release(&self, now: Instant) -> Step {
        (
            ClientV {
                state: State::Init,
                lease: None,
                bound_at: None,
                retransmit_at: None,
                ..*self
            },
            match self.lease {
                Some(l) => if self.state.leased() {
                    seq![
                        ActionV::Send {
                            message: MessageV {
                                ciaddr: l.address,
                                options: seq![
                                    (
                                        option::MESSAGE_TYPE,
                                        seq![MessageType::Release.spec_code()],
                                    ),
                                    (option::SERVER_ID, l.server.octs()),
                                    (option::CLIENT_ID, self.client_id),
                                ],
                                ..self.base(now)
                            },
                            destination: Destination::Unicast { server: l.server, from: l.address },
                        },
                    ]
                } else {
                    Seq::empty()
                },
                None => Seq::empty(),
            },
        )
    }

    pub open spec fn renew_now(&self, now: Instant) -> Step {
        if self.state.leased() {
            self.enter_renewing(now)
        } else {
            (*self, Seq::empty())
        }
    }

    /// One more attempt. The count stops at its ceiling.
    pub open spec fn tried(&self) -> ClientV {
        ClientV {
            attempts: if self.attempts < u32::MAX {
                (self.attempts + 1) as u32
            } else {
                u32::MAX
            },
            ..*self
        }
    }

    pub open spec fn retransmit(&self, now: Instant) -> Step {
        let c = self.tried();
        match self.state {
            State::Selecting => if c.attempts >= DISCOVERS_BEFORE_NO_OFFER && !c.no_offer_reported {
                let next = ClientV { no_offer_reported: true, ..c }.send_discover(now);
                (next.0, seq![ActionV::NoOffer] + next.1)
            } else {
                c.send_discover(now)
            },
            State::Requesting => if c.attempts >= MAX_REQUESTS {
                c.enter_selecting(now)
            } else {
                c.send_request_for_offer(now)
            },
            State::Rebooting => if c.attempts >= 2 {
                ClientV { reboot_address: None, ..c }.enter_selecting(now)
            } else {
                c.send_reboot_request(now)
            },
            State::Renewing => self.send_renewal(now),
            State::Rebinding => self.send_renewal(now),
            State::Init => (*self, Seq::empty()),
            State::Bound => (*self, Seq::empty()),
        }
    }

    /// A retransmission, where one is due.
    pub open spec fn retransmit_if_due(&self, now: Instant) -> Step {
        match self.retransmit_at {
            Some(at) => if now.nanos >= at.nanos {
                self.retransmit(now)
            } else {
                (*self, Seq::empty())
            },
            None => (*self, Seq::empty()),
        }
    }

    /// When the lease moves the client on: T1 from Bound, T2 from Renewing,
    /// the expiry from Rebinding.
    pub open spec fn boundary(&self) -> Option<Instant> {
        match (self.lease, self.bound_at) {
            (Some(l), Some(t)) => match self.state {
                State::Bound => Some(Instant { nanos: after(t, l.t1) as u64 }),
                State::Renewing => Some(Instant { nanos: after(t, l.t2) as u64 }),
                State::Rebinding => Some(Instant { nanos: after(t, l.lease_time) as u64 }),
                _ => None,
            },
            _ => None,
        }
    }

    /// Whole seconds until the lease expires.
    pub open spec fn expires_in(&self, now: Instant) -> Option<u64> {
        match (self.lease, self.bound_at) {
            (Some(l), Some(t)) => Some(
                ((if after(t, l.lease_time) >= now.nanos {
                    after(t, l.lease_time) - now.nanos
                } else {
                    0
                }) / 1_000_000_000) as u64,
            ),
            _ => None,
        }
    }

    pub open spec fn next_deadline(&self) -> Option<Instant> {
        match (self.retransmit_at, self.boundary()) {
            (Some(a), Some(b)) => Some(
                if a.nanos <= b.nanos {
                    a
                } else {
                    b
                },
            ),
            (Some(a), None) => Some(a),
            (None, b) => b,
        }
    }

    /// The clock moved: lease boundaries first, they change state, then a
    /// retransmission that is due.
    pub open spec fn tick(&self, now: Instant) -> Step {
        if self.boundary() matches Some(at) && now.nanos >= at.nanos {
            match self.state {
                State::Bound => {
                    let first = self.enter_renewing(now);
                    let second = first.0.retransmit_if_due(now);
                    (second.0, first.1 + second.1)
                },
                State::Renewing => {
                    let first = self.enter_rebinding(now);
                    let second = first.0.retransmit_if_due(now);
                    (second.0, first.1 + second.1)
                },
                _ => {
                    let next = ClientV { lease: None, bound_at: None, ..*self }.enter_selecting(
                        now,
                    );
                    (next.0, seq![ActionV::Lost] + next.1)
                },
            }
        } else {
            self.retransmit_if_due(now)
        }
    }

    /// The server the client has committed to: its lease's, else its offer's.
    pub open spec fn chosen(&self) -> Option<Ipv4Addr> {
        match self.lease {
            Some(l) => Some(l.server),
            None => match self.offer {
                Some(o) => packet::option_ipv4(o.options, option::SERVER_ID),
                None => None,
            },
        }
    }

    /// Whether a message is a reply to this client's current transaction.
    pub open spec fn addressed(&self, m: MessageV) -> bool {
        m.is_reply && m.xid == self.xid && m.chaddr == self.chaddr
    }

    /// Whether an ACK or NAK comes from a server that may send one.
    pub open spec fn authorised(&self, m: MessageV) -> bool {
        self.chosen() matches Some(s) ==> packet::option_ipv4(m.options, option::SERVER_ID) == Some(
            s,
        )
    }

    pub open spec fn receive(&self, now: Instant, m: MessageV) -> Step {
        if !self.addressed(m) {
            (*self, Seq::empty())
        } else {
            match packet::option_kind(m.options) {
                Some(MessageType::Offer) => if self.state is Selecting && m.yiaddr.bits != 0
                    && packet::option_ipv4(m.options, option::SERVER_ID) is Some {
                    ClientV { offer: Some(m), ..*self }.enter_requesting(now)
                } else {
                    (*self, Seq::empty())
                },
                Some(MessageType::Ack) => match lease::lease_in(m) {
                    Some(l) => if self.authorised(m) && (self.state is Requesting
                        || self.state is Rebooting || self.state is Renewing
                        || self.state is Rebinding) {
                        (
                            ClientV {
                                state: State::Bound,
                                retransmit_at: None,
                                bound_at: Some(now),
                                lease: Some(l),
                                reboot_address: Some(l.address),
                                ..*self
                            },
                            seq![ActionV::Bound(l)],
                        )
                    } else {
                        (*self, Seq::empty())
                    },
                    None => (*self, Seq::empty()),
                },
                Some(MessageType::Nak) => if !self.authorised(m) {
                    (*self, Seq::empty())
                } else if self.state is Requesting || self.state is Rebooting {
                    ClientV { reboot_address: None, offer: None, ..*self }.enter_selecting(now)
                } else if self.state is Renewing || self.state is Rebinding {
                    let next = ClientV {
                        lease: None,
                        bound_at: None,
                        reboot_address: None,
                        ..*self
                    }.enter_selecting(now);
                    (next.0, seq![ActionV::Lost] + next.1)
                } else {
                    (*self, Seq::empty())
                },
                _ => (*self, Seq::empty()),
            }
        }
    }
}

/// The options that a request asks for.
pub open spec fn wanted() -> Seq<u8> {
    seq![
        option::SUBNET_MASK,
        option::ROUTER,
        option::DNS,
        option::HOSTNAME,
        option::DOMAIN_NAME,
        option::MTU,
        option::BROADCAST,
        option::NTP,
        option::LEASE_TIME,
        option::RENEWAL_T1,
        option::REBINDING_T2,
        option::DOMAIN_SEARCH,
        option::CLASSLESS_STATIC_ROUTE,
    ]
}

pub struct Client {
    config: Config,
    state: State,
    rng: u64,
    xid: u32,
    started: Instant,
    /// Next retransmission (Selecting/Requesting/Rebooting/Renewing/Rebinding).
    retransmit_at: Option<Instant>,
    backoff: Duration,
    attempts: u32,
    no_offer_reported: bool,
    offer: Option<Message>,
    lease: Option<Lease>,
    /// When the current lease was obtained.
    bound_at: Option<Instant>,
    /// A previously held address to try INIT-REBOOT with.
    reboot_address: Option<Ipv4Addr>,
}

impl View for Client {
    type V = ClientV;

    closed spec fn view(&self) -> ClientV {
        ClientV {
            chaddr: self.config.chaddr@,
            client_id: self.config.client_id@,
            hostname: text::opt_view(self.config.hostname),
            state: self.state,
            rng: self.rng,
            xid: self.xid,
            started: self.started,
            retransmit_at: self.retransmit_at,
            backoff: self.backoff,
            attempts: self.attempts,
            no_offer_reported: self.no_offer_reported,
            offer: match self.offer {
                Some(m) => Some(m@),
                None => None,
            },
            lease: match self.lease {
                Some(l) => Some(l@),
                None => None,
            },
            bound_at: self.bound_at,
            reboot_address: self.reboot_address,
        }
    }
}

/// A client that has not started.
pub open spec fn idle(config: Config) -> ClientV {
    ClientV {
        chaddr: config.chaddr@,
        client_id: config.client_id@,
        hostname: text::opt_view(config.hostname),
        state: State::Init,
        rng: config.seed | 1,
        xid: 0,
        started: (Instant { nanos: 0 }),
        retransmit_at: None,
        backoff: (Duration { nanos: FIRST_BACKOFF }),
        attempts: 0,
        no_offer_reported: false,
        offer: None,
        lease: None,
        bound_at: None,
        reboot_address: None,
    }
}

fn one(a: Action) -> (v: Vec<Action>)
    ensures
        views(v@) == seq![a@],
{
    let mut v: Vec<Action> = Vec::new();
    v.push(a);
    assert(views(v@) =~= seq![a@]);
    v
}

fn none() -> (v: Vec<Action>)
    ensures
        views(v@) == Seq::<ActionV>::empty(),
{
    let v: Vec<Action> = Vec::new();
    assert(views(v@) =~= Seq::<ActionV>::empty());
    v
}

fn joined(a: Vec<Action>, b: Vec<Action>) -> (v: Vec<Action>)
    ensures
        views(v@) == views(a@) + views(b@),
{
    let mut v: Vec<Action> = a;
    let mut rest: Vec<Action> = b;
    v.append(&mut rest);
    assert(views(v@) =~= views(a@) + views(b@));
    v
}

impl Client {
    pub fn new(config: Config) -> (c: Client)
        ensures
            c@ == idle(config),
            c@.wf(),
    {
        let rng: u64 = config.seed | 1;
        Client {
            config,
            state: State::Init,
            rng,
            xid: 0,
            started: Instant { nanos: 0 },
            retransmit_at: None,
            backoff: Duration { nanos: FIRST_BACKOFF },
            attempts: 0,
            no_offer_reported: false,
            offer: None,
            lease: None,
            bound_at: None,
            reboot_address: None,
        }
    }

    pub fn state(&self) -> (s: &State)
        ensures
            *s == self@.state,
    {
        &self.state
    }

    pub fn lease(&self) -> (r: Option<&Lease>)
        ensures
            match r {
                Some(l) => self@.lease == Some(l@),
                None => self@.lease is None,
            },
    {
        self.lease.as_ref()
    }

    /// Seconds until the lease expires, if bound.
    pub fn expires_in(&self, now: Instant) -> (r: Option<u64>)
        requires
            self@.wf(),
        ensures
            r == self@.expires_in(now),
    {
        match (&self.lease, self.bound_at) {
            (Some(lease), Some(bound_at)) => {
                let expiry: Instant = bound_at.plus(Duration::from_secs(lease.lease_time));
                Some(expiry.since(now).as_secs())
            },
            _ => None,
        }
    }

    /// Begin. With a remembered address, try INIT-REBOOT first (RFC 2131
    /// section 3.2): one round trip if the server still agrees, and the
    /// machine keeps the address it had.
    pub fn start(&mut self, now: Instant, previous: Option<Ipv4Addr>) -> (actions: Vec<Action>)
        requires
            old(self)@.wf(),
            now.nanos <= clock::HORIZON,
        ensures
            (final(self)@, views(actions@)) == old(self)@.start(now, previous),
            final(self)@.wf(),
    {
        self.started = now;
        self.lease = None;
        self.bound_at = None;
        self.offer = None;
        self.no_offer_reported = false;
        match previous {
            Some(address) => {
                self.reboot_address = Some(address);
                self.enter_rebooting(now)
            },
            None => self.enter_selecting(now),
        }
    }

    /// Give the address back and stop. The caller unconfigures.
    pub fn release(&mut self, now: Instant) -> (actions: Vec<Action>)
        requires
            old(self)@.wf(),
        ensures
            (final(self)@, views(actions@)) == old(self)@.release(now),
            final(self)@.wf(),
    {
        let leased: bool = match self.state {
            State::Bound | State::Renewing | State::Rebinding => true,
            _ => false,
        };
        let mut actions: Vec<Action> = none();
        if leased {
            match &self.lease {
                Some(lease) => {
                    let mut m: Message = self.base_message(now);
                    m.ciaddr = lease.address;
                    m.options.push(option::MESSAGE_TYPE, single(MessageType::Release.code()));
                    m.options.push(option::SERVER_ID, octets_of(lease.server));
                    m.options.push(option::CLIENT_ID, copy_all(&self.config.client_id));
                    let destination: Destination = Destination::Unicast {
                        server: lease.server,
                        from: lease.address,
                    };
                    proof {
                        assert(m@.options =~= seq![
                            (option::MESSAGE_TYPE, seq![MessageType::Release.spec_code()]),
                            (option::SERVER_ID, lease.server.octs()),
                            (option::CLIENT_ID, self.config.client_id@),
                        ]);
                    }
                    actions = one(Action::Send { message: m, destination });
                },
                None => {},
            }
        }
        self.state = State::Init;
        self.lease = None;
        self.bound_at = None;
        self.retransmit_at = None;
        actions
    }

    /// Force a renewal now (operator request).
    pub fn renew_now(&mut self, now: Instant) -> (actions: Vec<Action>)
        requires
            old(self)@.wf(),
            now.nanos <= clock::HORIZON,
        ensures
            (final(self)@, views(actions@)) == old(self)@.renew_now(now),
            final(self)@.wf(),
    {
        match self.state {
            State::Bound | State::Renewing | State::Rebinding => self.enter_renewing(now),
            _ => none(),
        }
    }

    pub fn next_deadline(&self) -> (r: Option<Instant>)
        requires
            self@.wf(),
        ensures
            r == self@.next_deadline(),
    {
        let boundary: Option<Instant> = self.boundary();
        match (self.retransmit_at, boundary) {
            (Some(a), Some(b)) => Some(
                if a.nanos <= b.nanos {
                    a
                } else {
                    b
                },
            ),
            (Some(a), None) => Some(a),
            (None, b) => b,
        }
    }

    fn boundary(&self) -> (r: Option<Instant>)
        requires
            self@.wf(),
        ensures
            r == self@.boundary(),
    {
        match (&self.lease, self.bound_at) {
            (Some(lease), Some(bound_at)) => match self.state {
                State::Bound => Some(bound_at.plus(Duration::from_secs(lease.t1))),
                State::Renewing => Some(bound_at.plus(Duration::from_secs(lease.t2))),
                State::Rebinding => Some(bound_at.plus(Duration::from_secs(lease.lease_time))),
                _ => None,
            },
            _ => None,
        }
    }

    /// The clock moved. Fire whatever is due.
    pub fn tick(&mut self, now: Instant) -> (actions: Vec<Action>)
        requires
            old(self)@.wf(),
            now.nanos <= clock::HORIZON,
        ensures
            (final(self)@, views(actions@)) == old(self)@.tick(now),
            final(self)@.wf(),
    {
        // Lease-time boundaries first: they change state.
        let due: bool = match self.boundary() {
            Some(at) => now.nanos >= at.nanos,
            None => false,
        };
        if !due {
            return self.retransmit_if_due(now);
        }
        match self.state {
            State::Bound => {
                let first: Vec<Action> = self.enter_renewing(now);
                let second: Vec<Action> = self.retransmit_if_due(now);
                joined(first, second)
            },
            State::Renewing => {
                let first: Vec<Action> = self.enter_rebinding(now);
                let second: Vec<Action> = self.retransmit_if_due(now);
                joined(first, second)
            },
            _ => {
                self.lease = None;
                self.bound_at = None;
                let lost: Vec<Action> = one(Action::Lost);
                let more: Vec<Action> = self.enter_selecting(now);
                joined(lost, more)
            },
        }
    }

    fn retransmit_if_due(&mut self, now: Instant) -> (actions: Vec<Action>)
        requires
            old(self)@.wf(),
            now.nanos <= clock::HORIZON,
        ensures
            (final(self)@, views(actions@)) == old(self)@.retransmit_if_due(now),
            final(self)@.wf(),
    {
        match self.retransmit_at {
            Some(at) => if now.nanos >= at.nanos {
                self.retransmit(now)
            } else {
                none()
            },
            None => none(),
        }
    }

    fn chosen(&self) -> (r: Option<Ipv4Addr>)
        ensures
            r == self@.chosen(),
    {
        match &self.lease {
            Some(l) => Some(l.server),
            None => match &self.offer {
                Some(o) => o.options.ipv4(option::SERVER_ID),
                None => None,
            },
        }
    }

    fn authorised(&self, message: &Message) -> (r: bool)
        ensures
            r == self@.authorised(message@),
    {
        match self.chosen() {
            Some(chosen) => match message.options.ipv4(option::SERVER_ID) {
                Some(server) => server == chosen,
                None => false,
            },
            None => true,
        }
    }

    /// A packet arrived on the interface. Anything not for us is ignored.
    pub fn receive(&mut self, now: Instant, message: &Message) -> (actions: Vec<Action>)
        requires
            old(self)@.wf(),
            now.nanos <= clock::HORIZON,
        ensures
            (final(self)@, views(actions@)) == old(self)@.receive(now, message@),
            final(self)@.wf(),
    {
        if !message.is_reply || message.xid != self.xid || !bytes::same(
            message.chaddr.as_slice(),
            self.config.chaddr.as_slice(),
        ) {
            return none();
        }
        let kind: MessageType = match message.message_type() {
            Some(kind) => kind,
            None => {
                return none();
            },
        };
        // Once a server has been chosen, an ACK or NAK must come from it. A
        // stranger who guessed the xid still cannot take the lease away.
        match kind {
            MessageType::Ack | MessageType::Nak => {
                if !self.authorised(message) {
                    return none();
                }
            },
            _ => {},
        }
        match (self.state, kind) {
            (State::Selecting, MessageType::Offer) => {
                if message.yiaddr.is_unspecified() || message.options.ipv4(
                    option::SERVER_ID,
                ).is_none() {
                    return none();
                }
                self.offer = Some(message.clone());
                self.enter_requesting(now)
            },
            (
                State::Requesting
                | State::Rebooting
                | State::Renewing
                | State::Rebinding,
                MessageType::Ack,
            ) => match Lease::from_ack(message) {
                Some(lease) => {
                    self.state = State::Bound;
                    self.retransmit_at = None;
                    self.bound_at = Some(now);
                    self.reboot_address = Some(lease.address);
                    let bound: Vec<Action> = one(Action::Bound(lease.clone()));
                    self.lease = Some(lease);
                    bound
                },
                None => none(),
            },
            (State::Requesting | State::Rebooting, MessageType::Nak) => {
                self.reboot_address = None;
                self.offer = None;
                self.enter_selecting(now)
            },
            (State::Renewing | State::Rebinding, MessageType::Nak) => {
                self.lease = None;
                self.bound_at = None;
                self.reboot_address = None;
                let lost: Vec<Action> = one(Action::Lost);
                let more: Vec<Action> = self.enter_selecting(now);
                joined(lost, more)
            },
            _ => none(),
        }
    }

    // ---- transitions -------------------------------------------------------

    fn enter_selecting(&mut self, now: Instant) -> (actions: Vec<Action>)
        requires
            now.nanos <= clock::HORIZON,
            old(self)@.chaddr.len() == 6,
            old(self)@.lease is None,
            old(self)@.bound_at is None,
        ensures
            (final(self)@, views(actions@)) == old(self)@.enter_selecting(now),
            final(self)@.wf(),
    {
        self.state = State::Selecting;
        self.xid = self.next_random();
        self.attempts = 0;
        self.backoff = Duration { nanos: FIRST_BACKOFF };
        self.offer = None;
        self.no_offer_reported = false;
        self.send_discover(now)
    }

    fn enter_requesting(&mut self, now: Instant) -> (actions: Vec<Action>)
        requires
            now.nanos <= clock::HORIZON,
            old(self)@.chaddr.len() == 6,
            old(self)@.lease is None,
            old(self)@.bound_at is None,
            old(self)@.offer matches Some(o) && packet::option_ipv4(o.options, option::SERVER_ID)
                is Some,
        ensures
            (final(self)@, views(actions@)) == old(self)@.enter_requesting(now),
            final(self)@.wf(),
    {
        self.state = State::Requesting;
        self.attempts = 0;
        self.backoff = Duration { nanos: FIRST_BACKOFF };
        self.send_request_for_offer(now)
    }

    fn enter_rebooting(&mut self, now: Instant) -> (actions: Vec<Action>)
        requires
            now.nanos <= clock::HORIZON,
            old(self)@.chaddr.len() == 6,
            old(self)@.lease is None,
            old(self)@.bound_at is None,
            old(self)@.reboot_address is Some,
        ensures
            (final(self)@, views(actions@)) == old(self)@.enter_rebooting(now),
            final(self)@.wf(),
    {
        self.state = State::Rebooting;
        self.xid = self.next_random();
        self.attempts = 0;
        self.backoff = Duration { nanos: FIRST_BACKOFF };
        self.send_reboot_request(now)
    }

    fn enter_renewing(&mut self, now: Instant) -> (actions: Vec<Action>)
        requires
            now.nanos <= clock::HORIZON,
            old(self)@.wf(),
            old(self)@.state.leased(),
        ensures
            (final(self)@, views(actions@)) == old(self)@.enter_renewing(now),
            final(self)@.wf(),
    {
        self.state = State::Renewing;
        self.xid = self.next_random();
        self.attempts = 0;
        self.send_renewal(now)
    }

    fn enter_rebinding(&mut self, now: Instant) -> (actions: Vec<Action>)
        requires
            now.nanos <= clock::HORIZON,
            old(self)@.wf(),
            old(self)@.state.leased(),
        ensures
            (final(self)@, views(actions@)) == old(self)@.enter_rebinding(now),
            final(self)@.wf(),
    {
        self.state = State::Rebinding;
        self.xid = self.next_random();
        self.attempts = 0;
        self.send_renewal(now)
    }

    fn retransmit(&mut self, now: Instant) -> (actions: Vec<Action>)
        requires
            now.nanos <= clock::HORIZON,
            old(self)@.wf(),
        ensures
            (final(self)@, views(actions@)) == old(self)@.retransmit(now),
            final(self)@.wf(),
    {
        match self.state {
            State::Selecting => {
                self.attempts = self.attempts.saturating_add(1);
                if self.attempts >= DISCOVERS_BEFORE_NO_OFFER && !self.no_offer_reported {
                    self.no_offer_reported = true;
                    let first: Vec<Action> = one(Action::NoOffer);
                    let second: Vec<Action> = self.send_discover(now);
                    joined(first, second)
                } else {
                    self.send_discover(now)
                }
            },
            State::Requesting => {
                self.attempts = self.attempts.saturating_add(1);
                if self.attempts >= MAX_REQUESTS {
                    // The offer went stale; start over.
                    self.enter_selecting(now)
                } else {
                    self.send_request_for_offer(now)
                }
            },
            State::Rebooting => {
                self.attempts = self.attempts.saturating_add(1);
                if self.attempts >= 2 {
                    // Nobody confirmed the old address; discover afresh.
                    self.reboot_address = None;
                    self.enter_selecting(now)
                } else {
                    self.send_reboot_request(now)
                }
            },
            State::Renewing | State::Rebinding => self.send_renewal(now),
            _ => none(),
        }
    }

    // ---- messages ----------------------------------------------------------

    fn base_message(&self, now: Instant) -> (m: Message)
        ensures
            m@ == self@.base(now),
    {
        let mut m: Message = Message::request(self.xid, self.config.chaddr);
        let secs: u64 = now.since(self.started).as_secs();
        m.secs = if secs < 65535 {
            secs as u16
        } else {
            65535
        };
        m
    }

    fn parameter_request_list() -> (v: Vec<u8>)
        ensures
            v@ == wanted(),
    {
        let v: Vec<u8> = vec![
            option::SUBNET_MASK,
            option::ROUTER,
            option::DNS,
            option::HOSTNAME,
            option::DOMAIN_NAME,
            option::MTU,
            option::BROADCAST,
            option::NTP,
            option::LEASE_TIME,
            option::RENEWAL_T1,
            option::REBINDING_T2,
            option::DOMAIN_SEARCH,
            option::CLASSLESS_STATIC_ROUTE,
        ];
        assert(v@ =~= wanted());
        v
    }

    fn common_options(&self, m: &mut Message, kind: MessageType)
        requires
            old(m)@.options.len() == 0,
        ensures
            final(m)@ == (MessageV { options: self@.common(kind), ..old(m)@ }),
    {
        let mut size: Vec<u8> = Vec::new();
        bytes::push_u16(&mut size, 1500);
        assert(size@ =~= bytes::be_bytes(1500, 2));
        m.options.push(option::MESSAGE_TYPE, single(kind.code()));
        m.options.push(option::CLIENT_ID, copy_all(&self.config.client_id));
        m.options.push(option::MAX_MESSAGE_SIZE, size);
        m.options.push(option::PARAMETER_REQUEST_LIST, Self::parameter_request_list());
        let ghost head = seq![
            (option::MESSAGE_TYPE, seq![kind.spec_code()]),
            (option::CLIENT_ID, self.config.client_id@),
            (option::MAX_MESSAGE_SIZE, bytes::be_bytes(1500, 2)),
            (option::PARAMETER_REQUEST_LIST, wanted()),
        ];
        assert(m@.options =~= head);
        match &self.config.hostname {
            Some(h) => {
                m.options.push(option::HOSTNAME, text_bytes(h.as_str()));
            },
            None => {},
        }
    }

    fn schedule_backoff(&mut self, now: Instant)
        requires
            now.nanos <= clock::HORIZON,
            FIRST_BACKOFF <= old(self)@.backoff.nanos <= MAX_BACKOFF,
        ensures
            final(self)@ == old(self)@.scheduled(now),
    {
        // A second of jitter either way, then double, capped (RFC 2131
        // section 4.1).
        let jitter: u64 = (self.next_random() % 2000) as u64 * clock::MILLI;
        self.retransmit_at =
        Some(Instant { nanos: now.nanos + self.backoff.nanos + jitter - clock::NANOS });
        self.backoff =
        Duration {
            nanos: if self.backoff.nanos * 2 < MAX_BACKOFF {
                self.backoff.nanos * 2
            } else {
                MAX_BACKOFF
            },
        };
    }

    fn send_discover(&mut self, now: Instant) -> (actions: Vec<Action>)
        requires
            now.nanos <= clock::HORIZON,
            old(self)@.chaddr.len() == 6,
            FIRST_BACKOFF <= old(self)@.backoff.nanos <= MAX_BACKOFF,
        ensures
            (final(self)@, views(actions@)) == old(self)@.send_discover(now),
    {
        let mut m: Message = self.base_message(now);
        m.broadcast = true;
        self.common_options(&mut m, MessageType::Discover);
        match self.reboot_address {
            Some(a) => {
                m.options.push(option::REQUESTED_IP, octets_of(a));
            },
            None => {},
        }
        self.schedule_backoff(now);
        one(Action::Send { message: m, destination: Destination::Broadcast })
    }

    fn send_request_for_offer(&mut self, now: Instant) -> (actions: Vec<Action>)
        requires
            now.nanos <= clock::HORIZON,
            old(self)@.chaddr.len() == 6,
            FIRST_BACKOFF <= old(self)@.backoff.nanos <= MAX_BACKOFF,
            old(self)@.offer is Some,
        ensures
            (final(self)@, views(actions@)) == old(self)@.send_request_for_offer(now),
    {
        let mut m: Message = self.base_message(now);
        m.broadcast = true;
        self.common_options(&mut m, MessageType::Request);
        match &self.offer {
            Some(offer) => {
                m.options.push(option::REQUESTED_IP, octets_of(offer.yiaddr));
                match offer.options.get(option::SERVER_ID) {
                    Some(server) => {
                        m.options.push(option::SERVER_ID, vstd::slice::slice_to_vec(server));
                    },
                    None => {},
                }
            },
            None => {},
        }
        self.schedule_backoff(now);
        one(Action::Send { message: m, destination: Destination::Broadcast })
    }

    fn send_reboot_request(&mut self, now: Instant) -> (actions: Vec<Action>)
        requires
            now.nanos <= clock::HORIZON,
            old(self)@.chaddr.len() == 6,
            FIRST_BACKOFF <= old(self)@.backoff.nanos <= MAX_BACKOFF,
            old(self)@.reboot_address is Some,
        ensures
            (final(self)@, views(actions@)) == old(self)@.send_reboot_request(now),
    {
        let mut m: Message = self.base_message(now);
        m.broadcast = true;
        self.common_options(&mut m, MessageType::Request);
        match self.reboot_address {
            Some(a) => {
                m.options.push(option::REQUESTED_IP, octets_of(a));
            },
            None => {},
        }
        self.schedule_backoff(now);
        one(Action::Send { message: m, destination: Destination::Broadcast })
    }

    fn send_renewal(&mut self, now: Instant) -> (actions: Vec<Action>)
        requires
            now.nanos <= clock::HORIZON,
            old(self)@.lease matches Some(l) && lease::sound(l),
            old(self)@.bound_at matches Some(t) && t.nanos <= clock::HORIZON,
        ensures
            (final(self)@, views(actions@)) == old(self)@.send_renewal(now),
    {
        let renewing: bool = match self.state {
            State::Renewing => true,
            _ => false,
        };
        match (&self.lease, self.bound_at) {
            (Some(lease), Some(bound_at)) => {
                let mut m: Message = self.base_message(now);
                m.ciaddr = lease.address;
                self.common_options(&mut m, MessageType::Request);
                let destination: Destination = if renewing {
                    Destination::Unicast { server: lease.server, from: lease.address }
                } else {
                    Destination::Broadcast
                };
                // Section 4.4.5: retransmit at half the remaining time to the
                // next boundary, never more often than every 60 s.
                let boundary: u32 = if renewing {
                    lease.t2
                } else {
                    lease.lease_time
                };
                let remaining: Duration = bound_at.plus(Duration::from_secs(boundary)).since(now);
                let half: u64 = remaining.nanos / 2;
                let wait: u64 = if half > MIN_RETRANSMIT {
                    half
                } else {
                    MIN_RETRANSMIT
                };
                self.retransmit_at = Some(now.plus(Duration { nanos: wait }));
                one(Action::Send { message: m, destination })
            },
            _ => none(),
        }
    }

    fn next_random(&mut self) -> (n: u32)
        ensures
            final(self)@ == (ClientV { rng: stirred(old(self)@.rng), ..old(self)@ }),
            n == drawn(stirred(old(self)@.rng)),
    {
        // xorshift64*; the jitter and XID need unpredictability, not
        // cryptography.
        let x: u64 = self.rng;
        let a: u64 = x ^ (x >> 12);
        let b: u64 = a ^ (a << 25);
        let c: u64 = b ^ (b >> 27);
        self.rng = c;
        (c.wrapping_mul(0x2545_F491_4F6C_DD1D) >> 32) as u32
    }
}

fn octets_of(a: Ipv4Addr) -> (v: Vec<u8>)
    ensures
        v@ == a.octs(),
{
    let o: [u8; 4] = a.octets();
    vstd::slice::slice_to_vec(o.as_slice())
}

fn single(b: u8) -> (v: Vec<u8>)
    ensures
        v@ == seq![b],
{
    let v: Vec<u8> = vec![b];
    assert(v@ =~= seq![b]);
    v
}

fn copy_all(v: &Vec<u8>) -> (r: Vec<u8>)
    ensures
        r@ == v@,
{
    vstd::slice::slice_to_vec(v.as_slice())
}

fn text_bytes(s: &str) -> (v: Vec<u8>)
    ensures
        v@ == encode_utf8(s@),
{
    vstd::slice::slice_to_vec(s.as_bytes())
}

} // verus!
