//! A stateless DHCPv6 client: the information-request exchange of RFC 8415,
//! clock-injected and socket-free, in the same shape as `dhcp4` and `ndp`.
//!
//! IPv6 addresses come from `ndp`; what remains for DHCPv6 on most networks is
//! configuration, DNS servers and search domains, announced by a router
//! advertisement's M or O flag. Either flag is answered with an
//! INFORMATION-REQUEST: the stateful exchange is not built, and section 18.2.6
//! makes the information request legitimate on a managed network too.
//!
//! The caller feeds it time (`Client::tick`) and datagrams (`Client::receive`)
//! and performs the actions it returns. Every message goes to
//! All_DHCP_Relay_Agents_and_Servers (`ff02::1:2`, port 547) from the
//! interface's link-local address, port 546.

pub mod laws;

use vstd::prelude::*;
use vstd::string::*;
use crate::addr::Ipv6Addr;
use crate::bytes;
use crate::clock;
use crate::clock::{Duration, Instant};
use crate::lists;
use crate::rng;
use crate::text;

verus! {

pub const INFORMATION_REQUEST: u8 = 11;

pub const REPLY: u8 = 7;

pub const OPTION_CLIENT_ID: u16 = 1;

pub const OPTION_SERVER_ID: u16 = 2;

pub const OPTION_ORO: u16 = 6;

pub const OPTION_ELAPSED_TIME: u16 = 8;

pub const OPTION_DNS_SERVERS: u16 = 23;

pub const OPTION_DOMAIN_LIST: u16 = 24;

pub const OPTION_INFORMATION_REFRESH_TIME: u16 = 32;

/// Retransmission (RFC 8415 section 7.6) in nanoseconds: INF_TIMEOUT doubling
/// to INF_MAX_RT.
pub const FIRST_RETRANSMIT: u64 = 1_000_000_000;

pub const MAX_RETRANSMIT: u64 = 3600_000_000_000;

/// Section 21.23: refresh default and floor when the server names none, in
/// nanoseconds.
pub const REFRESH_DEFAULT: u64 = 86_400_000_000_000;

pub const REFRESH_MINIMUM: u64 = 600_000_000_000;

/// Ceilings against a hostile server.
pub use crate::lists::{MAX_DOMAINS, MAX_SERVERS};

/// What the network said, once a valid reply arrives.
#[derive(Debug, PartialEq, Eq)]
pub struct Info {
    pub dns: Vec<Ipv6Addr>,
    pub search: Vec<String>,
}

/// The same as values.
#[verifier::ext_equal]
pub struct InfoV {
    pub dns: Seq<Ipv6Addr>,
    pub search: Seq<Seq<char>>,
}

impl View for Info {
    type V = InfoV;

    open spec fn view(&self) -> InfoV {
        InfoV { dns: self.dns@, search: text::list_view(self.search@) }
    }
}

impl Default for Info {
    fn default() -> (i: Info)
        ensures
            i@ == (InfoV { dns: Seq::empty(), search: Seq::empty() }),
    {
        let i: Info = Info { dns: Vec::new(), search: Vec::new() };
        assert(text::list_view(i.search@) =~= Seq::<Seq<char>>::empty());
        i
    }
}

/// What the caller must do.
#[derive(Debug, PartialEq, Eq)]
pub enum Action {
    /// Send this DHCPv6 message to `[ff02::1:2]:547`.
    Send(Vec<u8>),
    /// The information changed; republish DNS.
    Changed,
}

/// The same as values.
#[verifier::ext_equal]
pub enum ActionV {
    Send(Seq<u8>),
    Changed,
}

impl View for Action {
    type V = ActionV;

    open spec fn view(&self) -> ActionV {
        match self {
            Action::Send(m) => ActionV::Send(m@),
            Action::Changed => ActionV::Changed,
        }
    }
}

/// Each action as values.
pub open spec fn views(a: Seq<Action>) -> Seq<ActionV> {
    a.map_values(|x: Action| x@)
}

#[derive(Debug, PartialEq, Eq)]
pub struct Config {
    /// The machine's DUID, as the DHCPv4 client also uses (RFC 4361 keeps the
    /// two protocols naming the same machine the same way).
    pub duid: Vec<u8>,
    /// Jitter seed.
    pub seed: u64,
}

/// The client's state as values.
#[verifier::ext_equal]
pub struct ClientV {
    pub duid: Seq<u8>,
    pub rng: u64,
    pub txid: Seq<u8>,
    pub started: Option<Instant>,
    pub retransmit_at: Option<Instant>,
    pub interval: Duration,
    pub refresh_at: Option<Instant>,
    pub info: Option<InfoV>,
}

/// A new state and the actions that go with it.
pub type Step = (ClientV, Seq<ActionV>);

/// Section 21.9: elapsed time is hundredths of a second, saturating.
pub open spec fn elapsed_at(started: Option<Instant>, now: Instant) -> u16 {
    match started {
        Some(t) => {
            let n = (if now.nanos >= t.nanos {
                now.nanos - t.nanos
            } else {
                0
            }) / 10_000_000;
            (if n < 65535 {
                n
            } else {
                65535
            }) as u16
        },
        None => 0,
    }
}

/// One option on the wire.
pub open spec fn option_bytes(code: u16, data: Seq<u8>) -> Seq<u8> {
    bytes::be_bytes(code as nat, 2) + bytes::be_bytes(data.len(), 2) + data
}

/// The options in a region; a truncated one ends them.
pub open spec fn options_in(b: Seq<u8>) -> Seq<(u16, Seq<u8>)>
    decreases b.len(),
{
    if b.len() < 4 {
        Seq::empty()
    } else {
        let len = bytes::be_nat(b.subrange(2, 4)) as int;
        if b.len() < 4 + len {
            Seq::empty()
        } else {
            seq![(bytes::be_nat(b.subrange(0, 2)) as u16, b.subrange(4, 4 + len))] + options_in(
                b.skip(4 + len),
            )
        }
    }
}

/// The last option with this code whose length is a multiple of `unit`.
pub open spec fn last_of(o: Seq<(u16, Seq<u8>)>, code: u16, unit: nat) -> Option<Seq<u8>>
    decreases o.len(),
{
    if o.len() == 0 {
        None
    } else if o.last().0 == code && o.last().1.len() % unit == 0 {
        Some(o.last().1)
    } else {
        last_of(o.drop_last(), code, unit)
    }
}

/// The first option with this code whose length is `len`.
pub open spec fn first_of(o: Seq<(u16, Seq<u8>)>, code: u16, len: nat) -> Option<Seq<u8>>
    decreases o.len(),
{
    if o.len() == 0 {
        None
    } else if o[0].0 == code && o[0].1.len() == len {
        Some(o[0].1)
    } else {
        first_of(o.drop_first(), code, len)
    }
}

/// What a reply says: `None` unless it is a REPLY to this transaction that
/// echoes our client id, in each place where it gives one, and names a server.
pub open spec fn reply_info(duid: Seq<u8>, txid: Seq<u8>, d: Seq<u8>) -> Option<InfoV> {
    if d.len() < 4 || d[0] != REPLY || d.subrange(1, 4) != txid {
        None
    } else {
        let o = options_in(d.skip(4));
        if (forall|i: int|
            0 <= i < o.len() && (#[trigger] o[i]).0 == OPTION_CLIENT_ID ==> o[i].1 == duid) && (
        exists|i: int| 0 <= i < o.len() && (#[trigger] o[i]).0 == OPTION_CLIENT_ID) && (last_of(
            o,
            OPTION_SERVER_ID,
            1,
        ) matches Some(s) && s.len() > 0) {
            Some(info_in(o))
        } else {
            None
        }
    }
}

/// The servers and domains among options: of each, the last list given.
pub open spec fn info_in(o: Seq<(u16, Seq<u8>)>) -> InfoV {
    InfoV {
        dns: match last_of(o, OPTION_DNS_SERVERS, 16) {
            Some(data) => lists::servers_in(data),
            None => Seq::empty(),
        },
        search: match last_of(o, OPTION_DOMAIN_LIST, 1) {
            Some(data) => lists::domains_in(data, MAX_DOMAINS as nat),
            None => Seq::empty(),
        },
    }
}

/// How long a reply lets its information stand, in nanoseconds.
pub open spec fn refresh_in(d: Seq<u8>) -> int {
    let named = match first_of(options_in(d.skip(4)), OPTION_INFORMATION_REFRESH_TIME, 4) {
        Some(data) => bytes::be_nat(data) as int * 1_000_000_000,
        None => REFRESH_DEFAULT as int,
    };
    if named > REFRESH_MINIMUM {
        named
    } else {
        REFRESH_MINIMUM as int
    }
}

impl ClientV {
    pub open spec fn wf(&self) -> bool {
        &&& self.txid.len() == 3
        &&& FIRST_RETRANSMIT <= self.interval.nanos <= MAX_RETRANSMIT
        &&& (self.info matches Some(i) ==> i.dns.len() <= MAX_SERVERS && i.search.len()
            <= MAX_DOMAINS)
    }

    /// Something is due at some time: a retransmission while unanswered, a
    /// refresh once answered.
    pub open spec fn waiting(&self) -> bool {
        self.retransmit_at is Some || self.refresh_at is Some
    }

    /// A new exchange, its first request due at once.
    pub open spec fn begun(&self, now: Instant) -> ClientV {
        let r = rng::stirred(self.rng);
        ClientV {
            rng: r,
            txid: seq![(r / 0x1_0000 % 256) as u8, (r / 0x100 % 256) as u8, (r % 256) as u8],
            started: Some(now),
            interval: (Duration { nanos: FIRST_RETRANSMIT }),
            retransmit_at: Some(now),
            refresh_at: None,
            ..*self
        }
    }

    /// An INFORMATION-REQUEST.
    pub open spec fn request(&self, now: Instant) -> Seq<u8> {
        seq![INFORMATION_REQUEST] + self.txid + option_bytes(OPTION_CLIENT_ID, self.duid)
            + option_bytes(
            OPTION_ELAPSED_TIME,
            bytes::be_bytes(elapsed_at(self.started, now) as nat, 2),
        ) + option_bytes(
            OPTION_ORO,
            bytes::be_bytes(OPTION_DNS_SERVERS as nat, 2) + bytes::be_bytes(
                OPTION_DOMAIN_LIST as nat,
                2,
            ) + bytes::be_bytes(OPTION_INFORMATION_REFRESH_TIME as nat, 2),
        )
    }

    /// The interval with a tenth of jitter either way, in nanoseconds, for
    /// this draw.
    pub open spec fn jittered(&self, draw: u64) -> int {
        let millis = self.interval.nanos as int / 1_000_000;
        (millis - millis / 10 + draw as int % (millis / 5 + 1)) * 1_000_000
    }

    /// Send the request where it is due, and schedule the next.
    pub open spec fn send_if_due(&self, now: Instant) -> Step {
        match self.retransmit_at {
            Some(at) => if now.nanos >= at.nanos {
                let r = rng::stirred(self.rng);
                (
                    ClientV {
                        rng: r,
                        retransmit_at: Some(Instant { nanos: (now.nanos + self.jittered(r)) as u64 }),
                        interval: (Duration {
                            nanos: if 2 * self.interval.nanos < MAX_RETRANSMIT {
                                (2 * self.interval.nanos) as u64
                            } else {
                                MAX_RETRANSMIT
                            },
                        }),
                        ..*self
                    },
                    seq![ActionV::Send(self.request(now))],
                )
            } else {
                (*self, Seq::empty())
            },
            None => (*self, Seq::empty()),
        }
    }

    pub open spec fn tick(&self, now: Instant) -> Step {
        if self.refresh_at matches Some(at) && now.nanos >= at.nanos {
            self.begun(now).send_if_due(now)
        } else {
            self.send_if_due(now)
        }
    }

    pub open spec fn start(&self, now: Instant) -> Step {
        self.begun(now).tick(now)
    }

    pub open spec fn receive(&self, now: Instant, d: Seq<u8>) -> Step {
        match (self.retransmit_at, reply_info(self.duid, self.txid, d)) {
            (Some(_), Some(info)) => (
                ClientV {
                    retransmit_at: None,
                    started: None,
                    refresh_at: Some(Instant { nanos: (now.nanos + refresh_in(d)) as u64 }),
                    info: Some(info),
                    ..*self
                },
                if self.info == Some(info) {
                    Seq::empty()
                } else {
                    seq![ActionV::Changed]
                },
            ),
            _ => (*self, Seq::empty()),
        }
    }

    pub open spec fn next_deadline(&self) -> Option<Instant> {
        match (self.retransmit_at, self.refresh_at) {
            (Some(a), Some(b)) => Some(
                if a.nanos <= b.nanos {
                    a
                } else {
                    b
                },
            ),
            (Some(a), None) => Some(a),
            (None, b) => b,
        }
    }
}

pub struct Client {
    config: Config,
    rng: u64,
    txid: [u8; 3],
    /// When the running exchange started (for the elapsed-time option).
    started: Option<Instant>,
    retransmit_at: Option<Instant>,
    retransmit_interval: Duration,
    /// When to ask again after an answer (the refresh-time option).
    refresh_at: Option<Instant>,
    info: Option<Info>,
}

impl View for Client {
    type V = ClientV;

    closed spec fn view(&self) -> ClientV {
        ClientV {
            duid: self.config.duid@,
            rng: self.rng,
            txid: self.txid@,
            started: self.started,
            retransmit_at: self.retransmit_at,
            interval: self.retransmit_interval,
            refresh_at: self.refresh_at,
            info: match self.info {
                Some(i) => Some(i@),
                None => None,
            },
        }
    }
}

/// A client that has not started.
pub open spec fn idle(config: Config) -> ClientV {
    ClientV {
        duid: config.duid@,
        rng: config.seed | 1,
        txid: seq![0u8, 0, 0],
        started: None,
        retransmit_at: None,
        interval: (Duration { nanos: FIRST_RETRANSMIT }),
        refresh_at: None,
        info: None,
    }
}

fn one(a: Action) -> (v: Vec<Action>)
    ensures
        views(v@) == seq![a@],
{
    let mut v: Vec<Action> = Vec::new();
    v.push(a);
    assert(views(v@) =~= seq![a@]);
    v
}

fn none() -> (v: Vec<Action>)
    ensures
        views(v@) == Seq::<ActionV>::empty(),
{
    let v: Vec<Action> = Vec::new();
    assert(views(v@) =~= Seq::<ActionV>::empty());
    v
}

fn same_info(a: &Info, b: &Info) -> (r: bool)
    ensures
        r == (a@ == b@),
{
    same_addresses(&a.dns, &b.dns) && text::same_list(&a.search, &b.search)
}

/// Whether two lists hold the same addresses in the same order.
pub fn same_addresses(a: &Vec<Ipv6Addr>, b: &Vec<Ipv6Addr>) -> (r: bool)
    ensures
        r == (a@ == b@),
{
    if a.len() != b.len() {
        return false;
    }
    let mut i: usize = 0;
    while i < a.len()
        invariant
            i <= a@.len(),
            a@.len() == b@.len(),
            forall|j: int| 0 <= j < i ==> a@[j] == b@[j],
        decreases a@.len() - i,
    {
        if a[i] != b[i] {
            return false;
        }
        i = i + 1;
    }
    assert(a@ =~= b@);
    true
}

impl Client {
    pub fn new(config: Config) -> (c: Client)
        ensures
            c@ == idle(config),
            c@.wf(),
    {
        let rng: u64 = config.seed | 1;
        let txid: [u8; 3] = [0, 0, 0];
        assert(txid@ =~= seq![0u8, 0, 0]);
        Client {
            config,
            rng,
            txid,
            started: None,
            retransmit_at: None,
            retransmit_interval: Duration { nanos: FIRST_RETRANSMIT },
            refresh_at: None,
            info: None,
        }
    }

    pub fn start(&mut self, now: Instant) -> (actions: Vec<Action>)
        requires
            old(self)@.wf(),
            now.nanos <= clock::HORIZON,
        ensures
            (final(self)@, views(actions@)) == old(self)@.start(now),
            final(self)@.wf(),
            final(self)@.waiting(),
    {
        self.begin_exchange(now);
        self.tick(now)
    }

    fn begin_exchange(&mut self, now: Instant)
        requires
            old(self)@.wf(),
        ensures
            final(self)@ == old(self)@.begun(now),
            final(self)@.wf(),
    {
        let r: u64 = self.next_random();
        let txid: [u8; 3] = [
            (r / 0x1_0000 % 256) as u8,
            (r / 0x100 % 256) as u8,
            (r % 256) as u8,
        ];
        assert(txid@ =~= seq![
            (r / 0x1_0000 % 256) as u8,
            (r / 0x100 % 256) as u8,
            (r % 256) as u8,
        ]);
        self.txid = txid;
        self.started = Some(now);
        self.retransmit_interval = Duration { nanos: FIRST_RETRANSMIT };
        self.retransmit_at = Some(now);
        self.refresh_at = None;
    }

    /// The information last obtained, if any.
    pub fn info(&self) -> (r: Option<&Info>)
        ensures
            match r {
                Some(i) => self@.info == Some(i@),
                None => self@.info is None,
            },
    {
        self.info.as_ref()
    }

    pub fn next_deadline(&self) -> (r: Option<Instant>)
        ensures
            r == self@.next_deadline(),
            r is Some <==> self@.waiting(),
    {
        match (self.retransmit_at, self.refresh_at) {
            (Some(a), Some(b)) => Some(
                if a.nanos <= b.nanos {
                    a
                } else {
                    b
                },
            ),
            (Some(a), None) => Some(a),
            (None, b) => b,
        }
    }

    pub fn tick(&mut self, now: Instant) -> (actions: Vec<Action>)
        requires
            old(self)@.wf(),
            now.nanos <= clock::HORIZON,
        ensures
            (final(self)@, views(actions@)) == old(self)@.tick(now),
            final(self)@.wf(),
            old(self)@.waiting() ==> final(self)@.waiting(),
    {
        let refresh: bool = match self.refresh_at {
            Some(at) => now.nanos >= at.nanos,
            None => false,
        };
        if refresh {
            self.begin_exchange(now);
        }
        let due: bool = match self.retransmit_at {
            Some(at) => now.nanos >= at.nanos,
            None => false,
        };
        if !due {
            return none();
        }
        let message: Vec<u8> = self.request(now);
        let jittered: Duration = self.jitter(self.retransmit_interval);
        self.retransmit_interval =
        Duration {
            nanos: if self.retransmit_interval.nanos * 2 < MAX_RETRANSMIT {
                self.retransmit_interval.nanos * 2
            } else {
                MAX_RETRANSMIT
            },
        };
        self.retransmit_at = Some(now.plus(jittered));
        one(Action::Send(message))
    }

    /// Feed one datagram from port 547.
    pub fn receive(&mut self, now: Instant, datagram: &[u8]) -> (actions: Vec<Action>)
        requires
            old(self)@.wf(),
            now.nanos <= clock::HORIZON,
        ensures
            (final(self)@, views(actions@)) == old(self)@.receive(now, datagram@),
            final(self)@.wf(),
            old(self)@.waiting() ==> final(self)@.waiting(),
    {
        // Only while an exchange is running; a late duplicate is noise.
        if self.retransmit_at.is_none() {
            return none();
        }
        let info: Info = match self.parse_reply(datagram) {
            Some(info) => info,
            None => {
                return none();
            },
        };
        self.retransmit_at = None;
        self.started = None;
        let refresh: Duration = refresh_time(datagram);
        self.refresh_at = Some(now.plus(refresh));
        proof {
            info_bounded(options_in(datagram@.skip(4)));
        }
        let same: bool = match &self.info {
            Some(before) => same_info(before, &info),
            None => false,
        };
        self.info = Some(info);
        if same {
            return none();
        }
        one(Action::Changed)
    }

    fn request(&self, now: Instant) -> (out: Vec<u8>)
        ensures
            out@ == self@.request(now),
    {
        let mut out: Vec<u8> = vec![INFORMATION_REQUEST];
        bytes::extend(&mut out, self.txid.as_slice());
        push_option(&mut out, OPTION_CLIENT_ID, self.config.duid.as_slice());
        let mut since: Vec<u8> = Vec::new();
        bytes::push_u16(&mut since, elapsed(self.started, now));
        push_option(&mut out, OPTION_ELAPSED_TIME, since.as_slice());
        let mut oro: Vec<u8> = Vec::new();
        bytes::push_u16(&mut oro, OPTION_DNS_SERVERS);
        bytes::push_u16(&mut oro, OPTION_DOMAIN_LIST);
        bytes::push_u16(&mut oro, OPTION_INFORMATION_REFRESH_TIME);
        push_option(&mut out, OPTION_ORO, oro.as_slice());
        proof {
            assert(since@ =~= bytes::be_bytes(elapsed_at(self.started, now) as nat, 2));
            assert(oro@ =~= bytes::be_bytes(OPTION_DNS_SERVERS as nat, 2) + bytes::be_bytes(
                OPTION_DOMAIN_LIST as nat,
                2,
            ) + bytes::be_bytes(OPTION_INFORMATION_REFRESH_TIME as nat, 2));
            assert(out@ =~= self@.request(now));
        }
        out
    }

    /// A REPLY for our transaction, echoing our client id, with a server id
    /// (section 16.10). Anything else is `None`.
    fn parse_reply(&self, datagram: &[u8]) -> (r: Option<Info>)
        requires
            self@.wf(),
        ensures
            match r {
                Some(i) => reply_info(self@.duid, self@.txid, datagram@) == Some(i@) && i@
                    == info_in(options_in(datagram@.skip(4))),
                None => reply_info(self@.duid, self@.txid, datagram@) is None,
            },
    {
        if datagram.len() < 4 || datagram[0] != REPLY || !bytes::same(
            vstd::slice::slice_subrange(datagram, 1, 4),
            self.txid.as_slice(),
        ) {
            return None;
        }
        let o: Vec<(u16, Vec<u8>)> = options(datagram, 4);
        let ghost all = options_in(datagram@.skip(4));
        let mut client_id_ours: bool = false;
        let mut server_id: bool = false;
        let mut info: Info = Info::default();
        let mut i: usize = 0;
        while i < o.len()
            invariant
                i <= o@.len(),
                list_of(o@) == all,
                all == options_in(datagram@.skip(4)),
                datagram@.len() >= 4,
                client_id_ours <==> exists|j: int|
                    0 <= j < i && (#[trigger] all[j]).0 == OPTION_CLIENT_ID,
                forall|j: int|
                    0 <= j < i && (#[trigger] all[j]).0 == OPTION_CLIENT_ID ==> all[j].1
                        == self@.duid,
                server_id <==> (last_of(all.take(i as int), OPTION_SERVER_ID, 1) matches Some(s)
                    && s.len() > 0),
                info@ == info_in(all.take(i as int)),
            decreases o@.len() - i,
        {
            let code: u16 = o[i].0;
            let data: &Vec<u8> = &o[i].1;
            proof {
                let next = all.take(i + 1);
                assert(next.drop_last() =~= all.take(i as int));
                assert(next.last() == all[i as int]);
                assert(all[i as int] == (code, data@));
            }
            if code == OPTION_CLIENT_ID {
                if !bytes::same(data.as_slice(), self.config.duid.as_slice()) {
                    return None;
                }
                client_id_ours = true;
            } else if code == OPTION_SERVER_ID {
                server_id = data.len() > 0;
            } else if code == OPTION_DNS_SERVERS {
                if data.len() % 16 == 0 {
                    info.dns = lists::servers(data.as_slice());
                }
            } else if code == OPTION_DOMAIN_LIST {
                info.search = domain_list(data.as_slice());
            }
            i = i + 1;
        }
        assert(all.take(i as int) =~= all);
        if client_id_ours && server_id {
            Some(info)
        } else {
            None
        }
    }

    fn next_random(&mut self) -> (n: u64)
        ensures
            final(self)@ == (ClientV { rng: rng::stirred(old(self)@.rng), ..old(self)@ }),
            n == rng::stirred(old(self)@.rng),
    {
        let c: u64 = rng::next(self.rng);
        self.rng = c;
        c
    }

    fn jitter(&mut self, interval: Duration) -> (d: Duration)
        requires
            interval == old(self)@.interval,
            interval.nanos <= MAX_RETRANSMIT,
        ensures
            final(self)@ == (ClientV { rng: rng::stirred(old(self)@.rng), ..old(self)@ }),
            d.nanos == old(self)@.jittered(rng::stirred(old(self)@.rng)),
            d.nanos <= 2 * MAX_RETRANSMIT,
    {
        let millis: u64 = interval.nanos / clock::MILLI;
        let draw: u64 = self.next_random() % (millis / 5 + 1);
        let n: u64 = millis - millis / 10 + draw;
        Duration { nanos: n * clock::MILLI }
    }
}

/// Section 21.9: elapsed time is hundredths of a second, saturating.
fn elapsed(started: Option<Instant>, now: Instant) -> (n: u16)
    ensures
        n == elapsed_at(started, now),
{
    match started {
        Some(t) => {
            let n: u64 = now.since(t).nanos / 10_000_000;
            if n < 65535 {
                n as u16
            } else {
                65535
            }
        },
        None => 0,
    }
}

/// Appends an option; a length over 65535 keeps its low sixteen bits.
pub fn push_option(out: &mut Vec<u8>, code: u16, data: &[u8])
    ensures
        final(out)@ == old(out)@ + option_bytes(code, data@),
{
    let low: u16 = (data.len() % 0x1_0000) as u16;
    proof {
        reveal_with_fuel(bytes::be_bytes, 3);
        assert(bytes::be_bytes(low as nat, 2) =~= bytes::be_bytes(data@.len(), 2));
    }
    bytes::push_u16(out, code);
    bytes::push_u16(out, low);
    bytes::extend(out, data);
    assert(out@ =~= old(out)@ + option_bytes(code, data@));
}

/// The options of a list as values.
pub open spec fn list_of(o: Seq<(u16, Vec<u8>)>) -> Seq<(u16, Seq<u8>)> {
    Seq::new(o.len(), |i: int| (o[i].0, o[i].1@))
}

/// Walk the options region from `from`; a truncated option ends the walk.
pub fn options(b: &[u8], from: usize) -> (out: Vec<(u16, Vec<u8>)>)
    requires
        from <= b@.len(),
    ensures
        list_of(out@) == options_in(b@.skip(from as int)),
{
    let mut out: Vec<(u16, Vec<u8>)> = Vec::new();
    let mut at: usize = from;
    let n: usize = b.len();
    let ghost whole = options_in(b@.skip(from as int));
    assert(list_of(out@) + whole =~= whole);
    while n - at >= 4
        invariant
            from <= at <= n,
            n == b@.len(),
            whole == options_in(b@.skip(from as int)),
            list_of(out@) + options_in(b@.skip(at as int)) == whole,
        decreases n - at,
    {
        let ghost rest = b@.skip(at as int);
        assert(rest.subrange(0, 2) =~= b@.subrange(at as int, at + 2));
        assert(rest.subrange(2, 4) =~= b@.subrange(at + 2, at + 4));
        let code: u16 = bytes::u16_at(b, at);
        let len: usize = bytes::u16_at(b, at + 2) as usize;
        if n - at - 4 < len {
            assert(list_of(out@) + Seq::<(u16, Seq<u8>)>::empty() =~= list_of(out@));
            return out;
        }
        let data: Vec<u8> = bytes::copy(b, at + 4, at + 4 + len);
        proof {
            assert(data@ =~= rest.subrange(4, 4 + len));
            assert(rest.skip(4 + len) =~= b@.skip(at + 4 + len));
            let more = options_in(b@.skip(at + 4 + len));
            let before = list_of(out@);
            let after = list_of(out@.push((code, data)));
            assert(after =~= before.push((code, data@)));
            assert(before + (seq![(code, data@)] + more) =~= after + more);
        }
        out.push((code, data));
        at = at + 4 + len;
    }
    assert(list_of(out@) + Seq::<(u16, Seq<u8>)>::empty() =~= list_of(out@));
    out
}

proof fn first_of_from(o: Seq<(u16, Seq<u8>)>, code: u16, len: nat, n: int)
    requires
        0 <= n <= o.len(),
        forall|i: int| 0 <= i < n ==> !((#[trigger] o[i]).0 == code && o[i].1.len() == len),
    ensures
        first_of(o, code, len) == first_of(o.skip(n), code, len),
    decreases n,
{
    if n > 0 {
        assert(!(o[0].0 == code && o[0].1.len() == len));
        assert forall|i: int| 0 <= i < n - 1 implies !((#[trigger] o.drop_first()[i]).0 == code
            && o.drop_first()[i].1.len() == len) by {
            assert(o.drop_first()[i] == o[i + 1]);
        }
        first_of_from(o.drop_first(), code, len, n - 1);
        assert(o.drop_first().skip(n - 1) =~= o.skip(n));
    } else {
        assert(o.skip(0) =~= o);
    }
}

/// How long a reply lets its information stand: what its refresh-time option
/// says, a day where it says nothing, and ten minutes at least.
pub fn refresh_time(datagram: &[u8]) -> (d: Duration)
    requires
        datagram@.len() >= 4,
    ensures
        d.nanos == refresh_in(datagram@),
        d.nanos <= u32::MAX * 1_000_000_000,
{
    let o: Vec<(u16, Vec<u8>)> = options(datagram, 4);
    let ghost all = options_in(datagram@.skip(4));
    let mut named: u64 = REFRESH_DEFAULT;
    let mut i: usize = 0;
    let mut found: bool = false;
    while i < o.len() && !found
        invariant
            i <= o@.len(),
            list_of(o@) == all,
            !found ==> named == REFRESH_DEFAULT && forall|j: int|
                0 <= j < i ==> !((#[trigger] all[j]).0 == OPTION_INFORMATION_REFRESH_TIME
                    && all[j].1.len() == 4),
            found ==> (first_of(all, OPTION_INFORMATION_REFRESH_TIME, 4) matches Some(data) && named
                == bytes::be_nat(data) * 1_000_000_000),
            named <= u32::MAX * 1_000_000_000,
        decreases o@.len() - i + (if found {
            0int
        } else {
            1int
        }),
    {
        assert(all[i as int] == (o@[i as int].0, o@[i as int].1@));
        if o[i].0 == OPTION_INFORMATION_REFRESH_TIME && o[i].1.len() == 4 {
            let data: &Vec<u8> = &o[i].1;
            proof {
                first_of_from(all, OPTION_INFORMATION_REFRESH_TIME, 4, i as int);
                assert(all.skip(i as int)[0] == all[i as int]);
                assert(data@.subrange(0, 4) =~= data@);
            }
            named = bytes::u32_at(data.as_slice(), 0) as u64 * clock::NANOS;
            found = true;
        } else {
            i = i + 1;
        }
    }
    proof {
        if !found {
            first_of_from(all, OPTION_INFORMATION_REFRESH_TIME, 4, i as int);
        }
    }
    if named > REFRESH_MINIMUM {
        Duration { nanos: named }
    } else {
        Duration { nanos: REFRESH_MINIMUM }
    }
}

/// Whatever a server sends, its answer stays within sixteen servers and
/// sixteen domains.
pub proof fn info_bounded(o: Seq<(u16, Seq<u8>)>)
    ensures
        info_in(o).dns.len() <= MAX_SERVERS,
        info_in(o).search.len() <= MAX_DOMAINS,
{
    match last_of(o, OPTION_DNS_SERVERS, 16) {
        Some(data) => lists::usable_in_len(
            data,
            if data.len() / 16 < MAX_SERVERS {
                (data.len() / 16) as nat
            } else {
                MAX_SERVERS as nat
            },
        ),
        None => {},
    }
    match last_of(o, OPTION_DOMAIN_LIST, 1) {
        Some(data) => lists::domains_in_len(data, MAX_DOMAINS as nat),
        None => {},
    }
}

/// The domains of a domain-list option.
pub fn domain_list(b: &[u8]) -> (out: Vec<String>)
    ensures
        text::list_view(out@) == lists::domains_in(b@, MAX_DOMAINS as nat),
{
    lists::domain_list(b)
}

/// An answer that says what was already known is no change.
pub proof fn an_unchanged_answer_is_quiet(c: ClientV, now: Instant, d: Seq<u8>)
    requires
        reply_info(c.duid, c.txid, d) == c.info,
    ensures
        c.receive(now, d).1 == Seq::<ActionV>::empty(),
        c.receive(now, d).0.info == c.info,
{
}

/// A reply to another transaction, or with another client's id, or with no
/// server's, changes nothing.
pub proof fn strangers_are_ignored(c: ClientV, now: Instant, d: Seq<u8>)
    requires
        d.len() < 4 || d[0] != REPLY || d.subrange(1, 4) != c.txid || (exists|i: int|
            0 <= i < options_in(d.skip(4)).len() && (#[trigger] options_in(d.skip(4))[i]).0
                == OPTION_CLIENT_ID && options_in(d.skip(4))[i].1 != c.duid) || last_of(
            options_in(d.skip(4)),
            OPTION_SERVER_ID,
            1,
        ) is None,
    ensures
        c.receive(now, d) == (c, Seq::<ActionV>::empty()),
{
}

/// However short a refresh time the server names, the client asks again no
/// sooner than after ten minutes.
pub proof fn the_refresh_has_a_floor(c: ClientV, now: Instant, d: Seq<u8>)
    requires
        now.nanos <= clock::HORIZON,
        c.receive(now, d).0 != c,
    ensures
        c.receive(now, d).0.refresh_at matches Some(at) && at.nanos >= now.nanos + REFRESH_MINIMUM,
{
    match first_of(options_in(d.skip(4)), OPTION_INFORMATION_REFRESH_TIME, 4) {
        Some(data) => {
            first_of_len(options_in(d.skip(4)), OPTION_INFORMATION_REFRESH_TIME, 4);
            bytes::be_nat_bound(data);
            bytes::pow256_16();
        },
        None => {},
    }
}

proof fn first_of_len(o: Seq<(u16, Seq<u8>)>, code: u16, len: nat)
    ensures
        first_of(o, code, len) matches Some(data) ==> data.len() == len,
    decreases o.len(),
{
    if o.len() > 0 {
        first_of_len(o.drop_first(), code, len);
    }
}

/// Unanswered, each wait is within a tenth of the current interval, which then
/// doubles up to an hour.
pub proof fn retransmission_backs_off(c: ClientV, now: Instant)
    requires
        c.wf(),
        now.nanos <= clock::HORIZON,
        c.retransmit_at matches Some(at) && now.nanos >= at.nanos,
    ensures
        c.send_if_due(now).0.retransmit_at matches Some(at) && now.nanos + (c.interval.nanos as int
            / 1_000_000) * 900_000 <= at.nanos <= now.nanos + (c.interval.nanos as int / 1_000_000)
            * 1_100_000 + 1_000_000,
        c.send_if_due(now).0.interval.nanos == if 2 * c.interval.nanos < MAX_RETRANSMIT {
            2 * c.interval.nanos
        } else {
            MAX_RETRANSMIT as int
        },
{
    let r = rng::stirred(c.rng);
    let millis = c.interval.nanos as int / 1_000_000;
    assert(0 <= r as int % (millis / 5 + 1) <= millis / 5) by (nonlinear_arith)
        requires
            millis >= 0,
    ;
}

} // verus!
