//! `net` — the netd operator command.
//!
//! Shows state and pokes the daemon. Changing the network is a registry write;
//! `rules` and `profiles` show what is there, because the interface layer and
//! its profiles are configuration and netd merely executes them.

use vstd::prelude::*;
use vstd::string::*;
use vstd::utf8::*;
use crate::bytes;
use crate::libnetd;
use crate::libnetd::{InterfaceStatus, InterfaceStatusV, LeaseStatus, LeaseStatusV, Level, Reply, ReplyV, Status};
use crate::netd::config;
use crate::netd::config::{Record, RegValue, ValueType};
use crate::text;

verus! {

// ---- commands --------------------------------------------------------------

/// How long `wait` waits when it is not told, in seconds.
pub const DEFAULT_TIMEOUT: u64 = 60;

/// What the command was asked to do.
#[derive(Debug, PartialEq, Eq)]
pub enum Command {
    Status,
    Renew(String),
    Reconcile,
    Rules,
    Profiles,
    /// Until the machine reaches the level, so many seconds at most.
    Wait(Level, u64),
    /// Nothing it knows.
    Usage,
}

/// The same as values.
#[verifier::ext_equal]
pub enum CommandV {
    Status,
    Renew(Seq<char>),
    Reconcile,
    Rules,
    Profiles,
    Wait(Level, u64),
    Usage,
}

impl View for Command {
    type V = CommandV;

    open spec fn view(&self) -> CommandV {
        match self {
            Command::Status => CommandV::Status,
            Command::Renew(s) => CommandV::Renew(s@),
            Command::Reconcile => CommandV::Reconcile,
            Command::Rules => CommandV::Rules,
            Command::Profiles => CommandV::Profiles,
            Command::Wait(l, n) => CommandV::Wait(*l, *n),
            Command::Usage => CommandV::Usage,
        }
    }
}

/// The seconds that a word says, a minute where it says none.
pub open spec fn seconds(words: Seq<Seq<char>>) -> u64 {
    if words.len() == 3 {
        match text::unsigned_value(words[2], u64::MAX as nat) {
            Some(n) => n as u64,
            None => DEFAULT_TIMEOUT,
        }
    } else {
        DEFAULT_TIMEOUT
    }
}

/// What the words of a command line ask for.
pub open spec fn asked(w: Seq<Seq<char>>) -> CommandV {
    if w.len() == 1 && w[0] == "status"@ {
        CommandV::Status
    } else if w.len() == 2 && w[0] == "renew"@ {
        CommandV::Renew(w[1])
    } else if w.len() == 1 && w[0] == "reconcile"@ {
        CommandV::Reconcile
    } else if w.len() == 1 && w[0] == "rules"@ {
        CommandV::Rules
    } else if (w.len() == 1 && w[0] == "profiles"@) || (w.len() == 2 && w[0] == "profile"@ && w[1]
        == "list"@) {
        CommandV::Profiles
    } else if (w.len() == 2 || w.len() == 3) && w[0] == "wait"@ {
        match libnetd::level_named(w[1]) {
            Some(l) => CommandV::Wait(l, seconds(w)),
            None => CommandV::Usage,
        }
    } else {
        CommandV::Usage
    }
}

fn is(words: &Vec<String>, at: usize, s: &str) -> (r: bool)
    requires
        at < words@.len(),
    ensures
        r == (text::list_view(words@)[at as int] == s@),
{
    text::same(words[at].as_str(), s)
}

/// What the words of a command line ask for.
pub fn parse(words: &Vec<String>) -> (c: Command)
    ensures
        c@ == asked(text::list_view(words@)),
{
    let n: usize = words.len();
    if n == 1 {
        if is(words, 0, "status") {
            return Command::Status;
        }
        if is(words, 0, "reconcile") {
            return Command::Reconcile;
        }
        if is(words, 0, "rules") {
            return Command::Rules;
        }
        if is(words, 0, "profiles") {
            return Command::Profiles;
        }
        return Command::Usage;
    }
    if n == 2 && is(words, 0, "renew") {
        return Command::Renew(words[1].clone());
    }
    if n == 2 && is(words, 0, "profile") && is(words, 1, "list") {
        proof {
            reveal_strlit("profile");
            reveal_strlit("wait");
            reveal_strlit("renew");
        }
        return Command::Profiles;
    }
    if (n == 2 || n == 3) && is(words, 0, "wait") {
        let level: Level = match Level::parse(words[1].as_str()) {
            Some(l) => l,
            None => {
                return Command::Usage;
            },
        };
        let mut timeout: u64 = DEFAULT_TIMEOUT;
        if n == 3 {
            match text::parse_number(words[2].as_str(), u64::MAX) {
                Some(t) => {
                    timeout = t;
                },
                None => {},
            }
        }
        return Command::Wait(level, timeout);
    }
    Command::Usage
}

/// What comes of asking once more how far the machine is.
#[derive(Debug, Clone, Copy, PartialEq, Eq, Structural)]
pub enum Waited {
    Reached,
    /// Ask again in half a second.
    Again,
    TimedOut,
}

/// What comes of asking once more how far the machine is: `at` is its level, if
/// the daemon said, and `late` whether the time is up.
pub fn wait(at: Option<Level>, level: Level, late: bool) -> (r: Waited)
    ensures
        r == if at matches Some(l) && l.rank() >= level.rank() {
            Waited::Reached
        } else if late {
            Waited::TimedOut
        } else {
            Waited::Again
        },
{
    match at {
        Some(l) => {
            if l.reaches(level) {
                return Waited::Reached;
            }
        },
        None => {},
    }
    if late {
        Waited::TimedOut
    } else {
        Waited::Again
    }
}

/// What comes of a reply to a request that something be done: nothing to say,
/// or what the daemon said against it; a reply of any other kind is a failure
/// without words.
pub fn outcome(reply: &Reply) -> (r: Result<(), Option<String>>)
    ensures
        match (r, reply@) {
            (Ok(_), ReplyV::Done) => true,
            (Err(Some(e)), ReplyV::Error(f)) => e@ == f,
            (Err(None), ReplyV::Status(_)) => true,
            (Err(None), ReplyV::Snapshot(_)) => true,
            _ => false,
        },
{
    match reply {
        Reply::Done => Ok(()),
        Reply::Error(e) => Err(Some(e.clone())),
        _ => Err(None),
    }
}

/// What a reply to a request for the status says: the status, or why there is
/// none.
pub fn status(reply: Reply) -> (r: Result<Status, String>)
    ensures
        match (r, reply@) {
            (Ok(s), ReplyV::Status(v)) => s@ == v,
            (Err(e), ReplyV::Error(f)) => e@ == f,
            (Err(e), ReplyV::Done) => e@ == "unexpected reply"@,
            (Err(e), ReplyV::Snapshot(_)) => e@ == "unexpected reply"@,
            _ => false,
        },
{
    match reply {
        Reply::Status(s) => Ok(s),
        Reply::Error(e) => Err(e),
        _ => Err(String::from_str("unexpected reply")),
    }
}

// ---- the status ------------------------------------------------------------

/// One interface as shown.
#[derive(Debug, PartialEq, Eq)]
pub struct InterfaceReport {
    pub status: InterfaceStatus,
    /// The rule that spoke.
    pub rule: Option<String>,
    /// What it said.
    pub verdict: Option<String>,
    /// The id of the network on the other side.
    pub network: Option<String>,
    pub network_name: Option<String>,
    pub network_trust: Option<String>,
    pub gateway6: Option<String>,
    pub warning: Option<String>,
}

/// The same as values.
#[verifier::ext_equal]
pub struct InterfaceReportV {
    pub status: InterfaceStatusV,
    pub rule: Option<Seq<char>>,
    pub verdict: Option<Seq<char>>,
    pub network: Option<Seq<char>>,
    pub network_name: Option<Seq<char>>,
    pub network_trust: Option<Seq<char>>,
    pub gateway6: Option<Seq<char>>,
    pub warning: Option<Seq<char>>,
}

impl View for InterfaceReport {
    type V = InterfaceReportV;

    open spec fn view(&self) -> InterfaceReportV {
        InterfaceReportV {
            status: self.status@,
            rule: text::opt_view(self.rule),
            verdict: text::opt_view(self.verdict),
            network: text::opt_view(self.network),
            network_name: text::opt_view(self.network_name),
            network_trust: text::opt_view(self.network_trust),
            gateway6: text::opt_view(self.gateway6),
            warning: text::opt_view(self.warning),
        }
    }
}

/// The machine as shown.
#[derive(Debug, PartialEq, Eq)]
pub struct Report {
    pub hostname: String,
    pub level: Level,
    /// Why the last generation was refused, if it was.
    pub refusal: Option<String>,
    pub interfaces: Vec<InterfaceReport>,
}

/// The lines of a list.
pub type Lines = Seq<Seq<char>>;

/// A line for something that is there.
pub open spec fn line_if(label: Seq<char>, v: Option<Seq<char>>) -> Lines {
    match v {
        Some(s) => seq![label + s],
        None => Seq::empty(),
    }
}

/// A line for a list that has anything in it.
pub open spec fn line_of(label: Seq<char>, list: Seq<Seq<char>>) -> Lines {
    if list.len() > 0 {
        seq![label + text::joined(list, " "@)]
    } else {
        Seq::empty()
    }
}

/// A line for each of a list.
pub open spec fn lines_each(label: Seq<char>, list: Seq<Seq<char>>) -> Lines {
    list.map_values(|s: Seq<char>| label + s)
}

/// What spoke, and what it said.
pub open spec fn verdict_line(i: InterfaceReportV) -> Seq<char> {
    let by = match i.rule {
        Some(r) => r,
        None => "backstop"@,
    };
    match (i.verdict, i.status.profile) {
        (Some(v), Some(p)) => "  verdict    "@ + v + "("@ + p + ")"@ + " by "@ + by,
        (Some(v), None) => "  verdict    "@ + v + " by "@ + by,
        (None, _) => "  verdict    (none)"@ + " by "@ + by,
    }
}

/// Whether it is up, and whether it has carrier.
pub open spec fn state_line(i: InterfaceReportV) -> Seq<char> {
    "  state      "@ + (if i.status.up {
        "up"@
    } else {
        "down"@
    }) + (if i.status.carrier {
        ", carrier"@
    } else {
        ", no-carrier"@
    })
}

/// The network on the other side.
pub open spec fn network_lines(i: InterfaceReportV) -> Lines {
    match i.network {
        Some(n) => {
            let name = match i.network_name {
                Some(s) => if s.len() > 0 {
                    s + " "@
                } else {
                    s
                },
                None => Seq::empty(),
            };
            let trust = match i.network_trust {
                Some(t) => " trust "@ + t,
                None => Seq::empty(),
            };
            seq!["  network    "@ + name + "["@ + n + "]"@ + trust]
        },
        None => Seq::empty(),
    }
}

/// The lease.
pub open spec fn lease_lines(l: Option<LeaseStatusV>) -> Lines {
    match l {
        Some(l) => seq![
            "  lease      "@ + l.state + " from "@ + l.server + ", "@ + text::decimal(
                l.expires_in as nat,
            ) + "s left"@,
        ],
        None => Seq::empty(),
    }
}

/// The lines for what an interface is and stands in.
pub open spec fn head_lines(i: InterfaceReportV) -> Lines {
    seq![
        ""@,
        i.status.name + "  ["@ + i.status.ifid + "]"@,
        verdict_line(i),
        state_line(i),
    ] + (if i.verdict == Some("JOIN"@) {
        seq!["  readiness  "@ + i.status.level.name()]
    } else {
        Seq::empty()
    }) + (if i.status.mac.len() > 0 {
        seq!["  hardware   "@ + i.status.mac + " "@ + i.status.path + " "@ + i.status.driver]
    } else {
        Seq::empty()
    }) + network_lines(i)
}

/// The lines for how an interface is reached.
pub open spec fn reach_lines(i: InterfaceReportV) -> Lines {
    lines_each("  address    "@, i.status.addresses) + line_if(
        "  gateway    "@,
        i.status.gateway,
    ) + line_if("  gateway6   "@, i.gateway6) + line_of("  dns        "@, i.status.dns) + line_of(
        "  search     "@,
        i.status.search,
    ) + lease_lines(i.status.lease) + line_if("  warning    "@, i.warning)
}

/// The lines for an interface.
pub open spec fn interface_lines(i: InterfaceReportV) -> Lines {
    head_lines(i) + reach_lines(i)
}

/// The lines for interfaces one after another.
pub open spec fn interfaces_lines(s: Seq<InterfaceReport>) -> Lines
    decreases s.len(),
{
    if s.len() == 0 {
        Seq::empty()
    } else {
        interfaces_lines(s.drop_last()) + interface_lines(s.last()@)
    }
}

/// The lines for the machine.
pub open spec fn status_lines(r: Report) -> Lines {
    seq![
        "hostname   "@ + (if r.hostname@.len() == 0 {
            "(unset)"@
        } else {
            r.hostname@
        }),
        "readiness  "@ + r.level.name(),
    ] + (match r.refusal {
        Some(e) => seq![
            "policy     REFUSED: "@ + e@ + " (the last good generation stands)"@,
        ],
        None => Seq::empty(),
    }) + interfaces_lines(r.interfaces@)
}

fn put(out: &mut Vec<String>, line: String)
    ensures
        text::list_view(final(out)@) == text::list_view(old(out)@) + seq![line@],
{
    let ghost before = text::list_view(out@);
    out.push(line);
    assert(text::list_view(out@) =~= before + seq![line@]);
}

fn put_if(out: &mut Vec<String>, label: &str, v: &Option<String>)
    ensures
        text::list_view(final(out)@) == text::list_view(old(out)@) + line_if(
            label@,
            text::opt_view(*v),
        ),
{
    match v {
        Some(s) => put(out, text::cat2(label, s.as_str())),
        None => {
            assert(text::list_view(out@) =~= text::list_view(out@) + Seq::empty());
        },
    }
}

fn put_of(out: &mut Vec<String>, label: &str, list: &Vec<String>)
    ensures
        text::list_view(final(out)@) == text::list_view(old(out)@) + line_of(
            label@,
            text::list_view(list@),
        ),
{
    if list.len() > 0 {
        let all: String = text::join(list, " ");
        put(out, text::cat2(label, all.as_str()));
    } else {
        assert(text::list_view(out@) =~= text::list_view(out@) + Seq::empty());
    }
}

fn put_each(out: &mut Vec<String>, label: &str, list: &Vec<String>)
    ensures
        text::list_view(final(out)@) == text::list_view(old(out)@) + lines_each(
            label@,
            text::list_view(list@),
        ),
{
    let ghost before = text::list_view(out@);
    let ghost all = text::list_view(list@);
    let mut i: usize = 0;
    assert(before =~= before + lines_each(label@, all.take(0)));
    while i < list.len()
        invariant
            i <= list@.len(),
            all == text::list_view(list@),
            text::list_view(out@) == before + lines_each(label@, all.take(i as int)),
        decreases list@.len() - i,
    {
        put(out, text::cat2(label, list[i].as_str()));
        assert(all[i as int] == list@[i as int]@);
        assert(lines_each(label@, all.take(i + 1)) =~= lines_each(label@, all.take(i as int)).push(
            label@ + all[i as int],
        ));
        i = i + 1;
        assert(text::list_view(out@) =~= before + lines_each(label@, all.take(i as int)));
    }
    assert(all.take(i as int) =~= all);
}

fn put_verdict(out: &mut Vec<String>, i: &InterfaceReport)
    ensures
        text::list_view(final(out)@) == text::list_view(old(out)@) + seq![verdict_line(i@)],
{
    let by: &str = match &i.rule {
        Some(r) => r.as_str(),
        None => "backstop",
    };
    let mut line: String = match (&i.verdict, &i.status.profile) {
        (Some(v), Some(p)) => text::cat5("  verdict    ", v.as_str(), "(", p.as_str(), ")"),
        (Some(v), None) => text::cat2("  verdict    ", v.as_str()),
        (None, _) => String::from_str("  verdict    (none)"),
    };
    line.append(" by ");
    line.append(by);
    put(out, line);
}

fn put_network(out: &mut Vec<String>, i: &InterfaceReport)
    ensures
        text::list_view(final(out)@) == text::list_view(old(out)@) + network_lines(i@),
{
    match &i.network {
        Some(n) => {
            let mut line: String = String::from_str("  network    ");
            match &i.network_name {
                Some(s) => {
                    line.append(s.as_str());
                    if s.as_str().unicode_len() > 0 {
                        line.append(" ");
                    }
                },
                None => {},
            }
            let ghost name = match i@.network_name {
                Some(s) => if s.len() > 0 {
                    s + " "@
                } else {
                    s
                },
                None => Seq::empty(),
            };
            assert(line@ =~= "  network    "@ + name);
            line.append("[");
            line.append(n.as_str());
            line.append("]");
            match &i.network_trust {
                Some(t) => {
                    line.append(" trust ");
                    line.append(t.as_str());
                },
                None => {},
            }
            let ghost trust = match i@.network_trust {
                Some(t) => " trust "@ + t,
                None => Seq::empty(),
            };
            assert(line@ =~= "  network    "@ + name + "["@ + n@ + "]"@ + trust);
            put(out, line);
        },
        None => {
            assert(text::list_view(out@) =~= text::list_view(out@) + Seq::empty());
        },
    }
}

fn put_lease(out: &mut Vec<String>, lease: &Option<LeaseStatus>)
    ensures
        text::list_view(final(out)@) == text::list_view(old(out)@) + lease_lines(
            libnetd::decode::opt_lease(*lease),
        ),
{
    match lease {
        Some(l) => {
            let mut line: String = text::cat5(
                "  lease      ",
                l.state.as_str(),
                " from ",
                l.server.as_str(),
                ", ",
            );
            line.append(text::decimal_of(l.expires_in).as_str());
            line.append("s left");
            put(out, line);
        },
        None => {
            assert(text::list_view(out@) =~= text::list_view(out@) + Seq::empty());
        },
    }
}

fn head(i: &InterfaceReport) -> (out: Vec<String>)
    ensures
        text::list_view(out@) == head_lines(i@),
{
    let mut out: Vec<String> = Vec::new();
    assert(text::list_view(out@) =~= Seq::empty());
    put(&mut out, String::from_str(""));
    put(&mut out, text::cat4(i.status.name.as_str(), "  [", i.status.ifid.as_str(), "]"));
    put_verdict(&mut out, i);
    let up: &str = if i.status.up {
        "up"
    } else {
        "down"
    };
    let carrier: &str = if i.status.carrier {
        ", carrier"
    } else {
        ", no-carrier"
    };
    put(&mut out, text::cat3("  state      ", up, carrier));
    let ghost first = seq![
        ""@,
        i@.status.name + "  ["@ + i@.status.ifid + "]"@,
        verdict_line(i@),
        state_line(i@),
    ];
    assert(text::list_view(out@) =~= first);
    let joined: bool = match &i.verdict {
        Some(v) => text::same(v.as_str(), "JOIN"),
        None => false,
    };
    if joined {
        put(&mut out, text::cat2("  readiness  ", i.status.level.as_str()));
    } else {
        assert(text::list_view(out@) =~= first + Seq::empty());
    }
    let ghost second = text::list_view(out@);
    if i.status.mac.as_str().unicode_len() > 0 {
        let mut line: String = text::cat4(
            "  hardware   ",
            i.status.mac.as_str(),
            " ",
            i.status.path.as_str(),
        );
        line.append(" ");
        line.append(i.status.driver.as_str());
        put(&mut out, line);
    } else {
        assert(second =~= second + Seq::empty());
    }
    put_network(&mut out, i);
    out
}

fn reach(i: &InterfaceReport) -> (out: Vec<String>)
    ensures
        text::list_view(out@) == reach_lines(i@),
{
    let mut out: Vec<String> = Vec::new();
    assert(text::list_view(out@) =~= Seq::empty());
    put_each(&mut out, "  address    ", &i.status.addresses);
    assert(text::list_view(out@) =~= lines_each("  address    "@, i@.status.addresses));
    put_if(&mut out, "  gateway    ", &i.status.gateway);
    put_if(&mut out, "  gateway6   ", &i.gateway6);
    put_of(&mut out, "  dns        ", &i.status.dns);
    put_of(&mut out, "  search     ", &i.status.search);
    put_lease(&mut out, &i.status.lease);
    put_if(&mut out, "  warning    ", &i.warning);
    out
}

fn append(out: &mut Vec<String>, more: Vec<String>)
    ensures
        text::list_view(final(out)@) == text::list_view(old(out)@) + text::list_view(more@),
{
    let ghost before = text::list_view(out@);
    let ghost added = text::list_view(more@);
    let mut rest: Vec<String> = more;
    out.append(&mut rest);
    assert(text::list_view(out@) =~= before + added);
}

/// The lines that show the machine's status.
pub fn print_status(r: &Report) -> (out: Vec<String>)
    ensures
        text::list_view(out@) == status_lines(*r),
{
    let mut out: Vec<String> = Vec::new();
    assert(text::list_view(out@) =~= Seq::empty());
    let name: &str = if r.hostname.as_str().unicode_len() == 0 {
        "(unset)"
    } else {
        r.hostname.as_str()
    };
    put(&mut out, text::cat2("hostname   ", name));
    put(&mut out, text::cat2("readiness  ", r.level.as_str()));
    let ghost first = seq!["hostname   "@ + name@, "readiness  "@ + r.level.name()];
    assert(text::list_view(out@) =~= first);
    match &r.refusal {
        Some(e) => put(
            &mut out,
            text::cat3("policy     REFUSED: ", e.as_str(), " (the last good generation stands)"),
        ),
        None => {
            assert(first =~= first + Seq::empty());
        },
    }
    let ghost top = text::list_view(out@);
    let mut i: usize = 0;
    assert(top =~= top + interfaces_lines(r.interfaces@.take(0)));
    while i < r.interfaces.len()
        invariant
            i <= r.interfaces@.len(),
            text::list_view(out@) == top + interfaces_lines(r.interfaces@.take(i as int)),
        decreases r.interfaces@.len() - i,
    {
        assert(r.interfaces@.take(i + 1).drop_last() =~= r.interfaces@.take(i as int));
        let ghost before = text::list_view(out@);
        append(&mut out, head(&r.interfaces[i]));
        append(&mut out, reach(&r.interfaces[i]));
        assert(text::list_view(out@) =~= before + interface_lines(r.interfaces@[i as int]@));
        i = i + 1;
        assert(text::list_view(out@) =~= top + interfaces_lines(r.interfaces@.take(i as int)));
    }
    assert(r.interfaces@.take(i as int) =~= r.interfaces@);
    out
}

// ---- the registry ----------------------------------------------------------

/// The path of a key under another.
pub open spec fn path_of(path: Seq<char>, name: Seq<char>) -> Seq<char> {
    if path.len() == 0 {
        name
    } else {
        path + "/"@ + name
    }
}

/// The path of a key under another.
pub fn child_path(path: &str, name: &str) -> (r: String)
    ensures
        r@ == path_of(path@, name@),
{
    if path.unicode_len() == 0 {
        String::from_str(name)
    } else {
        text::cat3(path, "/", name)
    }
}

/// The texts of a value: those of a list, or the one of a string.
pub open spec fn multi_in(ty: ValueType, data: Seq<u8>) -> Seq<Seq<char>> {
    match ty {
        ValueType::MultiSz => config::stored_texts(data),
        ValueType::Sz => match config::stored_text(data) {
            Some(s) => seq![s],
            None => Seq::empty(),
        },
        _ => Seq::empty(),
    }
}

/// The texts of a value.
fn multi(ty: ValueType, data: &Vec<u8>) -> (out: Vec<String>)
    ensures
        text::list_view(out@) == multi_in(ty, data@),
{
    match ty {
        ValueType::MultiSz => config::texts_of(data.as_slice()),
        ValueType::Sz => {
            let mut out: Vec<String> = Vec::new();
            match config::text_of(data.as_slice()) {
                Some(s) => {
                    out.push(s);
                    assert(text::list_view(out@) =~= seq![s@]);
                },
                None => {
                    assert(text::list_view(out@) =~= Seq::empty());
                },
            }
            out
        },
        _ => {
            let out: Vec<String> = Vec::new();
            assert(text::list_view(out@) =~= Seq::empty());
            out
        },
    }
}

/// The number in a value of four bytes.
pub open spec fn dword_in(ty: ValueType, data: Seq<u8>) -> Option<nat> {
    if ty is Dword && data.len() == 4 {
        Some(bytes::le_nat(data))
    } else {
        None
    }
}

/// The number in a value of four bytes.
fn dword(ty: ValueType, data: &Vec<u8>) -> (r: Option<u64>)
    ensures
        match r {
            Some(n) => dword_in(ty, data@) == Some(n as nat),
            None => dword_in(ty, data@) is None,
        },
{
    match ty {
        ValueType::Dword => if data.len() == 4 {
            assert(data@.subrange(0, 4) =~= data@);
            Some(bytes::le_at(data.as_slice(), 0, 4))
        } else {
            None
        },
        _ => None,
    }
}

/// A value as shown: its texts, or its number, or else `none`.
pub open spec fn shown(ty: ValueType, data: Seq<u8>, none: Seq<char>) -> Seq<char> {
    let v = multi_in(ty, data);
    if v.len() > 0 {
        text::joined(v, ","@)
    } else {
        match dword_in(ty, data) {
            Some(n) => text::decimal(n),
            None => none,
        }
    }
}

fn show(ty: ValueType, data: &Vec<u8>, none: &str) -> (r: String)
    ensures
        r@ == shown(ty, data@, none@),
{
    let v: Vec<String> = multi(ty, data);
    assert(v@.len() == text::list_view(v@).len());
    if v.len() > 0 {
        return text::join(&v, ",");
    }
    match dword(ty, data) {
        Some(n) => text::decimal_of(n),
        None => String::from_str(none),
    }
}

/// Whether a value of a rule is not a condition of it.
pub open spec fn of_the_rule(name: Seq<char>) -> bool {
    name == "Actions"@ || name == "Priority"@ || name == "Enabled"@
}

/// Whether a value is one of those listed.
pub open spec fn listed(rule: bool, name: Seq<u8>) -> bool {
    valid_utf8(name) && {
        let n = decode_utf8(name);
        &&& n.len() > 0
        &&& n != "Enabled"@
        &&& rule ==> !of_the_rule(n)
    }
}

/// The names and values that a key lists, by name, in two lists side by side.
pub open spec fn listing(rule: bool, records: Seq<Record>, none: Seq<char>) -> (
    Seq<Seq<char>>,
    Seq<Seq<char>>,
)
    decreases records.len(),
{
    if records.len() == 0 {
        (Seq::empty(), Seq::empty())
    } else {
        let (names, lines) = listing(rule, records.drop_last(), none);
        let r = records.last();
        if listed(rule, r.name@) {
            let name = decode_utf8(r.name@);
            let at = config::text_rank(names, name);
            (
                names.insert(at, name),
                lines.insert(at, name + "="@ + shown(r.ty, r.data@, none)),
            )
        } else {
            (names, lines)
        }
    }
}

/// What a key lists.
fn list(rule: bool, records: &Vec<Record>, none: &str) -> (out: Vec<String>)
    ensures
        text::list_view(out@) == listing(rule, records@, none@).1,
{
    let mut names: Vec<String> = Vec::new();
    let mut lines: Vec<String> = Vec::new();
    let mut i: usize = 0;
    assert(records@.take(0) =~= Seq::empty());
    assert(text::list_view(names@) =~= Seq::empty());
    assert(text::list_view(lines@) =~= Seq::empty());
    while i < records.len()
        invariant
            i <= records@.len(),
            names@.len() == lines@.len(),
            text::list_view(names@) == listing(rule, records@.take(i as int), none@).0,
            text::list_view(lines@) == listing(rule, records@.take(i as int), none@).1,
        decreases records@.len() - i,
    {
        assert(records@.take(i + 1).drop_last() =~= records@.take(i as int));
        let ghost before = text::list_view(names@);
        let ghost above = text::list_view(lines@);
        match text::from_utf8(records[i].name.as_slice()) {
            Some(name) => {
                let own: bool = text::same(name.as_str(), "Enabled") || (rule && (text::same(
                    name.as_str(),
                    "Actions",
                ) || text::same(name.as_str(), "Priority")));
                if !own && name.as_str().unicode_len() > 0 {
                    let mut n: usize = 0;
                    while n < names.len() && !text::comes_before(name.as_str(), names[n].as_str())
                        invariant
                            n <= names@.len(),
                            before == text::list_view(names@),
                            forall|j: int|
                                0 <= j < n ==> !text::before(name@, #[trigger] before[j]),
                        decreases names@.len() - n,
                    {
                        assert(before[n as int] == names@[n as int]@);
                        n = n + 1;
                    }
                    proof {
                        config::text_rank_found(before, name@, n as int);
                    }
                    let value: String = show(records[i].ty, &records[i].data, none);
                    let line: String = text::cat3(name.as_str(), "=", value.as_str());
                    lines.insert(n, line);
                    assert(text::list_view(lines@) =~= above.insert(n as int, line@));
                    names.insert(n, name);
                    assert(text::list_view(names@) =~= before.insert(n as int, name@));
                }
            },
            None => {},
        }
        i = i + 1;
    }
    assert(records@.take(i as int) =~= records@);
    lines
}

/// Whether a value switches its key off.
pub open spec fn switched_off(enabled: Option<RegValue>) -> bool {
    enabled matches Some(v) && dword_in(v.ty, v.data@) == Some(0nat)
}

fn off(enabled: &Option<RegValue>) -> (r: bool)
    ensures
        r == switched_off(*enabled),
{
    match enabled {
        Some(v) => match dword(v.ty, &v.data) {
            Some(n) => n == 0,
            None => false,
        },
        None => false,
    }
}

/// The mark of a key that is switched off.
pub open spec fn mark(enabled: Option<RegValue>) -> Seq<char> {
    if switched_off(enabled) {
        " (disabled)"@
    } else {
        Seq::empty()
    }
}

/// A list in a line, or else a word for an empty one.
pub open spec fn or_else(list: Seq<Seq<char>>, sep: Seq<char>, none: Seq<char>) -> Seq<char> {
    if list.len() == 0 {
        none
    } else {
        text::joined(list, sep)
    }
}

/// What the registry holds of a rule or a profile.
#[derive(Debug, PartialEq, Eq)]
pub struct RuleKey {
    pub actions: Option<RegValue>,
    pub priority: Option<RegValue>,
    pub enabled: Option<RegValue>,
    /// All its values.
    pub values: Vec<Record>,
}

impl RuleKey {
    /// What the rule does.
    pub open spec fn actions_in(self) -> Seq<Seq<char>> {
        match self.actions {
            Some(v) => multi_in(v.ty, v.data@),
            None => Seq::empty(),
        }
    }

    /// The priority as shown.
    pub open spec fn priority_in(self) -> Seq<char> {
        match self.priority {
            Some(v) => match dword_in(v.ty, v.data@) {
                Some(n) => " ["@ + text::decimal(n) + "]"@,
                None => Seq::empty(),
            },
            None => Seq::empty(),
        }
    }
}

/// A rule in a line: path, priority, conditions, actions.
pub open spec fn rule_line_of(path: Seq<char>, indent: Seq<char>, key: RuleKey) -> Seq<char> {
    indent + path + key.priority_in() + mark(key.enabled) + "  "@ + or_else(
        listing(true, key.values@, Seq::empty()).1,
        " "@,
        "(everything)"@,
    ) + "  -> "@ + or_else(key.actions_in(), ", "@, "NULL"@)
}

/// A rule in a line: path, priority, conditions, actions. A disabled rule is
/// marked; its subtree is still shown.
fn rule_line(path: &str, indent: &str, key: &RuleKey) -> (line: String)
    ensures
        line@ == rule_line_of(path@, indent@, *key),
{
    let mut line: String = text::cat2(indent, path);
    let ghost start = line@;
    match &key.priority {
        Some(v) => match dword(v.ty, &v.data) {
            Some(n) => {
                line.append(" [");
                line.append(text::decimal_of(n).as_str());
                line.append("]");
            },
            None => {},
        },
        None => {},
    }
    assert(line@ =~= start + key.priority_in());
    let ghost named = line@;
    if off(&key.enabled) {
        line.append(" (disabled)");
    }
    assert(line@ =~= named + mark(key.enabled));
    line.append("  ");
    proof {
        reveal_strlit("");
        assert(""@ =~= Seq::empty());
    }
    let conditions: Vec<String> = list(true, &key.values, "");
    assert(conditions@.len() == text::list_view(conditions@).len());
    if conditions.len() == 0 {
        line.append("(everything)");
    } else {
        line.append(text::join(&conditions, " ").as_str());
    }
    line.append("  -> ");
    let actions: Vec<String> = match &key.actions {
        Some(v) => multi(v.ty, &v.data),
        None => Vec::new(),
    };
    assert(text::list_view(actions@) =~= key.actions_in());
    if actions.len() == 0 {
        line.append("NULL");
    } else {
        line.append(text::join(&actions, ", ").as_str());
    }
    line
}

/// A profile in a line, with the values it sets itself.
pub open spec fn profile_line_of(
    path: Seq<char>,
    indent: Seq<char>,
    key: RuleKey,
) -> Seq<char> {
    indent + path + mark(key.enabled) + "  "@ + or_else(
        listing(false, key.values@, "(none)"@).1,
        " "@,
        "(inherits only)"@,
    )
}

/// A profile in a line, with the values it sets itself; what it inherits is not
/// repeated.
fn profile_line(path: &str, indent: &str, key: &RuleKey) -> (line: String)
    ensures
        line@ == profile_line_of(path@, indent@, *key),
{
    let mut line: String = text::cat2(indent, path);
    let ghost named = line@;
    if off(&key.enabled) {
        line.append(" (disabled)");
    }
    assert(line@ =~= named + mark(key.enabled));
    line.append("  ");
    let settings: Vec<String> = list(false, &key.values, "(none)");
    assert(settings@.len() == text::list_view(settings@).len());
    if settings.len() == 0 {
        line.append("(inherits only)");
    } else {
        line.append(text::join(&settings, " ").as_str());
    }
    line
}

/// A key and what stands under it, in order of name.
#[derive(Debug, PartialEq, Eq)]
pub struct KeyTree {
    pub name: String,
    pub key: RuleKey,
    pub children: Vec<KeyTree>,
}

/// The line of a key.
pub open spec fn key_line(rule: bool, path: Seq<char>, indent: Seq<char>, key: RuleKey) -> Seq<
    char,
> {
    if rule {
        rule_line_of(path, indent, key)
    } else {
        profile_line_of(path, indent, key)
    }
}

/// The lines of a key and of every key under it, depth first, each with its
/// path and two blanks further in than the one above it.
pub open spec fn tree_lines(rule: bool, t: KeyTree, path: Seq<char>, indent: Seq<char>) -> Lines
    decreases t, 0nat,
{
    let here = path_of(path, t.name@);
    seq![key_line(rule, here, indent, t.key)] + trees_lines(
        rule,
        t.children@,
        t.children@.len(),
        here,
        indent + "  "@,
    )
}

/// The same of the first `n` keys of a list.
pub open spec fn trees_lines(
    rule: bool,
    trees: Seq<KeyTree>,
    n: nat,
    path: Seq<char>,
    indent: Seq<char>,
) -> Lines
    decreases trees, n,
{
    if n == 0 || n > trees.len() {
        Seq::empty()
    } else {
        trees_lines(rule, trees, (n - 1) as nat, path, indent) + tree_lines(
            rule,
            trees[n - 1],
            path,
            indent,
        )
    }
}

fn show_tree(rule: bool, t: &KeyTree, path: &str, indent: &str, out: &mut Vec<String>)
    ensures
        text::list_view(final(out)@) == text::list_view(old(out)@) + tree_lines(
            rule,
            *t,
            path@,
            indent@,
        ),
    decreases *t, 0nat,
{
    let ghost before = text::list_view(out@);
    let here: String = child_path(path, t.name.as_str());
    let line: String = if rule {
        rule_line(here.as_str(), indent, &t.key)
    } else {
        profile_line(here.as_str(), indent, &t.key)
    };
    put(out, line);
    let further: String = text::cat2(indent, "  ");
    show_trees(rule, &t.children, here.as_str(), further.as_str(), out);
    assert(text::list_view(out@) =~= before + tree_lines(rule, *t, path@, indent@));
}

fn show_trees(rule: bool, trees: &Vec<KeyTree>, path: &str, indent: &str, out: &mut Vec<String>)
    ensures
        text::list_view(final(out)@) == text::list_view(old(out)@) + trees_lines(
            rule,
            trees@,
            trees@.len(),
            path@,
            indent@,
        ),
    decreases trees@, trees@.len(),
{
    let ghost before = text::list_view(out@);
    let mut i: usize = 0;
    assert(before =~= before + trees_lines(rule, trees@, 0, path@, indent@));
    while i < trees.len()
        invariant
            i <= trees@.len(),
            text::list_view(out@) == before + trees_lines(rule, trees@, i as nat, path@, indent@),
        decreases trees@.len() - i,
    {
        show_tree(rule, &trees[i], path, indent, out);
        i = i + 1;
        assert(text::list_view(out@) =~= before + trees_lines(
            rule,
            trees@,
            i as nat,
            path@,
            indent@,
        ));
    }
}

/// The interface layer, one rule per line: path, priority, conditions,
/// actions. A disabled rule is marked; its subtree is still shown.
pub fn rules(trees: &Vec<KeyTree>) -> (out: Vec<String>)
    ensures
        text::list_view(out@) == trees_lines(
            true,
            trees@,
            trees@.len(),
            Seq::empty(),
            Seq::empty(),
        ),
{
    let mut out: Vec<String> = Vec::new();
    proof {
        reveal_strlit("");
        assert(""@ =~= Seq::empty());
    }
    assert(text::list_view(out@) =~= Seq::empty());
    show_trees(true, trees, "", "", &mut out);
    assert(text::list_view(out@) =~= trees_lines(
        true,
        trees@,
        trees@.len(),
        Seq::empty(),
        Seq::empty(),
    ));
    out
}

/// The profile tree, one profile per line with the values it sets itself; what
/// it inherits is not repeated.
pub fn profiles(trees: &Vec<KeyTree>) -> (out: Vec<String>)
    ensures
        text::list_view(out@) == trees_lines(
            false,
            trees@,
            trees@.len(),
            Seq::empty(),
            Seq::empty(),
        ),
{
    let mut out: Vec<String> = Vec::new();
    proof {
        reveal_strlit("");
        assert(""@ =~= Seq::empty());
    }
    assert(text::list_view(out@) =~= Seq::empty());
    show_trees(false, trees, "", "", &mut out);
    assert(text::list_view(out@) =~= trees_lines(
        false,
        trees@,
        trees@.len(),
        Seq::empty(),
        Seq::empty(),
    ));
    out
}

} // verus!
