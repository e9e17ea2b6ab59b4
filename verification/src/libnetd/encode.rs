//! What a message says, value by value.

use vstd::prelude::*;
use vstd::string::*;
use crate::text;
use super::{
    DnsScope, DnsScopeV, InterfaceStatus, InterfaceStatusV, LeaseStatus, LeaseStatusV, Reply, ReplyV,
    Request, RequestV,
};

verus! {

/// A value to be written. The entries of a map, a key and a value each, and the
/// elements of an array follow it.
#[derive(Debug, PartialEq, Eq)]
pub enum Item {
    /// A map of so many entries.
    Fields(u32),
    /// An array of so many elements.
    List(u32),
    Str(String),
    Bool(bool),
    Uint(u64),
    Nil,
}

/// The same as values.
#[verifier::ext_equal]
pub enum ItemV {
    Fields(u32),
    List(u32),
    Str(Seq<char>),
    Bool(bool),
    Uint(u64),
    Nil,
}

impl View for Item {
    type V = ItemV;

    open spec fn view(&self) -> ItemV {
        match self {
            Item::Fields(n) => ItemV::Fields(*n),
            Item::List(n) => ItemV::List(*n),
            Item::Str(s) => ItemV::Str(s@),
            Item::Bool(b) => ItemV::Bool(*b),
            Item::Uint(n) => ItemV::Uint(*n),
            Item::Nil => ItemV::Nil,
        }
    }
}

/// Items as values.
pub open spec fn items_view(v: Seq<Item>) -> Seq<ItemV> {
    v.map_values(|i: Item| i@)
}

/// How many, as the wire counts.
pub open spec fn count(n: nat) -> u32 {
    (n % 0x1_0000_0000) as u32
}

/// The texts of a list as items.
pub open spec fn texts(list: Seq<Seq<char>>) -> Seq<ItemV> {
    list.map_values(|s: Seq<char>| ItemV::Str(s))
}

/// A text entry of a map.
pub open spec fn str_field(key: Seq<char>, v: Seq<char>) -> Seq<ItemV> {
    seq![ItemV::Str(key), ItemV::Str(v)]
}

/// A truth entry of a map.
pub open spec fn bool_field(key: Seq<char>, v: bool) -> Seq<ItemV> {
    seq![ItemV::Str(key), ItemV::Bool(v)]
}

/// A number entry of a map.
pub open spec fn uint_field(key: Seq<char>, v: u64) -> Seq<ItemV> {
    seq![ItemV::Str(key), ItemV::Uint(v)]
}

/// A text entry that may be nil.
pub open spec fn opt_field(key: Seq<char>, v: Option<Seq<char>>) -> Seq<ItemV> {
    seq![
        ItemV::Str(key),
        match v {
            Some(s) => ItemV::Str(s),
            None => ItemV::Nil,
        },
    ]
}

/// An entry that is a list of texts.
pub open spec fn list_field(key: Seq<char>, v: Seq<Seq<char>>) -> Seq<ItemV> {
    seq![ItemV::Str(key), ItemV::List(count(v.len()))] + texts(v)
}

/// The entry for a lease.
pub open spec fn lease_field(lease: Option<LeaseStatusV>) -> Seq<ItemV> {
    match lease {
        None => seq![ItemV::Str("lease"@), ItemV::Nil],
        Some(l) => seq![ItemV::Str("lease"@), ItemV::Fields(3)] + str_field("server"@, l.server)
            + uint_field("expires_in"@, l.expires_in) + str_field("state"@, l.state),
    }
}

/// What an interface is.
pub open spec fn interface_head(i: InterfaceStatusV) -> Seq<ItemV> {
    seq![ItemV::Fields(17)] + str_field("ifid"@, i.ifid) + str_field("name"@, i.name) + uint_field(
        "index"@,
        i.index as u64,
    ) + str_field("mac"@, i.mac) + str_field("path"@, i.path) + str_field("driver"@, i.driver)
        + opt_field("profile"@, i.profile)
}

/// What state an interface is in.
pub open spec fn interface_tail(i: InterfaceStatusV) -> Seq<ItemV> {
    bool_field("managed"@, i.managed) + bool_field("enabled"@, i.enabled) + bool_field("up"@, i.up)
        + bool_field("carrier"@, i.carrier) + str_field("level"@, i.level.name()) + list_field(
        "addresses"@,
        i.addresses,
    ) + opt_field("gateway"@, i.gateway) + list_field("dns"@, i.dns) + list_field(
        "search"@,
        i.search,
    ) + lease_field(i.lease)
}

/// An interface as items.
pub open spec fn interface_items(i: InterfaceStatusV) -> Seq<ItemV> {
    interface_head(i) + interface_tail(i)
}

/// A scope as items.
pub open spec fn scope_items(s: DnsScopeV) -> Seq<ItemV> {
    seq![ItemV::Fields(10)] + str_field("ifid"@, s.ifid) + str_field("name"@, s.name) + list_field(
        "servers"@,
        s.servers,
    ) + list_field("domains"@, s.domains) + list_field("ntp"@, s.ntp) + list_field(
        "addresses"@,
        s.addresses,
    ) + bool_field("default_route"@, s.default_route) + bool_field("exclusive"@, s.exclusive)
        + uint_field("metric"@, s.metric as u64) + str_field("level"@, s.level.name())
}

/// Interfaces one after another.
pub open spec fn interfaces_items(s: Seq<InterfaceStatusV>) -> Seq<ItemV>
    decreases s.len(),
{
    if s.len() == 0 {
        Seq::empty()
    } else {
        interfaces_items(s.drop_last()) + interface_items(s.last())
    }
}

/// Scopes one after another.
pub open spec fn scopes_items(s: Seq<DnsScopeV>) -> Seq<ItemV>
    decreases s.len(),
{
    if s.len() == 0 {
        Seq::empty()
    } else {
        scopes_items(s.drop_last()) + scope_items(s.last())
    }
}

/// A request as items.
pub open spec fn request_items(r: RequestV) -> Seq<ItemV> {
    match r {
        RequestV::Status => seq![ItemV::Fields(1)] + str_field("query"@, "status"@),
        RequestV::Renew { interface } => seq![ItemV::Fields(2)] + str_field("query"@, "renew"@)
            + str_field("interface"@, interface),
        RequestV::Reconcile => seq![ItemV::Fields(1)] + str_field("query"@, "reconcile"@),
        RequestV::Subscribe => seq![ItemV::Fields(1)] + str_field("query"@, "subscribe"@),
    }
}

/// A reply as items.
pub open spec fn reply_items(r: ReplyV) -> Seq<ItemV> {
    match r {
        ReplyV::Done => seq![ItemV::Fields(1)] + bool_field("ok"@, true),
        ReplyV::Error(message) => seq![ItemV::Fields(2)] + bool_field("ok"@, false) + str_field(
            "error"@,
            message,
        ),
        ReplyV::Snapshot(s) => seq![ItemV::Fields(4)] + bool_field("ok"@, true) + str_field(
            "kind"@,
            "snapshot"@,
        ) + str_field("hostname"@, s.hostname) + seq![
            ItemV::Str("scopes"@),
            ItemV::List(count(s.scopes.len())),
        ] + scopes_items(s.scopes),
        ReplyV::Status(s) => seq![ItemV::Fields(4)] + bool_field("ok"@, true) + str_field(
            "hostname"@,
            s.hostname,
        ) + str_field("level"@, s.level.name()) + seq![
            ItemV::Str("interfaces"@),
            ItemV::List(count(s.interfaces.len())),
        ] + interfaces_items(s.interfaces),
    }
}

fn put(w: &mut Vec<Item>, item: Item)
    ensures
        items_view(final(w)@) == items_view(old(w)@).push(item@),
{
    let ghost before = items_view(w@);
    let ghost value = item@;
    w.push(item);
    assert(items_view(w@) =~= before.push(value));
}

fn put_str(w: &mut Vec<Item>, key: &str, v: &str)
    ensures
        items_view(final(w)@) == items_view(old(w)@) + str_field(key@, v@),
{
    let ghost before = items_view(w@);
    put(w, Item::Str(String::from_str(key)));
    put(w, Item::Str(String::from_str(v)));
    assert(items_view(w@) =~= before + str_field(key@, v@));
}

fn put_bool(w: &mut Vec<Item>, key: &str, v: bool)
    ensures
        items_view(final(w)@) == items_view(old(w)@) + bool_field(key@, v),
{
    let ghost before = items_view(w@);
    put(w, Item::Str(String::from_str(key)));
    put(w, Item::Bool(v));
    assert(items_view(w@) =~= before + bool_field(key@, v));
}

fn put_uint(w: &mut Vec<Item>, key: &str, v: u64)
    ensures
        items_view(final(w)@) == items_view(old(w)@) + uint_field(key@, v),
{
    let ghost before = items_view(w@);
    put(w, Item::Str(String::from_str(key)));
    put(w, Item::Uint(v));
    assert(items_view(w@) =~= before + uint_field(key@, v));
}

fn put_opt(w: &mut Vec<Item>, key: &str, v: &Option<String>)
    ensures
        items_view(final(w)@) == items_view(old(w)@) + opt_field(key@, text::opt_view(*v)),
{
    let ghost before = items_view(w@);
    put(w, Item::Str(String::from_str(key)));
    match v {
        Some(s) => put(w, Item::Str(s.clone())),
        None => put(w, Item::Nil),
    }
    assert(items_view(w@) =~= before + opt_field(key@, text::opt_view(*v)));
}

fn wire_count(n: usize) -> (r: u32)
    ensures
        r == count(n as nat),
{
    (n as u64 % 0x1_0000_0000) as u32
}

fn put_list(w: &mut Vec<Item>, key: &str, v: &Vec<String>)
    ensures
        items_view(final(w)@) == items_view(old(w)@) + list_field(key@, text::list_view(v@)),
{
    let ghost before = items_view(w@);
    let ghost list = text::list_view(v@);
    let ghost head = seq![ItemV::Str(key@), ItemV::List(count(v@.len()))];
    put(w, Item::Str(String::from_str(key)));
    put(w, Item::List(wire_count(v.len())));
    assert(items_view(w@) =~= before + head + texts(list.take(0)));
    let mut i: usize = 0;
    while i < v.len()
        invariant
            i <= v@.len(),
            list == text::list_view(v@),
            items_view(w@) == before + head + texts(list.take(i as int)),
        decreases v@.len() - i,
    {
        put(w, Item::Str(v[i].clone()));
        i = i + 1;
        assert(list[i - 1] == v@[i - 1]@);
        assert(texts(list.take(i as int)) =~= texts(list.take(i - 1)).push(
            ItemV::Str(list[i - 1]),
        ));
        assert(items_view(w@) =~= before + head + texts(list.take(i as int)));
    }
    assert(list.take(i as int) =~= list);
    assert(items_view(w@) =~= before + list_field(key@, list));
}

fn put_lease(w: &mut Vec<Item>, lease: &Option<LeaseStatus>)
    ensures
        items_view(final(w)@) == items_view(old(w)@) + lease_field(
            match *lease {
                Some(l) => Some(l@),
                None => None,
            },
        ),
{
    let ghost before = items_view(w@);
    put(w, Item::Str(String::from_str("lease")));
    match lease {
        None => {
            put(w, Item::Nil);
            assert(items_view(w@) =~= before + lease_field(None));
        },
        Some(l) => {
            put(w, Item::Fields(3));
            put_str(w, "server", l.server.as_str());
            put_uint(w, "expires_in", l.expires_in);
            put_str(w, "state", l.state.as_str());
            assert(items_view(w@) =~= before + lease_field(Some(l@)));
        },
    }
}

fn interface_encoded(i: &InterfaceStatus) -> (w: Vec<Item>)
    ensures
        items_view(w@) == interface_items(i@),
{
    let mut w: Vec<Item> = Vec::new();
    put(&mut w, Item::Fields(17));
    assert(items_view(w@) =~= seq![ItemV::Fields(17)]);
    put_str(&mut w, "ifid", i.ifid.as_str());
    put_str(&mut w, "name", i.name.as_str());
    put_uint(&mut w, "index", i.index as u64);
    put_str(&mut w, "mac", i.mac.as_str());
    put_str(&mut w, "path", i.path.as_str());
    put_str(&mut w, "driver", i.driver.as_str());
    put_opt(&mut w, "profile", &i.profile);
    assert(items_view(w@) == interface_head(i@));
    let mut v: Vec<Item> = Vec::new();
    assert(items_view(v@) =~= Seq::empty());
    put_bool(&mut v, "managed", i.managed);
    assert(items_view(v@) =~= bool_field("managed"@, i.managed));
    put_bool(&mut v, "enabled", i.enabled);
    put_bool(&mut v, "up", i.up);
    put_bool(&mut v, "carrier", i.carrier);
    put_str(&mut v, "level", i.level.as_str());
    put_list(&mut v, "addresses", &i.addresses);
    put_opt(&mut v, "gateway", &i.gateway);
    put_list(&mut v, "dns", &i.dns);
    put_list(&mut v, "search", &i.search);
    put_lease(&mut v, &i.lease);
    assert(items_view(v@) == interface_tail(i@));
    let ghost head = w@;
    let ghost tail = v@;
    w.append(&mut v);
    assert(items_view(w@) =~= items_view(head) + items_view(tail));
    w
}

fn encode_interface(w: &mut Vec<Item>, i: &InterfaceStatus)
    ensures
        items_view(final(w)@) == items_view(old(w)@) + interface_items(i@),
{
    let mut v: Vec<Item> = interface_encoded(i);
    let ghost head = w@;
    let ghost tail = v@;
    w.append(&mut v);
    assert(items_view(w@) =~= items_view(head) + items_view(tail));
}

fn scope_encoded(s: &DnsScope) -> (w: Vec<Item>)
    ensures
        items_view(w@) == scope_items(s@),
{
    let mut w: Vec<Item> = Vec::new();
    put(&mut w, Item::Fields(10));
    assert(items_view(w@) =~= seq![ItemV::Fields(10)]);
    put_str(&mut w, "ifid", s.ifid.as_str());
    put_str(&mut w, "name", s.name.as_str());
    put_list(&mut w, "servers", &s.servers);
    put_list(&mut w, "domains", &s.domains);
    put_list(&mut w, "ntp", &s.ntp);
    put_list(&mut w, "addresses", &s.addresses);
    put_bool(&mut w, "default_route", s.default_route);
    put_bool(&mut w, "exclusive", s.exclusive);
    put_uint(&mut w, "metric", s.metric as u64);
    put_str(&mut w, "level", s.level.as_str());
    w
}

fn encode_scope(w: &mut Vec<Item>, s: &DnsScope)
    ensures
        items_view(final(w)@) == items_view(old(w)@) + scope_items(s@),
{
    let mut v: Vec<Item> = scope_encoded(s);
    let ghost head = w@;
    let ghost tail = v@;
    w.append(&mut v);
    assert(items_view(w@) =~= items_view(head) + items_view(tail));
}

fn encode_interfaces(w: &mut Vec<Item>, list: &Vec<InterfaceStatus>)
    ensures
        items_view(final(w)@) == items_view(old(w)@) + interfaces_items(
            super::interfaces_view(list@),
        ),
{
    let ghost before = items_view(w@);
    let ghost all = super::interfaces_view(list@);
    let mut i: usize = 0;
    assert(before =~= before + interfaces_items(all.take(0)));
    while i < list.len()
        invariant
            i <= list@.len(),
            all == super::interfaces_view(list@),
            items_view(w@) == before + interfaces_items(all.take(i as int)),
        decreases list@.len() - i,
    {
        assert(all[i as int] == list@[i as int]@);
        assert(all.take(i + 1).drop_last() =~= all.take(i as int));
        encode_interface(w, &list[i]);
        i = i + 1;
        assert(items_view(w@) =~= before + interfaces_items(all.take(i as int)));
    }
    assert(all.take(i as int) =~= all);
}

fn encode_scopes(w: &mut Vec<Item>, list: &Vec<DnsScope>)
    ensures
        items_view(final(w)@) == items_view(old(w)@) + scopes_items(super::scopes_view(list@)),
{
    let ghost before = items_view(w@);
    let ghost all = super::scopes_view(list@);
    let mut i: usize = 0;
    assert(before =~= before + scopes_items(all.take(0)));
    while i < list.len()
        invariant
            i <= list@.len(),
            all == super::scopes_view(list@),
            items_view(w@) == before + scopes_items(all.take(i as int)),
        decreases list@.len() - i,
    {
        assert(all[i as int] == list@[i as int]@);
        assert(all.take(i + 1).drop_last() =~= all.take(i as int));
        encode_scope(w, &list[i]);
        i = i + 1;
        assert(items_view(w@) =~= before + scopes_items(all.take(i as int)));
    }
    assert(all.take(i as int) =~= all);
}

impl Request {
    /// The request, value by value.
    pub fn encode(&self) -> (w: Vec<Item>)
        ensures
            items_view(w@) == request_items(self@),
    {
        let mut w: Vec<Item> = Vec::new();
        let n: u32 = match self {
            Request::Renew { .. } => 2,
            _ => 1,
        };
        put(&mut w, Item::Fields(n));
        assert(items_view(w@) =~= seq![ItemV::Fields(n)]);
        match self {
            Request::Status => put_str(&mut w, "query", "status"),
            Request::Renew { interface } => {
                put_str(&mut w, "query", "renew");
                put_str(&mut w, "interface", interface.as_str());
            },
            Request::Reconcile => put_str(&mut w, "query", "reconcile"),
            Request::Subscribe => put_str(&mut w, "query", "subscribe"),
        }
        w
    }
}

impl Reply {
    /// The reply, value by value.
    pub fn encode(&self) -> (w: Vec<Item>)
        ensures
            items_view(w@) == reply_items(self@),
    {
        let mut w: Vec<Item> = Vec::new();
        let n: u32 = match self {
            Reply::Done => 1,
            Reply::Error(_) => 2,
            _ => 4,
        };
        put(&mut w, Item::Fields(n));
        assert(items_view(w@) =~= seq![ItemV::Fields(n)]);
        match self {
            Reply::Done => put_bool(&mut w, "ok", true),
            Reply::Error(message) => {
                put_bool(&mut w, "ok", false);
                put_str(&mut w, "error", message.as_str());
            },
            Reply::Snapshot(s) => {
                put_bool(&mut w, "ok", true);
                put_str(&mut w, "kind", "snapshot");
                put_str(&mut w, "hostname", s.hostname.as_str());
                let ghost before = items_view(w@);
                put(&mut w, Item::Str(String::from_str("scopes")));
                put(&mut w, Item::List(wire_count(s.scopes.len())));
                assert(items_view(w@) =~= before + seq![
                    ItemV::Str("scopes"@),
                    ItemV::List(count(s.scopes@.len())),
                ]);
                encode_scopes(&mut w, &s.scopes);
            },
            Reply::Status(s) => {
                put_bool(&mut w, "ok", true);
                put_str(&mut w, "hostname", s.hostname.as_str());
                put_str(&mut w, "level", s.level.as_str());
                let ghost before = items_view(w@);
                put(&mut w, Item::Str(String::from_str("interfaces")));
                put(&mut w, Item::List(wire_count(s.interfaces.len())));
                assert(items_view(w@) =~= before + seq![
                    ItemV::Str("interfaces"@),
                    ItemV::List(count(s.interfaces@.len())),
                ]);
                encode_interfaces(&mut w, &s.interfaces);
            },
        }
        w
    }
}

} // verus!
