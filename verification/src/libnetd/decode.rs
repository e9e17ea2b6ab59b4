//! What a message means.

use vstd::prelude::*;
use vstd::string::*;
use crate::text;
use super::{
    DnsScope, DnsScopeV, Fault, FaultV, InterfaceStatus, InterfaceStatusV, LeaseStatus, LeaseStatusV, Level, Reply,
    ReplyV, Request, RequestV, Snapshot, SnapshotV, Sort, Status, StatusV, WireError, WireErrorV,
};

verus! {

/// A value as it is read. The entries of a map, a key and a value each, and the
/// elements of an array follow it.
#[derive(Debug, PartialEq, Eq)]
pub enum Token {
    /// A map said to have so many entries.
    Fields(usize),
    /// An array said to have so many elements, and how many bytes of the
    /// message come after its head.
    List { count: usize, left: usize },
    Str(String),
    Bool(bool),
    Uint(u64),
    Nil,
    /// A value of a kind the protocol has no use for.
    Other,
    /// Bytes that are no value.
    Bad,
}

/// The same as values.
#[verifier::ext_equal]
pub enum TokenV {
    Fields(nat),
    List { count: nat, left: nat },
    Str(Seq<char>),
    Bool(bool),
    Uint(u64),
    Nil,
    Other,
    Bad,
}

impl View for Token {
    type V = TokenV;

    open spec fn view(&self) -> TokenV {
        match self {
            Token::Fields(n) => TokenV::Fields(*n as nat),
            Token::List { count, left } => TokenV::List { count: *count as nat, left: *left as nat },
            Token::Str(s) => TokenV::Str(s@),
            Token::Bool(b) => TokenV::Bool(*b),
            Token::Uint(n) => TokenV::Uint(*n),
            Token::Nil => TokenV::Nil,
            Token::Other => TokenV::Other,
            Token::Bad => TokenV::Bad,
        }
    }
}

/// Tokens as values.
pub type Tokens = Seq<TokenV>;

/// The tokens from `p` on.
pub open spec fn from_at(v: Seq<Token>, p: int) -> Tokens {
    v.map_values(|t: Token| t@).skip(p)
}

/// What was read and what comes after it, or what is wrong.
pub type Read<S> = Result<(S, Tokens), WireErrorV>;

proof fn next(v: Seq<Token>, p: int)
    requires
        0 <= p < v.len(),
    ensures
        from_at(v, p).len() == v.len() - p,
        from_at(v, p)[0] == v[p]@,
        from_at(v, p).drop_first() == from_at(v, p + 1),
{
    assert(from_at(v, p).drop_first() =~= from_at(v, p + 1));
}

/// What is wrong where the reader, asked for this, finds something else, or
/// nothing. What the reader says of it is not known yet.
pub open spec fn unread(t: Tokens, wanted: Sort) -> WireErrorV {
    WireErrorV::Encoding(FaultV { left: t.len(), wanted, words: Seq::empty() })
}

fn fault(v: &Vec<Token>, p: usize, wanted: Sort) -> (e: WireError)
    requires
        p <= v@.len(),
    ensures
        e@ == unread(from_at(v@, p as int), wanted),
{
    let words: String = String::new();
    assert(words@ =~= Seq::empty());
    WireError::Encoding(Fault { left: v.len() - p, wanted, words })
}

/// The text that comes next.
pub open spec fn str_from(t: Tokens) -> Read<Seq<char>> {
    if t.len() > 0 && t[0] is Str {
        Ok((t[0]->Str_0, t.drop_first()))
    } else {
        Err(unread(t, Sort::Str))
    }
}

/// The truth that comes next.
pub open spec fn bool_from(t: Tokens) -> Read<bool> {
    if t.len() > 0 && t[0] is Bool {
        Ok((t[0]->Bool_0, t.drop_first()))
    } else {
        Err(unread(t, Sort::Bool))
    }
}

/// The number that comes next.
pub open spec fn uint_from(t: Tokens) -> Read<u64> {
    if t.len() > 0 && t[0] is Uint {
        Ok((t[0]->Uint_0, t.drop_first()))
    } else {
        Err(unread(t, Sort::Uint))
    }
}

/// The low half of the number that comes next.
pub open spec fn u32_from(t: Tokens) -> Read<u32> {
    match uint_from(t) {
        Ok((n, rest)) => Ok(((n % 0x1_0000_0000) as u32, rest)),
        Err(e) => Err(e),
    }
}

/// The level that comes next; a word that names none counts as `Absent`.
pub open spec fn level_from(t: Tokens) -> Read<Level> {
    match str_from(t) {
        Ok((s, rest)) => Ok(
            (
                match super::level_named(s) {
                    Some(l) => l,
                    None => Level::Absent,
                },
                rest,
            ),
        ),
        Err(e) => Err(e),
    }
}

/// The text or nil that comes next.
pub open spec fn opt_from(t: Tokens) -> Read<Option<Seq<char>>> {
    if t.len() > 0 && t[0] is Nil {
        Ok((None, t.drop_first()))
    } else {
        match str_from(t) {
            Ok((s, rest)) => Ok((Some(s), rest)),
            Err(e) => Err(e),
        }
    }
}

/// `n` texts that come next.
pub open spec fn strs_from(t: Tokens, n: nat) -> Read<Seq<Seq<char>>>
    decreases n,
{
    if n == 0 {
        Ok((Seq::empty(), t))
    } else {
        match strs_from(t, (n - 1) as nat) {
            Err(e) => Err(e),
            Ok((list, rest)) => match str_from(rest) {
                Err(e) => Err(e),
                Ok((s, after)) => Ok((list.push(s), after)),
            },
        }
    }
}

/// The list of texts that comes next. One that counts more elements than the
/// message has bytes left is refused.
pub open spec fn list_from(t: Tokens) -> Read<Seq<Seq<char>>> {
    if t.len() > 0 && t[0] is List {
        if t[0]->count > t[0]->left {
            Err(WireErrorV::TooLarge(t[0]->count))
        } else {
            strs_from(t.drop_first(), t[0]->count)
        }
    } else {
        Err(unread(t, Sort::List))
    }
}

/// What is left after `n` whole values, where there are so many.
pub open spec fn skipped(t: Tokens, n: nat) -> Option<Tokens>
    decreases t.len(),
{
    if n == 0 {
        Some(t)
    } else if t.len() == 0 {
        None
    } else {
        match t[0] {
            TokenV::Fields(k) => skipped(t.drop_first(), (n - 1 + 2 * k) as nat),
            TokenV::List { count, .. } => skipped(t.drop_first(), (n - 1 + count) as nat),
            TokenV::Bad => None,
            _ => skipped(t.drop_first(), (n - 1) as nat),
        }
    }
}

proof fn skipped_short(t: Tokens, n: nat)
    requires
        n > t.len(),
    ensures
        skipped(t, n) is None,
    decreases t.len(),
{
    if t.len() > 0 {
        match t[0] {
            TokenV::Fields(k) => {
                skipped_short(t.drop_first(), (n - 1 + 2 * k) as nat);
            },
            TokenV::List { count, .. } => {
                skipped_short(t.drop_first(), (n - 1 + count) as nat);
            },
            TokenV::Bad => {},
            _ => {
                skipped_short(t.drop_first(), (n - 1) as nat);
            },
        }
    }
}

/// A value passed over.
pub open spec fn skip_from<S>(t: Tokens, s: S) -> Read<S> {
    match skipped(t, 1) {
        Some(rest) => Ok((s, rest)),
        None => Err(unread(t, Sort::Any)),
    }
}

/// How many entries the map that comes next has.
pub open spec fn map_from(t: Tokens) -> Read<nat> {
    if t.len() > 0 && t[0] is Fields {
        Ok((t[0]->Fields_0, t.drop_first()))
    } else {
        Err(unread(t, Sort::Fields))
    }
}

/// How many elements the array that comes next has.
pub open spec fn array_from(t: Tokens) -> Read<nat> {
    if t.len() > 0 && t[0] is List {
        Ok((t[0]->count, t.drop_first()))
    } else {
        Err(unread(t, Sort::List))
    }
}

/// `n` entries of a map taken in one after another, each by `field`, which
/// has the key, what was taken in before and what comes after the key. A key
/// that comes twice is an error.
pub open spec fn fields_from<S>(
    t: Tokens,
    n: nat,
    seen: Seq<Seq<char>>,
    s: S,
    field: spec_fn(S, Seq<char>, Tokens) -> Read<S>,
) -> Read<S>
    decreases n,
{
    if n == 0 {
        Ok((s, t))
    } else {
        match str_from(t) {
            Err(e) => Err(e),
            Ok((key, rest)) => if seen.contains(key) {
                Err(WireErrorV::Duplicate(key))
            } else {
                match field(s, key, rest) {
                    Err(e) => Err(e),
                    Ok((s2, after)) => fields_from(
                        after,
                        (n - 1) as nat,
                        seen.push(key),
                        s2,
                        field,
                    ),
                }
            },
        }
    }
}

/// The map that comes next, its entries taken in by `field`.
pub open spec fn map_with<S>(
    t: Tokens,
    s: S,
    field: spec_fn(S, Seq<char>, Tokens) -> Read<S>,
) -> Read<S> {
    match map_from(t) {
        Err(e) => Err(e),
        Ok((n, rest)) => fields_from(rest, n, Seq::empty(), s, field),
    }
}

// ---- reading ---------------------------------------------------------------

fn read_str(v: &Vec<Token>, p: usize) -> (r: Result<(&String, usize), WireError>)
    requires
        p <= v@.len(),
    ensures
        match r {
            Ok((s, q)) => q == p + 1 && q <= v@.len() && str_from(from_at(v@, p as int)) == Ok::<
                _,
                WireErrorV,
            >((s@, from_at(v@, q as int))),
            Err(e) => str_from(from_at(v@, p as int)) == Err::<(Seq<char>, Tokens), _>(e@),
        },
{
    if p < v.len() {
        proof {
            next(v@, p as int);
        }
        match &v[p] {
            Token::Str(s) => {
                return Ok((s, p + 1));
            },
            _ => {},
        }
    }
    Err(fault(v, p, Sort::Str))
}

fn read_text(v: &Vec<Token>, p: usize, out: &mut String) -> (r: Result<usize, WireError>)
    requires
        p <= v@.len(),
    ensures
        match r {
            Ok(q) => q == p + 1 && q <= v@.len() && str_from(from_at(v@, p as int)) == Ok::<
                _,
                WireErrorV,
            >((final(out)@, from_at(v@, q as int))),
            Err(e) => str_from(from_at(v@, p as int)) == Err::<(Seq<char>, Tokens), _>(e@),
        },
{
    match read_str(v, p) {
        Ok((s, q)) => {
            *out = s.clone();
            Ok(q)
        },
        Err(e) => Err(e),
    }
}

fn read_bool(v: &Vec<Token>, p: usize) -> (r: Result<(bool, usize), WireError>)
    requires
        p <= v@.len(),
    ensures
        match r {
            Ok((b, q)) => q == p + 1 && q <= v@.len() && bool_from(from_at(v@, p as int)) == Ok::<
                _,
                WireErrorV,
            >((b, from_at(v@, q as int))),
            Err(e) => bool_from(from_at(v@, p as int)) == Err::<(bool, Tokens), _>(e@),
        },
{
    if p < v.len() {
        proof {
            next(v@, p as int);
        }
        match &v[p] {
            Token::Bool(b) => {
                return Ok((*b, p + 1));
            },
            _ => {},
        }
    }
    Err(fault(v, p, Sort::Bool))
}

fn read_flag(v: &Vec<Token>, p: usize, out: &mut bool) -> (r: Result<usize, WireError>)
    requires
        p <= v@.len(),
    ensures
        match r {
            Ok(q) => q == p + 1 && q <= v@.len() && bool_from(from_at(v@, p as int)) == Ok::<
                _,
                WireErrorV,
            >((*final(out), from_at(v@, q as int))),
            Err(e) => bool_from(from_at(v@, p as int)) == Err::<(bool, Tokens), _>(e@),
        },
{
    match read_bool(v, p) {
        Ok((b, q)) => {
            *out = b;
            Ok(q)
        },
        Err(e) => Err(e),
    }
}

fn read_uint(v: &Vec<Token>, p: usize, out: &mut u64) -> (r: Result<usize, WireError>)
    requires
        p <= v@.len(),
    ensures
        match r {
            Ok(q) => q == p + 1 && q <= v@.len() && uint_from(from_at(v@, p as int)) == Ok::<
                _,
                WireErrorV,
            >((*final(out), from_at(v@, q as int))),
            Err(e) => uint_from(from_at(v@, p as int)) == Err::<(u64, Tokens), _>(e@),
        },
{
    if p < v.len() {
        proof {
            next(v@, p as int);
        }
        match &v[p] {
            Token::Uint(n) => {
                *out = *n;
                return Ok(p + 1);
            },
            _ => {},
        }
    }
    Err(fault(v, p, Sort::Uint))
}

fn read_u32(v: &Vec<Token>, p: usize, out: &mut u32) -> (r: Result<usize, WireError>)
    requires
        p <= v@.len(),
    ensures
        match r {
            Ok(q) => q == p + 1 && q <= v@.len() && u32_from(from_at(v@, p as int)) == Ok::<
                _,
                WireErrorV,
            >((*final(out), from_at(v@, q as int))),
            Err(e) => u32_from(from_at(v@, p as int)) == Err::<(u32, Tokens), _>(e@),
        },
{
    let mut n: u64 = 0;
    match read_uint(v, p, &mut n) {
        Ok(q) => {
            *out = (n % 0x1_0000_0000) as u32;
            Ok(q)
        },
        Err(e) => Err(e),
    }
}

fn read_level(v: &Vec<Token>, p: usize, out: &mut Level) -> (r: Result<usize, WireError>)
    requires
        p <= v@.len(),
    ensures
        match r {
            Ok(q) => q == p + 1 && q <= v@.len() && level_from(from_at(v@, p as int)) == Ok::<
                _,
                WireErrorV,
            >((*final(out), from_at(v@, q as int))),
            Err(e) => level_from(from_at(v@, p as int)) == Err::<(Level, Tokens), _>(e@),
        },
{
    match read_str(v, p) {
        Ok((s, q)) => {
            *out = match Level::parse(s.as_str()) {
                Some(l) => l,
                None => Level::Absent,
            };
            Ok(q)
        },
        Err(e) => Err(e),
    }
}

fn at_nil(v: &Vec<Token>, p: usize) -> (r: bool)
    requires
        p <= v@.len(),
    ensures
        r == (from_at(v@, p as int).len() > 0 && from_at(v@, p as int)[0] is Nil),
        r ==> p < v@.len() && from_at(v@, p as int).drop_first() == from_at(v@, p + 1),
{
    if p < v.len() {
        proof {
            next(v@, p as int);
        }
        match &v[p] {
            Token::Nil => true,
            _ => false,
        }
    } else {
        false
    }
}

fn read_opt_str(v: &Vec<Token>, p: usize, out: &mut Option<String>) -> (r: Result<
    usize,
    WireError,
>)
    requires
        p <= v@.len(),
    ensures
        match r {
            Ok(q) => q == p + 1 && q <= v@.len() && opt_from(from_at(v@, p as int)) == Ok::<
                _,
                WireErrorV,
            >((text::opt_view(*final(out)), from_at(v@, q as int))),
            Err(e) => opt_from(from_at(v@, p as int)) == Err::<(Option<Seq<char>>, Tokens), _>(e@),
        },
{
    let end: usize = v.len();
    if at_nil(v, p) {
        *out = None;
        return Ok(p + 1);
    }
    match read_str(v, p) {
        Ok((s, q)) => {
            *out = Some(s.clone());
            Ok(q)
        },
        Err(e) => Err(e),
    }
}

proof fn strs_stop(t: Tokens, n: nat, m: nat)
    requires
        n <= m,
        strs_from(t, n) is Err,
    ensures
        strs_from(t, m) == strs_from(t, n),
    decreases m - n,
{
    if n < m {
        strs_stop(t, n, (m - 1) as nat);
    }
}

fn read_str_list(v: &Vec<Token>, p: usize, out: &mut Vec<String>) -> (r: Result<usize, WireError>)
    requires
        p <= v@.len(),
    ensures
        match r {
            Ok(q) => p < q <= v@.len() && list_from(from_at(v@, p as int)) == Ok::<_, WireErrorV>(
                (text::list_view(final(out)@), from_at(v@, q as int)),
            ),
            Err(e) => list_from(from_at(v@, p as int)) == Err::<(Seq<Seq<char>>, Tokens), _>(e@),
        },
{
    let end: usize = v.len();
    let (count, left): (usize, usize) = match read_array(v, p) {
        Ok(x) => x,
        Err(e) => {
            return Err(e);
        },
    };
    if count > left {
        return Err(WireError::TooLarge(count));
    }
    let ghost t = from_at(v@, p + 1);
    let mut list: Vec<String> = Vec::new();
    let mut q: usize = p + 1;
    let mut i: usize = 0;
    assert(text::list_view(list@) =~= Seq::empty());
    while i < count
        invariant
            i <= count,
            p < q <= v@.len(),
            t == from_at(v@, p + 1),
            list_from(from_at(v@, p as int)) == strs_from(t, count as nat),
            strs_from(t, i as nat) == Ok::<_, WireErrorV>(
                (text::list_view(list@), from_at(v@, q as int)),
            ),
        decreases count - i,
    {
        let ghost before = text::list_view(list@);
        match read_str(v, q) {
            Ok((s, after)) => {
                list.push(s.clone());
                assert(text::list_view(list@) =~= before.push(s@));
                q = after;
            },
            Err(e) => {
                proof {
                    strs_stop(t, (i + 1) as nat, count as nat);
                }
                return Err(e);
            },
        }
        i = i + 1;
    }
    *out = list;
    Ok(q)
}

fn read_array(v: &Vec<Token>, p: usize) -> (r: Result<(usize, usize), WireError>)
    requires
        p <= v@.len(),
    ensures
        match r {
            Ok((count, left)) => p < v@.len() && from_at(v@, p as int).len() > 0 && from_at(
                v@,
                p as int,
            )[0] == (TokenV::List { count: count as nat, left: left as nat }) && from_at(
                v@,
                p as int,
            ).drop_first() == from_at(v@, p + 1),
            Err(e) => e@ == unread(from_at(v@, p as int), Sort::List) && !(from_at(v@, p as int).len() > 0 && from_at(
                v@,
                p as int,
            )[0] is List),
        },
{
    if p < v.len() {
        proof {
            next(v@, p as int);
        }
        match &v[p] {
            Token::List { count, left } => {
                return Ok((*count, *left));
            },
            _ => {},
        }
    }
    Err(fault(v, p, Sort::List))
}

fn read_map(v: &Vec<Token>, p: usize) -> (r: Result<usize, WireError>)
    requires
        p <= v@.len(),
    ensures
        match r {
            Ok(n) => p < v@.len() && map_from(from_at(v@, p as int)) == Ok::<_, WireErrorV>(
                (n as nat, from_at(v@, p + 1)),
            ),
            Err(e) => map_from(from_at(v@, p as int)) == Err::<(nat, Tokens), _>(e@),
        },
{
    if p < v.len() {
        proof {
            next(v@, p as int);
        }
        match &v[p] {
            Token::Fields(n) => {
                return Ok(*n);
            },
            _ => {},
        }
    }
    Err(fault(v, p, Sort::Fields))
}

fn skip(v: &Vec<Token>, p: usize) -> (r: Result<usize, WireError>)
    requires
        p <= v@.len(),
    ensures
        match r {
            Ok(q) => p < q <= v@.len() && skipped(from_at(v@, p as int), 1) == Some(
                from_at(v@, q as int),
            ),
            Err(e) => skipped(from_at(v@, p as int), 1) is None && e@ == unread(
                from_at(v@, p as int),
                Sort::Any,
            ),
        },
{
    let ghost whole = skipped(from_at(v@, p as int), 1);
    let mut q: usize = p;
    let mut n: usize = 1;
    while n > 0
        invariant
            p <= q <= v@.len(),
            n == 0 ==> q > p,
            whole == skipped(from_at(v@, p as int), 1),
            whole == skipped(from_at(v@, q as int), n as nat),
        decreases v@.len() - q,
    {
        proof {
            if n > v@.len() - q {
                skipped_short(from_at(v@, q as int), n as nat);
            }
        }
        if n > v.len() - q {
            return Err(fault(v, p, Sort::Any));
        }
        proof {
            next(v@, q as int);
        }
        let left: usize = v.len() - q;
        n = n - 1;
        match &v[q] {
            Token::Fields(k) => {
                if *k > left {
                    proof {
                        skipped_short(from_at(v@, q + 1), (n + 2 * *k) as nat);
                    }
                    return Err(fault(v, p, Sort::Any));
                }
                if *k > left - n || *k > left - n - *k {
                    proof {
                        skipped_short(from_at(v@, q + 1), (n + 2 * *k) as nat);
                    }
                    return Err(fault(v, p, Sort::Any));
                }
                n = n + *k + *k;
            },
            Token::List { count, .. } => {
                if *count > left - n {
                    proof {
                        skipped_short(from_at(v@, q + 1), (n + *count) as nat);
                    }
                    return Err(fault(v, p, Sort::Any));
                }
                n = n + *count;
            },
            Token::Bad => {
                return Err(fault(v, p, Sort::Any));
            },
            _ => {},
        }
        q = q + 1;
    }
    Ok(q)
}

fn take_key<'a>(v: &'a Vec<Token>, p: usize, seen: &mut Vec<String>) -> (r: Result<
    &'a String,
    WireError,
>)
    requires
        p <= v@.len(),
    ensures
        match r {
            Ok(key) => p < v@.len() && str_from(from_at(v@, p as int)) == Ok::<_, WireErrorV>(
                (key@, from_at(v@, p + 1)),
            ) && !text::list_view(old(seen)@).contains(key@) && text::list_view(final(seen)@)
                == text::list_view(old(seen)@).push(key@),
            Err(e) => match str_from(from_at(v@, p as int)) {
                Err(f) => e@ == f,
                Ok((key, _)) => text::list_view(old(seen)@).contains(key) && e@
                    == WireErrorV::Duplicate(key),
            },
        },
{
    match read_str(v, p) {
        Ok((key, _)) => {
            if text::list_contains(seen, key.as_str()) {
                return Err(WireError::Duplicate(key.clone()));
            }
            let ghost before = text::list_view(seen@);
            seen.push(key.clone());
            assert(text::list_view(seen@) =~= before.push(key@));
            Ok(key)
        },
        Err(e) => Err(e),
    }
}

// ---- requests --------------------------------------------------------------

/// What the entries of a request said.
#[verifier::ext_equal]
pub struct RequestFields {
    pub query: Option<Seq<char>>,
    pub interface: Option<Seq<char>>,
}

/// What an entry of a request says.
pub open spec fn request_field(s: RequestFields, key: Seq<char>, t: Tokens) -> Read<RequestFields> {
    if key == "query"@ {
        match str_from(t) {
            Ok((x, rest)) => Ok((RequestFields { query: Some(x), ..s }, rest)),
            Err(e) => Err(e),
        }
    } else if key == "interface"@ {
        match str_from(t) {
            Ok((x, rest)) => Ok((RequestFields { interface: Some(x), ..s }, rest)),
            Err(e) => Err(e),
        }
    } else {
        skip_from(t, s)
    }
}

/// The entries of a request.
pub open spec fn request_fields(t: Tokens) -> Read<RequestFields> {
    map_with(
        t,
        RequestFields { query: None, interface: None },
        |s: RequestFields, k: Seq<char>, r: Tokens| request_field(s, k, r),
    )
}

/// What the entries of a request ask for.
pub open spec fn request_of(s: RequestFields) -> Result<RequestV, WireErrorV> {
    match s.query {
        None => Err(WireErrorV::Missing("query"@)),
        Some(q) => if q == "status"@ {
            Ok(RequestV::Status)
        } else if q == "reconcile"@ {
            Ok(RequestV::Reconcile)
        } else if q == "subscribe"@ {
            Ok(RequestV::Subscribe)
        } else if q == "renew"@ {
            match s.interface {
                Some(interface) => Ok(RequestV::Renew { interface }),
                None => Err(WireErrorV::Missing("interface"@)),
            }
        } else {
            Err(WireErrorV::UnknownQuery(q))
        },
    }
}

/// The request that a message is.
pub open spec fn request_decoded(t: Tokens) -> Result<RequestV, WireErrorV> {
    match request_fields(t) {
        Err(e) => Err(e),
        Ok((s, _)) => request_of(s),
    }
}

impl Request {
    /// The request that a message is, or what is wrong with it.
    pub fn decode(v: &Vec<Token>) -> (r: Result<Request, WireError>)
        ensures
            match (r, request_decoded(from_at(v@, 0))) {
                (Ok(x), Ok(y)) => x@ == y,
                (Err(e), Err(f)) => e@ == f,
                _ => false,
            },
    {
        let ghost whole = request_fields(from_at(v@, 0));
        let ghost f = |s: RequestFields, k: Seq<char>, r: Tokens| request_field(s, k, r);
        let mut query: Option<String> = None;
        let mut interface: Option<String> = None;
        let mut seen: Vec<String> = Vec::new();
        assert(text::list_view(seen@) =~= Seq::empty());
        let n: usize = match read_map(v, 0) {
            Ok(n) => n,
            Err(e) => {
                return Err(e);
            },
        };
        let end: usize = v.len();
        let mut p: usize = 1;
        let mut i: usize = 0;
        while i < n
            invariant
                i <= n,
                p <= v@.len(),
                end == v@.len(),
                f == (|s: RequestFields, k: Seq<char>, r: Tokens| request_field(s, k, r)),
                whole == request_fields(from_at(v@, 0)),
                whole == fields_from(
                    from_at(v@, p as int),
                    (n - i) as nat,
                    text::list_view(seen@),
                    RequestFields {
                        query: text::opt_view(query),
                        interface: text::opt_view(interface),
                    },
                    f,
                ),
            decreases n - i,
        {
            let key: &String = match take_key(v, p, &mut seen) {
                Ok(k) => k,
                Err(e) => {
                    return Err(e);
                },
            };
            let after: Result<usize, WireError> = if text::same(key.as_str(), "query") {
                match read_str(v, p + 1) {
                    Ok((s, q)) => {
                        query = Some(s.clone());
                        Ok(q)
                    },
                    Err(e) => Err(e),
                }
            } else if text::same(key.as_str(), "interface") {
                match read_str(v, p + 1) {
                    Ok((s, q)) => {
                        interface = Some(s.clone());
                        Ok(q)
                    },
                    Err(e) => Err(e),
                }
            } else {
                skip(v, p + 1)
            };
            match after {
                Ok(q) => {
                    p = q;
                },
                Err(e) => {
                    return Err(e);
                },
            }
            i = i + 1;
        }
        match query {
            None => Err(WireError::Missing("query")),
            Some(q) => {
                if text::same(q.as_str(), "status") {
                    Ok(Request::Status)
                } else if text::same(q.as_str(), "reconcile") {
                    Ok(Request::Reconcile)
                } else if text::same(q.as_str(), "subscribe") {
                    Ok(Request::Subscribe)
                } else if text::same(q.as_str(), "renew") {
                    match interface {
                        Some(interface) => Ok(Request::Renew { interface }),
                        None => Err(WireError::Missing("interface")),
                    }
                } else {
                    Err(WireError::UnknownQuery(q))
                }
            },
        }
    }
}

// ---- leases, interfaces and scopes -----------------------------------------

/// What an entry of a lease says.
pub open spec fn lease_entry(l: LeaseStatusV, key: Seq<char>, t: Tokens) -> Read<LeaseStatusV> {
    if key == "server"@ {
        match str_from(t) {
            Ok((x, rest)) => Ok((LeaseStatusV { server: x, ..l }, rest)),
            Err(e) => Err(e),
        }
    } else if key == "expires_in"@ {
        match uint_from(t) {
            Ok((x, rest)) => Ok((LeaseStatusV { expires_in: x, ..l }, rest)),
            Err(e) => Err(e),
        }
    } else if key == "state"@ {
        match str_from(t) {
            Ok((x, rest)) => Ok((LeaseStatusV { state: x, ..l }, rest)),
            Err(e) => Err(e),
        }
    } else {
        skip_from(t, l)
    }
}

/// The lease that comes next.
pub open spec fn lease_from(t: Tokens) -> Read<LeaseStatusV> {
    map_with(
        t,
        super::no_lease(),
        |l: LeaseStatusV, k: Seq<char>, r: Tokens| lease_entry(l, k, r),
    )
}

/// The lease or nil that comes next; nil leaves what was there.
pub open spec fn lease_or_nil(t: Tokens, was: Option<LeaseStatusV>) -> Read<Option<LeaseStatusV>> {
    if t.len() > 0 && t[0] is Nil {
        Ok((was, t.drop_first()))
    } else {
        match lease_from(t) {
            Ok((l, rest)) => Ok((Some(l), rest)),
            Err(e) => Err(e),
        }
    }
}

fn take_lease_entry(lease: &mut LeaseStatus, key: &str, v: &Vec<Token>, p: usize) -> (r: Result<
    usize,
    WireError,
>)
    requires
        p <= v@.len(),
    ensures
        match (r, lease_entry(old(lease)@, key@, from_at(v@, p as int))) {
            (Ok(q), Ok((x, rest))) => p <= q <= v@.len() && final(lease)@ == x && rest == from_at(
                v@,
                q as int,
            ),
            (Err(e), Err(f)) => e@ == f,
            _ => false,
        },
{
    if text::same(key, "server") {
        read_text(v, p, &mut lease.server)
    } else if text::same(key, "expires_in") {
        read_uint(v, p, &mut lease.expires_in)
    } else if text::same(key, "state") {
        read_text(v, p, &mut lease.state)
    } else {
        skip(v, p)
    }
}

fn decode_lease(v: &Vec<Token>, from: usize) -> (r: Result<(LeaseStatus, usize), WireError>)
    requires
        from <= v@.len(),
    ensures
        match (r, lease_from(from_at(v@, from as int))) {
            (Ok((x, q)), Ok((y, rest))) => x@ == y && from < q <= v@.len() && rest == from_at(
                v@,
                q as int,
            ),
            (Err(e), Err(f)) => e@ == f,
            _ => false,
        },
{
    let ghost whole = lease_from(from_at(v@, from as int));
    let ghost f = |s: LeaseStatusV, k: Seq<char>, r: Tokens| lease_entry(s, k, r);
    let mut out: LeaseStatus = LeaseStatus::default();
    let mut seen: Vec<String> = Vec::new();
    assert(text::list_view(seen@) =~= Seq::empty());
    let n: usize = match read_map(v, from) {
        Ok(n) => n,
        Err(e) => {
            return Err(e);
        },
    };
    let end: usize = v.len();
    let mut p: usize = from + 1;
    let mut i: usize = 0;
    while i < n
        invariant
            i <= n,
            from < p <= v@.len(),
            end == v@.len(),
            f == (|s: LeaseStatusV, k: Seq<char>, r: Tokens| lease_entry(s, k, r)),
            whole == lease_from(from_at(v@, from as int)),
            whole == fields_from(
                from_at(v@, p as int),
                (n - i) as nat,
                text::list_view(seen@),
                out@,
                f,
            ),
        decreases n - i,
    {
        let key: &String = match take_key(v, p, &mut seen) {
            Ok(k) => k,
            Err(e) => {
                return Err(e);
            },
        };
        match take_lease_entry(&mut out, key.as_str(), v, p + 1) {
            Ok(q) => {
                p = q;
            },
            Err(e) => {
                return Err(e);
            },
        }
        i = i + 1;
    }
    Ok((out, p))
}

/// The same of a lease that may be absent.
pub open spec fn opt_lease(l: Option<LeaseStatus>) -> Option<LeaseStatusV> {
    match l {
        Some(l) => Some(l@),
        None => None,
    }
}

fn read_lease(v: &Vec<Token>, p: usize, out: &mut Option<LeaseStatus>) -> (r: Result<
    usize,
    WireError,
>)
    requires
        p <= v@.len(),
    ensures
        match (r, lease_or_nil(from_at(v@, p as int), opt_lease(*old(out)))) {
            (Ok(q), Ok((x, rest))) => p < q <= v@.len() && opt_lease(*final(out)) == x && rest
                == from_at(v@, q as int),
            (Err(e), Err(f)) => e@ == f,
            _ => false,
        },
{
    let end: usize = v.len();
    if at_nil(v, p) {
        return Ok(p + 1);
    }
    match decode_lease(v, p) {
        Ok((l, q)) => {
            *out = Some(l);
            Ok(q)
        },
        Err(e) => Err(e),
    }
}

/// What an entry of an interface says of what it is.
pub open spec fn interface_text(i: InterfaceStatusV, key: Seq<char>, t: Tokens) -> Option<Read<InterfaceStatusV>> {
    if key == "ifid"@ {
        Some(match str_from(t) {
            Ok((x, rest)) => Ok((InterfaceStatusV { ifid: x, ..i }, rest)),
            Err(e) => Err(e),
        })
    } else if key == "name"@ {
        Some(match str_from(t) {
            Ok((x, rest)) => Ok((InterfaceStatusV { name: x, ..i }, rest)),
            Err(e) => Err(e),
        })
    } else if key == "index"@ {
        Some(match u32_from(t) {
            Ok((x, rest)) => Ok((InterfaceStatusV { index: x, ..i }, rest)),
            Err(e) => Err(e),
        })
    } else if key == "mac"@ {
        Some(match str_from(t) {
            Ok((x, rest)) => Ok((InterfaceStatusV { mac: x, ..i }, rest)),
            Err(e) => Err(e),
        })
    } else if key == "path"@ {
        Some(match str_from(t) {
            Ok((x, rest)) => Ok((InterfaceStatusV { path: x, ..i }, rest)),
            Err(e) => Err(e),
        })
    } else if key == "driver"@ {
        Some(match str_from(t) {
            Ok((x, rest)) => Ok((InterfaceStatusV { driver: x, ..i }, rest)),
            Err(e) => Err(e),
        })
    } else if key == "profile"@ {
        Some(match opt_from(t) {
            Ok((x, rest)) => Ok((InterfaceStatusV { profile: x, ..i }, rest)),
            Err(e) => Err(e),
        })
    } else {
        None
    }
}

/// What an entry of an interface says of the state it is in.
pub open spec fn interface_state(i: InterfaceStatusV, key: Seq<char>, t: Tokens) -> Option<Read<InterfaceStatusV>> {
    if key == "managed"@ {
        Some(match bool_from(t) {
            Ok((x, rest)) => Ok((InterfaceStatusV { managed: x, ..i }, rest)),
            Err(e) => Err(e),
        })
    } else if key == "enabled"@ {
        Some(match bool_from(t) {
            Ok((x, rest)) => Ok((InterfaceStatusV { enabled: x, ..i }, rest)),
            Err(e) => Err(e),
        })
    } else if key == "up"@ {
        Some(match bool_from(t) {
            Ok((x, rest)) => Ok((InterfaceStatusV { up: x, ..i }, rest)),
            Err(e) => Err(e),
        })
    } else if key == "carrier"@ {
        Some(match bool_from(t) {
            Ok((x, rest)) => Ok((InterfaceStatusV { carrier: x, ..i }, rest)),
            Err(e) => Err(e),
        })
    } else if key == "level"@ {
        Some(match level_from(t) {
            Ok((x, rest)) => Ok((InterfaceStatusV { level: x, ..i }, rest)),
            Err(e) => Err(e),
        })
    } else {
        None
    }
}

/// What an entry of an interface says of how it is reached.
pub open spec fn interface_reach(i: InterfaceStatusV, key: Seq<char>, t: Tokens) -> Option<Read<InterfaceStatusV>> {
    if key == "addresses"@ {
        Some(match list_from(t) {
            Ok((x, rest)) => Ok((InterfaceStatusV { addresses: x, ..i }, rest)),
            Err(e) => Err(e),
        })
    } else if key == "gateway"@ {
        Some(match opt_from(t) {
            Ok((x, rest)) => Ok((InterfaceStatusV { gateway: x, ..i }, rest)),
            Err(e) => Err(e),
        })
    } else if key == "dns"@ {
        Some(match list_from(t) {
            Ok((x, rest)) => Ok((InterfaceStatusV { dns: x, ..i }, rest)),
            Err(e) => Err(e),
        })
    } else if key == "search"@ {
        Some(match list_from(t) {
            Ok((x, rest)) => Ok((InterfaceStatusV { search: x, ..i }, rest)),
            Err(e) => Err(e),
        })
    } else if key == "lease"@ {
        Some(match lease_or_nil(t, i.lease) {
            Ok((x, rest)) => Ok((InterfaceStatusV { lease: x, ..i }, rest)),
            Err(e) => Err(e),
        })
    } else {
        None
    }
}

/// What an entry of an interface says.
#[verifier::opaque]
pub open spec fn interface_entry(i: InterfaceStatusV, key: Seq<char>, t: Tokens) -> Read<InterfaceStatusV> {
    match interface_text(i, key, t) {
        Some(r) => r,
        None => match interface_state(i, key, t) {
            Some(r) => r,
            None => match interface_reach(i, key, t) {
                Some(r) => r,
                None => skip_from(t, i),
            },
        },
    }
}

/// The interface that comes next.
pub open spec fn interface_from(t: Tokens) -> Read<InterfaceStatusV> {
    map_with(
        t,
        super::no_interface(),
        |i: InterfaceStatusV, k: Seq<char>, r: Tokens| interface_entry(i, k, r),
    )
}

fn take_interface_text(out: &mut InterfaceStatus, key: &str, v: &Vec<Token>, p: usize) -> (r: Option<
    Result<usize, WireError>,
>)
    requires
        p <= v@.len(),
    ensures
        match (r, interface_text(old(out)@, key@, from_at(v@, p as int))) {
            (Some(Ok(q)), Some(Ok((x, rest)))) => p <= q <= v@.len() && final(out)@ == x && rest
                == from_at(v@, q as int),
            (Some(Err(e)), Some(Err(f))) => e@ == f,
            (None, None) => final(out)@ == old(out)@,
            _ => false,
        },
{
    if text::same(key, "ifid") {
        Some(read_text(v, p, &mut out.ifid))
    } else if text::same(key, "name") {
        Some(read_text(v, p, &mut out.name))
    } else if text::same(key, "index") {
        Some(read_u32(v, p, &mut out.index))
    } else if text::same(key, "mac") {
        Some(read_text(v, p, &mut out.mac))
    } else if text::same(key, "path") {
        Some(read_text(v, p, &mut out.path))
    } else if text::same(key, "driver") {
        Some(read_text(v, p, &mut out.driver))
    } else if text::same(key, "profile") {
        Some(read_opt_str(v, p, &mut out.profile))
    } else {
        None
    }
}

fn take_interface_state(out: &mut InterfaceStatus, key: &str, v: &Vec<Token>, p: usize) -> (r: Option<
    Result<usize, WireError>,
>)
    requires
        p <= v@.len(),
    ensures
        match (r, interface_state(old(out)@, key@, from_at(v@, p as int))) {
            (Some(Ok(q)), Some(Ok((x, rest)))) => p <= q <= v@.len() && final(out)@ == x && rest
                == from_at(v@, q as int),
            (Some(Err(e)), Some(Err(f))) => e@ == f,
            (None, None) => final(out)@ == old(out)@,
            _ => false,
        },
{
    if text::same(key, "managed") {
        Some(read_flag(v, p, &mut out.managed))
    } else if text::same(key, "enabled") {
        Some(read_flag(v, p, &mut out.enabled))
    } else if text::same(key, "up") {
        Some(read_flag(v, p, &mut out.up))
    } else if text::same(key, "carrier") {
        Some(read_flag(v, p, &mut out.carrier))
    } else if text::same(key, "level") {
        Some(read_level(v, p, &mut out.level))
    } else {
        None
    }
}

fn take_interface_reach(out: &mut InterfaceStatus, key: &str, v: &Vec<Token>, p: usize) -> (r: Option<
    Result<usize, WireError>,
>)
    requires
        p <= v@.len(),
    ensures
        match (r, interface_reach(old(out)@, key@, from_at(v@, p as int))) {
            (Some(Ok(q)), Some(Ok((x, rest)))) => p <= q <= v@.len() && final(out)@ == x && rest
                == from_at(v@, q as int),
            (Some(Err(e)), Some(Err(f))) => e@ == f,
            (None, None) => final(out)@ == old(out)@,
            _ => false,
        },
{
    if text::same(key, "addresses") {
        Some(read_str_list(v, p, &mut out.addresses))
    } else if text::same(key, "gateway") {
        Some(read_opt_str(v, p, &mut out.gateway))
    } else if text::same(key, "dns") {
        Some(read_str_list(v, p, &mut out.dns))
    } else if text::same(key, "search") {
        Some(read_str_list(v, p, &mut out.search))
    } else if text::same(key, "lease") {
        Some(read_lease(v, p, &mut out.lease))
    } else {
        None
    }
}

fn take_interface_entry(out: &mut InterfaceStatus, key: &str, v: &Vec<Token>, p: usize) -> (r: Result<
    usize,
    WireError,
>)
    requires
        p <= v@.len(),
    ensures
        match (r, interface_entry(old(out)@, key@, from_at(v@, p as int))) {
            (Ok(q), Ok((x, rest))) => p <= q <= v@.len() && final(out)@ == x && rest == from_at(
                v@,
                q as int,
            ),
            (Err(e), Err(f)) => e@ == f,
            _ => false,
        },
{
    proof {
        reveal(interface_entry);
    }
    match take_interface_text(out, key, v, p) {
        Some(r) => {
            return r;
        },
        None => {},
    }
    match take_interface_state(out, key, v, p) {
        Some(r) => {
            return r;
        },
        None => {},
    }
    match take_interface_reach(out, key, v, p) {
        Some(r) => r,
        None => skip(v, p),
    }
}

fn decode_interface(v: &Vec<Token>, from: usize) -> (r: Result<(InterfaceStatus, usize), WireError>)
    requires
        from <= v@.len(),
    ensures
        match (r, interface_from(from_at(v@, from as int))) {
            (Ok((x, q)), Ok((y, rest))) => x@ == y && from < q <= v@.len() && rest == from_at(
                v@,
                q as int,
            ),
            (Err(e), Err(f)) => e@ == f,
            _ => false,
        },
{
    let ghost whole = interface_from(from_at(v@, from as int));
    let ghost f = |s: InterfaceStatusV, k: Seq<char>, r: Tokens| interface_entry(s, k, r);
    let mut out: InterfaceStatus = InterfaceStatus::default();
    let mut seen: Vec<String> = Vec::new();
    assert(text::list_view(seen@) =~= Seq::empty());
    let n: usize = match read_map(v, from) {
        Ok(n) => n,
        Err(e) => {
            return Err(e);
        },
    };
    let end: usize = v.len();
    let mut p: usize = from + 1;
    let mut i: usize = 0;
    while i < n
        invariant
            i <= n,
            from < p <= v@.len(),
            end == v@.len(),
            f == (|s: InterfaceStatusV, k: Seq<char>, r: Tokens| interface_entry(s, k, r)),
            whole == interface_from(from_at(v@, from as int)),
            whole == fields_from(
                from_at(v@, p as int),
                (n - i) as nat,
                text::list_view(seen@),
                out@,
                f,
            ),
        decreases n - i,
    {
        let key: &String = match take_key(v, p, &mut seen) {
            Ok(k) => k,
            Err(e) => {
                return Err(e);
            },
        };
        match take_interface_entry(&mut out, key.as_str(), v, p + 1) {
            Ok(q) => {
                p = q;
            },
            Err(e) => {
                return Err(e);
            },
        }
        i = i + 1;
    }
    Ok((out, p))
}

/// What an entry of a scope says of its texts.
pub open spec fn scope_text(s: DnsScopeV, key: Seq<char>, t: Tokens) -> Option<Read<DnsScopeV>> {
    if key == "ifid"@ {
        Some(match str_from(t) {
            Ok((x, rest)) => Ok((DnsScopeV { ifid: x, ..s }, rest)),
            Err(e) => Err(e),
        })
    } else if key == "name"@ {
        Some(match str_from(t) {
            Ok((x, rest)) => Ok((DnsScopeV { name: x, ..s }, rest)),
            Err(e) => Err(e),
        })
    } else if key == "servers"@ {
        Some(match list_from(t) {
            Ok((x, rest)) => Ok((DnsScopeV { servers: x, ..s }, rest)),
            Err(e) => Err(e),
        })
    } else if key == "domains"@ {
        Some(match list_from(t) {
            Ok((x, rest)) => Ok((DnsScopeV { domains: x, ..s }, rest)),
            Err(e) => Err(e),
        })
    } else if key == "ntp"@ {
        Some(match list_from(t) {
            Ok((x, rest)) => Ok((DnsScopeV { ntp: x, ..s }, rest)),
            Err(e) => Err(e),
        })
    } else if key == "addresses"@ {
        Some(match list_from(t) {
            Ok((x, rest)) => Ok((DnsScopeV { addresses: x, ..s }, rest)),
            Err(e) => Err(e),
        })
    } else {
        None
    }
}

/// What an entry of a scope says of how it ranks.
pub open spec fn scope_rank(s: DnsScopeV, key: Seq<char>, t: Tokens) -> Option<Read<DnsScopeV>> {
    if key == "default_route"@ {
        Some(match bool_from(t) {
            Ok((x, rest)) => Ok((DnsScopeV { default_route: x, ..s }, rest)),
            Err(e) => Err(e),
        })
    } else if key == "exclusive"@ {
        Some(match bool_from(t) {
            Ok((x, rest)) => Ok((DnsScopeV { exclusive: x, ..s }, rest)),
            Err(e) => Err(e),
        })
    } else if key == "metric"@ {
        Some(match u32_from(t) {
            Ok((x, rest)) => Ok((DnsScopeV { metric: x, ..s }, rest)),
            Err(e) => Err(e),
        })
    } else if key == "level"@ {
        Some(match level_from(t) {
            Ok((x, rest)) => Ok((DnsScopeV { level: x, ..s }, rest)),
            Err(e) => Err(e),
        })
    } else {
        None
    }
}

/// What an entry of a scope says.
#[verifier::opaque]
pub open spec fn scope_entry(s: DnsScopeV, key: Seq<char>, t: Tokens) -> Read<DnsScopeV> {
    match scope_text(s, key, t) {
        Some(r) => r,
        None => match scope_rank(s, key, t) {
            Some(r) => r,
            None => skip_from(t, s),
        },
    }
}

/// The scope that comes next.
pub open spec fn scope_from(t: Tokens) -> Read<DnsScopeV> {
    map_with(
        t,
        super::no_scope(),
        |s: DnsScopeV, k: Seq<char>, r: Tokens| scope_entry(s, k, r),
    )
}

fn take_scope_text(out: &mut DnsScope, key: &str, v: &Vec<Token>, p: usize) -> (r: Option<
    Result<usize, WireError>,
>)
    requires
        p <= v@.len(),
    ensures
        match (r, scope_text(old(out)@, key@, from_at(v@, p as int))) {
            (Some(Ok(q)), Some(Ok((x, rest)))) => p <= q <= v@.len() && final(out)@ == x && rest
                == from_at(v@, q as int),
            (Some(Err(e)), Some(Err(f))) => e@ == f,
            (None, None) => final(out)@ == old(out)@,
            _ => false,
        },
{
    if text::same(key, "ifid") {
        Some(read_text(v, p, &mut out.ifid))
    } else if text::same(key, "name") {
        Some(read_text(v, p, &mut out.name))
    } else if text::same(key, "servers") {
        Some(read_str_list(v, p, &mut out.servers))
    } else if text::same(key, "domains") {
        Some(read_str_list(v, p, &mut out.domains))
    } else if text::same(key, "ntp") {
        Some(read_str_list(v, p, &mut out.ntp))
    } else if text::same(key, "addresses") {
        Some(read_str_list(v, p, &mut out.addresses))
    } else {
        None
    }
}

fn take_scope_rank(out: &mut DnsScope, key: &str, v: &Vec<Token>, p: usize) -> (r: Option<
    Result<usize, WireError>,
>)
    requires
        p <= v@.len(),
    ensures
        match (r, scope_rank(old(out)@, key@, from_at(v@, p as int))) {
            (Some(Ok(q)), Some(Ok((x, rest)))) => p <= q <= v@.len() && final(out)@ == x && rest
                == from_at(v@, q as int),
            (Some(Err(e)), Some(Err(f))) => e@ == f,
            (None, None) => final(out)@ == old(out)@,
            _ => false,
        },
{
    if text::same(key, "default_route") {
        Some(read_flag(v, p, &mut out.default_route))
    } else if text::same(key, "exclusive") {
        Some(read_flag(v, p, &mut out.exclusive))
    } else if text::same(key, "metric") {
        Some(read_u32(v, p, &mut out.metric))
    } else if text::same(key, "level") {
        Some(read_level(v, p, &mut out.level))
    } else {
        None
    }
}

fn take_scope_entry(out: &mut DnsScope, key: &str, v: &Vec<Token>, p: usize) -> (r: Result<
    usize,
    WireError,
>)
    requires
        p <= v@.len(),
    ensures
        match (r, scope_entry(old(out)@, key@, from_at(v@, p as int))) {
            (Ok(q), Ok((x, rest))) => p <= q <= v@.len() && final(out)@ == x && rest == from_at(
                v@,
                q as int,
            ),
            (Err(e), Err(f)) => e@ == f,
            _ => false,
        },
{
    proof {
        reveal(scope_entry);
    }
    match take_scope_text(out, key, v, p) {
        Some(r) => {
            return r;
        },
        None => {},
    }
    match take_scope_rank(out, key, v, p) {
        Some(r) => r,
        None => skip(v, p),
    }
}

fn decode_scope(v: &Vec<Token>, from: usize) -> (r: Result<(DnsScope, usize), WireError>)
    requires
        from <= v@.len(),
    ensures
        match (r, scope_from(from_at(v@, from as int))) {
            (Ok((x, q)), Ok((y, rest))) => x@ == y && from < q <= v@.len() && rest == from_at(
                v@,
                q as int,
            ),
            (Err(e), Err(f)) => e@ == f,
            _ => false,
        },
{
    let ghost whole = scope_from(from_at(v@, from as int));
    let ghost f = |s: DnsScopeV, k: Seq<char>, r: Tokens| scope_entry(s, k, r);
    let mut out: DnsScope = DnsScope::default();
    let mut seen: Vec<String> = Vec::new();
    assert(text::list_view(seen@) =~= Seq::empty());
    let n: usize = match read_map(v, from) {
        Ok(n) => n,
        Err(e) => {
            return Err(e);
        },
    };
    let end: usize = v.len();
    let mut p: usize = from + 1;
    let mut i: usize = 0;
    while i < n
        invariant
            i <= n,
            from < p <= v@.len(),
            end == v@.len(),
            f == (|s: DnsScopeV, k: Seq<char>, r: Tokens| scope_entry(s, k, r)),
            whole == scope_from(from_at(v@, from as int)),
            whole == fields_from(
                from_at(v@, p as int),
                (n - i) as nat,
                text::list_view(seen@),
                out@,
                f,
            ),
        decreases n - i,
    {
        let key: &String = match take_key(v, p, &mut seen) {
            Ok(k) => k,
            Err(e) => {
                return Err(e);
            },
        };
        match take_scope_entry(&mut out, key.as_str(), v, p + 1) {
            Ok(q) => {
                p = q;
            },
            Err(e) => {
                return Err(e);
            },
        }
        i = i + 1;
    }
    Ok((out, p))
}

// ---- replies ---------------------------------------------------------------

/// `n` scopes that come next.
pub open spec fn scopes_from(t: Tokens, n: nat) -> Read<Seq<DnsScopeV>>
    decreases n,
{
    if n == 0 {
        Ok((Seq::empty(), t))
    } else {
        match scopes_from(t, (n - 1) as nat) {
            Err(e) => Err(e),
            Ok((list, rest)) => match scope_from(rest) {
                Err(e) => Err(e),
                Ok((x, after)) => Ok((list.push(x), after)),
            },
        }
    }
}

/// The array of scopes that comes next.
pub open spec fn scopes_from_array(t: Tokens) -> Read<Seq<DnsScopeV>> {
    match array_from(t) {
        Err(e) => Err(e),
        Ok((n, rest)) => scopes_from(rest, n),
    }
}

proof fn scopes_from_stop(t: Tokens, n: nat, m: nat)
    requires
        n <= m,
        scopes_from(t, n) is Err,
    ensures
        scopes_from(t, m) == scopes_from(t, n),
    decreases m - n,
{
    if n < m {
        scopes_from_stop(t, n, (m - 1) as nat);
    }
}

fn read_scopes(v: &Vec<Token>, p: usize, out: &mut Vec<DnsScope>) -> (r: Result<usize, WireError>)
    requires
        p <= v@.len(),
    ensures
        match r {
            Ok(q) => p < q <= v@.len() && scopes_from_array(from_at(v@, p as int)) == Ok::<
                _,
                WireErrorV,
            >((super::scopes_view(final(out)@), from_at(v@, q as int))),
            Err(e) => scopes_from_array(from_at(v@, p as int)) == Err::<(Seq<DnsScopeV>, Tokens), _>(
                e@,
            ),
        },
{
    let end: usize = v.len();
    let count: usize = match read_array(v, p) {
        Ok((count, _)) => count,
        Err(e) => {
            return Err(e);
        },
    };
    let ghost t = from_at(v@, p + 1);
    let mut list: Vec<DnsScope> = Vec::new();
    let mut q: usize = p + 1;
    let mut i: usize = 0;
    assert(super::scopes_view(list@) =~= Seq::empty());
    while i < count
        invariant
            i <= count,
            p < q <= v@.len(),
            t == from_at(v@, p + 1),
            scopes_from_array(from_at(v@, p as int)) == scopes_from(t, count as nat),
            scopes_from(t, i as nat) == Ok::<_, WireErrorV>(
                (super::scopes_view(list@), from_at(v@, q as int)),
            ),
        decreases count - i,
    {
        let ghost before = super::scopes_view(list@);
        match decode_scope(v, q) {
            Ok((x, after)) => {
                let ghost value = x@;
                list.push(x);
                assert(super::scopes_view(list@) =~= before.push(value));
                q = after;
            },
            Err(e) => {
                proof {
                    scopes_from_stop(t, (i + 1) as nat, count as nat);
                }
                return Err(e);
            },
        }
        i = i + 1;
    }
    *out = list;
    Ok(q)
}

/// `n` interfaces that come next.
pub open spec fn interfaces_from(t: Tokens, n: nat) -> Read<Seq<InterfaceStatusV>>
    decreases n,
{
    if n == 0 {
        Ok((Seq::empty(), t))
    } else {
        match interfaces_from(t, (n - 1) as nat) {
            Err(e) => Err(e),
            Ok((list, rest)) => match interface_from(rest) {
                Err(e) => Err(e),
                Ok((x, after)) => Ok((list.push(x), after)),
            },
        }
    }
}

/// The array of interfaces that comes next.
pub open spec fn interfaces_from_array(t: Tokens) -> Read<Seq<InterfaceStatusV>> {
    match array_from(t) {
        Err(e) => Err(e),
        Ok((n, rest)) => interfaces_from(rest, n),
    }
}

proof fn interfaces_from_stop(t: Tokens, n: nat, m: nat)
    requires
        n <= m,
        interfaces_from(t, n) is Err,
    ensures
        interfaces_from(t, m) == interfaces_from(t, n),
    decreases m - n,
{
    if n < m {
        interfaces_from_stop(t, n, (m - 1) as nat);
    }
}

fn read_interfaces(v: &Vec<Token>, p: usize, out: &mut Vec<InterfaceStatus>) -> (r: Result<usize, WireError>)
    requires
        p <= v@.len(),
    ensures
        match r {
            Ok(q) => p < q <= v@.len() && interfaces_from_array(from_at(v@, p as int)) == Ok::<
                _,
                WireErrorV,
            >((super::interfaces_view(final(out)@), from_at(v@, q as int))),
            Err(e) => interfaces_from_array(from_at(v@, p as int)) == Err::<(Seq<InterfaceStatusV>, Tokens), _>(
                e@,
            ),
        },
{
    let end: usize = v.len();
    let count: usize = match read_array(v, p) {
        Ok((count, _)) => count,
        Err(e) => {
            return Err(e);
        },
    };
    let ghost t = from_at(v@, p + 1);
    let mut list: Vec<InterfaceStatus> = Vec::new();
    let mut q: usize = p + 1;
    let mut i: usize = 0;
    assert(super::interfaces_view(list@) =~= Seq::empty());
    while i < count
        invariant
            i <= count,
            p < q <= v@.len(),
            t == from_at(v@, p + 1),
            interfaces_from_array(from_at(v@, p as int)) == interfaces_from(t, count as nat),
            interfaces_from(t, i as nat) == Ok::<_, WireErrorV>(
                (super::interfaces_view(list@), from_at(v@, q as int)),
            ),
        decreases count - i,
    {
        let ghost before = super::interfaces_view(list@);
        match decode_interface(v, q) {
            Ok((x, after)) => {
                let ghost value = x@;
                list.push(x);
                assert(super::interfaces_view(list@) =~= before.push(value));
                q = after;
            },
            Err(e) => {
                proof {
                    interfaces_from_stop(t, (i + 1) as nat, count as nat);
                }
                return Err(e);
            },
        }
        i = i + 1;
    }
    *out = list;
    Ok(q)
}

/// What the entries of a reply said.
#[verifier::ext_equal]
pub struct ReplyFields {
    pub ok: Option<bool>,
    pub error: Option<Seq<char>>,
    pub kind: Option<Seq<char>>,
    pub hostname: Seq<char>,
    pub level: Level,
    pub interfaces: Seq<InterfaceStatusV>,
    pub scopes: Seq<DnsScopeV>,
    /// Whether any entry of a status was there.
    pub has_status: bool,
}

/// Nothing said.
pub open spec fn no_reply() -> ReplyFields {
    ReplyFields {
        ok: None,
        error: None,
        kind: None,
        hostname: Seq::empty(),
        level: Level::Absent,
        interfaces: Seq::empty(),
        scopes: Seq::empty(),
        has_status: false,
    }
}

/// What an entry of a reply says of what it is.
pub open spec fn reply_sort(s: ReplyFields, key: Seq<char>, t: Tokens) -> Option<Read<ReplyFields>> {
    if key == "ok"@ {
        Some(match bool_from(t) {
            Ok((x, rest)) => Ok((ReplyFields { ok: Some(x), ..s }, rest)),
            Err(e) => Err(e),
        })
    } else if key == "error"@ {
        Some(match str_from(t) {
            Ok((x, rest)) => Ok((ReplyFields { error: Some(x), ..s }, rest)),
            Err(e) => Err(e),
        })
    } else if key == "kind"@ {
        Some(match str_from(t) {
            Ok((x, rest)) => Ok((ReplyFields { kind: Some(x), ..s }, rest)),
            Err(e) => Err(e),
        })
    } else {
        None
    }
}

/// What an entry of a reply says of its body.
pub open spec fn reply_body(s: ReplyFields, key: Seq<char>, t: Tokens) -> Option<Read<ReplyFields>> {
    if key == "scopes"@ {
        Some(match scopes_from_array(t) {
            Ok((x, rest)) => Ok((ReplyFields { scopes: x, ..s }, rest)),
            Err(e) => Err(e),
        })
    } else if key == "hostname"@ {
        Some(match str_from(t) {
            Ok((x, rest)) => Ok((ReplyFields { hostname: x, has_status: true, ..s }, rest)),
            Err(e) => Err(e),
        })
    } else if key == "level"@ {
        Some(match level_from(t) {
            Ok((x, rest)) => Ok((ReplyFields { level: x, has_status: true, ..s }, rest)),
            Err(e) => Err(e),
        })
    } else if key == "interfaces"@ {
        Some(match interfaces_from_array(t) {
            Ok((x, rest)) => Ok((ReplyFields { interfaces: x, has_status: true, ..s }, rest)),
            Err(e) => Err(e),
        })
    } else {
        None
    }
}

/// What an entry of a reply says.
#[verifier::opaque]
pub open spec fn reply_entry(s: ReplyFields, key: Seq<char>, t: Tokens) -> Read<ReplyFields> {
    match reply_sort(s, key, t) {
        Some(r) => r,
        None => match reply_body(s, key, t) {
            Some(r) => r,
            None => skip_from(t, s),
        },
    }
}

/// The entries of a reply.
pub open spec fn reply_fields(t: Tokens) -> Read<ReplyFields> {
    map_with(
        t,
        no_reply(),
        |s: ReplyFields, k: Seq<char>, r: Tokens| reply_entry(s, k, r),
    )
}

/// What the entries of a reply come to.
pub open spec fn reply_of(s: ReplyFields) -> Result<ReplyV, WireErrorV> {
    match s.ok {
        None => Err(WireErrorV::Missing("ok"@)),
        Some(true) => if s.kind == Some("snapshot"@) {
            Ok(ReplyV::Snapshot(SnapshotV { hostname: s.hostname, scopes: s.scopes }))
        } else if s.has_status {
            Ok(
                ReplyV::Status(
                    StatusV { hostname: s.hostname, level: s.level, interfaces: s.interfaces },
                ),
            )
        } else {
            Ok(ReplyV::Done)
        },
        Some(false) => Ok(
            ReplyV::Error(
                match s.error {
                    Some(e) => e,
                    None => "unspecified error"@,
                },
            ),
        ),
    }
}

/// The reply that a message is.
pub open spec fn reply_decoded(t: Tokens) -> Result<ReplyV, WireErrorV> {
    match reply_fields(t) {
        Err(e) => Err(e),
        Ok((s, _)) => reply_of(s),
    }
}

struct Parts {
    ok: Option<bool>,
    error: Option<String>,
    kind: Option<String>,
    hostname: String,
    level: Level,
    interfaces: Vec<InterfaceStatus>,
    scopes: Vec<DnsScope>,
    has_status: bool,
}

impl View for Parts {
    type V = ReplyFields;

    closed spec fn view(&self) -> ReplyFields {
        ReplyFields {
            ok: self.ok,
            error: text::opt_view(self.error),
            kind: text::opt_view(self.kind),
            hostname: self.hostname@,
            level: self.level,
            interfaces: super::interfaces_view(self.interfaces@),
            scopes: super::scopes_view(self.scopes@),
            has_status: self.has_status,
        }
    }
}

impl Default for Parts {
    fn default() -> (p: Parts)
        ensures
            p@ == no_reply(),
    {
        let p: Parts = Parts {
            ok: None,
            error: None,
            kind: None,
            hostname: String::new(),
            level: Level::Absent,
            interfaces: Vec::new(),
            scopes: Vec::new(),
            has_status: false,
        };
        assert(p@ =~= no_reply());
        p
    }
}

fn take_reply_sort(out: &mut Parts, key: &str, v: &Vec<Token>, p: usize) -> (r: Option<
    Result<usize, WireError>,
>)
    requires
        p <= v@.len(),
    ensures
        match (r, reply_sort(old(out)@, key@, from_at(v@, p as int))) {
            (Some(Ok(q)), Some(Ok((x, rest)))) => p <= q <= v@.len() && final(out)@ == x && rest
                == from_at(v@, q as int),
            (Some(Err(e)), Some(Err(f))) => e@ == f,
            (None, None) => final(out)@ == old(out)@,
            _ => false,
        },
{
    if text::same(key, "ok") {
        match read_bool(v, p) {
            Ok((b, q)) => {
                out.ok = Some(b);
                Some(Ok(q))
            },
            Err(e) => Some(Err(e)),
        }
    } else if text::same(key, "error") {
        match read_str(v, p) {
            Ok((s, q)) => {
                out.error = Some(s.clone());
                Some(Ok(q))
            },
            Err(e) => Some(Err(e)),
        }
    } else if text::same(key, "kind") {
        match read_str(v, p) {
            Ok((s, q)) => {
                out.kind = Some(s.clone());
                Some(Ok(q))
            },
            Err(e) => Some(Err(e)),
        }
    } else {
        None
    }
}

fn take_reply_body(out: &mut Parts, key: &str, v: &Vec<Token>, p: usize) -> (r: Option<
    Result<usize, WireError>,
>)
    requires
        p <= v@.len(),
    ensures
        match (r, reply_body(old(out)@, key@, from_at(v@, p as int))) {
            (Some(Ok(q)), Some(Ok((x, rest)))) => p <= q <= v@.len() && final(out)@ == x && rest
                == from_at(v@, q as int),
            (Some(Err(e)), Some(Err(f))) => e@ == f,
            (None, None) => final(out)@ == old(out)@,
            _ => false,
        },
{
    if text::same(key, "scopes") {
        Some(read_scopes(v, p, &mut out.scopes))
    } else if text::same(key, "hostname") {
        out.has_status = true;
        Some(read_text(v, p, &mut out.hostname))
    } else if text::same(key, "level") {
        out.has_status = true;
        Some(read_level(v, p, &mut out.level))
    } else if text::same(key, "interfaces") {
        out.has_status = true;
        Some(read_interfaces(v, p, &mut out.interfaces))
    } else {
        None
    }
}

fn take_reply_entry(out: &mut Parts, key: &str, v: &Vec<Token>, p: usize) -> (r: Result<
    usize,
    WireError,
>)
    requires
        p <= v@.len(),
    ensures
        match (r, reply_entry(old(out)@, key@, from_at(v@, p as int))) {
            (Ok(q), Ok((x, rest))) => p <= q <= v@.len() && final(out)@ == x && rest == from_at(
                v@,
                q as int,
            ),
            (Err(e), Err(f)) => e@ == f,
            _ => false,
        },
{
    proof {
        reveal(reply_entry);
    }
    match take_reply_sort(out, key, v, p) {
        Some(r) => {
            return r;
        },
        None => {},
    }
    match take_reply_body(out, key, v, p) {
        Some(r) => r,
        None => skip(v, p),
    }
}

fn read_parts(v: &Vec<Token>, from: usize) -> (r: Result<(Parts, usize), WireError>)
    requires
        from <= v@.len(),
    ensures
        match (r, reply_fields(from_at(v@, from as int))) {
            (Ok((x, q)), Ok((y, rest))) => x@ == y && from < q <= v@.len() && rest == from_at(
                v@,
                q as int,
            ),
            (Err(e), Err(f)) => e@ == f,
            _ => false,
        },
{
    let ghost whole = reply_fields(from_at(v@, from as int));
    let ghost f = |s: ReplyFields, k: Seq<char>, r: Tokens| reply_entry(s, k, r);
    let mut out: Parts = Parts::default();
    let mut seen: Vec<String> = Vec::new();
    assert(text::list_view(seen@) =~= Seq::empty());
    let n: usize = match read_map(v, from) {
        Ok(n) => n,
        Err(e) => {
            return Err(e);
        },
    };
    let end: usize = v.len();
    let mut p: usize = from + 1;
    let mut i: usize = 0;
    while i < n
        invariant
            i <= n,
            from < p <= v@.len(),
            end == v@.len(),
            f == (|s: ReplyFields, k: Seq<char>, r: Tokens| reply_entry(s, k, r)),
            whole == reply_fields(from_at(v@, from as int)),
            whole == fields_from(
                from_at(v@, p as int),
                (n - i) as nat,
                text::list_view(seen@),
                out@,
                f,
            ),
        decreases n - i,
    {
        let key: &String = match take_key(v, p, &mut seen) {
            Ok(k) => k,
            Err(e) => {
                return Err(e);
            },
        };
        match take_reply_entry(&mut out, key.as_str(), v, p + 1) {
            Ok(q) => {
                p = q;
            },
            Err(e) => {
                return Err(e);
            },
        }
        i = i + 1;
    }
    Ok((out, p))
}

impl Reply {
    /// The reply that a message is, or what is wrong with it.
    pub fn decode(v: &Vec<Token>) -> (r: Result<Reply, WireError>)
        ensures
            match (r, reply_decoded(from_at(v@, 0))) {
                (Ok(x), Ok(y)) => x@ == y,
                (Err(e), Err(f)) => e@ == f,
                _ => false,
            },
    {
        let parts: Parts = match read_parts(v, 0) {
            Ok((parts, _)) => parts,
            Err(e) => {
                return Err(e);
            },
        };
        match parts.ok {
            None => Err(WireError::Missing("ok")),
            Some(true) => {
                let is_snapshot: bool = match &parts.kind {
                    Some(k) => text::same(k.as_str(), "snapshot"),
                    None => false,
                };
                if is_snapshot {
                    Ok(
                        Reply::Snapshot(
                            Snapshot { hostname: parts.hostname, scopes: parts.scopes },
                        ),
                    )
                } else if parts.has_status {
                    Ok(
                        Reply::Status(
                            Status {
                                hostname: parts.hostname,
                                level: parts.level,
                                interfaces: parts.interfaces,
                            },
                        ),
                    )
                } else {
                    Ok(Reply::Done)
                }
            },
            Some(false) => match parts.error {
                Some(e) => Ok(Reply::Error(e)),
                None => Ok(Reply::Error(String::from_str("unspecified error"))),
            },
        }
    }
}

} // verus!
