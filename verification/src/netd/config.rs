//! What the registry says the network should be, lowered to neutral trees and
//! handed to the pure modules.
//!
//! `Machine\System\Network` is the key. Three things are read from it: the
//! machine-level values (`Hostname`, `ControlSecurity`, `Duid`), the interface
//! layer `Rules\Interface`, and the profile tree `Profiles\`. Both trees are
//! lowered to `RawKey` here and built by `policy`, so that everything with a
//! law in it is testable without a registry.
//!
//! A malformed generation is refused as a whole by the builder; this module
//! never guesses at a value. A missing root means "no configuration".

use vstd::prelude::*;
use vstd::string::*;
use vstd::utf8::*;
use crate::bytes;
use crate::text;

verus! {

/// A registry value, lowered.
#[derive(Debug, PartialEq, Eq)]
pub enum RawValue {
    Int(i64),
    Str(String),
    List(Vec<String>),
    /// A type the vocabulary has no use for (binary, none). Kept so the
    /// builder can refuse it by name rather than silently drop it.
    Other,
}

/// The same as values.
#[verifier::ext_equal]
pub enum RawValueV {
    Int(i64),
    Str(Seq<char>),
    List(Seq<Seq<char>>),
    Other,
}

impl View for RawValue {
    type V = RawValueV;

    open spec fn view(&self) -> RawValueV {
        match self {
            RawValue::Int(n) => RawValueV::Int(*n),
            RawValue::Str(s) => RawValueV::Str(s@),
            RawValue::List(v) => RawValueV::List(text::list_view(v@)),
            RawValue::Other => RawValueV::Other,
        }
    }
}

impl Clone for RawValue {
    fn clone(&self) -> (r: RawValue)
        ensures
            r@ == self@,
    {
        match self {
            RawValue::Int(n) => RawValue::Int(*n),
            RawValue::Str(s) => RawValue::Str(s.clone()),
            RawValue::List(v) => RawValue::List(text::copy_list(v)),
            RawValue::Other => RawValue::Other,
        }
    }
}

/// A registry key, lowered: its name, values and subkeys.
#[derive(Debug, PartialEq, Eq)]
pub struct RawKey {
    pub name: String,
    pub values: Vec<(String, RawValue)>,
    pub children: Vec<RawKey>,
}

/// Named values.
pub type ValuesV = Seq<(Seq<char>, RawValueV)>;

/// Named values as values.
pub open spec fn values_view(v: Seq<(String, RawValue)>) -> ValuesV {
    Seq::new(v.len(), |i: int| (v[i].0@, v[i].1@))
}

/// The machine's configuration.
#[derive(Debug, PartialEq, Eq)]
pub struct Config {
    pub hostname: Option<String>,
    /// `ControlSecurity`, raw self-relative security descriptor, if set.
    pub control_security: Option<Vec<u8>>,
    /// `Duid`: the machine's DHCPv6 identifier, when the operator (or an
    /// earlier run) has written one.
    pub duid: Option<Vec<u8>>,
    /// `Rules\Interface`, when present.
    pub rules: Option<RawKey>,
    /// `Profiles`, when present.
    pub profiles: Option<RawKey>,
}

impl Default for Config {
    fn default() -> (c: Config)
        ensures
            c.hostname is None,
            c.control_security is None,
            c.duid is None,
            c.rules is None,
            c.profiles is None,
    {
        Config {
            hostname: None,
            control_security: None,
            duid: None,
            rules: None,
            profiles: None,
        }
    }
}

/// How deep a rule or profile tree may go before the read stops: the builder
/// refuses deeper nesting anyway, and a cycle is impossible in a registry, so
/// this only bounds a pathological tree.
pub const MAX_DEPTH: usize = 16;

/// Whether the subkeys of a key at this depth are read.
pub fn descends(depth: usize) -> (r: bool)
    ensures
        r == (depth < MAX_DEPTH),
{
    depth < MAX_DEPTH
}

/// The type of a registry value.
#[derive(Debug, Clone, Copy, PartialEq, Eq, Structural)]
pub enum ValueType {
    Dword,
    Qword,
    Sz,
    ExpandSz,
    MultiSz,
    Binary,
    Other,
}

/// A registry value as it is stored.
#[derive(Debug, PartialEq, Eq)]
pub struct RegValue {
    pub ty: ValueType,
    pub data: Vec<u8>,
}

/// A named registry value as it is stored.
#[derive(Debug, PartialEq, Eq)]
pub struct Record {
    pub name: Vec<u8>,
    pub ty: ValueType,
    pub data: Vec<u8>,
}

/// The text of stored bytes, up to the first zero; `None` where it is not
/// UTF-8.
pub open spec fn stored_text(data: Seq<u8>) -> Option<Seq<char>> {
    let t = data.take(bytes::zero_at(data));
    if valid_utf8(t) {
        Some(decode_utf8(t))
    } else {
        None
    }
}

/// The text of stored bytes.
pub fn text_of(data: &[u8]) -> (r: Option<String>)
    ensures
        text::opt_view(r) == stored_text(data@),
{
    assert(data@.skip(0) =~= data@);
    let end: usize = bytes::find_zero(data, 0);
    assert(data@.subrange(0, end as int) =~= data@.take(end as int));
    text::from_utf8(vstd::slice::slice_subrange(data, 0, end))
}

/// The text of a value of a string type.
pub open spec fn string_in(ty: ValueType, data: Seq<u8>) -> Option<Seq<char>> {
    if ty is Sz || ty is ExpandSz {
        stored_text(data)
    } else {
        None
    }
}

/// The text of a value of a string type.
pub fn sz(v: &RegValue) -> (r: Option<String>)
    ensures
        text::opt_view(r) == string_in(v.ty, v.data@),
{
    match v.ty {
        ValueType::Sz | ValueType::ExpandSz => text_of(v.data.as_slice()),
        _ => None,
    }
}

/// The texts of stored bytes with zeros between them: the empty ones and those
/// that are not UTF-8 left out.
pub open spec fn stored_texts(data: Seq<u8>) -> Seq<Seq<char>>
    decreases data.len(),
{
    if data.len() == 0 {
        Seq::empty()
    } else {
        let n = bytes::zero_at(data);
        let piece = data.take(n);
        let here: Seq<Seq<char>> = if piece.len() > 0 && valid_utf8(piece) {
            seq![decode_utf8(piece)]
        } else {
            Seq::empty()
        };
        if 0 <= n < data.len() {
            here + stored_texts(data.skip(n + 1))
        } else {
            here
        }
    }
}

/// The texts of stored bytes with zeros between them.
pub fn texts_of(data: &[u8]) -> (out: Vec<String>)
    ensures
        text::list_view(out@) == stored_texts(data@),
{
    let mut out: Vec<String> = Vec::new();
    let mut at: usize = 0;
    let n: usize = data.len();
    let ghost whole = stored_texts(data@);
    assert(data@.skip(0) =~= data@);
    assert(text::list_view(out@) + whole =~= whole);
    while at < n
        invariant
            at <= n,
            n == data@.len(),
            whole == stored_texts(data@),
            text::list_view(out@) + stored_texts(data@.skip(at as int)) == whole,
        decreases n - at,
    {
        let ghost rest = data@.skip(at as int);
        let ghost before = text::list_view(out@);
        let end: usize = bytes::find_zero(data, at);
        let ghost piece = rest.take(end - at);
        assert(data@.subrange(at as int, end as int) =~= piece);
        let ghost here: Seq<Seq<char>> = if piece.len() > 0 && valid_utf8(piece) {
            seq![decode_utf8(piece)]
        } else {
            Seq::empty()
        };
        if end > at {
            match text::from_utf8(vstd::slice::slice_subrange(data, at, end)) {
                Some(s) => {
                    out.push(s);
                    assert(text::list_view(out@) =~= before.push(s@));
                },
                None => {},
            }
        }
        assert(text::list_view(out@) =~= before + here);
        if end < n {
            proof {
                assert(rest.skip(end - at + 1) =~= data@.skip(end + 1));
                let more = stored_texts(data@.skip(end + 1));
                assert(before + (here + more) =~= text::list_view(out@) + more);
            }
            at = end + 1;
        } else {
            proof {
                assert(data@.skip(n as int).len() == 0);
                assert(before + here =~= text::list_view(out@) + Seq::<Seq<char>>::empty());
            }
            at = n;
        }
    }
    assert(text::list_view(out@) + Seq::<Seq<char>>::empty() =~= text::list_view(out@));
    out
}

/// A number of eight bytes as a signed one.
pub open spec fn signed(n: nat) -> int {
    if n < 0x8000_0000_0000_0000 {
        n as int
    } else {
        n - 0x1_0000_0000_0000_0000
    }
}

/// A stored value, lowered.
pub open spec fn lowered(ty: ValueType, data: Seq<u8>) -> RawValueV {
    match ty {
        ValueType::Dword => if data.len() == 4 {
            RawValueV::Int(bytes::le_nat(data) as i64)
        } else {
            RawValueV::Other
        },
        ValueType::Qword => if data.len() == 8 {
            RawValueV::Int(signed(bytes::le_nat(data)) as i64)
        } else {
            RawValueV::Other
        },
        ValueType::Sz | ValueType::ExpandSz => match stored_text(data) {
            Some(s) => RawValueV::Str(s),
            None => RawValueV::Other,
        },
        ValueType::MultiSz => RawValueV::List(stored_texts(data)),
        ValueType::Binary | ValueType::Other => RawValueV::Other,
    }
}

/// Lowers a stored value.
pub fn lower_value(ty: ValueType, data: &[u8]) -> (r: RawValue)
    ensures
        r@ == lowered(ty, data@),
{
    assert(data@.subrange(0, data@.len() as int) =~= data@);
    match ty {
        ValueType::Dword => if data.len() == 4 {
            let n: u64 = bytes::le_at(data, 0, 4);
            proof {
                bytes::le_nat_small(data@);
            }
            RawValue::Int(n as i64)
        } else {
            RawValue::Other
        },
        ValueType::Qword => if data.len() == 8 {
            let n: u64 = bytes::le_at(data, 0, 8);
            let v: i64 = if n < 0x8000_0000_0000_0000 {
                n as i64
            } else {
                (n as i128 - 0x1_0000_0000_0000_0000) as i64
            };
            RawValue::Int(v)
        } else {
            RawValue::Other
        },
        ValueType::Sz | ValueType::ExpandSz => match text_of(data) {
            Some(s) => RawValue::Str(s),
            None => RawValue::Other,
        },
        ValueType::MultiSz => RawValue::List(texts_of(data)),
        ValueType::Binary | ValueType::Other => RawValue::Other,
    }
}

/// How many of a list of names come no later than `k`, from the front.
pub open spec fn name_rank(s: ValuesV, k: Seq<char>) -> int
    decreases s.len(),
{
    if s.len() > 0 && !text::before(k, s[0].0) {
        1 + name_rank(s.drop_first(), k)
    } else {
        0
    }
}

/// The values of a key: those with a name, by name. A stable order makes two
/// reads of the same tree the same; the default value, which has no name,
/// carries nothing in either tree.
pub open spec fn values_in(records: Seq<Record>) -> ValuesV
    decreases records.len(),
{
    if records.len() == 0 {
        Seq::empty()
    } else {
        let before = values_in(records.drop_last());
        let r = records.last();
        if valid_utf8(r.name@) && decode_utf8(r.name@).len() > 0 {
            let name = decode_utf8(r.name@);
            before.insert(name_rank(before, name), (name, lowered(r.ty, r.data@)))
        } else {
            before
        }
    }
}

proof fn name_rank_found(s: ValuesV, k: Seq<char>, n: int)
    requires
        0 <= n <= s.len(),
        forall|i: int| 0 <= i < n ==> !text::before(k, (#[trigger] s[i]).0),
        n < s.len() ==> text::before(k, s[n].0),
    ensures
        name_rank(s, k) == n,
    decreases n,
{
    if n > 0 {
        let t = s.drop_first();
        assert(!text::before(k, s[0].0));
        assert forall|i: int| 0 <= i < n - 1 implies !text::before(k, (#[trigger] t[i]).0) by {
            assert(t[i] == s[i + 1]);
        }
        name_rank_found(t, k, n - 1);
    }
}

/// The values of a key, lowered, by name.
pub fn lower_values(records: &Vec<Record>) -> (out: Vec<(String, RawValue)>)
    ensures
        values_view(out@) == values_in(records@),
{
    let mut out: Vec<(String, RawValue)> = Vec::new();
    let mut i: usize = 0;
    assert(records@.take(0) =~= Seq::empty());
    assert(values_view(out@) =~= Seq::empty());
    while i < records.len()
        invariant
            i <= records@.len(),
            values_view(out@) == values_in(records@.take(i as int)),
        decreases records@.len() - i,
    {
        assert(records@.take(i + 1).drop_last() =~= records@.take(i as int));
        let ghost before = values_view(out@);
        match text::from_utf8(records[i].name.as_slice()) {
            Some(name) => if name.as_str().unicode_len() > 0 {
                let mut n: usize = 0;
                while n < out.len() && !text::comes_before(name.as_str(), out[n].0.as_str())
                    invariant
                        n <= out@.len(),
                        before == values_view(out@),
                        forall|j: int| 0 <= j < n ==> !text::before(name@, (#[trigger] before[j]).0),
                    decreases out@.len() - n,
                {
                    assert(before[n as int].0 == out@[n as int].0@);
                    n = n + 1;
                }
                proof {
                    name_rank_found(before, name@, n as int);
                }
                let value: RawValue = lower_value(records[i].ty, records[i].data.as_slice());
                out.insert(n, (name, value));
                assert(values_view(out@) =~= before.insert(n as int, (name@, value@)));
            },
            None => {},
        }
        i = i + 1;
    }
    assert(records@.take(i as int) =~= records@);
    out
}

/// How many of a list of texts come no later than `k`, from the front.
pub open spec fn text_rank(s: Seq<Seq<char>>, k: Seq<char>) -> int
    decreases s.len(),
{
    if s.len() > 0 && !text::before(k, s[0]) {
        1 + text_rank(s.drop_first(), k)
    } else {
        0
    }
}

/// The names of subkeys that are UTF-8, in order.
pub open spec fn names_in(raw: Seq<Vec<u8>>) -> Seq<Seq<char>>
    decreases raw.len(),
{
    if raw.len() == 0 {
        Seq::empty()
    } else {
        let before = names_in(raw.drop_last());
        if valid_utf8(raw.last()@) {
            let name = decode_utf8(raw.last()@);
            before.insert(text_rank(before, name), name)
        } else {
            before
        }
    }
}

pub proof fn text_rank_found(s: Seq<Seq<char>>, k: Seq<char>, n: int)
    requires
        0 <= n <= s.len(),
        forall|i: int| 0 <= i < n ==> !text::before(k, #[trigger] s[i]),
        n < s.len() ==> text::before(k, s[n]),
    ensures
        text_rank(s, k) == n,
    decreases n,
{
    if n > 0 {
        let t = s.drop_first();
        assert(!text::before(k, s[0]));
        assert forall|i: int| 0 <= i < n - 1 implies !text::before(k, #[trigger] t[i]) by {
            assert(t[i] == s[i + 1]);
        }
        text_rank_found(t, k, n - 1);
    }
}

/// The names of subkeys that are UTF-8, in order.
pub fn child_names(raw: &Vec<Vec<u8>>) -> (out: Vec<String>)
    ensures
        text::list_view(out@) == names_in(raw@),
{
    let mut out: Vec<String> = Vec::new();
    let mut i: usize = 0;
    assert(raw@.take(0) =~= Seq::empty());
    assert(text::list_view(out@) =~= Seq::empty());
    while i < raw.len()
        invariant
            i <= raw@.len(),
            text::list_view(out@) == names_in(raw@.take(i as int)),
        decreases raw@.len() - i,
    {
        assert(raw@.take(i + 1).drop_last() =~= raw@.take(i as int));
        let ghost before = text::list_view(out@);
        match text::from_utf8(raw[i].as_slice()) {
            Some(name) => {
                let mut n: usize = 0;
                while n < out.len() && !text::comes_before(name.as_str(), out[n].as_str())
                    invariant
                        n <= out@.len(),
                        before == text::list_view(out@),
                        forall|j: int| 0 <= j < n ==> !text::before(name@, #[trigger] before[j]),
                    decreases out@.len() - n,
                {
                    assert(before[n as int] == out@[n as int]@);
                    n = n + 1;
                }
                proof {
                    text_rank_found(before, name@, n as int);
                }
                out.insert(n, name);
                assert(text::list_view(out@) =~= before.insert(n as int, name@));
            },
            None => {},
        }
        i = i + 1;
    }
    assert(raw@.take(i as int) =~= raw@);
    out
}

/// What may stand between the digits of an identifier.
pub open spec fn separator(c: char) -> bool {
    c == ':' || c == '-' || c == ' ' || c == '\t' || c == '\n' || c == '\r' || c == '\x0c'
}

/// The values of the hexadecimal digits of a text, in order.
pub open spec fn digits_in(s: Seq<char>) -> Seq<nat>
    decreases s.len(),
{
    if s.len() == 0 {
        Seq::empty()
    } else {
        match text::hex_value(s.last()) {
            Some(d) => digits_in(s.drop_last()).push(d),
            None => digits_in(s.drop_last()),
        }
    }
}

/// Whether a text is hexadecimal digits and separators alone.
pub open spec fn hex_text(s: Seq<char>) -> bool {
    forall|i: int|
        0 <= i < s.len() ==> text::hex_value(#[trigger] s[i]) is Some || separator(s[i])
}

/// The bytes that pairs of digits spell.
pub open spec fn paired(d: Seq<nat>) -> Seq<u8> {
    Seq::new(d.len() / 2, |i: int| (d[2 * i] * 16 + d[2 * i + 1]) as u8)
}

/// The identifier that a text spells: an even number of digits, at least two,
/// and nothing but separators among them.
pub open spec fn hex_parsed(s: Seq<char>) -> Option<Seq<u8>> {
    let d = digits_in(s);
    if d.len() == 0 || d.len() % 2 != 0 || !hex_text(s) {
        None
    } else {
        Some(paired(d))
    }
}

/// Parses a colon- or plain-hex identifier as written for `Duid` and
/// `ClientId`.
pub fn parse_hex(s: &str) -> (r: Option<Vec<u8>>)
    ensures
        match r {
            Some(v) => hex_parsed(s@) == Some(v@),
            None => hex_parsed(s@) is None,
        },
{
    let v: Vec<char> = text::chars(s);
    let mut digits: Vec<u8> = Vec::new();
    let mut clean: bool = true;
    let mut i: usize = 0;
    assert(v@.take(0) =~= Seq::empty());
    while i < v.len()
        invariant
            i <= v@.len(),
            v@ == s@,
            digits@.len() == digits_in(v@.take(i as int)).len(),
            forall|j: int|
                0 <= j < digits@.len() ==> (#[trigger] digits@[j]) < 16 && digits@[j] == digits_in(
                    v@.take(i as int),
                )[j],
            clean <==> forall|j: int|
                0 <= j < i ==> text::hex_value(#[trigger] v@[j]) is Some || separator(v@[j]),
        decreases v@.len() - i,
    {
        assert(v@.take(i + 1).drop_last() =~= v@.take(i as int));
        let c: char = v[i];
        match text::hex_value_of(c) {
            Some(d) => {
                digits.push(d);
            },
            None => {
                if !(c == ':' || c == '-' || c == ' ' || c == '\t' || c == '\n' || c == '\r' || c
                    == '\x0c') {
                    clean = false;
                    assert(!(text::hex_value(v@[i as int]) is Some || separator(v@[i as int])));
                }
            },
        }
        i = i + 1;
    }
    assert(v@.take(i as int) =~= v@);
    if digits.len() == 0 || digits.len() % 2 != 0 || !clean {
        return None;
    }
    let ghost d = digits_in(s@);
    let mut out: Vec<u8> = Vec::new();
    let n: usize = digits.len() / 2;
    let mut k: usize = 0;
    while k < n
        invariant
            k <= n,
            n == digits@.len() / 2,
            d == digits_in(s@),
            digits@.len() == d.len(),
            digits@.len() <= usize::MAX,
            forall|j: int| 0 <= j < digits@.len() ==> (#[trigger] digits@[j]) < 16 && digits@[j] == d[j],
            out@ == paired(d).take(k as int),
        decreases n - k,
    {
        let high: u8 = digits[2 * k];
        let low: u8 = digits[2 * k + 1];
        out.push(high * 16 + low);
        k = k + 1;
        assert(out@ =~= paired(d).take(k as int));
    }
    assert(out@ =~= paired(d));
    Some(out)
}

/// Formats an identifier the way `parse_hex` reads it back.
pub fn format_hex(b: &[u8]) -> (s: String)
    ensures
        s@ == super::model::colon_hex(b@),
{
    let mut s: String = String::new();
    let mut i: usize = 0;
    while i < b.len()
        invariant
            i <= b@.len(),
            s@ == super::model::colon_hex(b@.take(i as int)),
        decreases b@.len() - i,
    {
        let ghost next = b@.take(i + 1);
        assert(next.drop_last() =~= b@.take(i as int));
        if i > 0 {
            s.push(':');
        }
        text::push_hex_byte(&mut s, b[i]);
        i = i + 1;
        assert(s@ =~= super::model::colon_hex(next));
    }
    assert(b@.take(i as int) =~= b@);
    s
}

proof fn digits_in_concat(a: Seq<char>, b: Seq<char>)
    ensures
        digits_in(a + b) == digits_in(a) + digits_in(b),
    decreases b.len(),
{
    if b.len() == 0 {
        assert(a + b =~= a);
        assert(digits_in(a) + digits_in(b) =~= digits_in(a));
    } else {
        assert((a + b).drop_last() =~= a + b.drop_last());
        digits_in_concat(a, b.drop_last());
        assert(digits_in(a + b) =~= digits_in(a) + digits_in(b));
    }
}

proof fn digits_of_byte(x: u8)
    ensures
        digits_in(text::hex_byte(x)) == seq![(x / 16) as nat, (x % 16) as nat],
        hex_text(text::hex_byte(x)),
{
    let s = text::hex_byte(x);
    reveal_with_fuel(digits_in, 3);
    assert(text::hex_value(text::hex_digit((x / 16) as nat)) == Some((x / 16) as nat));
    assert(text::hex_value(text::hex_digit((x % 16) as nat)) == Some((x % 16) as nat));
    assert(s.drop_last() =~= seq![s[0]]);
    assert(s.drop_last().drop_last() =~= Seq::empty());
    assert(digits_in(s) =~= seq![(x / 16) as nat, (x % 16) as nat]);
}

spec fn nibbles(b: Seq<u8>) -> Seq<nat> {
    Seq::new(
        2 * b.len(),
        |i: int|
            if i % 2 == 0 {
                (b[i / 2] / 16) as nat
            } else {
                (b[i / 2] % 16) as nat
            },
    )
}

proof fn colon_hex_digits(b: Seq<u8>)
    ensures
        digits_in(super::model::colon_hex(b)) == nibbles(b),
        hex_text(super::model::colon_hex(b)),
    decreases b.len(),
{
    if b.len() == 0 {
        assert(nibbles(b) =~= Seq::empty());
    } else {
        digits_of_byte(b.last());
        let t = b.drop_last();
        if b.len() == 1 {
            assert(nibbles(b) =~= seq![(b[0] / 16) as nat, (b[0] % 16) as nat]);
        } else {
            colon_hex_digits(t);
            let head = super::model::colon_hex(t);
            let tail = text::hex_byte(b.last());
            digits_in_concat(head, seq![':']);
            digits_in_concat(head + seq![':'], tail);
            assert(digits_in(seq![':']) =~= Seq::empty()) by {
                reveal_with_fuel(digits_in, 2);
                assert(seq![':'].drop_last() =~= Seq::<char>::empty());
            }
            assert(nibbles(b) =~= nibbles(t) + seq![
                (b.last() / 16) as nat,
                (b.last() % 16) as nat,
            ]);
            assert(digits_in(head + seq![':'] + tail) =~= nibbles(b));
        }
    }
}

/// An identifier is read back from its text.
pub proof fn hex_identifiers_round_trip(b: Seq<u8>)
    requires
        b.len() > 0,
    ensures
        hex_parsed(super::model::colon_hex(b)) == Some(b),
{
    colon_hex_digits(b);
    assert(paired(nibbles(b)) =~= b);
}

/// A hostname as configured: a string that is not empty.
pub open spec fn configured_text(v: Option<RegValue>) -> Option<Seq<char>> {
    match v {
        Some(r) => match string_in(r.ty, r.data@) {
            Some(s) => if s.len() > 0 {
                Some(s)
            } else {
                None
            },
            None => None,
        },
        None => None,
    }
}

fn read_sz(v: &Option<RegValue>) -> (r: Option<String>)
    ensures
        text::opt_view(r) == configured_text(*v),
{
    match v {
        Some(reg) => match sz(reg) {
            Some(s) => if s.as_str().unicode_len() > 0 {
                Some(s)
            } else {
                None
            },
            None => None,
        },
        None => None,
    }
}

/// The bytes of an optional list.
pub open spec fn opt_bytes(v: Option<Vec<u8>>) -> Option<Seq<u8>> {
    match v {
        Some(b) => Some(b@),
        None => None,
    }
}

/// What the machine-level values and the two trees amount to: `None` in place
/// of a value that is missing, empty or of the wrong type. The second result
/// says that a `Duid` was written that is not hexadecimal.
pub fn assemble(
    hostname: Option<RegValue>,
    control_security: Option<RegValue>,
    duid: Option<RegValue>,
    rules: Option<RawKey>,
    profiles: Option<RawKey>,
) -> (r: (Config, bool))
    ensures
        text::opt_view(r.0.hostname) == configured_text(hostname),
        opt_bytes(r.0.control_security) == match control_security {
            Some(v) => if v.ty is Binary && v.data@.len() > 0 {
                Some(v.data@)
            } else {
                None
            },
            None => None,
        },
        opt_bytes(r.0.duid) == match configured_text(duid) {
            Some(s) => hex_parsed(s),
            None => None,
        },
        r.0.rules == rules,
        r.0.profiles == profiles,
        r.1 == (configured_text(duid) matches Some(s) && hex_parsed(s) is None),
{
    let name: Option<String> = read_sz(&hostname);
    let security: Option<Vec<u8>> = match control_security {
        Some(v) => match v.ty {
            ValueType::Binary => if v.data.len() > 0 {
                Some(v.data)
            } else {
                None
            },
            _ => None,
        },
        None => None,
    };
    let written: Option<String> = read_sz(&duid);
    let (id, bad): (Option<Vec<u8>>, bool) = match written {
        Some(s) => match parse_hex(s.as_str()) {
            Some(v) => (Some(v), false),
            None => (None, true),
        },
        None => (None, false),
    };
    (
        Config {
            hostname: name,
            control_security: security,
            duid: id,
            rules,
            profiles,
        },
        bad,
    )
}

} // verus!
