//! DHCPv4 message codec.

pub mod lease;
pub mod option;
pub mod reading;

pub use lease::{decode_domain_search, Lease, StaticRoute};

use vstd::prelude::*;
use vstd::string::*;
use vstd::utf8::*;

use crate::addr;
use crate::addr::Ipv4Addr;
use crate::bytes;
use crate::text;

verus! {

pub const CLIENT_PORT: u16 = 68;

pub const SERVER_PORT: u16 = 67;

pub const BOOTREQUEST: u8 = 1;

pub const BOOTREPLY: u8 = 2;

pub const HTYPE_ETHERNET: u8 = 1;

pub const FLAG_BROADCAST: u16 = 0x8000;

/// The fixed part of a BOOTP message, before the cookie.
pub const FIXED_LEN: usize = 236;

/// The four bytes that announce options.
pub open spec fn cookie() -> Seq<u8> {
    seq![0x63u8, 0x82, 0x53, 0x63]
}

/// The kind of a DHCP message.
#[derive(Debug, Clone, Copy, PartialEq, Eq, Structural)]
pub enum MessageType {
    Discover,
    Offer,
    Request,
    Decline,
    Ack,
    Nak,
    Release,
    Inform,
}

impl MessageType {
    /// The number that stands for the kind on the wire.
    pub open spec fn spec_code(self) -> u8 {
        match self {
            MessageType::Discover => 1,
            MessageType::Offer => 2,
            MessageType::Request => 3,
            MessageType::Decline => 4,
            MessageType::Ack => 5,
            MessageType::Nak => 6,
            MessageType::Release => 7,
            MessageType::Inform => 8,
        }
    }

    /// The number that stands for the kind on the wire.
    pub fn code(self) -> (n: u8)
        ensures
            n == self.spec_code(),
    {
        match self {
            MessageType::Discover => 1,
            MessageType::Offer => 2,
            MessageType::Request => 3,
            MessageType::Decline => 4,
            MessageType::Ack => 5,
            MessageType::Nak => 6,
            MessageType::Release => 7,
            MessageType::Inform => 8,
        }
    }

    /// The kind that a number stands for.
    pub fn from_u8(v: u8) -> (r: Option<MessageType>)
        ensures
            r == kind_of(v),
    {
        match v {
            1 => Some(MessageType::Discover),
            2 => Some(MessageType::Offer),
            3 => Some(MessageType::Request),
            4 => Some(MessageType::Decline),
            5 => Some(MessageType::Ack),
            6 => Some(MessageType::Nak),
            7 => Some(MessageType::Release),
            8 => Some(MessageType::Inform),
            _ => None,
        }
    }
}

/// The kind that a number stands for.
pub open spec fn kind_of(v: u8) -> Option<MessageType> {
    if v == 1 {
        Some(MessageType::Discover)
    } else if v == 2 {
        Some(MessageType::Offer)
    } else if v == 3 {
        Some(MessageType::Request)
    } else if v == 4 {
        Some(MessageType::Decline)
    } else if v == 5 {
        Some(MessageType::Ack)
    } else if v == 6 {
        Some(MessageType::Nak)
    } else if v == 7 {
        Some(MessageType::Release)
    } else if v == 8 {
        Some(MessageType::Inform)
    } else {
        None
    }
}

/// A kind is read back from its number.
pub proof fn kind_of_code(k: MessageType)
    ensures
        kind_of(k.spec_code()) == Some(k),
{
}

/// A list of options: a code and its value each.
pub type OptionsV = Seq<(u8, Seq<u8>)>;

/// The value of the first option with this code.
pub open spec fn lookup(o: OptionsV, code: u8) -> Option<Seq<u8>>
    decreases o.len(),
{
    if o.len() == 0 {
        None
    } else if o[0].0 == code {
        Some(o[0].1)
    } else {
        lookup(o.drop_first(), code)
    }
}

/// The address in the first four bytes.
pub open spec fn address_in(v: Seq<u8>) -> Option<Ipv4Addr> {
    if v.len() >= 4 {
        Some(addr::v4_of(v.subrange(0, 4)))
    } else {
        None
    }
}

/// The addresses in each four bytes; a remainder is dropped.
pub open spec fn addresses_in(v: Seq<u8>) -> Seq<Ipv4Addr> {
    Seq::new((v.len() / 4) as nat, |i: int| addr::v4_of(v.subrange(4 * i, 4 * i + 4)))
}

/// UTF-8 text up to the first zero byte.
pub open spec fn text_in(v: Seq<u8>) -> Option<Seq<char>> {
    let t = v.take(bytes::zero_at(v));
    if valid_utf8(t) {
        Some(decode_utf8(t))
    } else {
        None
    }
}

pub open spec fn option_ipv4(o: OptionsV, code: u8) -> Option<Ipv4Addr> {
    match lookup(o, code) {
        Some(v) => address_in(v),
        None => None,
    }
}

pub open spec fn option_ipv4_list(o: OptionsV, code: u8) -> Seq<Ipv4Addr> {
    match lookup(o, code) {
        Some(v) => addresses_in(v),
        None => Seq::empty(),
    }
}

pub open spec fn option_u32(o: OptionsV, code: u8) -> Option<u32> {
    match lookup(o, code) {
        Some(v) => if v.len() == 4 {
            Some(bytes::be_nat(v) as u32)
        } else {
            None
        },
        None => None,
    }
}

pub open spec fn option_u16(o: OptionsV, code: u8) -> Option<u16> {
    match lookup(o, code) {
        Some(v) => if v.len() == 2 {
            Some(bytes::be_nat(v) as u16)
        } else {
            None
        },
        None => None,
    }
}

pub open spec fn option_text(o: OptionsV, code: u8) -> Option<Seq<char>> {
    match lookup(o, code) {
        Some(v) => text_in(v),
        None => None,
    }
}

pub open spec fn option_kind(o: OptionsV) -> Option<MessageType> {
    match lookup(o, option::MESSAGE_TYPE) {
        Some(v) => if v.len() > 0 {
            kind_of(v[0])
        } else {
            None
        },
        None => None,
    }
}

/// An ordered list of options; the first occurrence of a code wins on lookup.
#[derive(Debug, PartialEq, Eq)]
pub struct Options(pub Vec<(u8, Vec<u8>)>);

impl View for Options {
    type V = OptionsV;

    open spec fn view(&self) -> OptionsV {
        Seq::new(self.0@.len(), |i: int| (self.0@[i].0, self.0@[i].1@))
    }
}

impl Default for Options {
    fn default() -> (o: Options)
        ensures
            o@ == Seq::<(u8, Seq<u8>)>::empty(),
    {
        let o: Options = Options(Vec::new());
        assert(o@ =~= Seq::<(u8, Seq<u8>)>::empty());
        o
    }
}

impl Clone for Options {
    fn clone(&self) -> (r: Options)
        ensures
            r@ == self@,
    {
        let mut out: Vec<(u8, Vec<u8>)> = Vec::new();
        let mut i: usize = 0;
        while i < self.0.len()
            invariant
                i <= self.0@.len(),
                out@.len() == i,
                forall|j: int|
                    0 <= j < i ==> (#[trigger] out@[j]).0 == self.0@[j].0 && out@[j].1@
                        == self.0@[j].1@,
            decreases self.0@.len() - i,
        {
            let data: Vec<u8> = bytes::copy(self.0[i].1.as_slice(), 0, self.0[i].1.len());
            assert(data@ =~= self.0@[i as int].1@);
            out.push((self.0[i].0, data));
            i = i + 1;
        }
        let r: Options = Options(out);
        assert(r@ =~= self@);
        r
    }
}

proof fn lookup_from(o: OptionsV, code: u8, n: int)
    requires
        0 <= n <= o.len(),
        forall|i: int| 0 <= i < n ==> (#[trigger] o[i]).0 != code,
    ensures
        lookup(o, code) == lookup(o.skip(n), code),
    decreases n,
{
    if n > 0 {
        lookup_from(o.drop_first(), code, n - 1);
        assert(o.drop_first().skip(n - 1) =~= o.skip(n));
    } else {
        assert(o.skip(0) =~= o);
    }
}

impl Options {
    pub fn get(&self, code: u8) -> (r: Option<&[u8]>)
        ensures
            match r {
                Some(v) => lookup(self@, code) == Some(v@),
                None => lookup(self@, code) is None,
            },
    {
        let mut i: usize = 0;
        while i < self.0.len()
            invariant
                i <= self.0@.len(),
                forall|j: int| 0 <= j < i ==> (#[trigger] self@[j]).0 != code,
            decreases self.0@.len() - i,
        {
            if self.0[i].0 == code {
                proof {
                    lookup_from(self@, code, i as int);
                    assert(self@.skip(i as int)[0] == self@[i as int]);
                }
                return Some(self.0[i].1.as_slice());
            }
            i = i + 1;
        }
        proof {
            lookup_from(self@, code, i as int);
        }
        None
    }

    pub fn push(&mut self, code: u8, data: Vec<u8>)
        ensures
            final(self)@ == old(self)@.push((code, data@)),
    {
        self.0.push((code, data));
        assert(self@ =~= old(self)@.push((code, data@)));
    }

    pub fn message_type(&self) -> (r: Option<MessageType>)
        ensures
            r == option_kind(self@),
    {
        match self.get(option::MESSAGE_TYPE) {
            Some(v) => if v.len() > 0 {
                MessageType::from_u8(v[0])
            } else {
                None
            },
            None => None,
        }
    }

    pub fn ipv4(&self, code: u8) -> (r: Option<Ipv4Addr>)
        ensures
            r == option_ipv4(self@, code),
    {
        match self.get(code) {
            Some(v) => ipv4_at(v),
            None => None,
        }
    }

    pub fn ipv4_list(&self, code: u8) -> (r: Vec<Ipv4Addr>)
        ensures
            r@ == option_ipv4_list(self@, code),
    {
        let mut out: Vec<Ipv4Addr> = Vec::new();
        match self.get(code) {
            Some(v) => {
                let n: usize = v.len() / 4;
                let mut i: usize = 0;
                while i < n
                    invariant
                        i <= n,
                        n == v@.len() / 4,
                        v@.len() <= usize::MAX,
                        out@ == addresses_in(v@).take(i as int),
                    decreases n - i,
                {
                    out.push(Ipv4Addr::at(v, 4 * i));
                    i = i + 1;
                    assert(out@ =~= addresses_in(v@).take(i as int));
                }
                assert(out@ =~= addresses_in(v@));
            },
            None => {},
        }
        out
    }

    pub fn u32(&self, code: u8) -> (r: Option<u32>)
        ensures
            r == option_u32(self@, code),
    {
        match self.get(code) {
            Some(v) => if v.len() == 4 {
                assert(v@.subrange(0, 4) =~= v@);
                Some(bytes::u32_at(v, 0))
            } else {
                None
            },
            None => None,
        }
    }

    pub fn u16(&self, code: u8) -> (r: Option<u16>)
        ensures
            r == option_u16(self@, code),
    {
        match self.get(code) {
            Some(v) => if v.len() == 2 {
                assert(v@.subrange(0, 2) =~= v@);
                Some(bytes::u16_at(v, 0))
            } else {
                None
            },
            None => None,
        }
    }

    pub fn string(&self, code: u8) -> (r: Option<String>)
        ensures
            text::opt_view(r) == option_text(self@, code),
    {
        match self.get(code) {
            Some(v) => {
                assert(v@.skip(0) =~= v@);
                let end: usize = bytes::find_zero(v, 0);
                assert(v@.subrange(0, end as int) =~= v@.take(end as int));
                text::from_utf8(vstd::slice::slice_subrange(v, 0, end))
            },
            None => None,
        }
    }
}

fn ipv4_at(v: &[u8]) -> (r: Option<Ipv4Addr>)
    ensures
        r == address_in(v@),
{
    if v.len() >= 4 {
        Some(Ipv4Addr::at(v, 0))
    } else {
        None
    }
}

/// What a message says.
#[verifier::ext_equal]
pub struct MessageV {
    pub is_reply: bool,
    pub xid: u32,
    pub secs: u16,
    pub broadcast: bool,
    pub ciaddr: Ipv4Addr,
    pub yiaddr: Ipv4Addr,
    pub siaddr: Ipv4Addr,
    pub giaddr: Ipv4Addr,
    pub chaddr: Seq<u8>,
    pub options: OptionsV,
}

/// One DHCP message.
#[derive(Debug, PartialEq, Eq)]
pub struct Message {
    pub is_reply: bool,
    pub xid: u32,
    pub secs: u16,
    pub broadcast: bool,
    pub ciaddr: Ipv4Addr,
    pub yiaddr: Ipv4Addr,
    pub siaddr: Ipv4Addr,
    pub giaddr: Ipv4Addr,
    pub chaddr: [u8; 6],
    pub options: Options,
}

impl View for Message {
    type V = MessageV;

    open spec fn view(&self) -> MessageV {
        MessageV {
            is_reply: self.is_reply,
            xid: self.xid,
            secs: self.secs,
            broadcast: self.broadcast,
            ciaddr: self.ciaddr,
            yiaddr: self.yiaddr,
            siaddr: self.siaddr,
            giaddr: self.giaddr,
            chaddr: self.chaddr@,
            options: self.options@,
        }
    }
}

impl Clone for Message {
    fn clone(&self) -> (r: Message)
        ensures
            r@ == self@,
    {
        Message {
            is_reply: self.is_reply,
            xid: self.xid,
            secs: self.secs,
            broadcast: self.broadcast,
            ciaddr: self.ciaddr,
            yiaddr: self.yiaddr,
            siaddr: self.siaddr,
            giaddr: self.giaddr,
            chaddr: self.chaddr,
            options: self.options.clone(),
        }
    }
}

/// A request with nothing in it but its number and who sends it.
pub open spec fn blank(xid: u32, chaddr: Seq<u8>) -> MessageV {
    MessageV {
        is_reply: false,
        xid,
        secs: 0,
        broadcast: false,
        ciaddr: (Ipv4Addr { bits: 0 }),
        yiaddr: (Ipv4Addr { bits: 0 }),
        siaddr: (Ipv4Addr { bits: 0 }),
        giaddr: (Ipv4Addr { bits: 0 }),
        chaddr,
        options: Seq::empty(),
    }
}

pub open spec fn zeros(n: nat) -> Seq<u8> {
    Seq::new(n, |i: int| 0u8)
}

/// The part of a message before its options, cookie included.
pub open spec fn header(m: MessageV) -> Seq<u8> {
    seq![if m.is_reply { BOOTREPLY } else { BOOTREQUEST }, HTYPE_ETHERNET, 6, 0]
        + bytes::be_bytes(m.xid as nat, 4) + bytes::be_bytes(m.secs as nat, 2) + bytes::be_bytes(
        if m.broadcast {
            FLAG_BROADCAST as nat
        } else {
            0
        },
        2,
    ) + m.ciaddr.octs() + m.yiaddr.octs() + m.siaddr.octs() + m.giaddr.octs() + m.chaddr + zeros(
        10,
    ) + zeros(64) + zeros(128) + cookie()
}

/// One option on the wire. A value is cut at 255 bytes, the most that its
/// length byte can say.
pub open spec fn option_bytes(o: (u8, Seq<u8>)) -> Seq<u8> {
    let data = if o.1.len() > 255 {
        o.1.take(255)
    } else {
        o.1
    };
    seq![o.0, data.len() as u8] + data
}

/// The options on the wire, one after another.
pub open spec fn options_bytes(o: OptionsV) -> Seq<u8>
    decreases o.len(),
{
    if o.len() == 0 {
        Seq::empty()
    } else {
        options_bytes(o.drop_last()) + option_bytes(o.last())
    }
}

/// BOOTP's minimum: zeros up to 300 bytes.
pub open spec fn padded(s: Seq<u8>) -> Seq<u8> {
    if s.len() < 300 {
        s + zeros((300 - s.len()) as nat)
    } else {
        s
    }
}

/// A message on the wire.
pub open spec fn encoded(m: MessageV) -> Seq<u8> {
    padded(header(m) + options_bytes(m.options) + seq![option::END])
}

/// Options read from the wire: up to the end marker or the end, padding
/// skipped; `None` where one is cut off.
pub open spec fn options_parsed(s: Seq<u8>) -> Option<OptionsV>
    decreases s.len(),
{
    if s.len() == 0 {
        Some(Seq::empty())
    } else if s[0] == option::PAD {
        options_parsed(s.skip(1))
    } else if s[0] == option::END {
        Some(Seq::empty())
    } else if s.len() < 2 || 2 + s[1] as int > s.len() {
        None
    } else {
        match options_parsed(s.skip(2 + s[1] as int)) {
            Some(rest) => Some(seq![(s[0], s.subrange(2, 2 + s[1] as int))] + rest),
            None => None,
        }
    }
}

/// A message read from the wire.
pub open spec fn decoded(b: Seq<u8>) -> Option<MessageV> {
    if b.len() < 240 || b[1] != HTYPE_ETHERNET || b[2] != 6 || b.subrange(236, 240) != cookie() {
        None
    } else {
        match options_parsed(b.skip(240)) {
            Some(options) => Some(
                MessageV {
                    is_reply: b[0] == BOOTREPLY,
                    xid: bytes::be_nat(b.subrange(4, 8)) as u32,
                    secs: bytes::be_nat(b.subrange(8, 10)) as u16,
                    broadcast: bytes::be_nat(b.subrange(10, 12)) >= FLAG_BROADCAST,
                    ciaddr: addr::v4_of(b.subrange(12, 16)),
                    yiaddr: addr::v4_of(b.subrange(16, 20)),
                    siaddr: addr::v4_of(b.subrange(20, 24)),
                    giaddr: addr::v4_of(b.subrange(24, 28)),
                    chaddr: b.subrange(28, 34),
                    options,
                },
            ),
            None => None,
        }
    }
}

/// `rest` with `acc` before it, where there is a rest.
pub open spec fn prepended(acc: OptionsV, rest: Option<OptionsV>) -> Option<OptionsV> {
    match rest {
        Some(r) => Some(acc + r),
        None => None,
    }
}

impl Message {
    pub fn request(xid: u32, chaddr: [u8; 6]) -> (m: Message)
        ensures
            m@ == blank(xid, chaddr@),
    {
        Message {
            is_reply: false,
            xid,
            secs: 0,
            broadcast: false,
            ciaddr: Ipv4Addr::unspecified(),
            yiaddr: Ipv4Addr::unspecified(),
            siaddr: Ipv4Addr::unspecified(),
            giaddr: Ipv4Addr::unspecified(),
            chaddr,
            options: Options::default(),
        }
    }

    pub fn message_type(&self) -> (r: Option<MessageType>)
        ensures
            r == option_kind(self@.options),
    {
        self.options.message_type()
    }

    fn encode_header(&self, out: &mut Vec<u8>)
        requires
            old(out)@.len() == 0,
        ensures
            final(out)@ == header(self@),
    {
        out.push(if self.is_reply {
            BOOTREPLY
        } else {
            BOOTREQUEST
        });
        out.push(HTYPE_ETHERNET);
        out.push(6);
        out.push(0);
        assert(out@ =~= seq![
            if self.is_reply { BOOTREPLY } else { BOOTREQUEST },
            HTYPE_ETHERNET,
            6,
            0,
        ]);
        bytes::push_u32(out, self.xid);
        bytes::push_u16(out, self.secs);
        bytes::push_u16(
            out,
            if self.broadcast {
                FLAG_BROADCAST
            } else {
                0
            },
        );
        bytes::push_u32(out, self.ciaddr.bits);
        bytes::push_u32(out, self.yiaddr.bits);
        bytes::push_u32(out, self.siaddr.bits);
        bytes::push_u32(out, self.giaddr.bits);
        bytes::extend(out, self.chaddr.as_slice());
        bytes::push_zeros(out, 10);
        bytes::push_zeros(out, 64);
        bytes::push_zeros(out, 128);
        out.push(0x63);
        out.push(0x82);
        out.push(0x53);
        out.push(0x63);
        assert(out@ =~= header(self@));
    }

    /// The message on the wire.
    pub fn encode(&self) -> (out: Vec<u8>)
        ensures
            out@ == encoded(self@),
    {
        let mut out: Vec<u8> = Vec::with_capacity(300);
        self.encode_header(&mut out);
        let o: &Vec<(u8, Vec<u8>)> = &self.options.0;
        let mut i: usize = 0;
        assert(out@ =~= header(self@) + options_bytes(self.options@.take(0)));
        while i < o.len()
            invariant
                i <= o@.len(),
                *o == self.options.0,
                out@ == header(self@) + options_bytes(self.options@.take(i as int)),
            decreases o@.len() - i,
        {
            let len: usize = if o[i].1.len() > 255 {
                255
            } else {
                o[i].1.len()
            };
            let ghost before = out@;
            out.push(o[i].0);
            out.push(len as u8);
            bytes::extend(&mut out, vstd::slice::slice_subrange(o[i].1.as_slice(), 0, len));
            proof {
                let this = self.options@[i as int];
                let next = self.options@.take(i + 1);
                assert(next.drop_last() =~= self.options@.take(i as int));
                assert(next.last() == this);
                assert(this.1.subrange(0, len as int) =~= if this.1.len() > 255 {
                    this.1.take(255)
                } else {
                    this.1
                });
                assert(out@ =~= before + option_bytes(this));
                assert(out@ =~= header(self@) + options_bytes(next));
            }
            i = i + 1;
        }
        assert(self.options@.take(i as int) =~= self.options@);
        out.push(option::END);
        let ghost whole = header(self@) + options_bytes(self.options@) + seq![option::END];
        assert(out@ =~= whole);
        if out.len() < 300 {
            let missing: usize = 300 - out.len();
            bytes::push_zeros(&mut out, missing);
            assert(out@ =~= padded(whole));
        }
        out
    }

    /// Reads a message; `None` where it is not one.
    pub fn decode(b: &[u8]) -> (r: Option<Message>)
        ensures
            match r {
                Some(m) => decoded(b@) == Some(m@),
                None => decoded(b@) is None,
            },
    {
        if b.len() < FIXED_LEN + 4 {
            return None;
        }
        if b[1] != HTYPE_ETHERNET || b[2] != 6 {
            return None;
        }
        if b[236] != 0x63 || b[237] != 0x82 || b[238] != 0x53 || b[239] != 0x63 {
            proof {
                let c = b@.subrange(236, 240);
                if c == cookie() {
                    assert(c[0] == 0x63 && c[1] == 0x82 && c[2] == 0x53 && c[3] == 0x63);
                }
            }
            return None;
        }
        assert(b@.subrange(236, 240) =~= cookie());
        let mut options: Options = Options::default();
        let mut i: usize = 240;
        let n: usize = b.len();
        let ghost target = options_parsed(b@.skip(240));
        assert(prepended(options@, target) == target) by {
            if target is Some {
                assert(options@ + target->0 =~= target->0);
            }
        }
        let mut ended: bool = false;
        while i < n && !ended
            invariant
                240 <= i <= n,
                n == b@.len(),
                target == options_parsed(b@.skip(240)),
                ended ==> target == Some(options@),
                !ended ==> prepended(options@, options_parsed(b@.skip(i as int))) == target,
                b@.len() >= 240,
                b@[1] == HTYPE_ETHERNET,
                b@[2] == 6,
                b@.subrange(236, 240) == cookie(),
            decreases n - i + (if ended {
                0int
            } else {
                1int
            }),
        {
            let ghost rest = b@.skip(i as int);
            let code: u8 = b[i];
            if code == option::PAD {
                assert(rest.skip(1) =~= b@.skip(i + 1));
                i = i + 1;
            } else if code == option::END {
                ended = true;
                assert(options@ + Seq::<(u8, Seq<u8>)>::empty() =~= options@);
            } else {
                if n - i < 2 {
                    return None;
                }
                let len: usize = b[i + 1] as usize;
                if len > n - i - 2 {
                    return None;
                }
                let data: Vec<u8> = bytes::copy(b, i + 2, i + 2 + len);
                proof {
                    assert(data@ =~= rest.subrange(2, 2 + rest[1] as int));
                    assert(rest.skip(2 + rest[1] as int) =~= b@.skip(i + 2 + len));
                    let more = options_parsed(b@.skip(i + 2 + len));
                    if more is Some {
                        assert(options@ + (seq![(code, data@)] + more->0) =~= options@.push(
                            (code, data@),
                        ) + more->0);
                    }
                }
                options.push(code, data);
                i = i + 2 + len;
            }
        }
        proof {
            if !ended {
                assert(b@.skip(i as int).len() == 0);
                assert(options@ + Seq::<(u8, Seq<u8>)>::empty() =~= options@);
            }
        }
        let chaddr: [u8; 6] = [b[28], b[29], b[30], b[31], b[32], b[33]];
        assert(chaddr@ =~= b@.subrange(28, 34));
        Some(
            Message {
                is_reply: b[0] == BOOTREPLY,
                xid: bytes::u32_at(b, 4),
                secs: bytes::u16_at(b, 8),
                broadcast: bytes::u16_at(b, 10) >= FLAG_BROADCAST,
                ciaddr: Ipv4Addr::at(b, 12),
                yiaddr: Ipv4Addr::at(b, 16),
                siaddr: Ipv4Addr::at(b, 20),
                giaddr: Ipv4Addr::at(b, 24),
                chaddr,
                options,
            },
        )
    }
}

/// An option with its value cut at 255 bytes.
pub open spec fn cut(o: OptionsV) -> OptionsV {
    Seq::new(
        o.len(),
        |i: int|
            (
                o[i].0,
                if o[i].1.len() > 255 {
                    o[i].1.take(255)
                } else {
                    o[i].1
                },
            ),
    )
}

/// No option has the code of padding or of the end marker.
pub open spec fn plain_codes(o: OptionsV) -> bool {
    forall|i: int|
        0 <= i < o.len() ==> (#[trigger] o[i]).0 != option::PAD && o[i].0 != option::END
}

/// Every value fits its length byte.
pub open spec fn short_values(o: OptionsV) -> bool {
    forall|i: int| 0 <= i < o.len() ==> (#[trigger] o[i]).1.len() <= 255
}

pub(crate) proof fn options_bytes_front(o: OptionsV)
    requires
        o.len() > 0,
    ensures
        options_bytes(o) == option_bytes(o[0]) + options_bytes(o.drop_first()),
    decreases o.len(),
{
    if o.len() == 1 {
        assert(o.drop_last() =~= Seq::empty());
        assert(o.drop_first() =~= Seq::empty());
        assert(options_bytes(o) =~= option_bytes(o[0]) + options_bytes(o.drop_first()));
    } else {
        options_bytes_front(o.drop_last());
        assert(o.drop_last().drop_first() =~= o.drop_first().drop_last());
        assert(options_bytes(o) =~= option_bytes(o[0]) + options_bytes(o.drop_first()));
    }
}

proof fn options_round_trip(o: OptionsV, tail: Seq<u8>)
    requires
        plain_codes(o),
        tail.len() > 0,
        tail[0] == option::END,
    ensures
        options_parsed(options_bytes(o) + tail) == Some(cut(o)),
    decreases o.len(),
{
    if o.len() == 0 {
        assert(options_bytes(o) + tail =~= tail);
        assert(cut(o) =~= Seq::empty());
    } else {
        let rest = o.drop_first();
        options_bytes_front(o);
        options_round_trip(rest, tail);
        let s = options_bytes(o) + tail;
        let data = cut(o)[0].1;
        assert(option_bytes(o[0]) =~= seq![o[0].0, data.len() as u8] + data);
        assert(s =~= seq![o[0].0, data.len() as u8] + data + (options_bytes(rest) + tail));
        assert(s.skip(2 + s[1] as int) =~= options_bytes(rest) + tail);
        assert(s.subrange(2, 2 + s[1] as int) =~= data);
        assert(seq![(o[0].0, data)] + cut(rest) =~= cut(o));
    }
}

pub(crate) proof fn header_len(m: MessageV)
    requires
        m.chaddr.len() == 6,
    ensures
        header(m).len() == 240,
{
    bytes::be_bytes_len(m.xid as nat, 4);
    bytes::be_bytes_len(m.secs as nat, 2);
    bytes::be_bytes_len(
        if m.broadcast {
            FLAG_BROADCAST as nat
        } else {
            0
        },
        2,
    );
    bytes::be_bytes_len(m.ciaddr.bits as nat, 4);
    bytes::be_bytes_len(m.yiaddr.bits as nat, 4);
    bytes::be_bytes_len(m.siaddr.bits as nat, 4);
    bytes::be_bytes_len(m.giaddr.bits as nat, 4);
}

/// A message always fills BOOTP's minimum of 300 bytes.
pub proof fn encodings_are_long_enough(m: MessageV)
    ensures
        encoded(m).len() >= 300,
{
}

/// What is encoded is decoded: the message comes back, each option value cut
/// at the 255 bytes that its length byte can say.
pub proof fn encodings_decode(m: MessageV)
    requires
        m.chaddr.len() == 6,
        plain_codes(m.options),
    ensures
        decoded(encoded(m)) == Some(MessageV { options: cut(m.options), ..m }),
{
    let flags: nat = if m.broadcast {
        FLAG_BROADCAST as nat
    } else {
        0
    };
    header_len(m);
    bytes::pow256_16();
    bytes::be_nat_of_be_bytes(m.xid as nat, 4);
    bytes::be_nat_of_be_bytes(m.secs as nat, 2);
    bytes::be_nat_of_be_bytes(flags, 2);
    bytes::be_nat_of_be_bytes(m.ciaddr.bits as nat, 4);
    bytes::be_nat_of_be_bytes(m.yiaddr.bits as nat, 4);
    bytes::be_nat_of_be_bytes(m.siaddr.bits as nat, 4);
    bytes::be_nat_of_be_bytes(m.giaddr.bits as nat, 4);
    let h = header(m);
    let whole = h + options_bytes(m.options) + seq![option::END];
    let b = encoded(m);
    let tail = seq![option::END] + (if whole.len() < 300 {
        zeros((300 - whole.len()) as nat)
    } else {
        Seq::empty()
    });
    assert(b =~= h + (options_bytes(m.options) + tail));
    assert(b.skip(240) =~= options_bytes(m.options) + tail);
    options_round_trip(m.options, tail);
    assert(b.subrange(4, 8) =~= bytes::be_bytes(m.xid as nat, 4));
    assert(b.subrange(8, 10) =~= bytes::be_bytes(m.secs as nat, 2));
    assert(b.subrange(10, 12) =~= bytes::be_bytes(flags, 2));
    assert(b.subrange(12, 16) =~= m.ciaddr.octs());
    assert(b.subrange(16, 20) =~= m.yiaddr.octs());
    assert(b.subrange(20, 24) =~= m.siaddr.octs());
    assert(b.subrange(24, 28) =~= m.giaddr.octs());
    assert(b.subrange(28, 34) =~= m.chaddr);
    assert(b.subrange(236, 240) =~= cookie());
}

/// A message whose option values all fit comes back as it was.
pub proof fn messages_round_trip(m: MessageV)
    requires
        m.chaddr.len() == 6,
        plain_codes(m.options),
        short_values(m.options),
    ensures
        decoded(encoded(m)) == Some(m),
{
    encodings_decode(m);
    assert(cut(m.options) =~= m.options);
}

} // verus!
