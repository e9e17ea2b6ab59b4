//! What the sockets and files around router discovery and DHCPv6 are told: where
//! to send, what to let in, which secret to use, and how netd becomes the only
//! listener for router advertisements.
//!
//! Router advertisements arrive on a raw ICMPv6 socket filtered to type 134;
//! solicitations leave it for all-routers with a hop limit of 255. DHCPv6 runs
//! over an ordinary UDP socket bound to the interface's link-local address on
//! port 546. The kernel's own processing is switched off with `accept_ra = 0` so
//! there is exactly one place deciding what an advertisement means.

use vstd::prelude::*;
use vstd::string::*;
use crate::addr::Ipv6Addr;
use crate::addr6;
use crate::text;

verus! {

/// The port that DHCPv6 clients listen on.
pub const DHCP6_CLIENT_PORT: u16 = 546;

/// The port that DHCPv6 servers and relays listen on.
pub const DHCP6_SERVER_PORT: u16 = 547;

/// The hop limit of neighbour discovery: anything that arrives with less has
/// crossed a router.
pub const NEIGHBOUR_HOPS: u8 = 255;

/// The ICMPv6 type of a router advertisement.
pub const ROUTER_ADVERTISEMENT: u8 = 134;

/// All routers on the link, `ff02::2`.
pub fn all_routers() -> (a: Ipv6Addr)
    ensures
        a.bits == addr6::groups_value(seq![0xff02u16, 0, 0, 0, 0, 0, 0, 2]),
{
    Ipv6Addr::new(0xff02, 0, 0, 0, 0, 0, 0, 2)
}

/// All DHCP relays and servers on the link, `ff02::1:2`.
pub fn all_dhcp_agents() -> (a: Ipv6Addr)
    ensures
        a.bits == addr6::groups_value(seq![0xff02u16, 0, 0, 0, 0, 0, 1, 2]),
{
    Ipv6Addr::new(0xff02, 0, 0, 0, 0, 0, 1, 2)
}

/// Whether a filter blocks a type of message: it has a bit for each type, and a
/// set bit blocks.
pub open spec fn blocks(filter: Seq<u32>, ty: u8) -> bool {
    (filter[(ty / 32) as int] >> ((ty % 32) as u32)) & 1 == 1
}

/// The filter of the discovery socket: router advertisements, and nothing else.
pub fn advertisement_filter() -> (f: [u32; 8])
    ensures
        forall|ty: u8| #[trigger] blocks(f@, ty) <==> ty != ROUTER_ADVERTISEMENT,
{
    let f: [u32; 8] = [
        0xffff_ffff,
        0xffff_ffff,
        0xffff_ffff,
        0xffff_ffff,
        0xffff_ffbf,
        0xffff_ffff,
        0xffff_ffff,
        0xffff_ffff,
    ];
    assert forall|ty: u8| #[trigger] blocks(f@, ty) <==> ty != ROUTER_ADVERTISEMENT by {
        let at: u32 = (ty % 32) as u32;
        assert((0xffff_ffffu32 >> at) & 1 == 1) by (bit_vector)
            requires
                at < 32,
        ;
        assert((0xffff_ffbfu32 >> at) & 1 == (if at == 6 {
            0u32
        } else {
            1u32
        })) by (bit_vector)
            requires
                at < 32,
        ;
    }
    f
}

/// The machine's secret for stable-privacy addresses (RFC 7217) and whether it
/// has to be written down: the one on record where it has its length, else fresh
/// noise. Losing it renumbers the machine; that is all.
pub fn secret(stored: Option<Vec<u8>>, noise: [u8; 32]) -> (r: ([u8; 32], bool))
    ensures
        match stored {
            Some(s) => if s@.len() == 32 {
                r.0@ == s@ && !r.1
            } else {
                r.0@ == noise@ && r.1
            },
            None => r.0@ == noise@ && r.1,
        },
{
    match stored {
        Some(s) => {
            if s.len() == 32 {
                let mut out: [u8; 32] = [0; 32];
                let mut i: usize = 0;
                while i < 32
                    invariant
                        i <= 32,
                        s@.len() == 32,
                        forall|j: int| 0 <= j < i ==> out@[j] == s@[j],
                    decreases 32 - i,
                {
                    out[i] = s[i];
                    i = i + 1;
                }
                assert(out@ =~= s@);
                return (out, false);
            }
        },
        None => {},
    }
    (noise, true)
}

/// A file to write, what to write in it, and whether a failure is worth a
/// warning.
#[derive(Debug, PartialEq, Eq)]
pub struct Write {
    pub path: String,
    pub value: String,
    /// A kernel without IPv6 has no file there; that is not worth a warning for
    /// each interface.
    pub warn: bool,
}

/// The switch of a group of interfaces or of one.
pub open spec fn switch_path(conf: Seq<char>) -> Seq<char> {
    "/proc/sys/net/ipv6/conf/"@ + conf + "/accept_ra"@
}

impl Write {
    /// Whether this switches off the kernel's own processing.
    pub open spec fn switches_off(self, conf: Seq<char>) -> bool {
        &&& self.path@ == switch_path(conf)
        &&& self.value@ == "0"@
        &&& self.warn == (conf == "all"@)
    }
}

/// Switches the kernel's own processing off for an interface. `default` already
/// covers one that appears later; this is belt and braces against one that was
/// there before netd started.
pub fn kernel_ra_off_for(ifname: &str) -> (w: Write)
    ensures
        w.switches_off(ifname@),
{
    Write {
        path: text::cat3("/proc/sys/net/ipv6/conf/", ifname, "/accept_ra"),
        value: String::from_str("0"),
        warn: text::same(ifname, "all"),
    }
}

/// The groups and interfaces to switch off: all, those yet to appear, and each
/// that is there.
pub open spec fn switched(present: Seq<Seq<char>>) -> Seq<Seq<char>>
    decreases present.len(),
{
    if present.len() == 0 {
        seq!["all"@, "default"@]
    } else {
        let before = switched(present.drop_last());
        if present.last() == "all"@ || present.last() == "default"@ {
            before
        } else {
            before.push(present.last())
        }
    }
}

/// Switches the kernel's own processing off, everywhere: netd is the listener,
/// and two listeners with two opinions is how a machine ends up with addresses
/// nobody configured. The kernel still creates link-local addresses and answers
/// neighbour solicitations — that is the protocol, not policy.
pub fn kernel_ra_off(present: &Vec<String>) -> (out: Vec<Write>)
    ensures
        out@.len() == switched(text::list_view(present@)).len(),
        forall|i: int|
            0 <= i < out@.len() ==> (#[trigger] out@[i]).switches_off(
                switched(text::list_view(present@))[i],
            ),
{
    let mut out: Vec<Write> = Vec::new();
    out.push(kernel_ra_off_for("all"));
    out.push(kernel_ra_off_for("default"));
    let ghost names = text::list_view(present@);
    let mut i: usize = 0;
    assert(names.take(0) =~= Seq::empty());
    while i < present.len()
        invariant
            i <= present@.len(),
            names == text::list_view(present@),
            out@.len() == switched(names.take(i as int)).len(),
            forall|j: int|
                0 <= j < out@.len() ==> (#[trigger] out@[j]).switches_off(
                    switched(names.take(i as int))[j],
                ),
        decreases present@.len() - i,
    {
        assert(names.take(i + 1).drop_last() =~= names.take(i as int));
        assert(names[i as int] == present@[i as int]@);
        if !text::same(present[i].as_str(), "all") && !text::same(present[i].as_str(), "default") {
            out.push(kernel_ra_off_for(present[i].as_str()));
        }
        i = i + 1;
    }
    assert(names.take(i as int) =~= names);
    out
}

/// Nothing that is there is left on, whatever its name.
pub proof fn every_interface_is_switched_off(present: Seq<Seq<char>>, name: Seq<char>)
    requires
        present.contains(name),
    ensures
        switched(present).contains(name),
    decreases present.len(),
{
    let before = switched(present.drop_last());
    let at = present.index_of(name);
    switched_begins(present);
    if at < present.len() - 1 {
        assert(present.drop_last()[at] == name);
        every_interface_is_switched_off(present.drop_last(), name);
        let n = before.index_of(name);
        assert(switched(present)[n] == name);
    } else if name == "all"@ {
        assert(switched(present)[0] == name);
    } else if name == "default"@ {
        assert(switched(present)[1] == name);
    } else {
        assert(switched(present)[before.len() as int] == name);
    }
}

proof fn switched_begins(present: Seq<Seq<char>>)
    ensures
        switched(present).len() >= 2,
        switched(present)[0] == "all"@,
        switched(present)[1] == "default"@,
    decreases present.len(),
{
    if present.len() > 0 {
        switched_begins(present.drop_last());
    }
}

} // verus!
