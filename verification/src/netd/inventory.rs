//! `Machine\System\Network\Interfaces\<ifid>\` — what netd found, for operators
//! and for `Enabled`, the one value there that is theirs.

use vstd::prelude::*;
use vstd::string::*;
use vstd::utf8::*;
use crate::bytes;
use crate::text;
use super::config;
use super::matching;
use super::model;
use super::model::{Identity, Link, LinkV};

verus! {

/// What is written of an interface.
pub struct Record<'a> {
    pub ifid: &'a str,
    pub link: &'a Link,
    pub identity: &'a Identity,
    pub profile: Option<&'a str>,
}

/// The values of a record, by name.
pub open spec fn values_of(
    link: LinkV,
    path: Seq<char>,
    driver: Seq<char>,
    profile: Option<Seq<char>>,
) -> Seq<(Seq<char>, Seq<char>)> {
    seq![
        ("Name"@, link.name),
        (
            "MAC"@,
            match matching::mac_text(link.mac) {
                Some(m) => m,
                None => Seq::empty(),
            },
        ),
        ("Path"@, path),
        ("Driver"@, driver),
        ("Type"@, link.kind.name()),
        (
            "Profile"@,
            match profile {
                Some(p) => p,
                None => Seq::empty(),
            },
        ),
    ]
}

/// Named texts as values.
pub open spec fn texts_view(v: Seq<(String, String)>) -> Seq<(Seq<char>, Seq<char>)> {
    v.map_values(|e: (String, String)| (e.0@, e.1@))
}

impl<'a> Record<'a> {
    /// The values of the record, by name, in the order in which they are
    /// written.
    pub fn values(&self) -> (v: Vec<(String, String)>)
        ensures
            texts_view(v@) == values_of(
                self.link@,
                self.identity.path@,
                self.identity.driver@,
                match self.profile {
                    Some(p) => Some(p@),
                    None => None,
                },
            ),
    {
        let mac: String = match &self.link.mac {
            Some(m) => model::format_mac(m),
            None => String::new(),
        };
        let profile: String = match self.profile {
            Some(p) => String::from_str(p),
            None => String::new(),
        };
        let mut v: Vec<(String, String)> = Vec::new();
        v.push((String::from_str("Name"), self.link.name.clone()));
        v.push((String::from_str("MAC"), mac));
        v.push((String::from_str("Path"), self.identity.path.clone()));
        v.push((String::from_str("Driver"), self.identity.driver.clone()));
        v.push((String::from_str("Type"), String::from_str(self.link.kind.as_str())));
        v.push((String::from_str("Profile"), profile));
        assert(texts_view(v@) =~= values_of(
            self.link@,
            self.identity.path@,
            self.identity.driver@,
            match self.profile {
                Some(p) => Some(p@),
                None => None,
            },
        ));
        v
    }
}

/// What has to be written for a text value to say this, given what is stored:
/// nothing where it says so already.
pub open spec fn write_due(stored: Option<Seq<u8>>, value: Seq<char>) -> Option<Seq<u8>> {
    if stored matches Some(d) && config::stored_text(d) == Some(value) {
        None
    } else {
        Some(encode_utf8(value).push(0))
    }
}

/// What has to be written for a text value to say this, given what is stored;
/// nothing where it says so already.
pub fn set_sz(stored: &Option<Vec<u8>>, value: &str) -> (r: Option<Vec<u8>>)
    ensures
        config::opt_bytes(r) == write_due(config::opt_bytes(*stored), value@),
{
    match stored {
        Some(d) => match config::text_of(d.as_slice()) {
            Some(s) => {
                if text::same(s.as_str(), value) {
                    return None;
                }
            },
            None => {},
        },
        None => {},
    }
    let mut v: Vec<u8> = Vec::new();
    bytes::extend(&mut v, value.as_bytes());
    v.push(0);
    assert(v@ =~= encode_utf8(value@).push(0));
    Some(v)
}

/// What a query for `Enabled` came to.
#[derive(Debug, PartialEq, Eq)]
pub enum Found {
    /// A number of four bytes or of some other length.
    Number(Vec<u8>),
    /// A value that is no number.
    Other,
    /// No value.
    Nothing,
}

/// Whether the interface is enabled, and whether the value has to be created so
/// an operator can find the knob. On by default.
pub fn enabled(found: &Found) -> (r: (bool, bool))
    ensures
        r == match found {
            Found::Number(d) => (d@.len() == 4 ==> bytes::le_nat(d@) != 0, false),
            Found::Other => (true, false),
            Found::Nothing => (true, true),
        },
{
    match found {
        Found::Number(d) => {
            if d.len() != 4 {
                return (true, false);
            }
            let n: u64 = bytes::le_at(d.as_slice(), 0, 4);
            assert(d@.subrange(0, 4) =~= d@);
            (n != 0, false)
        },
        Found::Other => (true, false),
        Found::Nothing => (true, true),
    }
}

} // verus!
