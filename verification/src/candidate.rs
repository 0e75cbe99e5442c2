//! The descriptor of an endpoint before its host is resolved, and the text of
//! a network address.

use crate::params::Pairs;
use crate::text::{chars_of, hex_digit, is_hex_digit, text_pairs};
use vstd::prelude::*;

verus! {

/// A character that occurs in the text of an IP address.
pub open spec fn is_address_char(c: char) -> bool {
    is_hex_digit(c) || c == '.' || c == ':'
}

/// A text that can stand for an IP address: it is not empty and holds only
/// hexadecimal digits, dots and colons.
pub open spec fn is_address_text(s: Seq<char>) -> bool {
    s.len() > 0 && forall|i: int| 0 <= i < s.len() ==> is_address_char(#[trigger] s[i])
}

/// A network address, by the text that stands for it.
///
/// The text is what the resolver of the caller prints for the address. It is
/// carried, compared and printed here, never taken apart.
#[derive(Debug, PartialEq, Eq, Hash)]
pub struct Address {
    pub(crate) text: String,
}

impl View for Address {
    type V = Seq<char>;

    closed spec fn view(&self) -> Seq<char> {
        self.text@
    }
}

impl Clone for Address {
    fn clone(&self) -> (copy: Address)
        ensures
            copy@ == self@,
    {
        proof {
            use_type_invariant(self);
        }
        Address { text: self.text.clone() }
    }
}

impl Address {
    /// What holds of every address: its text can stand for an address.
    #[verifier::type_invariant]
    pub closed spec fn well_formed(self) -> bool {
        is_address_text(self.text@)
    }

    /// What an address holds is a text that can stand for an address.
    pub proof fn lemma_well_formed(self)
        requires
            self.well_formed(),
        ensures
            is_address_text(self@),
    {
    }

    /// The address that `text` stands for, where it can stand for one.
    pub fn new(text: &str) -> (address: Option<Address>)
        ensures
            match address {
                Some(a) => a@ == text@ && is_address_text(text@),
                None => !is_address_text(text@),
            },
    {
        let chars = chars_of(text);
        if chars.len() == 0 {
            return None;
        }
        let mut i: usize = 0;
        while i < chars.len()
            invariant
                i <= chars.len(),
                chars@ == text@,
                forall|k: int| 0 <= k < i ==> is_address_char(#[trigger] chars@[k]),
            decreases chars.len() - i,
        {
            let c = chars[i];
            if !(hex_digit(c) || c == '.' || c == ':') {
                assert(!is_address_char(text@[i as int]));
                return None;
            }
            i += 1;
        }
        Some(Address { text: text.to_owned() })
    }

    /// The text of the address.
    pub fn as_str(&self) -> (text: &str)
        ensures
            text@ == self@,
            is_address_text(self@),
    {
        proof {
            use_type_invariant(self);
        }
        self.text.as_str()
    }

    /// Whether two addresses are the same.
    pub fn same(&self, other: &Address) -> (same: bool)
        ensures
            same == (self@ == other@),
    {
        self.text == other.text
    }
}

/// The host of an endpoint.
#[derive(Debug, PartialEq, Eq)]
pub enum Host {
    /// A name that has to be resolved.
    Domain(String),
    /// An address written out.
    Literal(Address),
}

/// What a host holds.
pub enum HostName {
    Domain(Seq<char>),
    Literal(Seq<char>),
}

impl View for Host {
    type V = HostName;

    open spec fn view(&self) -> HostName {
        match self {
            Host::Domain(name) => HostName::Domain(name@),
            Host::Literal(address) => HostName::Literal(address@),
        }
    }
}

impl Clone for Host {
    fn clone(&self) -> (copy: Host)
        ensures
            copy@ == self@,
    {
        match self {
            Host::Domain(name) => Host::Domain(name.clone()),
            Host::Literal(address) => Host::Literal(address.clone()),
        }
    }
}

/// An endpoint as its descriptor names it, before resolution.
#[derive(Debug, PartialEq, Eq)]
pub struct Candidate {
    /// The protocol tag.
    pub scheme: String,
    /// The credential or identifier.
    pub username: String,
    pub host: Option<Host>,
    pub port: Option<u16>,
    /// The query parameters in the order of the descriptor; a name may repeat.
    pub query: Vec<(String, String)>,
}

impl Clone for Candidate {
    fn clone(&self) -> (copy: Candidate)
        ensures
            copy@ == self@,
    {
        Candidate {
            scheme: self.scheme.clone(),
            username: self.username.clone(),
            host: match &self.host {
                Some(host) => Some(host.clone()),
                None => None,
            },
            port: self.port,
            query: crate::text::clone_pairs(&self.query),
        }
    }
}

impl Candidate {
    /// The query of the candidate as it stands in a URL: `name=value` for each
    /// parameter, with `&` between neighbours.
    pub fn query_string(&self) -> (query: String)
        ensures
            query@ == crate::proxy_config::query_text(self@.query),
    {
        let mut out: Vec<char> = Vec::new();
        crate::proxy_config::push_query(&mut out, &self.query);
        crate::text::text_of(out)
    }
}

/// What a candidate holds.
pub struct Parts {
    pub scheme: Seq<char>,
    pub username: Seq<char>,
    pub host: Option<HostName>,
    pub port: Option<u16>,
    pub query: Pairs,
}

impl View for Candidate {
    type V = Parts;

    open spec fn view(&self) -> Parts {
        Parts {
            scheme: self.scheme@,
            username: self.username@,
            host: match self.host {
                Some(h) => Some(h@),
                None => None,
            },
            port: self.port,
            query: text_pairs(self.query@),
        }
    }
}

/// The parts that `url::Url::parse` finds in a text, where it accepts the text:
/// scheme, user name, host, port and the decoded pairs of the query.
pub uninterp spec fn url_parts(text: Seq<char>) -> Option<Parts>;

/// Takes a URL apart.
///
/// Trusted: whether `Url::parse` accepts a text, and what `scheme`,
/// `username`, `host`, `port` and `query_pairs` then return, depends on the
/// text alone. An address in the host is kept by the text that std prints for
/// it, which holds only hexadecimal digits, dots and colons.
#[verifier::external_body]
pub(crate) fn split_url(text: &str) -> (candidate: Option<Candidate>)
    ensures
        match candidate {
            Some(c) => url_parts(text@) == Some(c@),
            None => url_parts(text@) is None,
        },
{
    let url = url::Url::parse(text).ok()?;
    let host = match url.host() {
        Some(url::Host::Domain(name)) => Some(Host::Domain(name.to_owned())),
        Some(url::Host::Ipv4(ip)) => Some(Host::Literal(Address { text: ip.to_string() })),
        Some(url::Host::Ipv6(ip)) => Some(Host::Literal(Address { text: ip.to_string() })),
        None => None,
    };
    let query = url.query_pairs().into_owned().collect();
    let (scheme, username) = (url.scheme().to_owned(), url.username().to_owned());
    Some(Candidate { scheme, username, host, port: url.port(), query })
}

} // verus!
