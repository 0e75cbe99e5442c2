//! The resolved endpoint: where it is, how to talk to it, and how long it took
//! to answer.

use crate::candidate::{Address, Candidate, Parts};
use crate::params::{collected, lookup, Pairs, QueryParams};
use crate::text::{decimal, lowercase, lowercase_of, push_decimal, push_text, same_text, text_of};
use vstd::prelude::*;

verus! {

/// A resolved endpoint.
#[derive(Debug, PartialEq, Eq)]
pub struct ProxyConfig {
    pub address: Address,
    pub port: u16,
    /// The protocol tag, in lower case.
    pub protocol: String,
    pub query_params: QueryParams,
    /// The credential or identifier, in lower case.
    pub username: String,
    /// The measured latency in nanoseconds; zero until a probe succeeded.
    pub ping: u64,
}

/// What a resolved endpoint holds.
pub struct Entity {
    pub address: Seq<char>,
    pub port: u16,
    pub protocol: Seq<char>,
    pub params: Pairs,
    pub username: Seq<char>,
    pub ping: u64,
}

/// What decides whether two endpoints are one and the same.
pub struct Identity {
    pub address: Seq<char>,
    pub port: u16,
    pub protocol: Seq<char>,
    pub sni: Option<Seq<char>>,
    pub pbk: Option<Seq<char>>,
    pub extra: Option<Seq<char>>,
    pub username: Seq<char>,
}

impl View for ProxyConfig {
    type V = Entity;

    open spec fn view(&self) -> Entity {
        Entity {
            address: self.address@,
            port: self.port,
            protocol: self.protocol@,
            params: self.query_params@,
            username: self.username@,
            ping: self.ping,
        }
    }
}

impl Entity {
    /// The identity of the endpoint: address, port, protocol, the parameters
    /// `sni`, `pbk` and `extra`, and the credential. Other parameters and the
    /// latency are no part of it.
    pub open spec fn identity(self) -> Identity {
        Identity {
            address: self.address,
            port: self.port,
            protocol: self.protocol,
            sni: lookup(self.params, "sni"@),
            pbk: lookup(self.params, "pbk"@),
            extra: lookup(self.params, "extra"@),
            username: self.username,
        }
    }

    /// The connection string of the endpoint:
    /// `protocol://username@address:port`, followed by `?` and the parameters
    /// where there are any.
    pub open spec fn uri(self) -> Seq<char> {
        let base = self.protocol + "://"@ + self.username + "@"@ + self.address + ":"@ + decimal(
            self.port as nat,
        );
        if self.params.len() == 0 {
            base
        } else {
            base + "?"@ + query_text(self.params)
        }
    }
}

/// The pairs as `name=value`, with `&` between neighbours.
pub open spec fn query_text(pairs: Pairs) -> Seq<char>
    decreases pairs.len(),
{
    if pairs.len() == 0 {
        Seq::empty()
    } else if pairs.len() == 1 {
        pairs[0].0 + "="@ + pairs[0].1
    } else {
        query_text(pairs.drop_last()) + "&"@ + pairs.last().0 + "="@ + pairs.last().1
    }
}

/// The port that a protocol uses where the descriptor names none.
pub open spec fn default_port(scheme: Seq<char>) -> u16 {
    if scheme == "http"@ || scheme == "https"@ {
        80
    } else if scheme == "socks"@ || scheme == "socks5"@ {
        1080
    } else if scheme == "shadowsocks"@ {
        8388
    } else if scheme == "trojan"@ || scheme == "vless"@ || scheme == "vmess"@ {
        443
    } else {
        8080
    }
}

/// The endpoint that a candidate becomes at an address: its port or the
/// default port of its scheme, scheme and credential in lower case, its query
/// pairs collected into a mapping, and no latency yet.
pub open spec fn entity_from(parts: Parts, address: Seq<char>) -> Entity {
    Entity {
        address,
        port: match parts.port {
            Some(port) => port,
            None => default_port(parts.scheme),
        },
        protocol: lowercase_of(parts.scheme),
        params: collected(parts.query),
        username: lowercase_of(parts.username),
        ping: 0,
    }
}

/// Appends the pairs as `name=value`, with `&` between neighbours.
pub fn push_query(out: &mut Vec<char>, pairs: &Vec<(String, String)>)
    ensures
        final(out)@ == old(out)@ + query_text(crate::text::text_pairs(pairs@)),
{
    let ghost all = crate::text::text_pairs(pairs@);
    let ghost start = out@;
    let mut i: usize = 0;
    while i < pairs.len()
        invariant
            i <= pairs.len(),
            all == crate::text::text_pairs(pairs@),
            out@ == start + query_text(all.take(i as int)),
        decreases pairs.len() - i,
    {
        proof {
            assert(all.take(i + 1).drop_last() == all.take(i as int));
        }
        if i > 0 {
            push_text(out, "&");
        }
        push_text(out, pairs[i].0.as_str());
        push_text(out, "=");
        push_text(out, pairs[i].1.as_str());
        i += 1;
    }
    proof {
        assert(all.take(pairs.len() as int) == all);
    }
}

fn default_port_of(scheme: &str) -> (port: u16)
    ensures
        port == default_port(scheme@),
{
    if same_text(scheme, "http") || same_text(scheme, "https") {
        80
    } else if same_text(scheme, "socks") || same_text(scheme, "socks5") {
        1080
    } else if same_text(scheme, "shadowsocks") {
        8388
    } else if same_text(scheme, "trojan") || same_text(scheme, "vless") || same_text(
        scheme,
        "vmess",
    ) {
        443
    } else {
        8080
    }
}

fn same_value(a: Option<&String>, b: Option<&String>) -> (same: bool)
    ensures
        same == (match (a, b) {
            (Some(x), Some(y)) => x@ == y@,
            (None, None) => true,
            _ => false,
        }),
{
    match (a, b) {
        (Some(x), Some(y)) => same_text(x.as_str(), y.as_str()),
        (None, None) => true,
        _ => false,
    }
}

impl Clone for ProxyConfig {
    fn clone(&self) -> (copy: ProxyConfig)
        ensures
            copy@ == self@,
    {
        ProxyConfig {
            address: self.address.clone(),
            port: self.port,
            protocol: self.protocol.clone(),
            query_params: self.query_params.clone(),
            username: self.username.clone(),
            ping: self.ping,
        }
    }
}

impl ProxyConfig {
    /// The endpoint that the candidate `url` becomes once its host is resolved
    /// to `resolved_addr`.
    pub fn from_url(url: Candidate, resolved_addr: Address) -> (config: ProxyConfig)
        ensures
            config@ == entity_from(url@, resolved_addr@),
    {
        let port = match url.port {
            Some(port) => port,
            None => default_port_of(url.scheme.as_str()),
        };
        ProxyConfig {
            address: resolved_addr,
            port,
            protocol: lowercase(url.scheme.as_str()),
            query_params: QueryParams::from_pairs(url.query),
            username: lowercase(url.username.as_str()),
            ping: 0,
        }
    }

    /// Whether `self` and `other` are the same endpoint.
    pub fn same_endpoint(&self, other: &ProxyConfig) -> (same: bool)
        ensures
            same == (self@.identity() == other@.identity()),
    {
        self.address.same(&other.address) && self.port == other.port && same_text(
            self.protocol.as_str(),
            other.protocol.as_str(),
        ) && same_value(self.query_params.get("sni"), other.query_params.get("sni"))
            && same_value(self.query_params.get("pbk"), other.query_params.get("pbk"))
            && same_value(self.query_params.get("extra"), other.query_params.get("extra"))
            && same_text(self.username.as_str(), other.username.as_str())
    }

    /// The connection string of the endpoint.
    pub fn to_uri(&self) -> (uri: String)
        ensures
            uri@ == self@.uri(),
    {
        let mut out: Vec<char> = Vec::new();
        push_text(&mut out, self.protocol.as_str());
        push_text(&mut out, "://");
        push_text(&mut out, self.username.as_str());
        push_text(&mut out, "@");
        push_text(&mut out, self.address.as_str());
        push_text(&mut out, ":");
        push_decimal(&mut out, self.port as u64);
        if !self.query_params.is_empty() {
            push_text(&mut out, "?");
            push_query(&mut out, self.query_params.as_pairs());
        }
        text_of(out)
    }
}

} // verus!
