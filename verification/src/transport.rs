//! The transport block of an outbound: the security layer (reality or TLS)
//! and the settings of the network (WebSocket, gRPC or XHTTP) of an endpoint,
//! as its parameters describe them.

use crate::codec::{percent_decode, percent_decoded};
use crate::fields::{
    copy_flag, copy_text, copy_u32, json_texts, lemma_with_has_members, text_list, with_flag,
    with_text, with_u32,
};
use crate::json::{json_object, json_of, json_parse, json_parsed, json_set, json_text, Json};
use crate::params::{has_key, lookup, Pairs, QueryParams};
use crate::text::{
    chars_of, find_char, first_index, hex_digit, is_hex_digit, is_space, same_text, slice_text,
    split, split_on, text_of, trim, trimmed,
};
use serde_json::Value;
use vstd::prelude::*;

verus! {

/// The part of a value before its first `=`; the whole value where it has
/// none.
pub open spec fn before_equals(value: Seq<char>) -> Seq<char> {
    value.take(first_index(value, '=', 0))
}

fn cut_at_equals(value: &str) -> (head: String)
    ensures
        head@ == before_equals(value@),
{
    let chars = chars_of(value);
    let at = find_char(&chars, '=', 0);
    slice_text(&chars, 0, at)
}

/// The number of bytes that a character takes in UTF-8.
pub open spec fn utf8_width(c: char) -> nat {
    if c <= '\u{7f}' {
        1
    } else if c <= '\u{7ff}' {
        2
    } else if c <= '\u{ffff}' {
        3
    } else {
        4
    }
}

/// The number of bytes that a text takes in UTF-8.
pub open spec fn utf8_len(s: Seq<char>) -> nat
    decreases s.len(),
{
    if s.len() == 0 {
        0
    } else {
        utf8_len(s.drop_last()) + utf8_width(s.last())
    }
}

/// Every character is a hexadecimal digit.
pub open spec fn all_hex(s: Seq<char>) -> bool {
    forall|i: int| 0 <= i < s.len() ==> is_hex_digit(#[trigger] s[i])
}

/// The first 16 characters of a text; the whole text where it is shorter.
pub open spec fn first_16(s: Seq<char>) -> Seq<char> {
    if s.len() > 16 {
        s.take(16)
    } else {
        s
    }
}

/// A short id with the white space at its ends removed, a `0` put in front
/// where the number of its bytes is odd, and cut to 16 characters.
pub open spec fn padded_shortid(shortid: Seq<char>) -> Seq<char> {
    let bare = trimmed(shortid);
    first_16(
        if utf8_len(bare) % 2 == 1 {
            seq!['0'] + bare
        } else {
            bare
        },
    )
}

/// The short id of a reality endpoint in the form the engine accepts: padded
/// and cut, and `00` in place of that where one of its characters is no
/// hexadecimal digit.
pub open spec fn normalized_shortid(shortid: Seq<char>) -> Seq<char> {
    if all_hex(padded_shortid(shortid)) {
        padded_shortid(shortid)
    } else {
        "00"@
    }
}

fn odd_utf8_len(chars: &Vec<char>) -> (odd: bool)
    ensures
        odd == (utf8_len(chars@) % 2 == 1),
{
    let mut odd = false;
    let mut i: usize = 0;
    while i < chars.len()
        invariant
            i <= chars.len(),
            odd == (utf8_len(chars@.take(i as int)) % 2 == 1),
        decreases chars.len() - i,
    {
        proof {
            assert(chars@.take(i + 1).drop_last() == chars@.take(i as int));
        }
        let c = chars[i];
        if c <= '\u{7f}' || ('\u{7ff}' < c && c <= '\u{ffff}') {
            odd = !odd;
        }
        i += 1;
    }
    proof {
        assert(chars@.take(chars.len() as int) == chars@);
    }
    odd
}

/// Brings a short id into the form the engine accepts.
pub fn normalize_shortid(shortid: &str) -> (normal: String)
    ensures
        normal@ == normalized_shortid(shortid@),
{
    let bare = trim(shortid);
    let chars = chars_of(bare.as_str());
    let mut cut: Vec<char> = Vec::new();
    if odd_utf8_len(&chars) {
        cut.push('0');
    }
    let ghost padded = cut@ + chars@;
    let ghost lead = cut@;
    let mut i: usize = 0;
    while i < chars.len() && cut.len() < 16
        invariant
            i <= chars.len(),
            lead.len() <= 1,
            padded == lead + chars@,
            cut@ == padded.take(lead.len() + i),
            cut.len() <= 16,
        decreases chars.len() - i,
    {
        cut.push(chars[i]);
        i += 1;
    }
    proof {
        if padded.len() > 16 {
            assert(cut@ == padded.take(16));
        } else {
            assert(cut@ == padded);
        }
    }
    let mut k: usize = 0;
    while k < cut.len()
        invariant
            k <= cut.len(),
            cut@ == padded_shortid(shortid@),
            forall|j: int| 0 <= j < k ==> is_hex_digit(#[trigger] cut@[j]),
        decreases cut.len() - k,
    {
        if !hex_digit(cut[k]) {
            assert(!is_hex_digit(cut@[k as int]));
            return "00".to_owned();
        }
        k += 1;
    }
    text_of(cut)
}

/// A text of hexadecimal digits takes as many bytes as it has characters.
pub proof fn lemma_hex_utf8_len(s: Seq<char>)
    requires
        all_hex(s),
    ensures
        utf8_len(s) == s.len(),
    decreases s.len(),
{
    if s.len() > 0 {
        assert(is_hex_digit(s[s.len() - 1]));
        assert forall|i: int| 0 <= i < s.drop_last().len() implies is_hex_digit(
            #[trigger] s.drop_last()[i],
        ) by {
            assert(is_hex_digit(s[i]));
        }
        lemma_hex_utf8_len(s.drop_last());
    }
}

/// A text that neither begins nor ends with white space is its own trimmed
/// form.
pub proof fn lemma_trimmed_bare(s: Seq<char>)
    requires
        s.len() > 0,
        !is_space(s[0]),
        !is_space(s[s.len() - 1]),
    ensures
        trimmed(s) == s,
{
    assert(s.subrange(0, s.len() as int) == s);
}

/// A short id of hexadecimal digits is kept: with a `0` in front where the
/// number of its digits is odd, and cut to 16 characters.
pub proof fn lemma_shortid_of_hex(shortid: Seq<char>)
    requires
        all_hex(shortid),
    ensures
        normalized_shortid(shortid) == first_16(
            if shortid.len() % 2 == 1 {
                seq!['0'] + shortid
            } else {
                shortid
            },
        ),
{
    if shortid.len() == 0 {
        assert(trimmed(shortid) == shortid);
    } else {
        assert(is_hex_digit(shortid[0]));
        assert(is_hex_digit(shortid[shortid.len() - 1]));
        lemma_trimmed_bare(shortid);
    }
    lemma_hex_utf8_len(shortid);
    let cut = padded_shortid(shortid);
    assert forall|i: int| 0 <= i < cut.len() implies is_hex_digit(#[trigger] cut[i]) by {
        if shortid.len() % 2 == 1 {
            if i > 0 {
                assert(is_hex_digit(shortid[i - 1]));
            }
        } else {
            assert(is_hex_digit(shortid[i]));
        }
    }
}

/// A short id of 20 hexadecimal digits is cut to its first 16.
pub proof fn lemma_shortid_of_20_hex(shortid: Seq<char>)
    requires
        shortid.len() == 20,
        all_hex(shortid),
    ensures
        normalized_shortid(shortid) == shortid.take(16),
{
    lemma_shortid_of_hex(shortid);
}

/// A short id becomes `00` where, white space at its ends apart, one of its
/// first 15 characters is no hexadecimal digit.
pub proof fn lemma_shortid_not_hex(shortid: Seq<char>, at: int)
    requires
        0 <= at < trimmed(shortid).len(),
        at < 15,
        !is_hex_digit(trimmed(shortid)[at]),
    ensures
        normalized_shortid(shortid) == "00"@,
{
    let bare = trimmed(shortid);
    let cut = padded_shortid(shortid);
    if utf8_len(bare) % 2 == 1 {
        assert(cut[at + 1] == bare[at]);
        assert(!is_hex_digit(cut[at + 1]));
    } else {
        assert(cut[at] == bare[at]);
        assert(!is_hex_digit(cut[at]));
    }
}

/// The name that the engine gives to a reality parameter: `serverName` for
/// `sni`, `publicKey` for `pbk`, `shortId` for `sid`, and the parameter's own
/// name for any other.
pub open spec fn reality_field(param: Seq<char>) -> Seq<char> {
    if param == "sni"@ {
        "serverName"@
    } else if param == "pbk"@ {
        "publicKey"@
    } else if param == "sid"@ {
        "shortId"@
    } else {
        param
    }
}

/// The name that the engine gives to a reality parameter.
pub fn map_reality_field<'a>(param: &'a str) -> (field: &'a str)
    ensures
        field@ == reality_field(param@),
{
    if same_text(param, "sni") {
        "serverName"
    } else if same_text(param, "pbk") {
        "publicKey"
    } else if same_text(param, "sid") {
        "shortId"
    } else {
        param
    }
}

/// The reality block of an endpoint: nothing unless `sni`, `pbk` and `sid` are
/// all there; else server name and public key (each up to its first `=`), the
/// short id in its normal form, and what there is of fingerprint, spider path,
/// private key and protocol version.
pub open spec fn reality_settings(params: Pairs) -> Option<Json> {
    if has_key(params, "sni"@) && has_key(params, "pbk"@) && has_key(params, "sid"@) {
        let required = Json::empty_object().with(
            reality_field("sni"@),
            Json::Text(before_equals(lookup(params, "sni"@)->0)),
        ).with(reality_field("pbk"@), Json::Text(before_equals(lookup(params, "pbk"@)->0))).with(
            reality_field("sid"@),
            Json::Text(normalized_shortid(lookup(params, "sid"@)->0)),
        );
        let optional = with_text(
            with_text(
                with_text(required, "fingerprint"@, lookup(params, "fp"@)),
                "spiderX"@,
                lookup(params, "spx"@),
            ),
            "privateKey"@,
            lookup(params, "privateKey"@),
        );
        Some(with_u32(optional, "xver"@, lookup(params, "xver"@)))
    } else {
        None
    }
}

/// Builds the reality block of an endpoint.
pub fn create_reality_settings(query_params: &QueryParams) -> (settings: Option<Value>)
    ensures
        match settings {
            Some(v) => reality_settings(query_params@) == Some(json_of(v)),
            None => reality_settings(query_params@) is None,
        },
{
    let sni = query_params.get("sni");
    let pbk = query_params.get("pbk");
    let sid = query_params.get("sid");
    match (sni, pbk, sid) {
        (Some(sni), Some(pbk), Some(sid)) => {
            let mut settings = json_object();
            json_set(
                &mut settings,
                map_reality_field("sni"),
                json_text(cut_at_equals(sni.as_str()).as_str()),
            );
            json_set(
                &mut settings,
                map_reality_field("pbk"),
                json_text(cut_at_equals(pbk.as_str()).as_str()),
            );
            json_set(
                &mut settings,
                map_reality_field("sid"),
                json_text(normalize_shortid(sid.as_str()).as_str()),
            );
            copy_text(&mut settings, "fingerprint", query_params, "fp");
            copy_text(&mut settings, "spiderX", query_params, "spx");
            copy_text(&mut settings, "privateKey", query_params, "privateKey");
            copy_u32(&mut settings, "xver", query_params, "xver");
            Some(settings)
        },
        _ => None,
    }
}

/// The TLS block of an endpoint: nothing without `sni`; else the server name,
/// the ALPN protocols (the value split at its commas) and the fingerprint,
/// where they are there.
pub open spec fn tls_settings(params: Pairs) -> Option<Json> {
    match lookup(params, "sni"@) {
        Some(sni) => {
            let named = Json::empty_object().with("serverName"@, Json::Text(sni));
            let listed = match lookup(params, "alpn"@) {
                Some(alpn) => named.with("alpn"@, Json::List(text_list(split(alpn, ',')))),
                None => named,
            };
            Some(with_text(listed, "fingerprint"@, lookup(params, "fp"@)))
        },
        None => None,
    }
}

/// Builds the TLS block of an endpoint.
pub fn create_tls_settings(query_params: &QueryParams) -> (settings: Option<Value>)
    ensures
        match settings {
            Some(v) => tls_settings(query_params@) == Some(json_of(v)),
            None => tls_settings(query_params@) is None,
        },
{
    match query_params.get("sni") {
        Some(sni) => {
            let mut settings = json_object();
            json_set(&mut settings, "serverName", json_text(sni.as_str()));
            match query_params.get("alpn") {
                Some(alpn) => {
                    let parts = split_on(alpn.as_str(), ',');
                    json_set(&mut settings, "alpn", json_texts(&parts));
                },
                None => {},
            }
            copy_text(&mut settings, "fingerprint", query_params, "fp");
            Some(settings)
        },
        None => None,
    }
}

/// The tuning block of an XHTTP transport: the headers where the parameter
/// `headers` holds JSON, four numbers, two flags and the streaming interval,
/// each where its parameter is there and reads as what it is meant to be.
pub open spec fn xhttp_extra(params: Pairs) -> Json {
    let headers = match lookup(params, "headers"@) {
        Some(text) => match json_parsed(text) {
            Some(tree) => Json::empty_object().with("headers"@, tree),
            None => Json::empty_object(),
        },
        None => Json::empty_object(),
    };
    let padding = with_u32(headers, "xPaddingBytes"@, lookup(params, "xPaddingBytes"@));
    let each_post = with_u32(
        padding,
        "scMaxEachPostBytes"@,
        lookup(params, "scMaxEachPostBytes"@),
    );
    let interval = with_u32(
        each_post,
        "scMinPostsIntervalMs"@,
        lookup(params, "scMinPostsIntervalMs"@),
    );
    let buffered = with_u32(
        interval,
        "scMaxBufferedPosts"@,
        lookup(params, "scMaxBufferedPosts"@),
    );
    let grpc = with_flag(buffered, "noGRPCHeader"@, lookup(params, "noGRPCHeader"@));
    let sse = with_flag(grpc, "noSSEHeader"@, lookup(params, "noSSEHeader"@));
    with_text(sse, "scStreamUpServerSecs"@, lookup(params, "scStreamUpServerSecs"@))
}

fn build_xhttp_extra(query_params: &QueryParams) -> (built: (Value, bool))
    ensures
        json_of(built.0) == xhttp_extra(query_params@),
        built.1 == (xhttp_extra(query_params@) != Json::empty_object()),
{
    let mut extra = json_object();
    let mut any = false;
    match query_params.get("headers") {
        Some(text) => match json_parse(text.as_str()) {
            Some(tree) => {
                proof {
                    lemma_with_has_members(json_of(extra), "headers"@, json_of(tree));
                }
                json_set(&mut extra, "headers", tree);
                any = true;
            },
            None => {},
        },
        None => {},
    }
    let padding = copy_u32(&mut extra, "xPaddingBytes", query_params, "xPaddingBytes");
    let each_post = copy_u32(&mut extra, "scMaxEachPostBytes", query_params, "scMaxEachPostBytes");
    let interval = copy_u32(
        &mut extra,
        "scMinPostsIntervalMs",
        query_params,
        "scMinPostsIntervalMs",
    );
    let buffered = copy_u32(&mut extra, "scMaxBufferedPosts", query_params, "scMaxBufferedPosts");
    let grpc = copy_flag(&mut extra, "noGRPCHeader", query_params, "noGRPCHeader");
    let sse = copy_flag(&mut extra, "noSSEHeader", query_params, "noSSEHeader");
    let secs = copy_text(&mut extra, "scStreamUpServerSecs", query_params, "scStreamUpServerSecs");
    (extra, any || padding || each_post || interval || buffered || grpc || sse || secs)
}

/// Builds the tuning block of an XHTTP transport.
pub fn create_xhttp_extra(query_params: &QueryParams) -> (extra: Value)
    ensures
        json_of(extra) == xhttp_extra(query_params@),
{
    build_xhttp_extra(query_params).0
}

/// The settings of an XHTTP transport: the decoded path, the host, the mode
/// unless it is `auto`, and the tuning block unless it is empty.
pub open spec fn xhttp_settings(params: Pairs) -> Json {
    let path = match lookup(params, "path"@) {
        Some(p) => Json::empty_object().with("path"@, Json::Text(percent_decoded(p))),
        None => Json::empty_object(),
    };
    let host = with_text(path, "host"@, lookup(params, "host"@));
    let mode = match lookup(params, "mode"@) {
        Some(m) => if m == "auto"@ {
            host
        } else {
            host.with("mode"@, Json::Text(m))
        },
        None => host,
    };
    if xhttp_extra(params) == Json::empty_object() {
        mode
    } else {
        mode.with("extra"@, xhttp_extra(params))
    }
}

/// The settings of a WebSocket transport for a path: the decoded path, and the
/// host as the header `Host` where there is one.
pub open spec fn ws_settings(path: Seq<char>, host: Option<Seq<char>>) -> Json {
    let base = Json::empty_object().with("path"@, Json::Text(percent_decoded(path)));
    match host {
        Some(h) => base.with("headers"@, Json::empty_object().with("Host"@, Json::Text(h))),
        None => base,
    }
}

/// A transport block with the settings of its network added: for `ws` the
/// WebSocket settings where there is a path, for `grpc` the service name where
/// there is one, for `xhttp` its settings unless they are empty, and nothing
/// for any other network.
pub open spec fn network_settings(doc: Json, params: Pairs, network: Seq<char>) -> Json {
    if network == "ws"@ {
        match lookup(params, "path"@) {
            Some(path) => doc.with("wsSettings"@, ws_settings(path, lookup(params, "host"@))),
            None => doc,
        }
    } else if network == "grpc"@ {
        match lookup(params, "serviceName"@) {
            Some(name) => doc.with(
                "grpcSettings"@,
                Json::empty_object().with("serviceName"@, Json::Text(name)),
            ),
            None => doc,
        }
    } else if network == "xhttp"@ {
        if xhttp_settings(params) == Json::empty_object() {
            doc
        } else {
            doc.with("xhttpSettings"@, xhttp_settings(params))
        }
    } else {
        doc
    }
}

fn build_xhttp_settings(query_params: &QueryParams) -> (built: (Value, bool))
    ensures
        json_of(built.0) == xhttp_settings(query_params@),
        built.1 == (xhttp_settings(query_params@) != Json::empty_object()),
{
    let mut settings = json_object();
    let mut any = false;
    match query_params.get("path") {
        Some(path) => {
            let decoded = percent_decode(path.as_str());
            proof {
                lemma_with_has_members(json_of(settings), "path"@, Json::Text(decoded@));
            }
            json_set(&mut settings, "path", json_text(decoded.as_str()));
            any = true;
        },
        None => {},
    }
    let host = copy_text(&mut settings, "host", query_params, "host");
    any = any || host;
    match query_params.get("mode") {
        Some(mode) => {
            if !same_text(mode.as_str(), "auto") {
                proof {
                    lemma_with_has_members(json_of(settings), "mode"@, Json::Text(mode@));
                }
                json_set(&mut settings, "mode", json_text(mode.as_str()));
                any = true;
            }
        },
        None => {},
    }
    let (extra, filled) = build_xhttp_extra(query_params);
    if filled {
        proof {
            lemma_with_has_members(json_of(settings), "extra"@, json_of(extra));
        }
        json_set(&mut settings, "extra", extra);
        any = true;
    }
    (settings, any)
}

/// Adds the settings of the network to a transport block.
pub(crate) fn apply_network_settings(
    stream_settings: &mut Value,
    query_params: &QueryParams,
    network: &str,
)
    requires
        json_of(*old(stream_settings)) is Object,
    ensures
        json_of(*final(stream_settings)) == network_settings(
            json_of(*old(stream_settings)),
            query_params@,
            network@,
        ),
        json_of(*final(stream_settings)) is Object,
{
    if same_text(network, "ws") {
        match query_params.get("path") {
            Some(path) => {
                let decoded = percent_decode(path.as_str());
                let mut ws = json_object();
                json_set(&mut ws, "path", json_text(decoded.as_str()));
                match query_params.get("host") {
                    Some(host) => {
                        let mut headers = json_object();
                        json_set(&mut headers, "Host", json_text(host.as_str()));
                        json_set(&mut ws, "headers", headers);
                    },
                    None => {},
                }
                json_set(stream_settings, "wsSettings", ws);
            },
            None => {},
        }
    } else if same_text(network, "grpc") {
        match query_params.get("serviceName") {
            Some(name) => {
                let mut grpc = json_object();
                json_set(&mut grpc, "serviceName", json_text(name.as_str()));
                json_set(stream_settings, "grpcSettings", grpc);
            },
            None => {},
        }
    } else if same_text(network, "xhttp") {
        let (settings, filled) = build_xhttp_settings(query_params);
        if filled {
            json_set(stream_settings, "xhttpSettings", settings);
        }
    }
}

/// The security of an endpoint: its parameter `security`, or `none`.
pub open spec fn security_of(params: Pairs) -> Seq<char> {
    match lookup(params, "security"@) {
        Some(s) => s,
        None => "none"@,
    }
}

/// The network of an endpoint: its parameter `type`, or `tcp`.
pub open spec fn network_of(params: Pairs) -> Seq<char> {
    match lookup(params, "type"@) {
        Some(t) => t,
        None => "tcp"@,
    }
}

/// The transport block of an endpoint, where it has one. There is none where
/// the security is `none` or the network is `http` or `h2`, and none where the
/// security is `reality` or `tls` and its own block cannot be built. Else the
/// block names network and security, holds the block of the security where it
/// is `reality` or `tls`, and the settings of the network.
pub open spec fn stream_settings(params: Pairs) -> Option<Json> {
    let security = security_of(params);
    let network = network_of(params);
    let base = Json::empty_object().with("network"@, Json::Text(network)).with(
        "security"@,
        Json::Text(security),
    );
    if security == "none"@ || network == "http"@ || network == "h2"@ {
        None
    } else if security == "reality"@ {
        match reality_settings(params) {
            Some(reality) => Some(
                network_settings(base.with("realitySettings"@, reality), params, network),
            ),
            None => None,
        }
    } else if security == "tls"@ {
        match tls_settings(params) {
            Some(tls) => Some(network_settings(base.with("tlsSettings"@, tls), params, network)),
            None => None,
        }
    } else {
        Some(network_settings(base, params, network))
    }
}

/// Builds the transport block of an endpoint.
pub fn create_stream_settings(query_params: &QueryParams) -> (settings: Option<Value>)
    ensures
        match settings {
            Some(v) => stream_settings(query_params@) == Some(json_of(v)),
            None => stream_settings(query_params@) is None,
        },
{
    let security: &str = match query_params.get("security") {
        Some(s) => s.as_str(),
        None => "none",
    };
    let network: &str = match query_params.get("type") {
        Some(t) => t.as_str(),
        None => "tcp",
    };
    if same_text(security, "none") || same_text(network, "http") || same_text(network, "h2") {
        return None;
    }
    let mut settings = json_object();
    json_set(&mut settings, "network", json_text(network));
    json_set(&mut settings, "security", json_text(security));
    if same_text(security, "reality") {
        match create_reality_settings(query_params) {
            Some(reality) => {
                json_set(&mut settings, "realitySettings", reality);
            },
            None => {
                return None;
            },
        }
    } else if same_text(security, "tls") {
        match create_tls_settings(query_params) {
            Some(tls) => {
                json_set(&mut settings, "tlsSettings", tls);
            },
            None => {
                return None;
            },
        }
    }
    apply_network_settings(&mut settings, query_params, network);
    Some(settings)
}

} // verus!
