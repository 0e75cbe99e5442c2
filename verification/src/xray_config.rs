//! The translator: compiles a chunk of resolved endpoints into the
//! configuration document of the forwarding engine.
//!
//! Every function that builds a part of the document has a `spec` function of
//! the same shape beside it, which says what the part holds as a [`Json`] tree.

use crate::fields::{copy_flag, copy_text, copy_u32, one_item, with_flag, with_text, with_u32};
use crate::json::{
    json_bool, json_i64, json_list, json_object, json_of, json_pretty, json_print, json_set,
    json_text, json_u64, jsons_of, Json,
};
use crate::params::{has_key, lookup, Pairs, QueryParams};
use crate::proxy_config::{Entity, ProxyConfig};
use crate::text::{
    decimal, parse_i32, parse_u32, parsed_i32, parsed_u32, push_decimal, push_text, same_text,
    text_of,
};
use crate::transport::{create_stream_settings, stream_settings};
use serde_json::Value;
use vstd::prelude::*;

verus! {

/// Why a chunk could not be compiled.
#[derive(Debug, PartialEq, Eq)]
pub enum ConfigError {
    /// An endpoint of the chunk has a protocol tag that the translator does
    /// not know; the tag is given.
    UnsupportedProtocol(String),
    /// The printer refused the document. It refuses no document that the
    /// translator compiled, so that [`generate_xray_config`] never gives this
    /// error.
    Serialization,
}

impl Clone for ConfigError {
    fn clone(&self) -> (copy: ConfigError)
        ensures
            copy.text() == self.text(),
    {
        match self {
            ConfigError::UnsupportedProtocol(protocol) => ConfigError::UnsupportedProtocol(
                protocol.clone(),
            ),
            ConfigError::Serialization => ConfigError::Serialization,
        }
    }
}

impl ConfigError {
    /// The error in words.
    pub open spec fn text(self) -> Seq<char> {
        match self {
            ConfigError::UnsupportedProtocol(protocol) => "Unsupported protocol: "@ + protocol@,
            ConfigError::Serialization => "Failed to serialize Xray config"@,
        }
    }

    /// The error in words.
    pub fn message(&self) -> (words: String)
        ensures
            words@ == self.text(),
    {
        match self {
            ConfigError::UnsupportedProtocol(protocol) => {
                let mut out: Vec<char> = Vec::new();
                push_text(&mut out, "Unsupported protocol: ");
                push_text(&mut out, protocol.as_str());
                text_of(out)
            },
            ConfigError::Serialization => "Failed to serialize Xray config".to_owned(),
        }
    }
}

/// `prefix` followed by the decimal digits of `index`.
pub open spec fn numbered(prefix: Seq<char>, index: nat) -> Seq<char> {
    prefix + decimal(index)
}

fn numbered_text(prefix: &str, index: usize) -> (tag: String)
    ensures
        tag@ == numbered(prefix@, index as nat),
{
    let mut out: Vec<char> = Vec::new();
    push_text(&mut out, prefix);
    push_decimal(&mut out, index as u64);
    text_of(out)
}

/// The level that a value stands for: its number, or zero.
pub open spec fn level_of(value: Seq<char>) -> int {
    match parsed_u32(value) {
        Some(n) => n as int,
        None => 0,
    }
}

/// `doc` with the member `name` taken from the parameter of the same name,
/// where it is there: `level` as a number, any other as text.
pub open spec fn common_field(doc: Json, params: Pairs, name: Seq<char>) -> Json {
    match lookup(params, name) {
        Some(v) => doc.with(
            name,
            if name == "level"@ {
                Json::Int(level_of(v))
            } else {
                Json::Text(v)
            },
        ),
        None => doc,
    }
}

/// `doc` with each of `names` taken in turn from the parameters.
pub open spec fn common_fields(doc: Json, params: Pairs, names: Seq<Seq<char>>) -> Json
    decreases names.len(),
{
    if names.len() == 0 {
        doc
    } else {
        common_field(common_fields(doc, params, names.drop_last()), params, names.last())
    }
}

/// The server settings that the protocols share: address and port, then
/// `user`, `pass`, `level` and `email`, then the additional fields, each taken
/// from the parameter of its name where that is there.
pub open spec fn common_settings(e: Entity, additional: Seq<Seq<char>>) -> Json {
    let place = Json::empty_object().with("address"@, Json::Text(e.address)).with(
        "port"@,
        Json::Int(e.port as int),
    );
    let known = common_field(
        common_field(
            common_field(common_field(place, e.params, "user"@), e.params, "pass"@),
            e.params,
            "level"@,
        ),
        e.params,
        "email"@,
    );
    common_fields(known, e.params, additional)
}

/// The names of a run of fields.
pub open spec fn names_of(fields: Seq<&str>) -> Seq<Seq<char>> {
    Seq::new(fields.len(), |i: int| fields[i]@)
}

fn copy_common(doc: &mut Value, params: &QueryParams, name: &str)
    requires
        json_of(*old(doc)) is Object,
    ensures
        json_of(*final(doc)) == common_field(json_of(*old(doc)), params@, name@),
        json_of(*final(doc)) is Object,
{
    match params.get(name) {
        Some(value) => {
            if same_text(name, "level") {
                let level: u32 = match parse_u32(value.as_str()) {
                    Some(n) => n,
                    None => 0,
                };
                json_set(doc, name, json_u64(level as u64));
            } else {
                json_set(doc, name, json_text(value.as_str()));
            }
        },
        None => {},
    }
}

/// Builds the server settings that the protocols share.
pub fn create_common_server_settings(proxy: &ProxyConfig, additional_fields: &[&str]) -> (settings:
    Value)
    ensures
        json_of(settings) == common_settings(proxy@, names_of(additional_fields@)),
        json_of(settings) is Object,
{
    let mut settings = json_object();
    json_set(&mut settings, "address", json_text(proxy.address.as_str()));
    json_set(&mut settings, "port", json_u64(proxy.port as u64));
    copy_common(&mut settings, &proxy.query_params, "user");
    copy_common(&mut settings, &proxy.query_params, "pass");
    copy_common(&mut settings, &proxy.query_params, "level");
    copy_common(&mut settings, &proxy.query_params, "email");
    let ghost names = names_of(additional_fields@);
    let ghost known = json_of(settings);
    let mut i: usize = 0;
    while i < additional_fields.len()
        invariant
            i <= additional_fields.len(),
            names == names_of(additional_fields@),
            json_of(settings) is Object,
            json_of(settings) == common_fields(known, proxy@.params, names.take(i as int)),
        decreases additional_fields.len() - i,
    {
        proof {
            assert(names.take(i + 1).drop_last() == names.take(i as int));
        }
        copy_common(&mut settings, &proxy.query_params, additional_fields[i]);
        i += 1;
    }
    proof {
        assert(names.take(additional_fields.len() as int) == names);
    }
    settings
}

/// An outbound: protocol, settings and tag.
pub open spec fn tagged(protocol: Seq<char>, settings: Json, tag: Seq<char>) -> Json {
    Json::empty_object().with("protocol"@, Json::Text(protocol)).with("settings"@, settings).with(
        "tag"@,
        Json::Text(tag),
    )
}

/// An outbound with the transport block of the endpoint, where it has one.
pub open spec fn with_stream(outbound: Json, params: Pairs) -> Json {
    match stream_settings(params) {
        Some(stream) => outbound.with("streamSettings"@, stream),
        None => outbound,
    }
}

fn tagged_outbound(protocol: &str, settings: Value, tag: String) -> (outbound: Value)
    ensures
        json_of(outbound) == tagged(protocol@, json_of(settings), tag@),
        json_of(outbound) is Object,
{
    let mut outbound = json_object();
    json_set(&mut outbound, "protocol", json_text(protocol));
    json_set(&mut outbound, "settings", settings);
    json_set(&mut outbound, "tag", json_text(tag.as_str()));
    outbound
}

fn add_stream(outbound: &mut Value, params: &QueryParams)
    requires
        json_of(*old(outbound)) is Object,
    ensures
        json_of(*final(outbound)) == with_stream(json_of(*old(outbound)), params@),
{
    match create_stream_settings(params) {
        Some(stream) => {
            json_set(outbound, "streamSettings", stream);
        },
        None => {},
    }
}

/// The outbound of an HTTP proxy.
pub open spec fn http_outbound(e: Entity, index: nat) -> Json {
    tagged("http"@, common_settings(e, seq!["user"@, "pass"@]), numbered("http-out-"@, index))
}

/// The outbound of a SOCKS proxy.
pub open spec fn socks_outbound(e: Entity, index: nat) -> Json {
    tagged("socks"@, common_settings(e, seq!["user"@, "pass"@]), numbered("socks-out-"@, index))
}

/// The outbound of a Shadowsocks server: the common settings, the cipher
/// (`aes-256-gcm` unless the parameter `method` names one), the credential as
/// password, and what there is of the UDP-over-TCP flag and version.
pub open spec fn shadowsocks_outbound(e: Entity, index: nat) -> Json {
    let method = common_settings(e, Seq::empty()).with(
        "method"@,
        Json::Text(
            match lookup(e.params, "method"@) {
                Some(m) => m,
                None => "aes-256-gcm"@,
            },
        ),
    );
    let keyed = method.with("password"@, Json::Text(e.username));
    let uot = with_flag(keyed, "uot"@, lookup(e.params, "uot"@));
    let settings = with_u32(uot, "UoTVersion"@, lookup(e.params, "UoTVersion"@));
    tagged("shadowsocks"@, settings, numbered("ss-out-"@, index))
}

/// The outbound of a Trojan server: the common settings with the credential as
/// password, and the transport block.
pub open spec fn trojan_outbound(e: Entity, index: nat) -> Json {
    let settings = common_settings(e, Seq::empty()).with("password"@, Json::Text(e.username));
    with_stream(tagged("trojan"@, settings, numbered("trojan-out-"@, index)), e.params)
}

/// The outbound of a VLESS server: the common settings with the credential as
/// id, no encryption, the flow where there is one, and the transport block.
pub open spec fn vless_outbound(e: Entity, index: nat) -> Json {
    let settings = with_text(
        common_settings(e, Seq::empty()).with("id"@, Json::Text(e.username)).with(
            "encryption"@,
            Json::Text("none"@),
        ),
        "flow"@,
        lookup(e.params, "flow"@),
    );
    with_stream(tagged("vless"@, settings, numbered("vless-out-"@, index)), e.params)
}

/// The level of a VMess user: the parameter `level` where it reads as a
/// number, else zero.
pub open spec fn vmess_level(params: Pairs) -> int {
    match lookup(params, "level"@) {
        Some(l) => match parsed_i32(l) {
            Some(n) => n as int,
            None => 0,
        },
        None => 0,
    }
}

/// The outbound of a VMess server: one server with one user, who has the
/// credential as id, a cipher (`auto` unless the parameter `security` names
/// one) and a level; and the transport block.
pub open spec fn vmess_outbound(e: Entity, index: nat) -> Json {
    let user = Json::empty_object().with("id"@, Json::Text(e.username)).with(
        "security"@,
        Json::Text(
            match lookup(e.params, "security"@) {
                Some(s) => s,
                None => "auto"@,
            },
        ),
    ).with("level"@, Json::Int(vmess_level(e.params)));
    let server = Json::empty_object().with("address"@, Json::Text(e.address)).with(
        "port"@,
        Json::Int(e.port as int),
    ).with("users"@, Json::List(seq![user]));
    let settings = Json::empty_object().with("vnext"@, Json::List(seq![server]));
    with_stream(tagged("vmess"@, settings, numbered("vmess-out-"@, index)), e.params)
}

/// Builds the outbound of an HTTP proxy.
pub fn create_http_outbound(proxy: &ProxyConfig, index: usize) -> (outbound: Value)
    ensures
        json_of(outbound) == http_outbound(proxy@, index as nat),
{
    let fields = ["user", "pass"];
    proof {
        assert(names_of(fields@) == seq!["user"@, "pass"@]);
    }
    let settings = create_common_server_settings(proxy, fields.as_slice());
    tagged_outbound("http", settings, numbered_text("http-out-", index))
}

/// Builds the outbound of a SOCKS proxy.
pub fn create_socks_outbound(proxy: &ProxyConfig, index: usize) -> (outbound: Value)
    ensures
        json_of(outbound) == socks_outbound(proxy@, index as nat),
{
    let fields = ["user", "pass"];
    proof {
        assert(names_of(fields@) == seq!["user"@, "pass"@]);
    }
    let settings = create_common_server_settings(proxy, fields.as_slice());
    tagged_outbound("socks", settings, numbered_text("socks-out-", index))
}

fn no_fields() -> (fields: [&'static str; 0])
    ensures
        names_of(fields@) == Seq::<Seq<char>>::empty(),
{
    let fields: [&'static str; 0] = [];
    proof {
        assert(names_of(fields@) == Seq::<Seq<char>>::empty());
    }
    fields
}

/// Builds the outbound of a Shadowsocks server.
pub fn create_shadowsocks_outbound(proxy: &ProxyConfig, index: usize) -> (outbound: Value)
    ensures
        json_of(outbound) == shadowsocks_outbound(proxy@, index as nat),
{
    let mut settings = create_common_server_settings(proxy, no_fields().as_slice());
    let method: &str = match proxy.query_params.get("method") {
        Some(m) => m.as_str(),
        None => "aes-256-gcm",
    };
    json_set(&mut settings, "method", json_text(method));
    json_set(&mut settings, "password", json_text(proxy.username.as_str()));
    copy_flag(&mut settings, "uot", &proxy.query_params, "uot");
    copy_u32(&mut settings, "UoTVersion", &proxy.query_params, "UoTVersion");
    tagged_outbound("shadowsocks", settings, numbered_text("ss-out-", index))
}

/// Builds the outbound of a Trojan server.
pub fn create_trojan_outbound(proxy: &ProxyConfig, index: usize) -> (outbound: Value)
    ensures
        json_of(outbound) == trojan_outbound(proxy@, index as nat),
{
    let mut settings = create_common_server_settings(proxy, no_fields().as_slice());
    json_set(&mut settings, "password", json_text(proxy.username.as_str()));
    let mut outbound = tagged_outbound("trojan", settings, numbered_text("trojan-out-", index));
    add_stream(&mut outbound, &proxy.query_params);
    outbound
}

/// Builds the outbound of a VLESS server.
pub fn create_vless_outbound(proxy: &ProxyConfig, index: usize) -> (outbound: Value)
    ensures
        json_of(outbound) == vless_outbound(proxy@, index as nat),
{
    let mut settings = create_common_server_settings(proxy, no_fields().as_slice());
    json_set(&mut settings, "id", json_text(proxy.username.as_str()));
    json_set(&mut settings, "encryption", json_text("none"));
    copy_text(&mut settings, "flow", &proxy.query_params, "flow");
    let mut outbound = tagged_outbound("vless", settings, numbered_text("vless-out-", index));
    add_stream(&mut outbound, &proxy.query_params);
    outbound
}

/// Builds the outbound of a VMess server.
pub fn create_vmess_outbound(proxy: &ProxyConfig, index: usize) -> (outbound: Value)
    ensures
        json_of(outbound) == vmess_outbound(proxy@, index as nat),
{
    let security: &str = match proxy.query_params.get("security") {
        Some(s) => s.as_str(),
        None => "auto",
    };
    let level: i32 = match proxy.query_params.get("level") {
        Some(l) => match parse_i32(l.as_str()) {
            Some(n) => n,
            None => 0,
        },
        None => 0,
    };
    let mut user = json_object();
    json_set(&mut user, "id", json_text(proxy.username.as_str()));
    json_set(&mut user, "security", json_text(security));
    json_set(&mut user, "level", json_i64(level as i64));
    let mut server = json_object();
    json_set(&mut server, "address", json_text(proxy.address.as_str()));
    json_set(&mut server, "port", json_u64(proxy.port as u64));
    json_set(&mut server, "users", one_item(user));
    let mut settings = json_object();
    json_set(&mut settings, "vnext", one_item(server));
    let mut outbound = tagged_outbound("vmess", settings, numbered_text("vmess-out-", index));
    add_stream(&mut outbound, &proxy.query_params);
    outbound
}

/// The stem of the tag of the outbound that serves a protocol: `http` for
/// `http` and `https`, `socks` for `socks` and `socks5`, `ss` for
/// `shadowsocks`, and their own names for `trojan`, `vless` and `vmess`. Any
/// other protocol is not supported and has none.
pub open spec fn tag_stem(protocol: Seq<char>) -> Option<Seq<char>> {
    if protocol == "http"@ || protocol == "https"@ {
        Some("http-out-"@)
    } else if protocol == "socks"@ || protocol == "socks5"@ {
        Some("socks-out-"@)
    } else if protocol == "shadowsocks"@ {
        Some("ss-out-"@)
    } else if protocol == "trojan"@ {
        Some("trojan-out-"@)
    } else if protocol == "vless"@ {
        Some("vless-out-"@)
    } else if protocol == "vmess"@ {
        Some("vmess-out-"@)
    } else {
        None
    }
}

/// Whether the translator knows the protocol: it knows `http`, `https`,
/// `socks`, `socks5`, `shadowsocks`, `trojan`, `vless` and `vmess`, and no
/// other.
pub open spec fn supported(protocol: Seq<char>) -> bool {
    protocol == "http"@ || protocol == "https"@ || protocol == "socks"@ || protocol == "socks5"@
        || protocol == "shadowsocks"@ || protocol == "trojan"@ || protocol == "vless"@ || protocol
        == "vmess"@
}

/// The protocols that have an outbound, and a tag for it, are the supported
/// ones.
pub proof fn lemma_supported(e: Entity, index: nat)
    ensures
        supported(e.protocol) <==> tag_stem(e.protocol) is Some,
        supported(e.protocol) <==> outbound(e, index) is Some,
{
}

/// The outbound of an endpoint at a position of its chunk, where its protocol
/// is supported.
pub open spec fn outbound(e: Entity, index: nat) -> Option<Json> {
    if e.protocol == "http"@ || e.protocol == "https"@ {
        Some(http_outbound(e, index))
    } else if e.protocol == "socks"@ || e.protocol == "socks5"@ {
        Some(socks_outbound(e, index))
    } else if e.protocol == "shadowsocks"@ {
        Some(shadowsocks_outbound(e, index))
    } else if e.protocol == "trojan"@ {
        Some(trojan_outbound(e, index))
    } else if e.protocol == "vless"@ {
        Some(vless_outbound(e, index))
    } else if e.protocol == "vmess"@ {
        Some(vmess_outbound(e, index))
    } else {
        None
    }
}

/// The tag of the listener at a position.
pub open spec fn inbound_tag(index: nat) -> Seq<char> {
    numbered("socks-in-"@, index)
}

/// The tag of the outbound of a protocol at a position.
pub open spec fn outbound_tag(protocol: Seq<char>, index: nat) -> Seq<char> {
    numbered(tag_stem(protocol)->0, index)
}

/// The listener at a position: a local SOCKS listener on the given port,
/// without authentication, with UDP allowed.
pub open spec fn inbound(port: nat, index: nat) -> Json {
    Json::empty_object().with("listen"@, Json::Text("127.0.0.1"@)).with(
        "port"@,
        Json::Int(port as int),
    ).with("protocol"@, Json::Text("socks"@)).with(
        "settings"@,
        Json::empty_object().with("auth"@, Json::Text("noauth"@)).with("udp"@, Json::Bool(true)),
    ).with("tag"@, Json::Text(inbound_tag(index)))
}

/// The rule that sends what arrives at the listener of a position to the
/// outbound with the given tag.
pub open spec fn rule(index: nat, target: Seq<char>) -> Json {
    Json::empty_object().with("type"@, Json::Text("field"@)).with(
        "inboundTag"@,
        Json::List(seq![Json::Text(inbound_tag(index))]),
    ).with("outboundTag"@, Json::Text(target))
}

/// The outbound that forwards nothing and connects directly.
pub open spec fn direct() -> Json {
    Json::empty_object().with("protocol"@, Json::Text("freedom"@)).with(
        "tag"@,
        Json::Text("direct"@),
    )
}

/// What the endpoints of a chunk hold.
pub open spec fn entities(chunk: Seq<ProxyConfig>) -> Seq<Entity> {
    Seq::new(chunk.len(), |i: int| chunk[i]@)
}

/// Every endpoint of the chunk has a protocol that the translator knows.
pub open spec fn all_supported(chunk: Seq<Entity>) -> bool {
    forall|i: int| 0 <= i < chunk.len() ==> supported(#[trigger] chunk[i].protocol)
}

/// The listeners of a chunk: one per endpoint, on consecutive ports from
/// `base_port`.
pub open spec fn inbounds(chunk: Seq<Entity>, base_port: nat) -> Seq<Json> {
    Seq::new(chunk.len(), |i: int| inbound((base_port + i) as nat, i as nat))
}

/// The outbounds of a chunk whose protocols are all supported: one per
/// endpoint, and the direct outbound last.
pub open spec fn outbounds(chunk: Seq<Entity>) -> Seq<Json> {
    Seq::new(chunk.len(), |i: int| outbound(chunk[i], i as nat)->0).push(direct())
}

/// The rules of a chunk: one per endpoint, from its listener to its outbound.
pub open spec fn rules(chunk: Seq<Entity>) -> Seq<Json> {
    Seq::new(chunk.len(), |i: int| rule(i as nat, outbound_tag(chunk[i].protocol, i as nat)))
}

/// The configuration document of a chunk whose protocols are all supported.
pub open spec fn document(chunk: Seq<Entity>, base_port: nat) -> Json {
    Json::empty_object().with(
        "log"@,
        Json::empty_object().with("loglevel"@, Json::Text("error"@)),
    ).with("inbounds"@, Json::List(inbounds(chunk, base_port))).with(
        "outbounds"@,
        Json::List(outbounds(chunk)),
    ).with(
        "routing"@,
        Json::empty_object().with("domainStrategy"@, Json::Text("IPIfNonMatch"@)).with(
            "rules"@,
            Json::List(rules(chunk)),
        ),
    )
}

/// The stem of the tag of the outbound that serves a protocol.
pub fn outbound_stem(protocol: &str) -> (stem: Option<&'static str>)
    ensures
        match stem {
            Some(s) => tag_stem(protocol@) == Some(s@),
            None => tag_stem(protocol@) is None,
        },
{
    if same_text(protocol, "http") || same_text(protocol, "https") {
        Some("http-out-")
    } else if same_text(protocol, "socks") || same_text(protocol, "socks5") {
        Some("socks-out-")
    } else if same_text(protocol, "shadowsocks") {
        Some("ss-out-")
    } else if same_text(protocol, "trojan") {
        Some("trojan-out-")
    } else if same_text(protocol, "vless") {
        Some("vless-out-")
    } else if same_text(protocol, "vmess") {
        Some("vmess-out-")
    } else {
        None
    }
}

/// Builds the outbound of an endpoint at a position of its chunk, or refuses
/// the endpoint where its protocol is not supported.
pub fn create_outbound(proxy: &ProxyConfig, index: usize) -> (built: Result<Value, ConfigError>)
    ensures
        match built {
            Ok(v) => outbound(proxy@, index as nat) == Some(json_of(v)),
            Err(e) => !supported(proxy@.protocol) && (e matches ConfigError::UnsupportedProtocol(p)
                && p@ == proxy@.protocol),
        },
        built is Ok <==> supported(proxy@.protocol),
{
    let protocol = proxy.protocol.as_str();
    if same_text(protocol, "http") || same_text(protocol, "https") {
        Ok(create_http_outbound(proxy, index))
    } else if same_text(protocol, "socks") || same_text(protocol, "socks5") {
        Ok(create_socks_outbound(proxy, index))
    } else if same_text(protocol, "shadowsocks") {
        Ok(create_shadowsocks_outbound(proxy, index))
    } else if same_text(protocol, "trojan") {
        Ok(create_trojan_outbound(proxy, index))
    } else if same_text(protocol, "vless") {
        Ok(create_vless_outbound(proxy, index))
    } else if same_text(protocol, "vmess") {
        Ok(create_vmess_outbound(proxy, index))
    } else {
        Err(ConfigError::UnsupportedProtocol(proxy.protocol.clone()))
    }
}

fn create_inbound(port: usize, index: usize) -> (listener: Value)
    ensures
        json_of(listener) == inbound(port as nat, index as nat),
{
    let mut settings = json_object();
    json_set(&mut settings, "auth", json_text("noauth"));
    json_set(&mut settings, "udp", json_bool(true));
    let mut listener = json_object();
    json_set(&mut listener, "listen", json_text("127.0.0.1"));
    json_set(&mut listener, "port", json_u64(port as u64));
    json_set(&mut listener, "protocol", json_text("socks"));
    json_set(&mut listener, "settings", settings);
    json_set(&mut listener, "tag", json_text(numbered_text("socks-in-", index).as_str()));
    listener
}

fn create_rule(index: usize, target: &str) -> (built: Value)
    ensures
        json_of(built) == rule(index as nat, target@),
{
    let mut built = json_object();
    json_set(&mut built, "type", json_text("field"));
    json_set(
        &mut built,
        "inboundTag",
        one_item(json_text(numbered_text("socks-in-", index).as_str())),
    );
    json_set(&mut built, "outboundTag", json_text(target));
    built
}

fn direct_outbound() -> (built: Value)
    ensures
        json_of(built) == direct(),
{
    let mut built = json_object();
    json_set(&mut built, "protocol", json_text("freedom"));
    json_set(&mut built, "tag", json_text("direct"));
    built
}

/// Compiles a chunk into its configuration document.
///
/// The chunk is refused as a whole where one of its endpoints has a protocol
/// that is not supported; the error names the protocol of the first such
/// endpoint. No part of a document is made then.
pub fn compile_document(proxies: &[ProxyConfig], base_port: usize) -> (compiled: Result<
    Value,
    ConfigError,
>)
    requires
        base_port + proxies.len() <= usize::MAX,
    ensures
        compiled is Ok <==> all_supported(entities(proxies@)),
        compiled matches Ok(v) ==> json_of(v) == document(entities(proxies@), base_port as nat),
        compiled matches Err(e) ==> exists|i: int|
            0 <= i < proxies.len() && !supported(#[trigger] entities(proxies@)[i].protocol) && (
            forall|j: int| 0 <= j < i ==> supported(#[trigger] entities(proxies@)[j].protocol)) && (
            e matches ConfigError::UnsupportedProtocol(p) && p@ == entities(proxies@)[i].protocol),
{
    let ghost chunk = entities(proxies@);
    let mut listeners: Vec<Value> = Vec::new();
    let mut targets: Vec<Value> = Vec::new();
    let mut bindings: Vec<Value> = Vec::new();
    let mut i: usize = 0;
    while i < proxies.len()
        invariant
            i <= proxies.len(),
            base_port + proxies.len() <= usize::MAX,
            chunk == entities(proxies@),
            forall|j: int| 0 <= j < i ==> supported(#[trigger] chunk[j].protocol),
            jsons_of(listeners@) == inbounds(chunk, base_port as nat).take(i as int),
            jsons_of(targets@) == outbounds(chunk).take(i as int),
            jsons_of(bindings@) == rules(chunk).take(i as int),
        decreases proxies.len() - i,
    {
        let proxy = &proxies[i];
        let listener = create_inbound(base_port + i, i);
        let target = match create_outbound(proxy, i) {
            Ok(target) => target,
            Err(e) => {
                assert(!supported(chunk[i as int].protocol));
                return Err(e);
            },
        };
        let stem = match outbound_stem(proxy.protocol.as_str()) {
            Some(stem) => stem,
            None => {
                return Err(ConfigError::UnsupportedProtocol(proxy.protocol.clone()));
            },
        };
        let binding = create_rule(i, numbered_text(stem, i).as_str());
        proof {
            assert(jsons_of(listeners@.push(listener)) == jsons_of(listeners@).push(
                json_of(listener),
            ));
            assert(jsons_of(targets@.push(target)) == jsons_of(targets@).push(json_of(target)));
            assert(jsons_of(bindings@.push(binding)) == jsons_of(bindings@).push(json_of(binding)));
            assert(inbounds(chunk, base_port as nat).take(i + 1) == inbounds(
                chunk,
                base_port as nat,
            ).take(i as int).push(inbound((base_port + i) as nat, i as nat)));
            assert(outbounds(chunk).take(i + 1) == outbounds(chunk).take(i as int).push(
                outbound(chunk[i as int], i as nat)->0,
            ));
            assert(rules(chunk).take(i + 1) == rules(chunk).take(i as int).push(
                rule(i as nat, outbound_tag(chunk[i as int].protocol, i as nat)),
            ));
        }
        listeners.push(listener);
        targets.push(target);
        bindings.push(binding);
        i += 1;
    }
    let last = direct_outbound();
    proof {
        assert(inbounds(chunk, base_port as nat).take(i as int) == inbounds(
            chunk,
            base_port as nat,
        ));
        assert(rules(chunk).take(i as int) == rules(chunk));
        assert(jsons_of(targets@.push(last)) == jsons_of(targets@).push(json_of(last)));
        assert(outbounds(chunk).take(i as int) == outbounds(chunk).drop_last());
        assert(outbounds(chunk).drop_last().push(direct()) == outbounds(chunk));
    }
    targets.push(last);
    let mut log = json_object();
    json_set(&mut log, "loglevel", json_text("error"));
    let mut routing = json_object();
    json_set(&mut routing, "domainStrategy", json_text("IPIfNonMatch"));
    json_set(&mut routing, "rules", json_list(bindings));
    let mut config = json_object();
    json_set(&mut config, "log", log);
    json_set(&mut config, "inbounds", json_list(listeners));
    json_set(&mut config, "outbounds", json_list(targets));
    json_set(&mut config, "routing", routing);
    Ok(config)
}

/// Compiles a chunk and prints its configuration document.
///
/// Where every protocol of the chunk is supported the result is the text that
/// the printer makes of the document. Else the chunk is refused as
/// [`compile_document`] refuses it: the error names the protocol of the first
/// endpoint that is not supported.
pub fn generate_xray_config(proxies: &[ProxyConfig], base_port: usize) -> (config: Result<
    String,
    ConfigError,
>)
    requires
        base_port + proxies.len() <= usize::MAX,
    ensures
        config is Ok <==> all_supported(entities(proxies@)),
        config matches Ok(text) ==> text@ == json_pretty(
            document(entities(proxies@), base_port as nat),
        ),
        config matches Err(e) ==> exists|i: int|
            0 <= i < proxies.len() && !supported(#[trigger] entities(proxies@)[i].protocol) && (
            forall|j: int| 0 <= j < i ==> supported(#[trigger] entities(proxies@)[j].protocol)) && (
            e matches ConfigError::UnsupportedProtocol(p) && p@ == entities(proxies@)[i].protocol),
{
    match compile_document(proxies, base_port) {
        Ok(document) => match json_print(&document) {
            Ok(text) => Ok(text),
            Err(_) => Err(ConfigError::Serialization),
        },
        Err(e) => Err(e),
    }
}

/// An endpoint whose security is `reality` and which lacks one of `sni`, `pbk`
/// and `sid` has no transport block at all, and so has its outbound where it
/// is a Trojan, VLESS or VMess server: there is no partial reality block.
pub proof fn lemma_reality_falls_back(e: Entity, index: nat)
    requires
        lookup(e.params, "security"@) == Some("reality"@),
        !has_key(e.params, "sni"@) || !has_key(e.params, "pbk"@) || !has_key(e.params, "sid"@),
    ensures
        stream_settings(e.params) is None,
        !trojan_outbound(e, index).members().contains_key("streamSettings"@),
        !vless_outbound(e, index).members().contains_key("streamSettings"@),
        !vmess_outbound(e, index).members().contains_key("streamSettings"@),
{
    reveal_strlit("streamSettings");
    reveal_strlit("protocol");
    reveal_strlit("settings");
    reveal_strlit("tag");
    assert("streamSettings"@ != "protocol"@) by {
        assert("streamSettings"@[0] == 's');
        assert("protocol"@[0] == 'p');
    }
    assert("streamSettings"@ != "settings"@) by {
        assert("streamSettings"@.len() == 14);
        assert("settings"@.len() == 8);
    }
    assert("streamSettings"@ != "tag"@) by {
        assert("streamSettings"@.len() == 14);
        assert("tag"@.len() == 3);
    }
}

/// The document of a chunk holds its listeners, and the listener of every
/// position listens on `base_port` plus the position.
pub proof fn lemma_listener_ports(chunk: Seq<Entity>, base_port: nat, position: int)
    requires
        0 <= position < chunk.len(),
    ensures
        document(chunk, base_port).members()["inbounds"@] == Json::List(
            inbounds(chunk, base_port),
        ),
        inbounds(chunk, base_port)[position].members()["port"@] == Json::Int(base_port + position),
{
    reveal_strlit("inbounds");
    reveal_strlit("outbounds");
    reveal_strlit("routing");
    reveal_strlit("port");
    reveal_strlit("protocol");
    reveal_strlit("settings");
    reveal_strlit("tag");
    assert("inbounds"@ != "outbounds"@) by {
        assert("inbounds"@[0] == 'i');
        assert("outbounds"@[0] == 'o');
    }
    assert("inbounds"@ != "routing"@) by {
        assert("inbounds"@[0] == 'i');
        assert("routing"@[0] == 'r');
    }
    assert("port"@ != "protocol"@) by {
        assert("port"@.len() == 4);
        assert("protocol"@.len() == 8);
    }
    assert("port"@ != "settings"@) by {
        assert("port"@[0] == 'p');
        assert("settings"@[0] == 's');
    }
    assert("port"@ != "tag"@) by {
        assert("port"@[0] == 'p');
        assert("tag"@[0] == 't');
    }
}

/// The rule of an endpoint names the tag that its outbound carries.
pub proof fn lemma_rule_binds_outbound(e: Entity, index: nat)
    requires
        supported(e.protocol),
    ensures
        outbound(e, index) is Some,
        outbound(e, index)->0.members().contains_key("tag"@),
        outbound(e, index)->0.members()["tag"@] == Json::Text(outbound_tag(e.protocol, index)),
        rule(index, outbound_tag(e.protocol, index)).members()["outboundTag"@] == Json::Text(
            outbound_tag(e.protocol, index),
        ),
{
    reveal_strlit("streamSettings");
    reveal_strlit("tag");
    assert("streamSettings"@ != "tag"@) by {
        assert("streamSettings"@.len() == 14);
        assert("tag"@.len() == 3);
    }
}

} // verus!
