use novaprox::candidate::{Address, Candidate, Host};
use novaprox::params::QueryParams;
use novaprox::proxy_config::ProxyConfig;
use novaprox::transport::{
    create_reality_settings, create_stream_settings, create_tls_settings, create_xhttp_extra,
    map_reality_field, normalize_shortid,
};
use novaprox::xray_config::{
    compile_document, create_common_server_settings, create_http_outbound, create_outbound,
    create_shadowsocks_outbound, create_socks_outbound, create_trojan_outbound,
    create_vless_outbound, create_vmess_outbound, generate_xray_config, outbound_stem, ConfigError,
};
use serde_json::Value;

fn json(text: &str) -> Value {
    serde_json::from_str(text).expect("valid JSON in the test")
}

fn params(pairs: &[(&str, &str)]) -> QueryParams {
    QueryParams::from_pairs(pairs.iter().map(|(k, v)| (k.to_string(), v.to_string())).collect())
}

fn proxy(protocol: &str, username: &str, address: &str, port: u16, pairs: &[(&str, &str)]) -> ProxyConfig {
    let candidate = Candidate {
        scheme: protocol.to_owned(),
        username: username.to_owned(),
        host: Some(Host::Domain("example.com".to_owned())),
        port: Some(port),
        query: pairs.iter().map(|(k, v)| (k.to_string(), v.to_string())).collect(),
    };
    ProxyConfig::from_url(candidate, Address::new(address).expect("an address"))
}

fn plain_shortid(shortid: &str) -> String {
    let s = shortid.trim();
    let s = if s.len() % 2 == 1 { format!("0{s}") } else { s.to_owned() };
    let s = s.chars().take(16).collect::<String>();
    if s.chars().all(|c| c.is_ascii_hexdigit()) {
        s
    } else {
        "00".to_owned()
    }
}

#[test]
fn shortid_of_odd_length_is_padded() {
    assert_eq!(normalize_shortid("abc"), "0abc");
    assert_eq!(normalize_shortid("a"), "0a");
    assert_eq!(normalize_shortid("ab"), "ab");
}

#[test]
fn shortid_of_20_hex_digits_is_cut_to_16() {
    assert_eq!(normalize_shortid("0123456789abcdefABCD"), "0123456789abcdef");
    assert_eq!(normalize_shortid("0123456789abcdefABC"), "00123456789abcde");
}

#[test]
fn shortid_with_other_characters_is_replaced() {
    assert_eq!(normalize_shortid("xyz1"), "00");
    assert_eq!(normalize_shortid("12-4"), "00");
    assert_eq!(normalize_shortid("ab cd"), "00");
    assert_eq!(normalize_shortid("é1"), "00");
}

#[test]
fn shortid_is_trimmed_first() {
    assert_eq!(normalize_shortid("  abcd\t\n"), "abcd");
    assert_eq!(normalize_shortid(" abc "), "0abc");
    assert_eq!(normalize_shortid(""), "");
    assert_eq!(normalize_shortid("   "), "");
}

#[test]
fn shortid_ignores_what_lies_behind_the_cut() {
    assert_eq!(normalize_shortid("0123456789abcdefg"), "00123456789abcde");
    assert_eq!(normalize_shortid("0123456789abcdefzz"), "0123456789abcdef");
    assert_eq!(normalize_shortid("0123456789abcdef€"), "00123456789abcde");
    assert_eq!(normalize_shortid("0123456789abcdefé"), "0123456789abcdef");
}

#[test]
fn shortid_matches_a_plain_computation_on_many_inputs() {
    let samples = [
        "", " ", "0", "00", "abc", "ABCDEF", "0123456789abcdef", "0123456789abcdef0",
        "0123456789abcdef01", "g", "0g", " 12 ", "1 2", "é", "éé", "€", "€1", "1€", "😀",
        "0123456789abcde😀", "0123456789abcdef😀", "\u{a0}ab\u{3000}", "ab\u{200b}",
        "aaaaaaaaaaaaaaaaaaaaaaaaaaaaaaaaaaaaaaaaaaaaaaaaaaaaaaaaaaaaaaaaa", "6ba85179e30d4fc2",
    ];
    for text in samples {
        assert_eq!(normalize_shortid(text), plain_shortid(text), "short id {text:?}");
    }
}

#[test]
fn reality_fields_are_renamed() {
    assert_eq!(map_reality_field("sni"), "serverName");
    assert_eq!(map_reality_field("pbk"), "publicKey");
    assert_eq!(map_reality_field("sid"), "shortId");
    assert_eq!(map_reality_field("fp"), "fp");
    assert_eq!(map_reality_field("SNI"), "SNI");
    assert_eq!(map_reality_field(""), "");
}

#[test]
fn reality_settings_need_all_three_parameters() {
    assert_eq!(create_reality_settings(&params(&[("sni", "a"), ("pbk", "b")])), None);
    assert_eq!(create_reality_settings(&params(&[("sni", "a"), ("sid", "c")])), None);
    assert_eq!(create_reality_settings(&params(&[("pbk", "b"), ("sid", "c")])), None);
    assert_eq!(create_reality_settings(&params(&[])), None);
    assert_eq!(
        create_reality_settings(&params(&[("sni", "a"), ("pbk", "b"), ("sid", "c")])),
        Some(json(r#"{"serverName":"a","publicKey":"b","shortId":"0c"}"#))
    );
}

#[test]
fn reality_settings_copy_optional_parameters() {
    let settings = create_reality_settings(&params(&[
        ("sni", "a.com=trash"),
        ("pbk", "KEY=more=trash"),
        ("sid", " 6ba85179e30d4fc2ff "),
        ("fp", "chrome=x"),
        ("spx", "/path"),
        ("privateKey", "PRIV"),
        ("xver", "+2"),
        ("unrelated", "x"),
    ]));
    assert_eq!(
        settings,
        Some(json(
            r#"{"serverName":"a.com","publicKey":"KEY","shortId":"6ba85179e30d4fc2",
                "fingerprint":"chrome=x","spiderX":"/path","privateKey":"PRIV","xver":2}"#
        ))
    );
    let settings = create_reality_settings(&params(&[
        ("sni", "a"),
        ("pbk", "b"),
        ("sid", "zz"),
        ("xver", "two"),
    ]));
    assert_eq!(settings, Some(json(r#"{"serverName":"a","publicKey":"b","shortId":"00"}"#)));
}

#[test]
fn tls_settings_need_server_name() {
    assert_eq!(create_tls_settings(&params(&[("alpn", "h2"), ("fp", "chrome")])), None);
    assert_eq!(
        create_tls_settings(&params(&[("sni", "a.com")])),
        Some(json(r#"{"serverName":"a.com"}"#))
    );
    assert_eq!(
        create_tls_settings(&params(&[("sni", "a.com"), ("alpn", "h2,http/1.1,"), ("fp", "firefox")])),
        Some(json(r#"{"serverName":"a.com","alpn":["h2","http/1.1",""],"fingerprint":"firefox"}"#))
    );
    assert_eq!(
        create_tls_settings(&params(&[("sni", ""), ("alpn", "")])),
        Some(json(r#"{"serverName":"","alpn":[""]}"#))
    );
}

#[test]
fn xhttp_extra_reads_each_field_as_what_it_is() {
    let extra = create_xhttp_extra(&params(&[
        ("headers", r#"{"X-A":"1","n":[1,-2,3.5,null,true]}"#),
        ("xPaddingBytes", "100"),
        ("scMaxEachPostBytes", "1000000"),
        ("scMinPostsIntervalMs", "30"),
        ("scMaxBufferedPosts", "4294967295"),
        ("noGRPCHeader", "true"),
        ("noSSEHeader", "TRUE"),
        ("scStreamUpServerSecs", "20-80"),
    ]));
    assert_eq!(
        extra,
        json(
            r#"{"headers":{"X-A":"1","n":[1,-2,3.5,null,true]},"xPaddingBytes":100,
                "scMaxEachPostBytes":1000000,"scMinPostsIntervalMs":30,
                "scMaxBufferedPosts":4294967295,"noGRPCHeader":true,"noSSEHeader":false,
                "scStreamUpServerSecs":"20-80"}"#
        )
    );
}

#[test]
fn xhttp_extra_skips_what_does_not_read() {
    let extra = create_xhttp_extra(&params(&[
        ("headers", "{not json"),
        ("xPaddingBytes", "100-1000"),
        ("scMaxEachPostBytes", "-1"),
        ("scMinPostsIntervalMs", ""),
        ("scMaxBufferedPosts", "4294967296"),
        ("path", "/x"),
    ]));
    assert_eq!(extra, json("{}"));
    assert_eq!(create_xhttp_extra(&params(&[("headers", "7")])), json(r#"{"headers":7}"#));
}

fn transport(pairs: &[(&str, &str)]) -> Value {
    let mut all = vec![("security", "other")];
    all.extend_from_slice(pairs);
    let mut settings = create_stream_settings(&params(&all)).expect("a transport block");
    let block = settings.as_object_mut().expect("an object");
    assert_eq!(block.remove("security"), Some(json("\"other\"")));
    block.remove("network");
    settings
}

#[test]
fn network_settings_of_websocket() {
    assert_eq!(
        transport(&[("type", "ws"), ("path", "%2Fchat%3Fed%3D2048"), ("host", "h.example")]),
        json(r#"{"wsSettings":{"path":"/chat?ed=2048","headers":{"Host":"h.example"}}}"#)
    );
    assert_eq!(
        transport(&[("type", "ws"), ("path", "/%ff%41")]),
        json(r#"{"wsSettings":{"path":"/\ufffdA"}}"#)
    );
    assert_eq!(transport(&[("type", "ws"), ("host", "h.example")]), json("{}"));
}

#[test]
fn network_settings_of_grpc() {
    assert_eq!(
        transport(&[("type", "grpc"), ("serviceName", "svc"), ("path", "/x")]),
        json(r#"{"grpcSettings":{"serviceName":"svc"}}"#)
    );
    assert_eq!(transport(&[("type", "grpc"), ("path", "/x")]), json("{}"));
}

#[test]
fn network_settings_of_xhttp() {
    assert_eq!(
        transport(&[
            ("type", "xhttp"),
            ("path", "%2Fx"),
            ("host", "h"),
            ("mode", "packet-up"),
            ("noGRPCHeader", "false"),
        ]),
        json(r#"{"xhttpSettings":{"path":"/x","host":"h","mode":"packet-up","extra":{"noGRPCHeader":false}}}"#)
    );
    assert_eq!(transport(&[("type", "xhttp"), ("mode", "auto")]), json("{}"));
    assert_eq!(transport(&[("type", "xhttp")]), json("{}"));
    assert_eq!(
        transport(&[("type", "xhttp"), ("xPaddingBytes", "1")]),
        json(r#"{"xhttpSettings":{"extra":{"xPaddingBytes":1}}}"#)
    );
    assert_eq!(
        transport(&[("type", "xhttp"), ("headers", r#"{"a":[]}"#), ("mode", "")]),
        json(r#"{"xhttpSettings":{"mode":"","extra":{"headers":{"a":[]}}}}"#)
    );
}

#[test]
fn network_settings_of_other_networks_add_nothing() {
    for network in ["tcp", "kcp", "quic", "WS", ""] {
        assert_eq!(
            transport(&[("type", network), ("path", "/x"), ("serviceName", "s"), ("host", "h")]),
            json("{}"),
            "network {network:?}"
        );
    }
}

#[test]
fn stream_settings_fall_back_to_plain_tcp() {
    assert_eq!(create_stream_settings(&params(&[])), None);
    assert_eq!(create_stream_settings(&params(&[("security", "none"), ("type", "ws")])), None);
    assert_eq!(create_stream_settings(&params(&[("type", "ws"), ("path", "/")])), None);
    assert_eq!(create_stream_settings(&params(&[("security", "tls"), ("sni", "a"), ("type", "http")])), None);
    assert_eq!(create_stream_settings(&params(&[("security", "tls"), ("sni", "a"), ("type", "h2")])), None);
    assert_eq!(create_stream_settings(&params(&[("security", "tls")])), None);
    assert_eq!(create_stream_settings(&params(&[("security", "reality"), ("sni", "a"), ("sid", "c")])), None);
}

#[test]
fn stream_settings_of_reality() {
    let settings = create_stream_settings(&params(&[
        ("security", "reality"),
        ("sni", "a.com"),
        ("pbk", "KEY"),
        ("sid", "abc"),
        ("fp", "chrome"),
        ("type", "grpc"),
        ("serviceName", "svc"),
    ]));
    assert_eq!(
        settings,
        Some(json(
            r#"{"network":"grpc","security":"reality",
                "realitySettings":{"serverName":"a.com","publicKey":"KEY","shortId":"0abc","fingerprint":"chrome"},
                "grpcSettings":{"serviceName":"svc"}}"#
        ))
    );
}

#[test]
fn stream_settings_of_tls_and_of_unknown_security() {
    assert_eq!(
        create_stream_settings(&params(&[("security", "tls"), ("sni", "a.com")])),
        Some(json(r#"{"network":"tcp","security":"tls","tlsSettings":{"serverName":"a.com"}}"#))
    );
    assert_eq!(
        create_stream_settings(&params(&[("security", "xtls"), ("type", "ws"), ("path", "/p")])),
        Some(json(r#"{"network":"ws","security":"xtls","wsSettings":{"path":"/p"}}"#))
    );
}

#[test]
fn common_settings_take_known_fields() {
    let p = proxy(
        "http",
        "u",
        "1.2.3.4",
        8080,
        &[("user", "name"), ("pass", "word"), ("level", "3"), ("email", "a@b"), ("other", "x")],
    );
    assert_eq!(
        create_common_server_settings(&p, &[]),
        json(r#"{"address":"1.2.3.4","port":8080,"user":"name","pass":"word","level":3,"email":"a@b"}"#)
    );
    assert_eq!(
        create_common_server_settings(&p, &["other", "user", "missing"]),
        json(r#"{"address":"1.2.3.4","port":8080,"user":"name","pass":"word","level":3,"email":"a@b","other":"x"}"#)
    );
    let p = proxy("http", "u", "::1", 1, &[("level", "high")]);
    assert_eq!(create_common_server_settings(&p, &[]), json(r#"{"address":"::1","port":1,"level":0}"#));
    assert_eq!(
        create_common_server_settings(&p, &["level"]),
        json(r#"{"address":"::1","port":1,"level":0}"#)
    );
}

#[test]
fn outbound_of_http_and_socks() {
    let p = proxy("https", "ignored", "1.2.3.4", 3128, &[("user", "n"), ("pass", "w")]);
    assert_eq!(
        create_http_outbound(&p, 7),
        json(r#"{"protocol":"http","settings":{"address":"1.2.3.4","port":3128,"user":"n","pass":"w"},"tag":"http-out-7"}"#)
    );
    assert_eq!(
        create_socks_outbound(&p, 12),
        json(r#"{"protocol":"socks","settings":{"address":"1.2.3.4","port":3128,"user":"n","pass":"w"},"tag":"socks-out-12"}"#)
    );
}

#[test]
fn outbound_of_shadowsocks() {
    let p = proxy("shadowsocks", "Secret", "1.2.3.4", 8388, &[]);
    assert_eq!(
        create_shadowsocks_outbound(&p, 0),
        json(r#"{"protocol":"shadowsocks","settings":{"address":"1.2.3.4","port":8388,"method":"aes-256-gcm","password":"secret"},"tag":"ss-out-0"}"#)
    );
    let p = proxy(
        "shadowsocks",
        "pw",
        "1.2.3.4",
        8388,
        &[("method", "chacha20-ietf-poly1305"), ("uot", "true"), ("UoTVersion", "2")],
    );
    assert_eq!(
        create_shadowsocks_outbound(&p, 1),
        json(r#"{"protocol":"shadowsocks","settings":{"address":"1.2.3.4","port":8388,"method":"chacha20-ietf-poly1305","password":"pw","uot":true,"UoTVersion":2},"tag":"ss-out-1"}"#)
    );
    let p = proxy("shadowsocks", "pw", "1.2.3.4", 8388, &[("uot", "yes"), ("UoTVersion", "v2")]);
    assert_eq!(
        create_shadowsocks_outbound(&p, 1),
        json(r#"{"protocol":"shadowsocks","settings":{"address":"1.2.3.4","port":8388,"method":"aes-256-gcm","password":"pw","uot":false},"tag":"ss-out-1"}"#)
    );
}

#[test]
fn outbound_of_trojan_with_tls() {
    let p = proxy("trojan", "pw", "1.2.3.4", 443, &[("security", "tls"), ("sni", "a.com"), ("type", "ws"), ("path", "/t")]);
    assert_eq!(
        create_trojan_outbound(&p, 2),
        json(
            r#"{"protocol":"trojan","settings":{"address":"1.2.3.4","port":443,"password":"pw"},"tag":"trojan-out-2",
                "streamSettings":{"network":"ws","security":"tls","tlsSettings":{"serverName":"a.com"},"wsSettings":{"path":"/t"}}}"#
        )
    );
}

#[test]
fn trojan_with_reality_but_without_public_key_is_plain_tcp() {
    let p = proxy("trojan", "pw", "1.2.3.4", 443, &[("security", "reality"), ("sni", "a.com"), ("sid", "ab"), ("fp", "chrome")]);
    let outbound = create_trojan_outbound(&p, 0);
    assert_eq!(
        outbound,
        json(r#"{"protocol":"trojan","settings":{"address":"1.2.3.4","port":443,"password":"pw"},"tag":"trojan-out-0"}"#)
    );
    assert!(outbound.get("streamSettings").is_none());
    assert_eq!(create_stream_settings(&p.query_params), None);
}

#[test]
fn translator_prints_trojan_without_public_key_as_plain_tcp() {
    let chunk = vec![proxy("trojan", "pw", "1.2.3.4", 443, &[("security", "reality"), ("sni", "a.com"), ("sid", "ab")])];
    let text = generate_xray_config(&chunk, 10808).expect("a document");
    let document = json(&text);
    let outbound = &document["outbounds"][0];
    assert_eq!(outbound["protocol"], json("\"trojan\""));
    assert_eq!(outbound["settings"]["password"], json("\"pw\""));
    assert!(outbound.get("streamSettings").is_none());
    assert!(!text.contains("realitySettings"));
    assert_eq!(document["outbounds"].as_array().map(Vec::len), Some(2));
}

#[test]
fn translator_succeeds_on_every_supported_chunk() {
    let protocols = ["http", "https", "socks", "socks5", "shadowsocks", "trojan", "vless", "vmess"];
    let chunk: Vec<ProxyConfig> = protocols
        .iter()
        .map(|protocol| {
            proxy(
                protocol,
                "u\"\\\n\u{1}é",
                "::1",
                65535,
                &[("security", "tls"), ("sni", "\u{0}\"\\"), ("type", "xhttp"), ("headers", "[1e308,-0.0,{}]")],
            )
        })
        .collect();
    let text = generate_xray_config(&chunk, usize::MAX - chunk.len()).expect("a document");
    let document = json(&text);
    assert_eq!(Ok(document.clone()), compile_document(&chunk, usize::MAX - chunk.len()));
    assert_eq!(document["inbounds"].as_array().map(Vec::len), Some(protocols.len()));
    assert_eq!(document["outbounds"].as_array().map(Vec::len), Some(protocols.len() + 1));
}

#[test]
fn outbound_of_vless() {
    let p = proxy(
        "vless",
        "UUID",
        "1.2.3.4",
        443,
        &[("security", "reality"), ("sni", "a"), ("pbk", "b"), ("sid", "c"), ("flow", "xtls-rprx-vision"), ("encryption", "zero")],
    );
    assert_eq!(
        create_vless_outbound(&p, 3),
        json(
            r#"{"protocol":"vless","settings":{"address":"1.2.3.4","port":443,"id":"uuid","encryption":"none","flow":"xtls-rprx-vision"},
                "tag":"vless-out-3",
                "streamSettings":{"network":"tcp","security":"reality","realitySettings":{"serverName":"a","publicKey":"b","shortId":"0c"}}}"#
        )
    );
    let p = proxy("vless", "u", "1.2.3.4", 443, &[]);
    assert_eq!(
        create_vless_outbound(&p, 0),
        json(r#"{"protocol":"vless","settings":{"address":"1.2.3.4","port":443,"id":"u","encryption":"none"},"tag":"vless-out-0"}"#)
    );
}

#[test]
fn outbound_of_vmess() {
    let p = proxy("vmess", "ID", "1.2.3.4", 10086, &[]);
    assert_eq!(
        create_vmess_outbound(&p, 4),
        json(r#"{"protocol":"vmess","settings":{"vnext":[{"address":"1.2.3.4","port":10086,"users":[{"id":"id","security":"auto","level":0}]}]},"tag":"vmess-out-4"}"#)
    );
    let p = proxy("vmess", "id", "1.2.3.4", 10086, &[("security", "tls"), ("sni", "s"), ("level", "-3")]);
    assert_eq!(
        create_vmess_outbound(&p, 4),
        json(
            r#"{"protocol":"vmess","settings":{"vnext":[{"address":"1.2.3.4","port":10086,"users":[{"id":"id","security":"tls","level":-3}]}]},"tag":"vmess-out-4",
                "streamSettings":{"network":"tcp","security":"tls","tlsSettings":{"serverName":"s"}}}"#
        )
    );
    let p = proxy("vmess", "id", "1.2.3.4", 1, &[("level", "2147483648")]);
    assert_eq!(create_vmess_outbound(&p, 0)["settings"]["vnext"][0]["users"][0]["level"], json("0"));
}

#[test]
fn outbound_is_chosen_by_protocol() {
    for (protocol, expected) in [
        ("http", "http"),
        ("https", "http"),
        ("socks", "socks"),
        ("socks5", "socks"),
        ("shadowsocks", "shadowsocks"),
        ("trojan", "trojan"),
        ("vless", "vless"),
        ("vmess", "vmess"),
    ] {
        let outbound = create_outbound(&proxy(protocol, "u", "1.2.3.4", 1, &[]), 5).expect(protocol);
        assert_eq!(outbound["protocol"], json(&format!("{expected:?}")), "{protocol}");
        let stem = outbound_stem(protocol).expect(protocol);
        assert_eq!(outbound["tag"], json(&format!("\"{stem}5\"")), "{protocol}");
    }
    for protocol in ["wireguard", "", "hysteria2", "vles", "vlesss", "ss", "socks4", "tls"] {
        let refused = create_outbound(&proxy(protocol, "u", "1.2.3.4", 1, &[]), 5);
        assert_eq!(refused, Err(ConfigError::UnsupportedProtocol(protocol.to_owned())));
        assert_eq!(outbound_stem(protocol), None);
    }
}

#[test]
fn errors_are_put_in_words() {
    assert_eq!(
        ConfigError::UnsupportedProtocol("wireguard".to_owned()).message(),
        "Unsupported protocol: wireguard"
    );
    assert_eq!(ConfigError::Serialization.message(), "Failed to serialize Xray config");
}

#[test]
fn document_of_an_empty_chunk_has_only_the_direct_outbound() {
    let expected = json(
        r#"{"log":{"loglevel":"error"},"inbounds":[],"outbounds":[{"protocol":"freedom","tag":"direct"}],
            "routing":{"domainStrategy":"IPIfNonMatch","rules":[]}}"#,
    );
    assert_eq!(compile_document(&[], 10808), Ok(expected.clone()));
    let text = generate_xray_config(&[], 10808).unwrap();
    assert_eq!(text, serde_json::to_string_pretty(&expected).unwrap());
}

#[test]
fn document_of_a_chunk() {
    let chunk = vec![
        proxy("vless", "u1", "1.2.3.4", 443, &[("security", "reality"), ("sni", "a"), ("pbk", "b"), ("sid", "c")]),
        proxy("https", "u2", "5.6.7.8", 3128, &[("user", "n")]),
        proxy("shadowsocks", "pw", "2001:db8::1", 8388, &[]),
    ];
    let expected = json(
        r#"{
          "log": {"loglevel": "error"},
          "inbounds": [
            {"listen": "127.0.0.1", "port": 20000, "protocol": "socks", "settings": {"auth": "noauth", "udp": true}, "tag": "socks-in-0"},
            {"listen": "127.0.0.1", "port": 20001, "protocol": "socks", "settings": {"auth": "noauth", "udp": true}, "tag": "socks-in-1"},
            {"listen": "127.0.0.1", "port": 20002, "protocol": "socks", "settings": {"auth": "noauth", "udp": true}, "tag": "socks-in-2"}
          ],
          "outbounds": [
            {"protocol": "vless",
             "settings": {"address": "1.2.3.4", "port": 443, "id": "u1", "encryption": "none"},
             "tag": "vless-out-0",
             "streamSettings": {"network": "tcp", "security": "reality",
                                "realitySettings": {"serverName": "a", "publicKey": "b", "shortId": "0c"}}},
            {"protocol": "http", "settings": {"address": "5.6.7.8", "port": 3128, "user": "n"}, "tag": "http-out-1"},
            {"protocol": "shadowsocks",
             "settings": {"address": "2001:db8::1", "port": 8388, "method": "aes-256-gcm", "password": "pw"},
             "tag": "ss-out-2"},
            {"protocol": "freedom", "tag": "direct"}
          ],
          "routing": {
            "domainStrategy": "IPIfNonMatch",
            "rules": [
              {"type": "field", "inboundTag": ["socks-in-0"], "outboundTag": "vless-out-0"},
              {"type": "field", "inboundTag": ["socks-in-1"], "outboundTag": "http-out-1"},
              {"type": "field", "inboundTag": ["socks-in-2"], "outboundTag": "ss-out-2"}
            ]
          }
        }"#,
    );
    assert_eq!(compile_document(&chunk, 20000), Ok(expected.clone()));
    let text = generate_xray_config(&chunk, 20000).unwrap();
    assert_eq!(json(&text), expected);
    assert_eq!(text, serde_json::to_string_pretty(&expected).unwrap());
    assert!(text.starts_with("{\n  \"inbounds\": [\n    {\n      \"listen\": \"127.0.0.1\",\n      \"port\": 20000,"));
}

#[test]
fn every_rule_names_the_tag_of_its_outbound() {
    let chunk: Vec<ProxyConfig> = ["http", "https", "socks", "socks5", "shadowsocks", "trojan", "vless", "vmess"]
        .iter()
        .map(|protocol| proxy(protocol, "u", "1.2.3.4", 1, &[]))
        .collect();
    let document = compile_document(&chunk, 1000).unwrap();
    for i in 0..chunk.len() {
        assert_eq!(document["routing"]["rules"][i]["outboundTag"], document["outbounds"][i]["tag"]);
        assert_eq!(document["routing"]["rules"][i]["inboundTag"][0], document["inbounds"][i]["tag"]);
        assert_eq!(document["inbounds"][i]["port"], json(&format!("{}", 1000 + i)));
    }
}

#[test]
fn one_unsupported_protocol_fails_the_whole_chunk() {
    let chunk = vec![
        proxy("vless", "u1", "1.2.3.4", 443, &[]),
        proxy("wireguard", "u2", "5.6.7.8", 51820, &[]),
        proxy("trojan", "u3", "9.9.9.9", 443, &[]),
    ];
    let refused = ConfigError::UnsupportedProtocol("wireguard".to_owned());
    assert_eq!(generate_xray_config(&chunk, 10808), Err(refused.clone()));
    assert_eq!(compile_document(&chunk, 10808), Err(refused));
    assert!(generate_xray_config(&chunk[..1], 10808).is_ok());
    assert!(generate_xray_config(&chunk[2..], 10808).is_ok());
}

#[test]
fn the_short_tag_of_shadowsocks_is_not_supported() {
    let chunk = vec![proxy("shadowsocks", "pw", "1.2.3.4", 8388, &[]), proxy("ss", "pw", "1.2.3.4", 8388, &[])];
    assert_eq!(generate_xray_config(&chunk, 1), Err(ConfigError::UnsupportedProtocol("ss".to_owned())));
    assert!(generate_xray_config(&chunk[..1], 1).is_ok());
}

#[test]
fn the_first_unsupported_protocol_is_named() {
    let chunk = vec![
        proxy("hysteria", "u", "1.2.3.4", 1, &[]),
        proxy("wireguard", "u", "1.2.3.4", 1, &[]),
    ];
    assert_eq!(
        generate_xray_config(&chunk, 1),
        Err(ConfigError::UnsupportedProtocol("hysteria".to_owned()))
    );
}
