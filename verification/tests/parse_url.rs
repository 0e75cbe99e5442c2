use base64::Engine;
use novaprox::candidate::{Address, Candidate, Host};
use novaprox::parse_url::{
    normalize_query, parse_param_filters, parse_proxy_url, parse_vmess_url, passes_filters,
    remove_all, single_names, vmess_target,
};

fn owned(pairs: &[(&str, &str)]) -> Vec<(String, String)> {
    pairs.iter().map(|(k, v)| (k.to_string(), v.to_string())).collect()
}

fn vmess_line(payload: &str) -> String {
    format!("vmess://{}", base64::engine::general_purpose::STANDARD.encode(payload))
}

#[test]
fn param_filters_are_split_at_commas_and_first_equals() {
    assert_eq!(parse_param_filters("security=reality"), vec![("security", "reality")]);
    assert_eq!(
        parse_param_filters("a=1,b,c=2=3,=x,y="),
        vec![("a", "1"), ("c", "2=3"), ("", "x"), ("y", "")]
    );
    assert_eq!(parse_param_filters(""), Vec::<(&str, &str)>::new());
    assert_eq!(parse_param_filters("novalue"), Vec::<(&str, &str)>::new());
}

#[test]
fn param_filters_match_the_iterator_chain_of_std() {
    for text in ["security=reality,type=grpc", ",,a=b,,", "k=é,€=v", "=", "a=b=c,d"] {
        let expected: Vec<(&str, &str)> =
            text.split(',').filter_map(|param| param.split_once('=')).collect();
        assert_eq!(parse_param_filters(text), expected, "parsing {text:?}");
    }
}

#[test]
fn remove_all_matches_std_replace() {
    for text in ["a&amp;b", "amp;amp;", "aamp;mp;", "ampamp;;", "", "amp", "x=1&amp;y=2&amp;z"] {
        assert_eq!(remove_all(text, "amp;"), text.replace("amp;", ""), "cleaning {text:?}");
    }
    assert_eq!(remove_all("abc", ""), "abc");
    assert_eq!(remove_all("aaa", "aa"), "a");
}

#[test]
fn filters_need_exact_pairs() {
    let query = owned(&[("security", "reality"), ("type", "grpc"), ("sni", "a")]);
    assert!(passes_filters(&query, &[]));
    assert!(passes_filters(&query, &[("security", "reality")]));
    assert!(passes_filters(&query, &[("type", "grpc"), ("security", "reality")]));
    assert!(!passes_filters(&query, &[("security", "tls")]));
    assert!(!passes_filters(&query, &[("security", "reality"), ("fp", "chrome")]));
    assert!(!passes_filters(&query, &[("security", "realit")]));
    assert!(!passes_filters(&[].to_vec(), &[("security", "reality")]));
}

#[test]
fn normalize_query_strips_defaults_and_cuts_values() {
    let query = owned(&[
        ("security", "reality"),
        ("note", "ad"),
        ("encryption", "none"),
        ("type", "tcp"),
        ("pbk", "KEY=junk=more"),
        ("type", "grpc"),
        ("headerType", "none"),
        ("fp", "chrome"),
        ("sid", "=x"),
    ]);
    assert_eq!(
        normalize_query(&query, &["note", "fp"]),
        owned(&[("security", "reality"), ("pbk", "KEY"), ("type", "grpc"), ("sid", "")])
    );
    assert_eq!(normalize_query(&Vec::new(), &["note"]), Vec::new());
}

#[test]
fn normalize_query_keeps_tcp_under_other_names() {
    let query = owned(&[("network", "tcp"), ("type", "tcpx"), ("type", "tcp")]);
    assert_eq!(normalize_query(&query, &[]), owned(&[("network", "tcp"), ("type", "tcpx")]));
}

#[test]
fn generic_url_is_gated_and_normalized() {
    let line = "vless://UUID-1@example.com:443?security=reality&amp;sni=a.com&type=tcp&encryption=none&fp=chrome&pbk=KEY=junk&note=ad#label";
    let candidate = parse_proxy_url(line, "vless", &[("security", "reality")], &["note", "fp"]);
    assert_eq!(
        candidate,
        Some(Candidate {
            scheme: "vless".to_owned(),
            username: "UUID-1".to_owned(),
            host: Some(Host::Domain("example.com".to_owned())),
            port: Some(443),
            query: owned(&[("security", "reality"), ("sni", "a.com"), ("pbk", "KEY")]),
        })
    );
}

#[test]
fn query_of_a_candidate_is_joined_with_ampersands() {
    let line = "vless://u@example.com:443?security=reality&type=tcp&sni=a.com&pbk=K=x";
    let candidate = parse_proxy_url(line, "vless", &[], &[]).unwrap();
    assert_eq!(candidate.query_string(), "security=reality&sni=a.com&pbk=K");
    let bare = parse_proxy_url("vless://u@example.com:443", "vless", &[], &[]).unwrap();
    assert_eq!(bare.query_string(), "");
}

#[test]
fn repeated_parameter_keeps_first_place_and_last_value() {
    let line = "vless://u@example.com:443?type=ws&sni=a&type=grpc&sni=none&fp=x&type=tcp";
    let candidate = parse_proxy_url(line, "vless", &[("type", "ws")], &["fp"]).unwrap();
    assert_eq!(candidate.query, owned(&[("type", "grpc"), ("sni", "a")]));
    assert_eq!(
        single_names(owned(&[("a", "1"), ("b", "2"), ("a", "3"), ("c", "4"), ("b", "5")])),
        owned(&[("a", "3"), ("b", "5"), ("c", "4")])
    );
    assert_eq!(single_names(Vec::new()), Vec::new());
}

#[test]
fn generic_url_decodes_query_pairs() {
    let line = "trojan://pw@host.example:8443?path=%2Fws%3Fx&host=a+b";
    let candidate = parse_proxy_url(line, "trojan", &[], &[]).unwrap();
    assert_eq!(candidate.query, owned(&[("path", "/ws?x"), ("host", "a b")]));
    assert_eq!(candidate.username, "pw");
    assert_eq!(candidate.port, Some(8443));
}

#[test]
fn generic_url_with_other_scheme_is_no_candidate() {
    let line = "trojan://pw@example.com:443?security=reality";
    assert_eq!(parse_proxy_url(line, "vless", &[("security", "reality")], &[]), None);
}

#[test]
fn generic_url_without_required_parameter_is_no_candidate() {
    let line = "vless://u@example.com:443?security=tls&sni=a";
    assert_eq!(parse_proxy_url(line, "vless", &[("security", "reality")], &[]), None);
    let line = "vless://u@example.com:443";
    assert_eq!(parse_proxy_url(line, "vless", &[("security", "reality")], &[]), None);
    assert!(parse_proxy_url(line, "vless", &[], &[]).is_some());
}

#[test]
fn text_that_is_no_url_is_no_candidate() {
    assert_eq!(parse_proxy_url("not a url", "vless", &[], &[]), None);
    assert_eq!(parse_proxy_url("", "vless", &[], &[]), None);
    assert_eq!(parse_proxy_url("//example.com", "vless", &[], &[]), None);
}

#[test]
fn url_without_host_is_a_candidate_without_host() {
    let candidate = parse_proxy_url("vless://", "vless", &[], &[]).unwrap();
    assert_eq!(candidate.host, None);
    assert_eq!(candidate.username, "");
}

#[test]
fn literal_hosts_are_told_from_names() {
    let v6 = parse_proxy_url("vless://u@[2001:DB8::1]:443", "vless", &[], &[]).unwrap();
    assert_eq!(v6.host, Some(Host::Literal(Address::new("2001:db8::1").unwrap())));
    let v4 = parse_proxy_url("http://u@192.168.0.1:8080", "http", &[], &[]).unwrap();
    assert_eq!(v4.host, Some(Host::Literal(Address::new("192.168.0.1").unwrap())));
    let opaque = parse_proxy_url("vless://u@192.168.0.1:443", "vless", &[], &[]).unwrap();
    assert_eq!(opaque.host, Some(Host::Domain("192.168.0.1".to_owned())));
}

#[test]
fn port_is_optional() {
    let candidate = parse_proxy_url("vless://u@example.com", "vless", &[], &[]).unwrap();
    assert_eq!(candidate.port, None);
    let default = parse_proxy_url("https://u@example.com:443", "https", &[], &[]).unwrap();
    assert_eq!(default.port, None);
}

#[test]
fn vmess_payload_becomes_candidate() {
    let line = vmess_line(r#"{"add":"server.example","port":10086,"id":"ABC-def","aid":0}"#);
    let expected = Candidate {
        scheme: "vmess".to_owned(),
        username: "ABC-def".to_owned(),
        host: Some(Host::Domain("server.example".to_owned())),
        port: Some(10086),
        query: Vec::new(),
    };
    assert_eq!(parse_proxy_url(&line, "vmess", &[("security", "reality")], &[]), Some(expected.clone()));
    assert_eq!(parse_vmess_url(&line), Some(expected));
}

#[test]
fn vmess_payload_is_cleaned_of_entity_artifacts_first() {
    let line = vmess_line(r#"{"add":"h.example","port":1,"id":"x"}"#);
    let dirty = format!("vmeamp;ss://amp;{}", &line["vmess://".len()..]);
    let candidate = parse_proxy_url(&dirty, "vmess", &[], &[]).unwrap();
    assert_eq!(candidate.username, "x");
    assert_eq!(candidate.port, Some(1));
}

#[test]
fn vmess_port_wraps_at_16_bits() {
    let line = vmess_line(r#"{"add":"h.example","port":70000,"id":"x"}"#);
    assert_eq!(parse_vmess_url(&line).unwrap().port, Some(4464));
    let line = vmess_line(r#"{"add":"h.example","port":65536,"id":"x"}"#);
    assert_eq!(parse_vmess_url(&line).unwrap().port, Some(0));
}

#[test]
fn vmess_with_wrong_fields_is_no_candidate() {
    for payload in [
        r#"{"add":"h.example","port":"443","id":"x"}"#,
        r#"{"add":"h.example","port":-1,"id":"x"}"#,
        r#"{"add":"h.example","port":1.5,"id":"x"}"#,
        r#"{"add":7,"port":443,"id":"x"}"#,
        r#"{"port":443,"id":"x"}"#,
        r#"{"add":"h.example","port":443}"#,
        r#"["add","port","id"]"#,
        r#"not json"#,
        "",
    ] {
        assert_eq!(parse_vmess_url(&vmess_line(payload)), None, "payload {payload:?}");
    }
}

#[test]
fn vmess_with_broken_encoding_is_no_candidate() {
    assert_eq!(parse_vmess_url("vmess://@@@not-base64@@@"), None);
    assert_eq!(parse_vmess_url("vmess://eyJhZGQiOiJoIn0"), None);
    let not_utf8 = base64::engine::general_purpose::STANDARD.encode([0xff, 0xfe, 0x7b]);
    assert_eq!(parse_vmess_url(&format!("vmess://{not_utf8}")), None);
    assert_eq!(parse_vmess_url("vless://abc"), None);
    assert_eq!(parse_vmess_url(""), None);
}

#[test]
fn vmess_line_is_a_plain_url_for_another_target() {
    let line = vmess_line(r#"{"add":"h.example","port":443,"id":"x"}"#);
    assert_eq!(parse_proxy_url(&line, "vless", &[], &[]), None);
}

#[test]
fn vmess_target_reads_address_port_and_id() {
    let doc: serde_json::Value =
        serde_json::from_str(r#"{"add":"1.2.3.4","port":443,"id":"user"}"#).unwrap();
    assert_eq!(vmess_target(&doc), Some("vmess://user@1.2.3.4:443".to_owned()));
    let doc: serde_json::Value = serde_json::from_str(r#"{"add":"1.2.3.4","id":"user"}"#).unwrap();
    assert_eq!(vmess_target(&doc), None);
    let doc: serde_json::Value =
        serde_json::from_str(r#"{"add":"a","port":18446744073709551615,"id":"i"}"#).unwrap();
    assert_eq!(vmess_target(&doc), Some("vmess://i@a:65535".to_owned()));
}
