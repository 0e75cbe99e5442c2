use novaprox::params::QueryParams;

fn pair(key: &str, value: &str) -> (String, String) {
    (key.to_owned(), value.to_owned())
}

#[test]
fn new_params_are_empty() {
    let params = QueryParams::new();
    assert!(params.is_empty());
    assert_eq!(params.len(), 0);
    assert_eq!(params.get("sni"), None);
}

#[test]
fn insert_returns_previous_value_and_keeps_place() {
    let mut params = QueryParams::new();
    assert_eq!(params.insert("b".to_owned(), "1".to_owned()), None);
    assert_eq!(params.insert("a".to_owned(), "2".to_owned()), None);
    assert_eq!(params.insert("b".to_owned(), "3".to_owned()), Some("1".to_owned()));
    assert_eq!(params.len(), 2);
    assert_eq!(params.as_pairs(), &vec![pair("b", "3"), pair("a", "2")]);
    assert_eq!(params.get("b"), Some(&"3".to_owned()));
    assert_eq!(params.get("a"), Some(&"2".to_owned()));
    assert_eq!(params.get("c"), None);
}

#[test]
fn from_pairs_keeps_first_place_and_last_value() {
    let params = QueryParams::from_pairs(vec![
        pair("type", "ws"),
        pair("sni", "one"),
        pair("type", "grpc"),
        pair("path", "/"),
        pair("sni", "two"),
    ]);
    assert_eq!(
        params.as_pairs(),
        &vec![pair("type", "grpc"), pair("sni", "two"), pair("path", "/")]
    );
    assert!(!params.is_empty());
}

#[test]
fn clone_of_params_is_equal() {
    let params = QueryParams::from_pairs(vec![pair("a", "1"), pair("b", "2")]);
    let copy = params.clone();
    assert_eq!(copy, params);
    assert_eq!(copy.as_pairs(), params.as_pairs());
}

#[test]
fn keys_are_case_sensitive() {
    let params = QueryParams::from_pairs(vec![pair("SNI", "x")]);
    assert_eq!(params.get("sni"), None);
    assert_eq!(params.get("SNI"), Some(&"x".to_owned()));
}
