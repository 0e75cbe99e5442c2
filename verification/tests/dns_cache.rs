use novaprox::candidate::Address;
use novaprox::dns_cache::DnsCache;

fn addr(text: &str) -> Address {
    Address::new(text).expect("an address")
}

/// Stands for the resolver of the caller: reads dotted quads, and the few
/// other addresses that these tests write out.
fn read_address(text: &str) -> Option<Address> {
    let quad: Vec<&str> = text.split('.').collect();
    let dotted = quad.len() == 4 && quad.iter().all(|part| part.parse::<u8>().is_ok());
    let known = ["::1", "2001:db8::1", "2001:db8::2", "::ffff:10.0.0.3"].contains(&text);
    if dotted || known {
        Address::new(text)
    } else {
        None
    }
}

fn lines_of(content: &str) -> Vec<&str> {
    let mut lines: Vec<&str> = content.lines().collect();
    lines.sort();
    lines
}

fn reload(content: &str, file: &str) -> DnsCache {
    let mut cache = DnsCache::new(file);
    let entries = DnsCache::read_entries(content)
        .into_iter()
        .map(|(domain, text)| (domain, read_address(&text)))
        .collect();
    cache.load_cache(entries);
    cache
}

#[test]
fn new_cache_is_empty_and_keeps_its_file() {
    let mut cache = DnsCache::new("cache.txt");
    assert_eq!(cache.cache_file(), "cache.txt");
    assert_eq!(cache.get("example.com"), None);
    assert_eq!(cache.save(), "");
    assert_eq!(DnsCache::default().cache_file(), "resolved.txt");
}

#[test]
fn insert_returns_previous_address() {
    let mut cache = DnsCache::new("cache.txt");
    assert_eq!(cache.insert("a.example".to_owned(), addr("1.1.1.1")), None);
    assert_eq!(cache.insert("a.example".to_owned(), addr("2.2.2.2")), Some(addr("1.1.1.1")));
    assert_eq!(cache.get("a.example"), Some(addr("2.2.2.2")));
    assert_eq!(cache.get("A.example"), None);
    assert_eq!(cache.save(), "a.example 2.2.2.2");
}

#[test]
fn read_entries_takes_the_first_two_words_of_each_line() {
    let content = "a.example 1.1.1.1\n\n  b.example\t2001:db8::1  trailing words\r\nlonely\n   \nc.example not-an-address\n";
    let entries = DnsCache::read_entries(content);
    let expected: Vec<(String, String)> = [
        ("a.example", "1.1.1.1"),
        ("b.example", "2001:db8::1"),
        ("c.example", "not-an-address"),
    ]
    .iter()
    .map(|(d, a)| (d.to_string(), a.to_string()))
    .collect();
    assert_eq!(entries, expected);
    assert_eq!(DnsCache::read_entries(""), Vec::new());
}

#[test]
fn read_entries_matches_lines_and_split_whitespace_of_std() {
    for content in [
        "a 1\nb 2",
        "a 1\r\nb 2\r\n",
        "\n\na 1\n",
        "a\u{a0}1\u{2003}x\nb",
        "one two three\nfour\n five  six ",
        "\r",
        "a 1\rb 2",
    ] {
        let expected: Vec<(String, String)> = content
            .lines()
            .filter_map(|line| {
                let mut parts = line.split_whitespace();
                let domain = parts.next()?;
                let address = parts.next()?;
                Some((domain.to_owned(), address.to_owned()))
            })
            .collect();
        assert_eq!(DnsCache::read_entries(content), expected, "reading {content:?}");
    }
}

#[test]
fn loaded_entries_start_unused_and_are_dropped_unless_asked_for() {
    let mut cache = reload("kept.example 1.1.1.1\ndropped.example 2.2.2.2\nagain.example 3.3.3.3", "c");
    assert_eq!(cache.save(), "");
    assert_eq!(cache.get("kept.example"), Some(addr("1.1.1.1")));
    assert_eq!(cache.insert("again.example".to_owned(), addr("4.4.4.4")), Some(addr("3.3.3.3")));
    assert_eq!(cache.insert("fresh.example".to_owned(), addr("5.5.5.5")), None);
    let content = cache.save();
    assert_eq!(
        lines_of(&content),
        vec!["again.example 4.4.4.4", "fresh.example 5.5.5.5", "kept.example 1.1.1.1"]
    );
}

#[test]
fn load_replaces_what_the_cache_held() {
    let mut cache = DnsCache::new("c");
    cache.insert("old.example".to_owned(), addr("9.9.9.9"));
    let mapping = cache.load_cache(vec![
        ("a.example".to_owned(), Some(addr("1.1.1.1"))),
        ("skipped.example".to_owned(), None),
        ("b.example".to_owned(), Some(addr("2.2.2.2"))),
        ("a.example".to_owned(), Some(addr("3.3.3.3"))),
        ("b.example".to_owned(), None),
    ]);
    assert_eq!(mapping.len(), 2);
    assert_eq!(mapping.get("a.example"), Some(&(addr("3.3.3.3"), false)));
    assert_eq!(mapping.get("b.example"), Some(&(addr("2.2.2.2"), false)));
    assert_eq!(cache.cache_file(), "c");
    assert_eq!(cache.get("old.example"), None);
    assert_eq!(cache.get("skipped.example"), None);
    assert_eq!(cache.get("a.example"), Some(addr("3.3.3.3")));
    assert_eq!(cache.save(), "a.example 3.3.3.3");
}

#[test]
fn round_trip_keeps_what_the_run_used() {
    let mut cache = DnsCache::new("resolved.txt");
    let pairs = [
        ("one.example", "1.2.3.4"),
        ("two.example", "2001:db8::2"),
        ("three.example", "::ffff:10.0.0.3"),
        ("four.example", "255.255.255.255"),
    ];
    for (domain, address) in pairs {
        assert_eq!(cache.insert(domain.to_owned(), addr(address)), None);
    }
    let saved = cache.save();
    assert_eq!(saved.lines().count(), pairs.len());

    let mut fresh = reload(&saved, "resolved.txt");
    for (domain, address) in pairs {
        assert_eq!(fresh.get(domain), Some(addr(address)), "{domain}");
    }
    assert_eq!(fresh.get("five.example"), None);

    let mut second = reload(&saved, "resolved.txt");
    assert_eq!(second.get("two.example"), Some(addr("2001:db8::2")));
    let pruned = second.save();
    assert_eq!(pruned, "two.example 2001:db8::2");
    let mut third = reload(&pruned, "resolved.txt");
    assert_eq!(third.get("one.example"), None);
    assert_eq!(third.get("two.example"), Some(addr("2001:db8::2")));
}

#[test]
fn entries_whose_text_is_no_address_are_skipped() {
    let mut cache = reload("a.example 1.1.1.1\nb.example 1.2.3\nc.example ::1\nd.example dead:beef\ne.example 256.1.1.1", "c");
    assert_eq!(cache.get("a.example"), Some(addr("1.1.1.1")));
    assert_eq!(cache.get("b.example"), None);
    assert_eq!(cache.get("c.example"), Some(addr("::1")));
    assert_eq!(cache.get("d.example"), None);
    assert_eq!(cache.get("e.example"), None);
}

#[test]
fn get_marks_entry_used_once_and_for_all() {
    let mut cache = reload("a.example 1.1.1.1", "c");
    assert_eq!(cache.get("a.example"), Some(addr("1.1.1.1")));
    assert_eq!(cache.get("a.example"), Some(addr("1.1.1.1")));
    assert_eq!(cache.get("b.example"), None);
    assert_eq!(cache.save(), "a.example 1.1.1.1");
}
