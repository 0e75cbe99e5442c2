//! The parser of endpoint descriptors: one line of raw text in, one candidate
//! out, or none.

use crate::candidate::{split_url, url_parts, Candidate, Parts};
use crate::codec::{base64_decode, base64_decoded, utf8_text};
use crate::json::{json_as_text, json_as_u64, json_member, json_of, json_parse, json_parsed, Json};
use crate::params::{collected, distinct_keys, Pairs, QueryParams};
use crate::text::{
    chars_of, clone_pairs, decimal, find_char, first_index, lemma_first_index,
    lemma_first_index_skip,
    lemma_text_pairs_push, push_decimal, push_text, same_text, slice_text, split, text_of,
    text_pairs,
};
use crate::transport::before_equals;
use serde_json::Value;
use vstd::prelude::*;
use vstd::utf8::{decode_utf8, valid_utf8};

verus! {

/// Whether `s` begins with `prefix`.
pub open spec fn starts_with(s: Seq<char>, prefix: Seq<char>) -> bool {
    s.len() >= prefix.len() && s.take(prefix.len() as int) == prefix
}

/// `s` without the occurrences of `pattern`, found from the left and not
/// overlapping. An empty pattern occurs nowhere.
pub open spec fn without(s: Seq<char>, pattern: Seq<char>) -> Seq<char>
    decreases s.len(),
{
    if pattern.len() == 0 || s.len() == 0 {
        s
    } else if starts_with(s, pattern) {
        without(s.skip(pattern.len() as int), pattern)
    } else {
        seq![s[0]] + without(s.skip(1), pattern)
    }
}

/// The two sides of the first `sep` in `s`, where there is one.
pub open spec fn split_once(s: Seq<char>, sep: char) -> Option<(Seq<char>, Seq<char>)> {
    let at = first_index(s, sep, 0);
    if 0 <= at < s.len() {
        Some((s.take(at), s.skip(at + 1)))
    } else {
        None
    }
}

/// The pieces that hold an `=`, each as the pair of its two sides.
pub open spec fn pairs_of(parts: Seq<Seq<char>>) -> Pairs
    decreases parts.len(),
{
    if parts.len() == 0 {
        Seq::empty()
    } else {
        let rest = pairs_of(parts.skip(1));
        match split_once(parts[0], '=') {
            Some(pair) => seq![pair] + rest,
            None => rest,
        }
    }
}

/// The required parameters that a list `name=value,name=value` names. An
/// item without `=` names none.
pub open spec fn param_filters(params: Seq<char>) -> Pairs {
    pairs_of(split(params, ','))
}

/// The views of a run of pairs of string slices.
pub open spec fn str_pairs(v: Seq<(&str, &str)>) -> Pairs {
    Seq::new(v.len(), |i: int| (v[i].0@, v[i].1@))
}

/// The views of a run of string slices.
pub open spec fn strs(v: Seq<&str>) -> Seq<Seq<char>> {
    Seq::new(v.len(), |i: int| v[i]@)
}

/// Some pair of `query` is `(key, value)`.
pub open spec fn has_pair(query: Pairs, key: Seq<char>, value: Seq<char>) -> bool {
    exists|i: int| 0 <= i < query.len() && #[trigger] query[i] == (key, value)
}

/// Every required parameter is among the pairs of `query`, with exactly the
/// required value.
pub open spec fn passes(query: Pairs, filters: Pairs) -> bool {
    forall|i: int|
        0 <= i < filters.len() ==> has_pair(query, (#[trigger] filters[i]).0, filters[i].1)
}

/// Whether a pair survives normalization: its name is not to be stripped, its
/// value is not `none`, and it is not `type=tcp`.
pub open spec fn kept(pair: (Seq<char>, Seq<char>), strip: Seq<Seq<char>>) -> bool {
    !strip.contains(pair.0) && pair.1 != "none"@ && !(pair.0 == "type"@ && pair.1 == "tcp"@)
}

/// The pairs of a query after normalization: those that survive, in their
/// order, each value cut at its first `=`.
pub open spec fn normalized(query: Pairs, strip: Seq<Seq<char>>) -> Pairs
    decreases query.len(),
{
    if query.len() == 0 {
        Seq::empty()
    } else {
        let rest = normalized(query.drop_last(), strip);
        if kept(query.last(), strip) {
            rest.push((query.last().0, before_equals(query.last().1)))
        } else {
            rest
        }
    }
}

/// The member `key` of an object where it is a string.
pub open spec fn text_member(doc: Json, key: Seq<char>) -> Option<Seq<char>> {
    if doc is Object && doc.members().contains_key(key) {
        match doc.members()[key] {
            Json::Text(t) => Some(t),
            _ => None,
        }
    } else {
        None
    }
}

/// The member `key` of an object where it is a whole number that is not
/// negative and fits in 64 bits.
pub open spec fn number_member(doc: Json, key: Seq<char>) -> Option<u64> {
    if doc is Object && doc.members().contains_key(key) {
        match doc.members()[key] {
            Json::Int(n) => if 0 <= n <= u64::MAX {
                Some(n as u64)
            } else {
                None
            },
            _ => None,
        }
    } else {
        None
    }
}

/// The URL that a VMess payload describes: `vmess://id@add:port`, with the
/// port taken modulo 65536. There is none unless `add` and `id` are strings
/// and `port` is a number.
pub open spec fn vmess_url(doc: Json) -> Option<Seq<char>> {
    match (text_member(doc, "add"@), number_member(doc, "port"@), text_member(doc, "id"@)) {
        (Some(address), Some(port), Some(id)) => Some(
            "vmess://"@ + id + "@"@ + address + ":"@ + decimal((port % 0x1_0000) as nat),
        ),
        _ => None,
    }
}

/// The payload of a VMess descriptor: its data decoded from base64, read as
/// UTF-8 and parsed as JSON, where all three succeed.
pub open spec fn vmess_payload(data: Seq<char>) -> Option<Json> {
    match base64_decoded(data) {
        Some(bytes) => if valid_utf8(bytes) {
            json_parsed(decode_utf8(bytes))
        } else {
            None
        },
        None => None,
    }
}

/// Parts with the given query in place of their own.
pub open spec fn with_query(parts: Parts, query: Pairs) -> Parts {
    Parts {
        scheme: parts.scheme,
        username: parts.username,
        host: parts.host,
        port: parts.port,
        query,
    }
}

/// The candidate that a VMess descriptor describes, where it describes one: the
/// parts of the URL of its payload, each parameter held once.
pub open spec fn vmess_candidate(line: Seq<char>) -> Option<Parts> {
    if starts_with(line, "vmess://"@) {
        match vmess_payload(line.skip("vmess://"@.len() as int)) {
            Some(doc) => match vmess_url(doc) {
                Some(url) => match url_parts(url) {
                    Some(parts) => Some(with_query(parts, collected(parts.query))),
                    None => None,
                },
                None => None,
            },
            None => None,
        }
    } else {
        None
    }
}

/// The candidate that a URL of any other protocol describes: none unless it
/// parses, its scheme is the target and it passes the filters; else its parts,
/// with the query normalized and each parameter held once, at the place where
/// its name first came and with the value that came last.
pub open spec fn generic_candidate(
    line: Seq<char>,
    target: Seq<char>,
    filters: Pairs,
    strip: Seq<Seq<char>>,
) -> Option<Parts> {
    match url_parts(line) {
        Some(parts) => if parts.scheme == target && passes(parts.query, filters) {
            Some(with_query(parts, collected(normalized(parts.query, strip))))
        } else {
            None
        },
        None => None,
    }
}

/// The candidate that a line of raw text describes. The line is first freed of
/// every `amp;`. A line that begins with `vmess://` is read as a VMess
/// descriptor where the target is `vmess`, any other line as a URL.
pub open spec fn candidate_of(
    line: Seq<char>,
    target: Seq<char>,
    filters: Pairs,
    strip: Seq<Seq<char>>,
) -> Option<Parts> {
    let cleaned = without(line, "amp;"@);
    if target == "vmess"@ && starts_with(cleaned, "vmess://"@) {
        vmess_candidate(cleaned)
    } else {
        generic_candidate(cleaned, target, filters, strip)
    }
}

fn starts_at(chars: &Vec<char>, at: usize, pattern: &Vec<char>) -> (yes: bool)
    requires
        at <= chars.len(),
    ensures
        yes == starts_with(chars@.skip(at as int), pattern@),
{
    if chars.len() - at < pattern.len() {
        return false;
    }
    let ghost rest = chars@.skip(at as int);
    let mut k: usize = 0;
    while k < pattern.len()
        invariant
            k <= pattern.len(),
            at + pattern.len() <= chars.len(),
            rest == chars@.skip(at as int),
            forall|j: int| 0 <= j < k ==> rest[j] == pattern@[j],
        decreases pattern.len() - k,
    {
        if chars[at + k] != pattern[k] {
            assert(rest.take(pattern.len() as int)[k as int] != pattern@[k as int]);
            return false;
        }
        k += 1;
    }
    assert(rest.take(pattern.len() as int) == pattern@);
    true
}

/// Removes every occurrence of `pattern` from `s`.
pub fn remove_all(s: &str, pattern: &str) -> (cleaned: String)
    ensures
        cleaned@ == without(s@, pattern@),
{
    let chars = chars_of(s);
    let pat = chars_of(pattern);
    if pat.len() == 0 {
        return s.to_owned();
    }
    let mut out: Vec<char> = Vec::new();
    let mut i: usize = 0;
    proof {
        assert(chars@.skip(0) == chars@);
    }
    while i < chars.len()
        invariant
            i <= chars.len(),
            pat.len() > 0,
            pat@ == pattern@,
            chars@ == s@,
            out@ + without(chars@.skip(i as int), pat@) == without(chars@, pat@),
        decreases chars.len() - i,
    {
        let ghost rest = chars@.skip(i as int);
        if starts_at(&chars, i, &pat) {
            proof {
                assert(rest.skip(pat.len() as int) == chars@.skip(i + pat.len()));
            }
            i += pat.len();
        } else {
            proof {
                assert(rest.skip(1) == chars@.skip(i + 1));
                assert(out@.push(chars@[i as int]) + without(rest.skip(1), pat@) == out@ + (
                seq![rest[0]] + without(rest.skip(1), pat@)));
            }
            out.push(chars[i]);
            i += 1;
        }
    }
    proof {
        assert(out@ + Seq::<char>::empty() == out@);
    }
    text_of(out)
}

/// Searching in a part of a text finds what searching in the whole text
/// finds, unless that lies behind the part.
pub proof fn lemma_first_index_within(s: Seq<char>, c: char, start: int, end: int, from: int)
    requires
        0 <= start <= from <= end <= s.len(),
    ensures
        first_index(s.subrange(start, end), c, from - start) == (if first_index(s, c, from) < end {
            first_index(s, c, from) - start
        } else {
            end - start
        }),
    decreases end - from,
{
    if from < end && s[from] != c {
        lemma_first_index_within(s, c, start, end, from + 1);
    } else if from == end {
        lemma_first_index(s, c, from);
    }
}

/// Reads a list `name=value,name=value` of required parameters.
pub fn parse_param_filters(params: &str) -> (filters: Vec<(&str, &str)>)
    ensures
        str_pairs(filters@) == param_filters(params@),
{
    let chars = chars_of(params);
    let mut filters: Vec<(&str, &str)> = Vec::new();
    let mut start: usize = 0;
    let mut done = false;
    proof {
        assert(params@.skip(0) == params@);
        assert(str_pairs(filters@) + param_filters(params@) == param_filters(params@));
    }
    while !done
        invariant
            chars@ == params@,
            start <= chars.len(),
            !done ==> str_pairs(filters@) + pairs_of(split(params@.skip(start as int), ','))
                == param_filters(params@),
            done ==> str_pairs(filters@) == param_filters(params@),
        decreases chars.len() - start + (if done { 0int } else { 1int }),
    {
        let end = find_char(&chars, ',', start);
        let eq = find_char(&chars, '=', start);
        let ghost rest = params@.skip(start as int);
        let ghost piece = params@.subrange(start as int, end as int);
        let ghost tail = if end < chars.len() {
            split(params@.skip(end + 1), ',')
        } else {
            Seq::<Seq<char>>::empty()
        };
        proof {
            lemma_first_index_skip(params@, ',', start as int, start as int);
            lemma_first_index(params@, ',', start as int);
            assert(rest.take(end - start) == piece);
            if end < chars.len() {
                assert(rest.skip(end - start + 1) == params@.skip(end + 1));
            }
            assert(split(rest, ',') == seq![piece] + tail);
            assert((seq![piece] + tail).skip(1) == tail);
            assert((seq![piece] + tail)[0] == piece);
            lemma_first_index_within(params@, '=', start as int, end as int, start as int);
        }
        if eq < end {
            let key = params.substring_char(start, eq);
            let value = params.substring_char(eq + 1, end);
            proof {
                assert(piece.take(eq - start) == params@.subrange(start as int, eq as int));
                assert(piece.skip(eq - start + 1) == params@.subrange(eq + 1, end as int));
                assert(split_once(piece, '=') == Some((key@, value@)));
                assert(pairs_of(seq![piece] + tail) == seq![(key@, value@)] + pairs_of(tail));
                assert(str_pairs(filters@.push((key, value))) == str_pairs(filters@).push(
                    (key@, value@),
                ));
                assert(str_pairs(filters@).push((key@, value@)) + pairs_of(tail) == str_pairs(
                    filters@,
                ) + (seq![(key@, value@)] + pairs_of(tail)));
            }
            filters.push((key, value));
        } else {
            proof {
                assert(split_once(piece, '=') is None);
                assert(pairs_of(seq![piece] + tail) == pairs_of(tail));
            }
        }
        assert(str_pairs(filters@) + pairs_of(tail) == param_filters(params@));
        if end < chars.len() {
            start = end + 1;
        } else {
            proof {
                assert(pairs_of(tail) == Pairs::empty());
                assert(str_pairs(filters@) + Pairs::empty() == str_pairs(filters@));
            }
            done = true;
        }
    }
    filters
}

fn holds_pair(query: &Vec<(String, String)>, key: &str, value: &str) -> (yes: bool)
    ensures
        yes == has_pair(text_pairs(query@), key@, value@),
{
    let mut i: usize = 0;
    while i < query.len()
        invariant
            i <= query.len(),
            forall|j: int| 0 <= j < i ==> text_pairs(query@)[j] != (key@, value@),
        decreases query.len() - i,
    {
        if same_text(query[i].0.as_str(), key) && same_text(query[i].1.as_str(), value) {
            assert(text_pairs(query@)[i as int] == (key@, value@));
            return true;
        }
        i += 1;
    }
    false
}

/// Whether every required parameter is among the pairs of a query, with
/// exactly the required value.
pub fn passes_filters(query: &Vec<(String, String)>, param_filters: &[(&str, &str)]) -> (yes: bool)
    ensures
        yes == passes(text_pairs(query@), str_pairs(param_filters@)),
{
    let mut i: usize = 0;
    while i < param_filters.len()
        invariant
            i <= param_filters.len(),
            forall|j: int|
                0 <= j < i ==> has_pair(
                    text_pairs(query@),
                    (#[trigger] str_pairs(param_filters@)[j]).0,
                    str_pairs(param_filters@)[j].1,
                ),
        decreases param_filters.len() - i,
    {
        if !holds_pair(query, param_filters[i].0, param_filters[i].1) {
            assert(!has_pair(
                text_pairs(query@),
                str_pairs(param_filters@)[i as int].0,
                str_pairs(param_filters@)[i as int].1,
            ));
            return false;
        }
        i += 1;
    }
    true
}

fn listed(names: &[&str], name: &str) -> (yes: bool)
    ensures
        yes == strs(names@).contains(name@),
{
    let mut i: usize = 0;
    while i < names.len()
        invariant
            i <= names.len(),
            forall|j: int| 0 <= j < i ==> strs(names@)[j] != name@,
        decreases names.len() - i,
    {
        if same_text(names[i], name) {
            assert(strs(names@)[i as int] == name@);
            return true;
        }
        i += 1;
    }
    false
}

/// Normalizes the pairs of a query: drops the pairs whose name is in
/// `params_remove`, the pairs whose value is `none` and the pair `type=tcp`,
/// and cuts every other value at its first `=`.
pub fn normalize_query(query: &Vec<(String, String)>, params_remove: &[&str]) -> (clean: Vec<
    (String, String),
>)
    ensures
        text_pairs(clean@) == normalized(text_pairs(query@), strs(params_remove@)),
{
    let ghost all = text_pairs(query@);
    let ghost strip = strs(params_remove@);
    let mut clean: Vec<(String, String)> = Vec::new();
    let mut i: usize = 0;
    while i < query.len()
        invariant
            i <= query.len(),
            all == text_pairs(query@),
            strip == strs(params_remove@),
            text_pairs(clean@) == normalized(all.take(i as int), strip),
        decreases query.len() - i,
    {
        proof {
            assert(all.take(i + 1).drop_last() == all.take(i as int));
        }
        let key = query[i].0.as_str();
        let value = query[i].1.as_str();
        if !listed(params_remove, key) && !same_text(value, "none") && !(same_text(key, "type")
            && same_text(value, "tcp")) {
            let chars = chars_of(value);
            let at = find_char(&chars, '=', 0);
            let head = slice_text(&chars, 0, at);
            let name = key.to_owned();
            proof {
                lemma_text_pairs_push(clean@, name, head);
            }
            clean.push((name, head));
        }
        i += 1;
    }
    proof {
        assert(all.take(query.len() as int) == all);
    }
    clean
}

/// Holds each parameter once: at the place where its name first came, with
/// the value that came last.
pub fn single_names(query: Vec<(String, String)>) -> (single: Vec<(String, String)>)
    ensures
        text_pairs(single@) == collected(text_pairs(query@)),
        distinct_keys(text_pairs(single@)),
{
    let params = QueryParams::from_pairs(query);
    clone_pairs(params.as_pairs())
}

/// The URL that a VMess payload describes.
pub fn vmess_target(doc: &Value) -> (url: Option<String>)
    ensures
        match url {
            Some(u) => vmess_url(json_of(*doc)) == Some(u@),
            None => vmess_url(json_of(*doc)) is None,
        },
{
    let address = match json_member(doc, "add") {
        Some(member) => json_as_text(member),
        None => None,
    };
    let port = match json_member(doc, "port") {
        Some(member) => json_as_u64(member),
        None => None,
    };
    let id = match json_member(doc, "id") {
        Some(member) => json_as_text(member),
        None => None,
    };
    match (address, port, id) {
        (Some(address), Some(port), Some(id)) => {
            let mut out: Vec<char> = Vec::new();
            push_text(&mut out, "vmess://");
            push_text(&mut out, id.as_str());
            push_text(&mut out, "@");
            push_text(&mut out, address.as_str());
            push_text(&mut out, ":");
            push_decimal(&mut out, port % 0x1_0000);
            Some(text_of(out))
        },
        _ => None,
    }
}

/// Reads a VMess descriptor: `vmess://` followed by a base64 payload that
/// holds, as JSON, the address, the port and the id of the endpoint.
pub fn parse_vmess_url(url: &str) -> (candidate: Option<Candidate>)
    ensures
        match candidate {
            Some(c) => vmess_candidate(url@) == Some(c@),
            None => vmess_candidate(url@) is None,
        },
        candidate matches Some(c) ==> distinct_keys(c@.query),
{
    let chars = chars_of(url);
    let prefix = chars_of("vmess://");
    proof {
        assert(chars@.skip(0) == chars@);
    }
    if !starts_at(&chars, 0, &prefix) {
        return None;
    }
    let data = slice_text(&chars, prefix.len(), chars.len());
    proof {
        assert(chars@.subrange(prefix.len() as int, chars.len() as int) == url@.skip(
            "vmess://"@.len() as int,
        ));
    }
    let bytes = match base64_decode(data.as_str()) {
        Some(bytes) => bytes,
        None => {
            return None;
        },
    };
    let text = match utf8_text(bytes) {
        Some(text) => text,
        None => {
            return None;
        },
    };
    let doc = match json_parse(text.as_str()) {
        Some(doc) => doc,
        None => {
            return None;
        },
    };
    match vmess_target(&doc) {
        Some(target) => match split_url(target.as_str()) {
            Some(found) => {
                let query = single_names(found.query);
                Some(
                    Candidate {
                        scheme: found.scheme,
                        username: found.username,
                        host: found.host,
                        port: found.port,
                        query,
                    },
                )
            },
            None => None,
        },
        None => None,
    }
}

/// Reads one line of raw text as the descriptor of an endpoint of the protocol
/// `target_scheme`.
///
/// `param_filters` are the parameters that a URL must have, each with exactly
/// the given value; `params_remove` are the names of the parameters to strip.
#[must_use]
pub fn parse_proxy_url(
    line: &str,
    target_scheme: &str,
    param_filters: &[(&str, &str)],
    params_remove: &[&str],
) -> (candidate: Option<Candidate>)
    ensures
        match candidate {
            Some(c) => candidate_of(
                line@,
                target_scheme@,
                str_pairs(param_filters@),
                strs(params_remove@),
            ) == Some(c@),
            None => candidate_of(
                line@,
                target_scheme@,
                str_pairs(param_filters@),
                strs(params_remove@),
            ) is None,
        },
        candidate matches Some(c) ==> distinct_keys(c@.query),
{
    let cleaned = remove_all(line, "amp;");
    let chars = chars_of(cleaned.as_str());
    let prefix = chars_of("vmess://");
    proof {
        assert(chars@.skip(0) == chars@);
    }
    if same_text(target_scheme, "vmess") && starts_at(&chars, 0, &prefix) {
        parse_vmess_url(cleaned.as_str())
    } else {
        match split_url(cleaned.as_str()) {
            Some(found) => {
                if same_text(found.scheme.as_str(), target_scheme) && passes_filters(
                    &found.query,
                    param_filters,
                ) {
                    let query = single_names(normalize_query(&found.query, params_remove));
                    Some(
                        Candidate {
                            scheme: found.scheme,
                            username: found.username,
                            host: found.host,
                            port: found.port,
                            query,
                        },
                    )
                } else {
                    None
                }
            },
            None => None,
        }
    }
}

} // verus!
