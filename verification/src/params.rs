//! The parameters of an endpoint: a mapping from names to values that keeps the
//! order in which the names first came and holds each name once.

use crate::text::{clone_pairs, text_pairs};
use vstd::prelude::*;

verus! {

/// A run of (name, value) pairs.
pub type Pairs = Seq<(Seq<char>, Seq<char>)>;

/// The position of the first pair named `key` at or after `from`, or the
/// length of `pairs` where there is none.
pub open spec fn key_index(pairs: Pairs, key: Seq<char>, from: int) -> int
    decreases pairs.len() - from,
{
    if from < 0 || from >= pairs.len() {
        pairs.len() as int
    } else if pairs[from].0 == key {
        from
    } else {
        key_index(pairs, key, from + 1)
    }
}

/// The value of the first pair named `key`.
pub open spec fn lookup(pairs: Pairs, key: Seq<char>) -> Option<Seq<char>> {
    let at = key_index(pairs, key, 0);
    if 0 <= at < pairs.len() {
        Some(pairs[at].1)
    } else {
        None
    }
}

/// Whether some pair is named `key`.
pub open spec fn has_key(pairs: Pairs, key: Seq<char>) -> bool {
    lookup(pairs, key) is Some
}

/// `pairs` after `key` was given `value`: a name that is present keeps its
/// place and takes the new value, a new name goes to the end.
pub open spec fn inserted(pairs: Pairs, key: Seq<char>, value: Seq<char>) -> Pairs {
    let at = key_index(pairs, key, 0);
    if 0 <= at < pairs.len() {
        pairs.update(at, (key, value))
    } else {
        pairs.push((key, value))
    }
}

/// The mapping that results from giving each pair of `pairs` in turn to an
/// empty mapping.
pub open spec fn collected(pairs: Pairs) -> Pairs
    decreases pairs.len(),
{
    if pairs.len() == 0 {
        Seq::empty()
    } else {
        inserted(collected(pairs.drop_last()), pairs.last().0, pairs.last().1)
    }
}

/// No name occurs twice.
pub open spec fn distinct_keys(pairs: Pairs) -> bool {
    forall|i: int, j: int| 0 <= i < j < pairs.len() ==> pairs[i].0 != pairs[j].0
}

/// Before the first pair named `key` no pair is named `key`, and where the
/// search ends within the pairs it ends at a pair named `key`.
pub proof fn lemma_key_index(pairs: Pairs, key: Seq<char>, from: int)
    requires
        0 <= from <= pairs.len(),
    ensures
        from <= key_index(pairs, key, from) <= pairs.len(),
        key_index(pairs, key, from) < pairs.len() ==> pairs[key_index(pairs, key, from)].0 == key,
        forall|k: int| from <= k < key_index(pairs, key, from) ==> pairs[k].0 != key,
    decreases pairs.len() - from,
{
    if from < pairs.len() && pairs[from].0 != key {
        lemma_key_index(pairs, key, from + 1);
    }
}

/// The search ends at a place before which no pair is named `key` and which
/// holds a pair named `key` or is the end of the pairs.
pub proof fn lemma_key_index_is(pairs: Pairs, key: Seq<char>, from: int, at: int)
    requires
        0 <= from <= at <= pairs.len(),
        forall|k: int| from <= k < at ==> pairs[k].0 != key,
        at == pairs.len() || pairs[at].0 == key,
    ensures
        key_index(pairs, key, from) == at,
    decreases at - from,
{
    if from < at {
        lemma_key_index_is(pairs, key, from + 1, at);
    }
}

/// Giving a name a value keeps every name single, makes the name present with
/// that value, and leaves every other name as it was.
pub proof fn lemma_inserted(pairs: Pairs, key: Seq<char>, value: Seq<char>)
    requires
        distinct_keys(pairs),
    ensures
        distinct_keys(inserted(pairs, key, value)),
        lookup(inserted(pairs, key, value), key) == Some(value),
        forall|other: Seq<char>|
            other != key ==> lookup(inserted(pairs, key, value), other) == lookup(pairs, other),
{
    let after = inserted(pairs, key, value);
    let at = key_index(pairs, key, 0);
    lemma_key_index(pairs, key, 0);
    assert forall|k: int| 0 <= k < at implies after[k].0 != key by {
        assert(after[k] == pairs[k]);
    }
    lemma_key_index_is(after, key, 0, at);
    assert forall|other: Seq<char>| other != key implies lookup(after, other) == lookup(
        pairs,
        other,
    ) by {
        let there = key_index(pairs, other, 0);
        lemma_key_index(pairs, other, 0);
        assert forall|k: int| 0 <= k < there implies after[k].0 != other by {
            if k < pairs.len() && k != at {
                assert(after[k] == pairs[k]);
            }
        }
        if there < pairs.len() {
            assert(after[there] == pairs[there]);
            lemma_key_index_is(after, other, 0, there);
        } else {
            lemma_key_index_is(after, other, 0, after.len() as int);
        }
    }
}

/// Collecting pairs keeps every name single.
pub proof fn lemma_collected_distinct(pairs: Pairs)
    ensures
        distinct_keys(collected(pairs)),
    decreases pairs.len(),
{
    if pairs.len() > 0 {
        lemma_collected_distinct(pairs.drop_last());
        lemma_inserted(collected(pairs.drop_last()), pairs.last().0, pairs.last().1);
    }
}

/// The value of the last pair named `key`.
pub open spec fn last_value(pairs: Pairs, key: Seq<char>) -> Option<Seq<char>>
    decreases pairs.len(),
{
    if pairs.len() == 0 {
        None
    } else if pairs.last().0 == key {
        Some(pairs.last().1)
    } else {
        last_value(pairs.drop_last(), key)
    }
}

/// Where a name comes more than once the value that came last stands: the
/// collected mapping gives each name the value of its last pair.
pub proof fn lemma_collected_lookup(pairs: Pairs, key: Seq<char>)
    ensures
        lookup(collected(pairs), key) == last_value(pairs, key),
    decreases pairs.len(),
{
    if pairs.len() > 0 {
        lemma_collected_lookup(pairs.drop_last(), key);
        lemma_collected_distinct(pairs.drop_last());
        lemma_inserted(collected(pairs.drop_last()), pairs.last().0, pairs.last().1);
    }
}

/// Collecting pairs whose names are all different changes nothing.
pub proof fn lemma_collected_of_distinct(pairs: Pairs)
    requires
        distinct_keys(pairs),
    ensures
        collected(pairs) == pairs,
    decreases pairs.len(),
{
    if pairs.len() > 0 {
        let head = pairs.drop_last();
        let last = pairs.last();
        assert forall|i: int, j: int| 0 <= i < j < head.len() implies head[i].0 != head[j].0 by {
            assert(head[i] == pairs[i] && head[j] == pairs[j]);
        }
        lemma_collected_of_distinct(head);
        assert forall|k: int| 0 <= k < head.len() implies head[k].0 != last.0 by {
            assert(head[k] == pairs[k]);
            assert(pairs[pairs.len() - 1] == last);
        }
        lemma_key_index_is(head, last.0, 0, head.len() as int);
        assert(head.push(last) == pairs);
    } else {
        assert(collected(pairs) == pairs);
    }
}

/// Collecting twice is collecting once.
pub proof fn lemma_collected_twice(pairs: Pairs)
    ensures
        collected(collected(pairs)) == collected(pairs),
{
    lemma_collected_distinct(pairs);
    lemma_collected_of_distinct(collected(pairs));
}

/// The parameters of an endpoint, in the order in which their names first came.
#[derive(Debug, PartialEq, Eq)]
pub struct QueryParams {
    entries: Vec<(String, String)>,
}

impl View for QueryParams {
    type V = Pairs;

    closed spec fn view(&self) -> Pairs {
        text_pairs(self.entries@)
    }
}

impl Clone for QueryParams {
    fn clone(&self) -> (copy: QueryParams)
        ensures
            copy@ == self@,
    {
        proof {
            use_type_invariant(self);
        }
        let entries = clone_pairs(&self.entries);
        QueryParams { entries }
    }
}

impl QueryParams {
    #[verifier::type_invariant]
    spec fn single_names(self) -> bool {
        distinct_keys(text_pairs(self.entries@))
    }

    /// The mapping without parameters.
    pub fn new() -> (params: QueryParams)
        ensures
            params@ == Pairs::empty(),
    {
        QueryParams { entries: Vec::new() }
    }

    /// The number of parameters.
    pub fn len(&self) -> (n: usize)
        ensures
            n == self@.len(),
    {
        self.entries.len()
    }

    /// Whether there is no parameter.
    pub fn is_empty(&self) -> (empty: bool)
        ensures
            empty == (self@.len() == 0),
    {
        self.entries.len() == 0
    }

    fn find(&self, key: &str) -> (at: usize)
        ensures
            at == key_index(self@, key@, 0),
            at <= self@.len(),
    {
        let mut i: usize = 0;
        while i < self.entries.len() && !crate::text::same_text(self.entries[i].0.as_str(), key)
            invariant
                i <= self.entries.len(),
                key_index(self@, key@, 0) == key_index(self@, key@, i as int),
            decreases self.entries.len() - i,
        {
            i += 1;
        }
        i
    }

    /// The value of the parameter named `key`.
    pub fn get(&self, key: &str) -> (value: Option<&String>)
        ensures
            match value {
                Some(v) => lookup(self@, key@) == Some(v@),
                None => lookup(self@, key@) is None,
            },
    {
        let at = self.find(key);
        if at < self.entries.len() {
            Some(&self.entries[at].1)
        } else {
            None
        }
    }

    /// Gives `key` the value `value` and returns the value it had.
    pub fn insert(&mut self, key: String, value: String) -> (previous: Option<String>)
        ensures
            final(self)@ == inserted(old(self)@, key@, value@),
            match previous {
                Some(v) => lookup(old(self)@, key@) == Some(v@),
                None => lookup(old(self)@, key@) is None,
            },
    {
        proof {
            use_type_invariant(&*self);
            lemma_inserted(self@, key@, value@);
        }
        let at = self.find(key.as_str());
        let ghost before = self.entries@;
        let mut entries: Vec<(String, String)> = Vec::new();
        core::mem::swap(&mut self.entries, &mut entries);
        let previous = if at < entries.len() {
            let previous = entries[at].1.clone();
            entries.set(at, (key, value));
            Some(previous)
        } else {
            entries.push((key, value));
            None
        };
        proof {
            assert(text_pairs(entries@) == inserted(text_pairs(before), key@, value@));
        }
        core::mem::swap(&mut self.entries, &mut entries);
        previous
    }

    /// The mapping that results from inserting the pairs in their order.
    pub fn from_pairs(pairs: Vec<(String, String)>) -> (params: QueryParams)
        ensures
            params@ == collected(text_pairs(pairs@)),
    {
        let mut params = QueryParams::new();
        let mut i: usize = 0;
        while i < pairs.len()
            invariant
                i <= pairs.len(),
                params@ == collected(text_pairs(pairs@).take(i as int)),
            decreases pairs.len() - i,
        {
            proof {
                let all = text_pairs(pairs@);
                assert(all.take(i + 1).drop_last() == all.take(i as int));
            }
            params.insert(pairs[i].0.clone(), pairs[i].1.clone());
            i += 1;
        }
        proof {
            assert(text_pairs(pairs@).take(pairs.len() as int) == text_pairs(pairs@));
        }
        params
    }

    /// The parameters as pairs, in their order.
    pub fn as_pairs(&self) -> (pairs: &Vec<(String, String)>)
        ensures
            text_pairs(pairs@) == self@,
            distinct_keys(self@),
    {
        proof {
            use_type_invariant(self);
        }
        &self.entries
    }
}

} // verus!
