//! The DNS cache: domain names with the addresses they resolved to, and the
//! policy that keeps only the names that a run has asked for.
//!
//! An entry carries a flag that says whether the run used it. Entries read
//! from the cache file start unused; a lookup that hits and every insertion
//! mark the entry used; only used entries are written back. What a run never
//! asks for is thereby forgotten.

use crate::candidate::{is_address_text, Address};
use crate::params::Pairs;
use crate::text::{
    chars_of, find_char, first_index, is_space, lemma_first_index, lemma_first_index_is,
    lemma_first_index_skip,
    lemma_text_pairs_push, push_text, skip_spaces, slice_text, space, split, text_of, text_pairs,
};
use ahash::HashMapExt;
use vstd::prelude::*;

verus! {

/// The hasher state of `ahash`. The verifier carries it and never looks
/// inside.
#[verifier::external_type_specification]
#[verifier::external_body]
pub struct ExRandomState(ahash::RandomState);

/// What a cache holds: for each domain its address and whether it was used.
pub type Entries = Map<Seq<char>, (Seq<char>, bool)>;

/// The entries of a hash map of the cache.
pub uninterp spec fn store_entries(store: ahash::HashMap<String, (Address, bool)>) -> Entries;

/// Trusted: `HashMapExt::new` makes a map without entries.
#[verifier::external_body]
fn store_new() -> (store: ahash::HashMap<String, (Address, bool)>)
    ensures
        store_entries(store) == Entries::empty(),
{
    ahash::HashMap::new()
}

/// Trusted: `HashMap::insert` sets the entry of the key, whether or not the
/// key was there, leaves the other entries alone, and returns the entry that
/// the key had.
#[verifier::external_body]
fn store_insert(
    store: &mut ahash::HashMap<String, (Address, bool)>,
    domain: String,
    address: Address,
    used: bool,
) -> (previous: Option<(Address, bool)>)
    ensures
        store_entries(*final(store)) == store_entries(*old(store)).insert(
            domain@,
            (address@, used),
        ),
        match previous {
            Some(entry) => store_entries(*old(store)).contains_key(domain@) && store_entries(
                *old(store),
            )[domain@] == (entry.0@, entry.1),
            None => !store_entries(*old(store)).contains_key(domain@),
        },
{
    store.insert(domain, (address, used))
}

/// Trusted: `HashMap::get` finds the entry of the key, where there is one.
#[verifier::external_body]
fn store_get(store: &ahash::HashMap<String, (Address, bool)>, domain: &str) -> (found: Option<
    (Address, bool),
>)
    ensures
        match found {
            Some(entry) => store_entries(*store).contains_key(domain@) && store_entries(
                *store,
            )[domain@] == (entry.0@, entry.1),
            None => !store_entries(*store).contains_key(domain@),
        },
{
    store.get(domain).cloned()
}

/// The items list exactly the entries, each once, in some order.
pub open spec fn lists(items: Seq<(Seq<char>, Seq<char>, bool)>, entries: Entries) -> bool {
    &&& forall|i: int|
        0 <= i < items.len() ==> entries.contains_key((#[trigger] items[i]).0)
            && entries[items[i].0] == (items[i].1, items[i].2)
    &&& forall|i: int, j: int|
        0 <= i < j < items.len() ==> (#[trigger] items[i]).0 != (#[trigger] items[j]).0
    &&& forall|domain: Seq<char>| #[trigger]
        entries.contains_key(domain) ==> exists|i: int|
            0 <= i < items.len() && (#[trigger] items[i]).0 == domain
}

/// The views of a run of items.
pub open spec fn item_views(items: Seq<(String, Address, bool)>) -> Seq<
    (Seq<char>, Seq<char>, bool),
> {
    Seq::new(items.len(), |i: int| (items[i].0@, items[i].1@, items[i].2))
}

/// Trusted: `HashMap::iter` visits every entry exactly once. Nothing is
/// claimed of the order, which changes from one process to the next.
#[verifier::external_body]
fn store_items(store: &ahash::HashMap<String, (Address, bool)>) -> (items: Vec<
    (String, Address, bool),
>)
    ensures
        lists(item_views(items@), store_entries(*store)),
{
    store.iter().map(|(domain, entry)| (domain.clone(), entry.0.clone(), entry.1)).collect()
}

/// The cache of resolved names. Whatever its history, every address that it
/// holds is a text that can stand for an address.
pub struct DnsCache {
    cache: ahash::HashMap<String, (Address, bool)>,
    cache_file: String,
}

/// Every address that the entries hold is a text that can stand for an
/// address.
pub open spec fn holds_addresses(entries: Entries) -> bool {
    forall|domain: Seq<char>| #[trigger]
        entries.contains_key(domain) ==> is_address_text(entries[domain].0)
}

/// Sets an entry of a map that holds addresses; the map holds addresses after.
fn store_put(
    store: &mut ahash::HashMap<String, (Address, bool)>,
    domain: String,
    address: Address,
    used: bool,
) -> (previous: Option<(Address, bool)>)
    requires
        holds_addresses(store_entries(*old(store))),
    ensures
        store_entries(*final(store)) == store_entries(*old(store)).insert(
            domain@,
            (address@, used),
        ),
        holds_addresses(store_entries(*final(store))),
        match previous {
            Some(entry) => store_entries(*old(store)).contains_key(domain@) && store_entries(
                *old(store),
            )[domain@] == (entry.0@, entry.1),
            None => !store_entries(*old(store)).contains_key(domain@),
        },
{
    proof {
        use_type_invariant(&address);
        address.lemma_well_formed();
    }
    store_insert(store, domain, address, used)
}

/// The first position at or after `from` that holds white space, or the length
/// of `s`.
pub open spec fn word_end(s: Seq<char>, from: int) -> int
    decreases s.len() - from,
{
    if from < 0 || from >= s.len() {
        s.len() as int
    } else if is_space(s[from]) {
        from
    } else {
        word_end(s, from + 1)
    }
}

/// The entry that a line of the cache file names: its first two words, as
/// domain and address. A line with fewer words names none.
pub open spec fn line_entry(line: Seq<char>) -> Option<(Seq<char>, Seq<char>)> {
    let a = skip_spaces(line, 0);
    let b = word_end(line, a);
    let c = skip_spaces(line, b);
    let d = word_end(line, c);
    if 0 <= a <= b <= c < d <= line.len() {
        Some((line.subrange(a, b), line.subrange(c, d)))
    } else {
        None
    }
}

/// The entries that a run of lines names, in their order.
pub open spec fn line_entries(lines: Seq<Seq<char>>) -> Pairs
    decreases lines.len(),
{
    if lines.len() == 0 {
        Seq::empty()
    } else {
        let rest = line_entries(lines.skip(1));
        match line_entry(lines[0]) {
            Some(entry) => seq![entry] + rest,
            None => rest,
        }
    }
}

/// The entries that the text of a cache file names: one line each, domain and
/// address separated by white space.
pub open spec fn file_entries(content: Seq<char>) -> Pairs {
    line_entries(split(content, '\n'))
}

/// The cache that holds the given entries, all unused; where a domain comes
/// twice, the later entry stands.
pub open spec fn loaded(entries: Pairs) -> Entries
    decreases entries.len(),
{
    if entries.len() == 0 {
        Map::empty()
    } else {
        loaded(entries.drop_last()).insert(entries.last().0, (entries.last().1, false))
    }
}

/// The text of a cache file that holds the given entries: one line each,
/// `domain address`, with a line feed between neighbours.
pub open spec fn file_text(entries: Pairs) -> Seq<char>
    decreases entries.len(),
{
    if entries.len() == 0 {
        Seq::empty()
    } else if entries.len() == 1 {
        entries[0].0 + " "@ + entries[0].1
    } else {
        file_text(entries.drop_last()) + "\n"@ + entries.last().0 + " "@ + entries.last().1
    }
}

/// The pairs list exactly the used entries, each once, in some order.
pub open spec fn lists_used(pairs: Pairs, entries: Entries) -> bool {
    &&& forall|i: int|
        0 <= i < pairs.len() ==> entries.contains_key((#[trigger] pairs[i]).0)
            && entries[pairs[i].0] == (pairs[i].1, true)
    &&& forall|i: int, j: int|
        0 <= i < j < pairs.len() ==> (#[trigger] pairs[i]).0 != (#[trigger] pairs[j]).0
    &&& forall|domain: Seq<char>| #[trigger]
        entries.contains_key(domain) && entries[domain].1 ==> exists|i: int|
            0 <= i < pairs.len() && (#[trigger] pairs[i]).0 == domain
}

/// The first two words of `line`, where it has two.
fn read_line(chars: &Vec<char>, from: usize, to: usize) -> (entry: Option<(String, String)>)
    requires
        from <= to <= chars.len(),
    ensures
        match entry {
            Some(e) => line_entry(chars@.subrange(from as int, to as int)) == Some((e.0@, e.1@)),
            None => line_entry(chars@.subrange(from as int, to as int)) is None,
        },
{
    let ghost line = chars@.subrange(from as int, to as int);
    let mut a: usize = from;
    while a < to && space(chars[a])
        invariant
            from <= a <= to <= chars.len(),
            line == chars@.subrange(from as int, to as int),
            skip_spaces(line, 0) == skip_spaces(line, a - from),
        decreases to - a,
    {
        a += 1;
    }
    let mut b: usize = a;
    while b < to && !space(chars[b])
        invariant
            a <= b <= to <= chars.len(),
            from <= a,
            line == chars@.subrange(from as int, to as int),
            word_end(line, a - from) == word_end(line, b - from),
        decreases to - b,
    {
        b += 1;
    }
    let mut c: usize = b;
    while c < to && space(chars[c])
        invariant
            b <= c <= to <= chars.len(),
            from <= b,
            line == chars@.subrange(from as int, to as int),
            skip_spaces(line, b - from) == skip_spaces(line, c - from),
        decreases to - c,
    {
        c += 1;
    }
    let mut d: usize = c;
    while d < to && !space(chars[d])
        invariant
            c <= d <= to <= chars.len(),
            from <= c,
            line == chars@.subrange(from as int, to as int),
            word_end(line, c - from) == word_end(line, d - from),
        decreases to - d,
    {
        d += 1;
    }
    if c < d {
        let domain = slice_text(chars, a, b);
        let address = slice_text(chars, c, d);
        proof {
            assert(line.subrange(a - from, b - from) == chars@.subrange(a as int, b as int));
            assert(line.subrange(c - from, d - from) == chars@.subrange(c as int, d as int));
        }
        Some((domain, address))
    } else {
        None
    }
}

impl DnsCache {
    #[verifier::type_invariant]
    spec fn addresses_are_texts(self) -> bool {
        holds_addresses(store_entries(self.cache))
    }

    /// The entries of the cache.
    pub closed spec fn entries(&self) -> Entries {
        store_entries(self.cache)
    }

    /// The name of the cache file.
    pub closed spec fn file(&self) -> Seq<char> {
        self.cache_file@
    }

    /// An empty cache that belongs to the file `cache_file`.
    #[must_use]
    pub fn new(cache_file: &str) -> (cache: DnsCache)
        ensures
            cache.entries() == Entries::empty(),
            cache.file() == cache_file@,
            holds_addresses(cache.entries()),
    {
        DnsCache { cache: store_new(), cache_file: cache_file.to_owned() }
    }

    /// The name of the cache file.
    pub fn cache_file(&self) -> (name: &str)
        ensures
            name@ == self.file(),
    {
        self.cache_file.as_str()
    }

    /// Reads the text of a cache file into entries, line by line. A line that
    /// does not hold two words is skipped.
    pub fn read_entries(content: &str) -> (entries: Vec<(String, String)>)
        ensures
            text_pairs(entries@) == file_entries(content@),
    {
        let chars = chars_of(content);
        let mut entries: Vec<(String, String)> = Vec::new();
        let mut start: usize = 0;
        let mut done = false;
        proof {
            assert(content@.skip(0) == content@);
            assert(text_pairs(entries@) + file_entries(content@) == file_entries(content@));
        }
        while !done
            invariant
                chars@ == content@,
                start <= chars.len(),
                !done ==> text_pairs(entries@) + line_entries(
                    split(content@.skip(start as int), '\n'),
                ) == file_entries(content@),
                done ==> text_pairs(entries@) == file_entries(content@),
            decreases chars.len() - start + (if done { 0int } else { 1int }),
        {
            let end = find_char(&chars, '\n', start);
            let ghost rest = content@.skip(start as int);
            let ghost line = content@.subrange(start as int, end as int);
            let ghost tail = if end < chars.len() {
                split(content@.skip(end + 1), '\n')
            } else {
                Seq::<Seq<char>>::empty()
            };
            proof {
                lemma_first_index_skip(content@, '\n', start as int, start as int);
                lemma_first_index(content@, '\n', start as int);
                assert(rest.take(end - start) == line);
                if end < chars.len() {
                    assert(rest.skip(end - start + 1) == content@.skip(end + 1));
                }
                assert(split(rest, '\n') == seq![line] + tail);
                assert((seq![line] + tail).skip(1) == tail);
                assert((seq![line] + tail)[0] == line);
            }
            match read_line(&chars, start, end) {
                Some(entry) => {
                    proof {
                        assert(line_entries(seq![line] + tail) == seq![(entry.0@, entry.1@)]
                            + line_entries(tail));
                        lemma_text_pairs_push(entries@, entry.0, entry.1);
                        assert(text_pairs(entries@).push((entry.0@, entry.1@)) + line_entries(tail)
                            == text_pairs(entries@) + (seq![(entry.0@, entry.1@)] + line_entries(
                            tail,
                        )));
                    }
                    entries.push(entry);
                },
                None => {
                    proof {
                        assert(line_entries(seq![line] + tail) == line_entries(tail));
                    }
                },
            }
            assert(text_pairs(entries@) + line_entries(tail) == file_entries(content@));
            if end < chars.len() {
                start = end + 1;
            } else {
                proof {
                    assert(line_entries(tail) == Pairs::empty());
                    assert(text_pairs(entries@) + Pairs::empty() == text_pairs(entries@));
                }
                done = true;
            }
        }
        entries
    }

    /// Replaces what the cache holds by the given entries, all of them unused,
    /// and returns the mapping that was loaded.
    ///
    /// Each entry comes with the address that its text was read as, or with
    /// nothing where the text is no address: such an entry is skipped. Where a
    /// domain comes twice, the later entry stands.
    pub fn load_cache(&mut self, entries: Vec<(String, Option<Address>)>) -> (mapping:
        ahash::HashMap<String, (Address, bool)>)
        ensures
            final(self).entries() == loaded(readable(read_views(entries@))),
            store_entries(mapping) == loaded(readable(read_views(entries@))),
            final(self).file() == old(self).file(),
            holds_addresses(final(self).entries()),
    {
        let ghost all = read_views(entries@);
        let mut cache = store_new();
        let mut mapping = store_new();
        let mut i: usize = 0;
        while i < entries.len()
            invariant
                i <= entries.len(),
                all == read_views(entries@),
                store_entries(cache) == loaded(readable(all.take(i as int))),
                store_entries(mapping) == loaded(readable(all.take(i as int))),
                holds_addresses(store_entries(cache)),
                holds_addresses(store_entries(mapping)),
            decreases entries.len() - i,
        {
            proof {
                assert(all.take(i + 1).drop_last() == all.take(i as int));
            }
            match &entries[i].1 {
                Some(address) => {
                    proof {
                        let before = readable(all.take(i as int));
                        let after = readable(all.take(i + 1));
                        assert(after == before.push((entries@[i as int].0@, address@)));
                        assert(after.drop_last() == before);
                    }
                    store_put(&mut cache, entries[i].0.clone(), address.clone(), false);
                    store_put(&mut mapping, entries[i].0.clone(), address.clone(), false);
                },
                None => {},
            }
            i += 1;
        }
        proof {
            assert(all.take(entries.len() as int) == all);
        }
        self.cache = cache;
        mapping
    }

    /// Looks a domain up, and marks its entry used where there is one.
    pub fn get(&mut self, domain: &str) -> (address: Option<Address>)
        ensures
            final(self).file() == old(self).file(),
            match address {
                Some(a) => old(self).entries().contains_key(domain@) && a@ == old(
                    self,
                ).entries()[domain@].0 && final(self).entries() == old(self).entries().insert(
                    domain@,
                    (a@, true),
                ),
                None => !old(self).entries().contains_key(domain@) && final(self).entries() == old(
                    self,
                ).entries(),
            },
            holds_addresses(final(self).entries()),
    {
        proof {
            use_type_invariant(&*self);
        }
        match store_get(&self.cache, domain) {
            Some(entry) => {
                let mut cache = store_new();
                core::mem::swap(&mut self.cache, &mut cache);
                store_put(&mut cache, domain.to_owned(), entry.0.clone(), true);
                core::mem::swap(&mut self.cache, &mut cache);
                Some(entry.0)
            },
            None => None,
        }
    }

    /// Stores the address of a domain, marks the entry used, and returns the
    /// address that the domain had.
    pub fn insert(&mut self, domain: String, ip: Address) -> (previous: Option<Address>)
        ensures
            final(self).file() == old(self).file(),
            final(self).entries() == old(self).entries().insert(domain@, (ip@, true)),
            match previous {
                Some(a) => old(self).entries().contains_key(domain@) && a@ == old(
                    self,
                ).entries()[domain@].0,
                None => !old(self).entries().contains_key(domain@),
            },
            holds_addresses(final(self).entries()),
    {
        proof {
            use_type_invariant(&*self);
        }
        let mut cache = store_new();
        core::mem::swap(&mut self.cache, &mut cache);
        let previous = store_put(&mut cache, domain, ip, true);
        core::mem::swap(&mut self.cache, &mut cache);
        match previous {
            Some(entry) => Some(entry.0),
            None => None,
        }
    }

    /// The text to write to the cache file: the used entries, one line each,
    /// in some order.
    pub fn save(&self) -> (content: String)
        ensures
            exists|order: Pairs|
                lists_used(order, self.entries()) && content@ == #[trigger] file_text(order),
            holds_addresses(self.entries()),
    {
        proof {
            use_type_invariant(self);
        }
        let items = store_items(&self.cache);
        let ghost views = item_views(items@);
        let mut out: Vec<char> = Vec::new();
        let mut written = false;
        let mut i: usize = 0;
        while i < items.len()
            invariant
                i <= items.len(),
                views == item_views(items@),
                written == (used_pairs(views.take(i as int)).len() > 0),
                out@ == file_text(used_pairs(views.take(i as int))),
            decreases items.len() - i,
        {
            proof {
                assert(views.take(i + 1).drop_last() == views.take(i as int));
            }
            if items[i].2 {
                if written {
                    push_text(&mut out, "\n");
                }
                written = true;
                push_text(&mut out, items[i].0.as_str());
                push_text(&mut out, " ");
                push_text(&mut out, items[i].1.as_str());
                proof {
                    let before = used_pairs(views.take(i as int));
                    let after = used_pairs(views.take(i + 1));
                    assert(after == before.push((views[i as int].0, views[i as int].1)));
                    assert(after.drop_last() == before);
                }
            }
            i += 1;
        }
        proof {
            assert(views.take(items.len() as int) == views);
            lemma_used_lists(views, self.entries());
        }
        text_of(out)
    }
}

/// The used ones among the items, as pairs of domain and address, in their
/// order.
pub open spec fn used_pairs(items: Seq<(Seq<char>, Seq<char>, bool)>) -> Pairs
    decreases items.len(),
{
    if items.len() == 0 {
        Seq::empty()
    } else if items.last().2 {
        used_pairs(items.drop_last()).push((items.last().0, items.last().1))
    } else {
        used_pairs(items.drop_last())
    }
}

/// The used pairs are the used items, each once: every pair comes from a used
/// item, every used item gives a pair, and where no two items share a domain
/// no two pairs do.
pub proof fn lemma_used_pairs(items: Seq<(Seq<char>, Seq<char>, bool)>)
    ensures
        forall|k: int|
            0 <= k < used_pairs(items).len() ==> exists|j: int|
                0 <= j < items.len() && #[trigger] items[j] == ((#[trigger] used_pairs(
                    items,
                )[k]).0, used_pairs(items)[k].1, true),
        forall|j: int|
            0 <= j < items.len() && (#[trigger] items[j]).2 ==> exists|k: int|
                0 <= k < used_pairs(items).len() && (#[trigger] used_pairs(items)[k]) == (
                    items[j].0,
                    items[j].1,
                ),
        (forall|i: int, j: int|
            0 <= i < j < items.len() ==> (#[trigger] items[i]).0 != (#[trigger] items[j]).0)
            ==> (forall|k: int, l: int|
            0 <= k < l < used_pairs(items).len() ==> (#[trigger] used_pairs(items)[k]).0 != (
            #[trigger] used_pairs(items)[l]).0),
    decreases items.len(),
{
    if items.len() > 0 {
        let head = items.drop_last();
        let last = items.last();
        lemma_used_pairs(head);
        let before = used_pairs(head);
        let after = used_pairs(items);
        assert forall|k: int| 0 <= k < after.len() implies exists|j: int|
            0 <= j < items.len() && #[trigger] items[j] == (
                (#[trigger] after[k]).0,
                after[k].1,
                true,
            ) by {
            if k < before.len() {
                assert(after[k] == before[k]);
                let j = choose|j: int|
                    0 <= j < head.len() && #[trigger] head[j] == (before[k].0, before[k].1, true);
                assert(items[j] == head[j]);
            } else {
                assert(items[items.len() - 1] == last);
            }
        }
        assert forall|j: int| 0 <= j < items.len() && (#[trigger] items[j]).2 implies exists|k: int|
            0 <= k < after.len() && (#[trigger] after[k]) == (items[j].0, items[j].1) by {
            if j < head.len() {
                assert(head[j] == items[j]);
                let k = choose|k: int|
                    0 <= k < before.len() && (#[trigger] before[k]) == (head[j].0, head[j].1);
                assert(after[k] == before[k]);
            } else {
                assert(after[after.len() - 1] == (last.0, last.1));
            }
        }
        if forall|i: int, j: int|
            0 <= i < j < items.len() ==> (#[trigger] items[i]).0 != (#[trigger] items[j]).0 {
            assert forall|i: int, j: int| 0 <= i < j < head.len() implies (#[trigger] head[i]).0
                != (#[trigger] head[j]).0 by {
                assert(head[i] == items[i]);
                assert(head[j] == items[j]);
            }
            assert forall|k: int, l: int| 0 <= k < l < after.len() implies (#[trigger] after[k]).0
                != (#[trigger] after[l]).0 by {
                if l < before.len() {
                    assert(after[k] == before[k]);
                    assert(after[l] == before[l]);
                } else {
                    assert(after[k] == before[k]);
                    let j = choose|j: int|
                        0 <= j < head.len() && #[trigger] head[j] == (
                            before[k].0,
                            before[k].1,
                            true,
                        );
                    assert(items[j] == head[j]);
                    assert(items[items.len() - 1] == last);
                }
            }
        }
    }
}

/// The used ones among the items that list a cache list its used entries.
pub proof fn lemma_used_lists(items: Seq<(Seq<char>, Seq<char>, bool)>, entries: Entries)
    requires
        lists(items, entries),
    ensures
        lists_used(used_pairs(items), entries),
{
    lemma_used_pairs(items);
    let order = used_pairs(items);
    assert forall|i: int| 0 <= i < order.len() implies entries.contains_key(
        (#[trigger] order[i]).0,
    ) && entries[order[i].0] == (order[i].1, true) by {
        let j = choose|j: int|
            0 <= j < items.len() && #[trigger] items[j] == (order[i].0, order[i].1, true);
        assert(entries.contains_key(items[j].0));
    }
    assert forall|domain: Seq<char>| #[trigger]
        entries.contains_key(domain) && entries[domain].1 implies exists|k: int|
        0 <= k < order.len() && (#[trigger] order[k]).0 == domain by {
        let j = choose|j: int| 0 <= j < items.len() && (#[trigger] items[j]).0 == domain;
        assert(items[j].2);
        let k = choose|k: int|
            0 <= k < order.len() && (#[trigger] order[k]) == (items[j].0, items[j].1);
        assert(order[k].0 == domain);
    }
}

/// The views of a run of entries as they were read: the domain, and the
/// address where the text of the entry is one.
pub open spec fn read_views(entries: Seq<(String, Option<Address>)>) -> Seq<
    (Seq<char>, Option<Seq<char>>),
> {
    Seq::new(
        entries.len(),
        |i: int|
            (
                entries[i].0@,
                match entries[i].1 {
                    Some(address) => Some(address@),
                    None => None,
                },
            ),
    )
}

/// The entries whose text is an address, in their order.
pub open spec fn readable(entries: Seq<(Seq<char>, Option<Seq<char>>)>) -> Pairs
    decreases entries.len(),
{
    if entries.len() == 0 {
        Seq::empty()
    } else {
        match entries.last().1 {
            Some(address) => readable(entries.drop_last()).push((entries.last().0, address)),
            None => readable(entries.drop_last()),
        }
    }
}

/// Entries all of which were read as addresses.
pub open spec fn all_read(entries: Pairs) -> Seq<(Seq<char>, Option<Seq<char>>)> {
    Seq::new(entries.len(), |i: int| (entries[i].0, Some(entries[i].1)))
}

/// Where every text is an address no entry is skipped.
pub proof fn lemma_all_read(entries: Pairs)
    ensures
        readable(all_read(entries)) == entries,
    decreases entries.len(),
{
    if entries.len() > 0 {
        lemma_all_read(entries.drop_last());
        assert(all_read(entries).drop_last() == all_read(entries.drop_last()));
        assert(entries.drop_last().push(entries.last()) == entries);
    }
}

impl Default for DnsCache {
    fn default() -> (cache: DnsCache)
        ensures
            cache.entries() == Entries::empty(),
            cache.file() == "resolved.txt"@,
            holds_addresses(cache.entries()),
    {
        DnsCache::new("resolved.txt")
    }
}

/// A word: a text that is not empty and holds no white space.
#[verifier::opaque]
pub open spec fn is_word(s: Seq<char>) -> bool {
    s.len() > 0 && forall|i: int| 0 <= i < s.len() ==> !is_space(#[trigger] s[i])
}

/// The line of the cache file for an entry.
pub open spec fn entry_line(entry: (Seq<char>, Seq<char>)) -> Seq<char> {
    entry.0 + " "@ + entry.1
}

/// The lines of the cache file for a run of entries.
pub open spec fn entry_lines(entries: Pairs) -> Seq<Seq<char>> {
    Seq::new(entries.len(), |i: int| entry_line(entries[i]))
}

/// The text of an address is a word.
pub proof fn lemma_address_is_word(address: Seq<char>)
    requires
        is_address_text(address),
    ensures
        is_word(address),
{
    reveal(is_word);
    assert forall|i: int| 0 <= i < address.len() implies !is_space(#[trigger] address[i]) by {
        assert(crate::candidate::is_address_char(address[i]));
    }
}

proof fn lemma_skip_spaces_is(s: Seq<char>, from: int, at: int)
    requires
        0 <= from <= at <= s.len(),
        forall|k: int| from <= k < at ==> is_space(s[k]),
        at == s.len() || !is_space(s[at]),
    ensures
        skip_spaces(s, from) == at,
    decreases at - from,
{
    if from < at {
        lemma_skip_spaces_is(s, from + 1, at);
    }
}

proof fn lemma_word_end_is(s: Seq<char>, from: int, at: int)
    requires
        0 <= from <= at <= s.len(),
        forall|k: int| from <= k < at ==> !is_space(s[k]),
        at == s.len() || is_space(s[at]),
    ensures
        word_end(s, from) == at,
    decreases at - from,
{
    if from < at {
        lemma_word_end_is(s, from + 1, at);
    }
}

/// The line of an entry whose domain and address are words names that entry.
pub proof fn lemma_line_entry(domain: Seq<char>, address: Seq<char>)
    requires
        is_word(domain),
        is_word(address),
    ensures
        line_entry(entry_line((domain, address))) == Some((domain, address)),
        forall|k: int|
            0 <= k < entry_line((domain, address)).len() ==> entry_line((domain, address))[k]
                != '\n',
{
    reveal(is_word);
    reveal_strlit(" ");
    let line = entry_line((domain, address));
    let n = domain.len() as int;
    assert(" "@ == seq![' ']);
    assert(line.len() == n + 1 + address.len());
    assert forall|k: int| 0 <= k < n implies line[k] == domain[k] by {}
    assert(line[n] == ' ');
    assert forall|k: int| n < k < line.len() implies line[k] == address[k - n - 1] by {}
    assert(!is_space(domain[0]));
    assert(!is_space(address[0]));
    lemma_skip_spaces_is(line, 0, 0);
    assert forall|k: int| 0 <= k < n implies !is_space(line[k]) by {
        assert(!is_space(domain[k]));
    }
    lemma_word_end_is(line, 0, n);
    assert(line[n + 1] == address[0]);
    lemma_skip_spaces_is(line, n, n + 1);
    assert forall|k: int| n + 1 <= k < line.len() implies !is_space(line[k]) by {
        assert(!is_space(address[k - n - 1]));
    }
    lemma_word_end_is(line, n + 1, line.len() as int);
    assert(line.subrange(0, n) == domain);
    assert(line.subrange(n + 1, line.len() as int) == address);
    assert forall|k: int| 0 <= k < line.len() implies line[k] != '\n' by {
        if k < n {
            assert(!is_space(domain[k]));
        } else if k > n {
            assert(!is_space(address[k - n - 1]));
        }
    }
}

/// Splitting a text that was joined with the separator gives the pieces of
/// its two sides.
pub proof fn lemma_split_joined(x: Seq<char>, y: Seq<char>, sep: char)
    ensures
        split(x + seq![sep] + y, sep) == split(x, sep) + split(y, sep),
    decreases x.len(),
{
    let z = x + seq![sep] + y;
    let at = first_index(x, sep, 0);
    lemma_first_index(x, sep, 0);
    assert forall|k: int| 0 <= k < at implies z[k] != sep by {
        assert(z[k] == x[k]);
    }
    if at < x.len() {
        assert(z[at] == x[at]);
        lemma_first_index_is(z, sep, 0, at);
        assert(z.take(at) == x.take(at));
        assert(z.skip(at + 1) == x.skip(at + 1) + seq![sep] + y);
        lemma_split_joined(x.skip(at + 1), y, sep);
        assert(split(z, sep) == seq![x.take(at)] + (split(x.skip(at + 1), sep) + split(y, sep)));
        assert(split(x, sep) == seq![x.take(at)] + split(x.skip(at + 1), sep));
        assert(seq![x.take(at)] + (split(x.skip(at + 1), sep) + split(y, sep)) == (seq![
            x.take(at),
        ] + split(x.skip(at + 1), sep)) + split(y, sep));
    } else {
        assert(z[x.len() as int] == sep);
        lemma_first_index_is(z, sep, 0, x.len() as int);
        assert(z.take(x.len() as int) == x);
        assert(z.skip(x.len() as int + 1) == y);
        assert(split(z, sep) == seq![x] + split(y, sep));
        assert(split(x, sep) == seq![x]);
    }
}

/// Every domain and every address of the entries is a word.
#[verifier::opaque]
pub open spec fn all_words(entries: Pairs) -> bool {
    forall|i: int|
        0 <= i < entries.len() ==> is_word((#[trigger] entries[i]).0) && is_word(entries[i].1)
}

proof fn lemma_all_words_parts(entries: Pairs)
    requires
        all_words(entries),
        entries.len() > 0,
    ensures
        all_words(entries.drop_last()),
        all_words(entries.skip(1)),
        is_word(entries.last().0),
        is_word(entries.last().1),
        is_word(entries[0].0),
        is_word(entries[0].1),
{
    reveal(all_words);
    let head = entries.drop_last();
    let rest = entries.skip(1);
    assert forall|i: int| 0 <= i < head.len() implies is_word((#[trigger] head[i]).0) && is_word(
        head[i].1,
    ) by {
        assert(head[i] == entries[i]);
    }
    assert forall|i: int| 0 <= i < rest.len() implies is_word((#[trigger] rest[i]).0) && is_word(
        rest[i].1,
    ) by {
        assert(rest[i] == entries[i + 1]);
    }
    assert(is_word(entries[entries.len() - 1].0));
    assert(is_word(entries[0].0));
}

proof fn lemma_regroup(a: Seq<char>, n: Seq<char>, d: Seq<char>, s: Seq<char>, x: Seq<char>)
    ensures
        a + n + d + s + x == a + n + (d + s + x),
{
}

proof fn lemma_single_line(line: Seq<char>)
    requires
        forall|k: int| 0 <= k < line.len() ==> line[k] != '\n',
    ensures
        split(line, '\n') == seq![line],
{
    lemma_first_index_is(line, '\n', 0, line.len() as int);
}

proof fn lemma_file_text_step(entries: Pairs)
    requires
        entries.len() >= 2,
    ensures
        file_text(entries) == file_text(entries.drop_last()) + seq!['\n'] + entry_line(
            entries.last(),
        ),
{
    reveal_strlit("\n");
    assert("\n"@ == seq!['\n']);
    lemma_regroup(
        file_text(entries.drop_last()),
        "\n"@,
        entries.last().0,
        " "@,
        entries.last().1,
    );
}

proof fn lemma_entry_lines_step(entries: Pairs)
    requires
        entries.len() >= 1,
    ensures
        entry_lines(entries) == entry_lines(entries.drop_last()) + seq![entry_line(entries.last())],
        entry_lines(entries).skip(1) == entry_lines(entries.skip(1)),
        entry_lines(entries)[0] == entry_line(entries[0]),
{
}

/// The text of a cache file splits into the lines of its entries.
pub proof fn lemma_split_file_text(entries: Pairs)
    requires
        all_words(entries),
    ensures
        split(file_text(entries), '\n') == (if entries.len() == 0 {
            seq![Seq::<char>::empty()]
        } else {
            entry_lines(entries)
        }),
    decreases entries.len(),
{
    if entries.len() == 0 {
        assert(split(Seq::<char>::empty(), '\n') == seq![Seq::<char>::empty()]);
    } else {
        let last = entries.last();
        let line = entry_line(last);
        lemma_all_words_parts(entries);
        lemma_line_entry(last.0, last.1);
        lemma_single_line(line);
        lemma_entry_lines_step(entries);
        if entries.len() == 1 {
            assert(file_text(entries) == line);
            assert(entry_lines(entries.drop_last()) == Seq::<Seq<char>>::empty());
            assert(Seq::<Seq<char>>::empty() + seq![line] == seq![line]);
        } else {
            let head = entries.drop_last();
            lemma_split_file_text(head);
            lemma_file_text_step(entries);
            lemma_split_joined(file_text(head), line, '\n');
        }
    }
}

/// The lines of entries whose domains and addresses are words name those
/// entries.
pub proof fn lemma_line_entries(entries: Pairs)
    requires
        all_words(entries),
    ensures
        line_entries(entry_lines(entries)) == entries,
    decreases entries.len(),
{
    if entries.len() > 0 {
        let rest = entries.skip(1);
        lemma_all_words_parts(entries);
        lemma_line_entries(rest);
        lemma_line_entry(entries[0].0, entries[0].1);
        lemma_entry_lines_step(entries);
        assert(seq![entries[0]] + rest == entries);
    } else {
        assert(entry_lines(entries) == Seq::<Seq<char>>::empty());
    }
}

/// Reading the text of a cache file back gives the entries that it was written
/// from, where every domain and address is a word.
pub proof fn lemma_file_round_trip(entries: Pairs)
    requires
        all_words(entries),
    ensures
        file_entries(file_text(entries)) == entries,
{
    lemma_split_file_text(entries);
    if entries.len() == 0 {
        let blank = Seq::<char>::empty();
        let lines = seq![blank];
        assert(lines.skip(1) == Seq::<Seq<char>>::empty());
        assert(line_entry(blank) is None);
        assert(line_entries(lines) == line_entries(lines.skip(1)));
        assert(line_entries(Seq::<Seq<char>>::empty()) == Pairs::empty());
    } else {
        lemma_line_entries(entries);
    }
}

/// A cache that was loaded from entries with distinct domains holds exactly
/// those entries, all unused.
pub proof fn lemma_loaded(entries: Pairs)
    requires
        forall|i: int, j: int|
            0 <= i < j < entries.len() ==> (#[trigger] entries[i]).0 != (#[trigger] entries[j]).0,
    ensures
        forall|i: int|
            0 <= i < entries.len() ==> loaded(entries).contains_key((#[trigger] entries[i]).0)
                && loaded(entries)[entries[i].0] == (entries[i].1, false),
        forall|domain: Seq<char>| #[trigger]
            loaded(entries).contains_key(domain) ==> exists|i: int|
                0 <= i < entries.len() && (#[trigger] entries[i]).0 == domain,
    decreases entries.len(),
{
    if entries.len() > 0 {
        let head = entries.drop_last();
        let last = entries.last();
        assert forall|i: int, j: int| 0 <= i < j < head.len() implies (#[trigger] head[i]).0 != (
        #[trigger] head[j]).0 by {
            assert(head[i] == entries[i] && head[j] == entries[j]);
        }
        lemma_loaded(head);
        assert forall|i: int| 0 <= i < entries.len() implies loaded(entries).contains_key(
            (#[trigger] entries[i]).0,
        ) && loaded(entries)[entries[i].0] == (entries[i].1, false) by {
            if i < head.len() {
                assert(head[i] == entries[i]);
                assert(entries[i].0 != entries[entries.len() - 1].0);
            }
        }
        assert forall|domain: Seq<char>| #[trigger]
            loaded(entries).contains_key(domain) implies exists|i: int|
            0 <= i < entries.len() && (#[trigger] entries[i]).0 == domain by {
            if domain == last.0 {
                assert(entries[entries.len() - 1].0 == domain);
            } else {
                assert(loaded(head).contains_key(domain));
                let i = choose|i: int| 0 <= i < head.len() && (#[trigger] head[i]).0 == domain;
                assert(entries[i] == head[i]);
            }
        }
    }
}

/// The round trip of the cache through its file.
///
/// Take what a cache holds, which is addresses whatever its history, and let
/// its used entries have words for domains. Take any text that
/// [`DnsCache::save`] may write for it. Reading that text back with
/// [`DnsCache::read_entries`] gives the used entries as they were written.
/// Where the text of each of them is read as the address it stands for, a
/// cache loaded from them holds exactly the domains that were used, each with
/// its address and marked unused. A domain that the run never asked for is
/// gone.
pub proof fn lemma_cache_round_trip(entries: Entries, order: Pairs)
    requires
        lists_used(order, entries),
        holds_addresses(entries),
        forall|domain: Seq<char>| #[trigger]
            entries.contains_key(domain) && entries[domain].1 ==> is_word(domain),
    ensures
        file_entries(file_text(order)) == order,
        readable(all_read(file_entries(file_text(order)))) == order,
        forall|domain: Seq<char>| #[trigger]
            loaded(order).contains_key(domain) <==> entries.contains_key(domain)
                && entries[domain].1,
        forall|domain: Seq<char>| #[trigger]
            loaded(order).contains_key(domain) ==> loaded(order)[domain] == (
                entries[domain].0,
                false,
            ),
{
    lemma_all_read(order);
    assert(all_words(order)) by {
        reveal(all_words);
        assert forall|i: int| 0 <= i < order.len() implies is_word((#[trigger] order[i]).0)
            && is_word(order[i].1) by {
            assert(entries.contains_key(order[i].0));
            lemma_address_is_word(order[i].1);
        }
    }
    lemma_file_round_trip(order);
    lemma_loaded(order);
    assert forall|domain: Seq<char>| #[trigger]
        loaded(order).contains_key(domain) implies entries.contains_key(domain)
        && entries[domain].1 && loaded(order)[domain] == (entries[domain].0, false) by {
        let i = choose|i: int| 0 <= i < order.len() && (#[trigger] order[i]).0 == domain;
        assert(entries.contains_key(order[i].0));
    }
    assert forall|domain: Seq<char>| #[trigger]
        entries.contains_key(domain) && entries[domain].1 implies loaded(order).contains_key(
        domain,
    ) by {
        let i = choose|i: int| 0 <= i < order.len() && (#[trigger] order[i]).0 == domain;
        assert(loaded(order).contains_key(order[i].0));
    }
}

} // verus!
