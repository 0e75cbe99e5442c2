//! The decisions of the checking pipeline: how a host is resolved, which
//! resolved endpoints are one and the same, what a series of probes says of an
//! endpoint, how the survivors are cut into chunks, and how the verified
//! endpoints are ranked and reported.
//!
//! The pipeline itself, which waits for the network and for the forwarding
//! engine, is the caller's. It hands each outcome to these functions and does
//! what they answer.

use crate::candidate::{Address, Host, HostName, Parts};
use crate::dns_cache::{DnsCache, Entries};
use crate::json::Json;
use crate::proxy_config::{entity_from, Entity, ProxyConfig};
use crate::text::{decimal, lowercase, lowercase_of, push_decimal, push_text, text_of};
use crate::xray_config::{entities, inbounds, lemma_listener_ports};
use vstd::prelude::*;

verus! {

/// Why a host could not be resolved.
#[derive(Debug, Clone, Copy, PartialEq, Eq)]
pub enum ResolveError {
    /// The descriptor names no host.
    NoHost,
    /// The name has to be looked up, and the descriptor names no port.
    NoPort,
}

impl ResolveError {
    /// The error in words.
    pub open spec fn text(self) -> Seq<char> {
        match self {
            ResolveError::NoHost => "URL has no host"@,
            ResolveError::NoPort => "Port required for DNS lookup"@,
        }
    }

    /// The error in words.
    pub fn message(&self) -> (words: &'static str)
        ensures
            words@ == self.text(),
    {
        match self {
            ResolveError::NoHost => "URL has no host",
            ResolveError::NoPort => "Port required for DNS lookup",
        }
    }
}

/// What to do next about a host.
#[derive(Debug, PartialEq, Eq)]
pub enum Resolution {
    /// The address is known.
    Resolved(Address),
    /// The name, in lower case, has to be looked up with the given port; the
    /// answer goes to [`record_resolution`].
    Lookup { domain: String, port: u16 },
    /// The candidate is dropped.
    Failed(ResolveError),
}

/// The name under which a host is looked up: its domain in lower case. A host
/// that is an address, and a missing host, have none.
pub open spec fn lookup_name(host: Option<HostName>) -> Option<Seq<char>> {
    match host {
        Some(HostName::Domain(name)) => Some(lowercase_of(name)),
        _ => None,
    }
}

/// The name under which a host is looked up, where it has one.
pub fn host_name(host: &Option<Host>) -> (name: Option<String>)
    ensures
        match name {
            Some(n) => lookup_name(host_view(*host)) == Some(n@),
            None => lookup_name(host_view(*host)) is None,
        },
{
    match host {
        Some(Host::Domain(name)) => Some(lowercase(name.as_str())),
        _ => None,
    }
}

impl Clone for Resolution {
    fn clone(&self) -> (copy: Resolution)
        ensures
            copy@ == self@,
    {
        match self {
            Resolution::Resolved(address) => Resolution::Resolved(address.clone()),
            Resolution::Lookup { domain, port } => Resolution::Lookup {
                domain: domain.clone(),
                port: *port,
            },
            Resolution::Failed(error) => Resolution::Failed(*error),
        }
    }
}

/// What a resolution holds.
pub enum Outcome {
    Resolved(Seq<char>),
    Lookup(Seq<char>, u16),
    Failed(ResolveError),
}

impl View for Resolution {
    type V = Outcome;

    open spec fn view(&self) -> Outcome {
        match self {
            Resolution::Resolved(address) => Outcome::Resolved(address@),
            Resolution::Lookup { domain, port } => Outcome::Lookup(domain@, *port),
            Resolution::Failed(error) => Outcome::Failed(*error),
        }
    }
}

/// What a host holds, where there is one.
pub open spec fn host_view(host: Option<Host>) -> Option<HostName> {
    match host {
        Some(h) => Some(h@),
        None => None,
    }
}

/// What an address holds, where there is one.
pub open spec fn address_view(address: Option<Address>) -> Option<Seq<char>> {
    match address {
        Some(a) => Some(a@),
        None => None,
    }
}

/// How a host is resolved against a cache, and what the cache holds after.
///
/// No host fails the candidate. An address stands for itself, and so does a
/// name that spells an address out. Any other name is looked up in the cache
/// in lower case: a hit gives the address and marks the entry used; a miss
/// asks for a lookup with the port of the candidate and fails the candidate
/// where it names none.
pub open spec fn resolved(
    host: Option<HostName>,
    port: Option<u16>,
    literal: Option<Seq<char>>,
    entries: Entries,
) -> (Outcome, Entries) {
    match host {
        None => (Outcome::Failed(ResolveError::NoHost), entries),
        Some(HostName::Literal(address)) => (Outcome::Resolved(address), entries),
        Some(HostName::Domain(name)) => match literal {
            Some(address) => (Outcome::Resolved(address), entries),
            None => if entries.contains_key(lowercase_of(name)) {
                let cached = entries[lowercase_of(name)].0;
                (Outcome::Resolved(cached), entries.insert(lowercase_of(name), (cached, true)))
            } else {
                match port {
                    Some(p) => (Outcome::Lookup(lowercase_of(name), p), entries),
                    None => (Outcome::Failed(ResolveError::NoPort), entries),
                }
            },
        },
    }
}

/// Decides how the host of a candidate is resolved.
///
/// `literal` is the address that the lookup name of the host spells out, where
/// it spells one.
pub fn resolve_host(
    host: &Option<Host>,
    port: Option<u16>,
    literal: Option<Address>,
    dns_cache: &mut DnsCache,
) -> (next: Resolution)
    ensures
        final(dns_cache).file() == old(dns_cache).file(),
        (next@, final(dns_cache).entries()) == resolved(
            host_view(*host),
            port,
            address_view(literal),
            old(dns_cache).entries(),
        ),
{
    match host {
        None => Resolution::Failed(ResolveError::NoHost),
        Some(Host::Literal(address)) => Resolution::Resolved(address.clone()),
        Some(Host::Domain(name)) => {
            let domain = lowercase(name.as_str());
            match literal {
                Some(address) => Resolution::Resolved(address),
                None => match dns_cache.get(domain.as_str()) {
                    Some(address) => Resolution::Resolved(address),
                    None => match port {
                        Some(port) => Resolution::Lookup { domain, port },
                        None => Resolution::Failed(ResolveError::NoPort),
                    },
                },
            }
        },
    }
}

/// Stores the address that a lookup found for a name, marked used, and hands
/// the address back.
pub fn record_resolution(dns_cache: &mut DnsCache, domain: String, address: Address) -> (resolved:
    Address)
    ensures
        resolved@ == address@,
        final(dns_cache).file() == old(dns_cache).file(),
        final(dns_cache).entries() == old(dns_cache).entries().insert(domain@, (address@, true)),
{
    let resolved = address.clone();
    dns_cache.insert(domain, address);
    resolved
}

/// Some endpoint of `kept` is the same endpoint as `e`.
pub open spec fn known(kept: Seq<Entity>, e: Entity) -> bool {
    exists|i: int| 0 <= i < kept.len() && (#[trigger] kept[i]).identity() == e.identity()
}

/// The endpoints without those that are the same endpoint as an earlier one.
pub open spec fn deduplicated(all: Seq<Entity>) -> Seq<Entity>
    decreases all.len(),
{
    if all.len() == 0 {
        Seq::empty()
    } else {
        let kept = deduplicated(all.drop_last());
        if known(kept, all.last()) {
            kept
        } else {
            kept.push(all.last())
        }
    }
}

/// What is left after deduplication holds no endpoint twice, holds every
/// endpoint that came through one that is the same, and holds nothing that did
/// not come.
pub proof fn lemma_deduplicated(all: Seq<Entity>)
    ensures
        forall|i: int, j: int|
            0 <= i < j < deduplicated(all).len() ==> (#[trigger] deduplicated(all)[i]).identity()
                != (#[trigger] deduplicated(all)[j]).identity(),
        forall|i: int| 0 <= i < all.len() ==> known(deduplicated(all), #[trigger] all[i]),
        forall|k: int|
            0 <= k < deduplicated(all).len() ==> all.contains(#[trigger] deduplicated(all)[k]),
    decreases all.len(),
{
    if all.len() > 0 {
        let head = all.drop_last();
        let last = all.last();
        lemma_deduplicated(head);
        let before = deduplicated(head);
        let after = deduplicated(all);
        assert forall|i: int| 0 <= i < all.len() implies known(after, #[trigger] all[i]) by {
            if i < head.len() {
                assert(head[i] == all[i]);
                let k = choose|k: int|
                    0 <= k < before.len() && (#[trigger] before[k]).identity()
                        == head[i].identity();
                assert(after[k] == before[k]);
            } else if known(before, last) {
            } else {
                assert(after[after.len() - 1] == last);
            }
        }
        assert forall|k: int| 0 <= k < after.len() implies all.contains(#[trigger] after[k]) by {
            if k < before.len() {
                assert(after[k] == before[k]);
                let i = choose|i: int| 0 <= i < head.len() && head[i] == before[k];
                assert(all[i] == head[i]);
            } else {
                assert(all[all.len() - 1] == after[k]);
            }
        }
        assert forall|i: int, j: int| 0 <= i < j < after.len() implies (
        #[trigger] after[i]).identity() != (#[trigger] after[j]).identity() by {
            assert(after[i] == before[i]);
            if j < before.len() {
                assert(after[j] == before[j]);
            }
        }
    }
}

/// Two endpoints that agree on address, port, protocol, `sni`, `pbk`, `extra`
/// and credential collapse to the first of them, whatever else they hold.
pub proof fn lemma_same_endpoint_collapses(a: Entity, b: Entity)
    requires
        a.identity() == b.identity(),
    ensures
        deduplicated(seq![a, b]) == seq![a],
{
    let both = seq![a, b];
    assert(both.drop_last() == seq![a]);
    assert(seq![a].drop_last() == Seq::<Entity>::empty());
    assert(deduplicated(Seq::<Entity>::empty()) == Seq::<Entity>::empty());
    assert(!known(Seq::<Entity>::empty(), a));
    assert(deduplicated(seq![a]) == Seq::<Entity>::empty().push(a));
    assert(Seq::<Entity>::empty().push(a) == seq![a]);
    assert(seq![a][0].identity() == b.identity());
    assert(known(seq![a], b));
}

/// The host of a candidate leaves no trace in its endpoint: two candidates
/// that differ in nothing but their hosts and resolve to one address are the
/// same endpoint, and of the two one is left.
pub proof fn lemma_same_address_collapses(first: Parts, second: Parts, address: Seq<char>)
    requires
        first.scheme == second.scheme,
        first.username == second.username,
        first.port == second.port,
        first.query == second.query,
    ensures
        entity_from(first, address) == entity_from(second, address),
        deduplicated(seq![entity_from(first, address), entity_from(second, address)]).len() == 1,
{
    lemma_same_endpoint_collapses(entity_from(first, address), entity_from(second, address));
}

/// What a run of endpoints with one more endpoint holds.
pub proof fn lemma_entities_push(v: Seq<ProxyConfig>, p: ProxyConfig)
    ensures
        entities(v.push(p)) == entities(v).push(p@),
{
}

/// Collapses the resolved endpoints that are one and the same: of each
/// identity the first endpoint stays, in the order of arrival.
pub fn deduplicate(resolved: Vec<ProxyConfig>) -> (kept: Vec<ProxyConfig>)
    ensures
        entities(kept@) == deduplicated(entities(resolved@)),
{
    let ghost all = entities(resolved@);
    let mut kept: Vec<ProxyConfig> = Vec::new();
    let mut i: usize = 0;
    while i < resolved.len()
        invariant
            i <= resolved.len(),
            all == entities(resolved@),
            entities(kept@) == deduplicated(all.take(i as int)),
        decreases resolved.len() - i,
    {
        proof {
            assert(all.take(i + 1).drop_last() == all.take(i as int));
        }
        let mut found = false;
        let mut k: usize = 0;
        while k < kept.len() && !found
            invariant
                k <= kept.len(),
                i < resolved.len(),
                found ==> known(entities(kept@), resolved@[i as int]@),
                !found ==> forall|j: int|
                    0 <= j < k ==> (#[trigger] entities(kept@)[j]).identity()
                        != resolved@[i as int]@.identity(),
            decreases kept.len() - k + (if found { 0int } else { 1int }),
        {
            if kept[k].same_endpoint(&resolved[i]) {
                assert(entities(kept@)[k as int].identity() == resolved@[i as int]@.identity());
                found = true;
            } else {
                k += 1;
            }
        }
        if !found {
            let copy = resolved[i].clone();
            proof {
                lemma_entities_push(kept@, copy);
            }
            kept.push(copy);
        }
        i += 1;
    }
    proof {
        assert(all.take(resolved.len() as int) == all);
    }
    kept
}

/// Nanoseconds in a millisecond.
pub const NANOS_PER_MILLI: u64 = 1_000_000;

/// Whether a probe counts: an answer came, and within fewer whole
/// milliseconds than the timeout allows.
pub open spec fn counts(sample: Option<u64>, timeout_ms: u128) -> bool {
    sample matches Some(nanos) && nanos / NANOS_PER_MILLI < timeout_ms
}

/// The number of probes that count.
pub open spec fn successes(samples: Seq<Option<u64>>, timeout_ms: u128) -> nat
    decreases samples.len(),
{
    if samples.len() == 0 {
        0
    } else {
        successes(samples.drop_last(), timeout_ms) + if counts(samples.last(), timeout_ms) {
            1nat
        } else {
            0nat
        }
    }
}

/// The sum of the round-trip times of the probes that count.
pub open spec fn total_time(samples: Seq<Option<u64>>, timeout_ms: u128) -> nat
    decreases samples.len(),
{
    if samples.len() == 0 {
        0
    } else {
        total_time(samples.drop_last(), timeout_ms) + if counts(samples.last(), timeout_ms) {
            samples.last()->0 as nat
        } else {
            0nat
        }
    }
}

/// The latency that a series of probes shows: the mean round-trip time of the
/// probes that count, in whole nanoseconds. A series without such a probe
/// shows none.
pub open spec fn mean_latency(samples: Seq<Option<u64>>, timeout_ms: u128) -> Option<u64> {
    if successes(samples, timeout_ms) == 0 {
        None
    } else {
        Some((total_time(samples, timeout_ms) / successes(samples, timeout_ms)) as u64)
    }
}

/// No more probes count than there are, and their round-trip times sum to at
/// most that many times the longest time there can be.
pub proof fn lemma_total_time_bound(samples: Seq<Option<u64>>, timeout_ms: u128)
    ensures
        successes(samples, timeout_ms) <= samples.len(),
        total_time(samples, timeout_ms) <= successes(samples, timeout_ms) * u64::MAX,
    decreases samples.len(),
{
    if samples.len() > 0 {
        lemma_total_time_bound(samples.drop_last(), timeout_ms);
        assert((successes(samples.drop_last(), timeout_ms) + 1) * u64::MAX == successes(
            samples.drop_last(),
            timeout_ms,
        ) * u64::MAX + u64::MAX) by (nonlinear_arith);
    }
}

/// The latency that a series of probes shows. Each sample is the round-trip
/// time of one probe in nanoseconds, or nothing where no answer came.
pub fn average_ping(samples: &[Option<u64>], timeout_ms: u128) -> (latency: Option<u64>)
    ensures
        latency == mean_latency(samples@, timeout_ms),
{
    let mut total: u128 = 0;
    let mut count: u64 = 0;
    let mut i: usize = 0;
    while i < samples.len()
        invariant
            i <= samples.len(),
            count == successes(samples@.take(i as int), timeout_ms),
            total == total_time(samples@.take(i as int), timeout_ms),
        decreases samples.len() - i,
    {
        proof {
            assert(samples@.take(i + 1).drop_last() == samples@.take(i as int));
            lemma_total_time_bound(samples@.take(i as int), timeout_ms);
            assert(successes(samples@.take(i as int), timeout_ms) * u64::MAX <= i * u64::MAX)
                by (nonlinear_arith)
                requires
                    successes(samples@.take(i as int), timeout_ms) <= i,
            ;
            assert(i * u64::MAX + u64::MAX <= u128::MAX) by (nonlinear_arith)
                requires
                    i <= usize::MAX,
                    usize::MAX <= u64::MAX,
            ;
        }
        match samples[i] {
            Some(nanos) => {
                if ((nanos / NANOS_PER_MILLI) as u128) < timeout_ms {
                    total = total + nanos as u128;
                    count = count + 1;
                }
            },
            None => {},
        }
        i += 1;
    }
    proof {
        assert(samples@.take(samples.len() as int) == samples@);
        lemma_total_time_bound(samples@, timeout_ms);
    }
    if count == 0 {
        None
    } else {
        proof {
            assert(total / (count as u128) <= u64::MAX) by (nonlinear_arith)
                requires
                    total <= count * u64::MAX,
                    count > 0,
            ;
        }
        Some((total / (count as u128)) as u64)
    }
}

/// An endpoint with a latency.
pub open spec fn with_ping(e: Entity, ping: u64) -> Entity {
    Entity {
        address: e.address,
        port: e.port,
        protocol: e.protocol,
        params: e.params,
        username: e.username,
        ping,
    }
}

/// Records what a series of probes says of an endpoint: the endpoint with the
/// latency that the series shows, or nothing where the endpoint is dropped.
pub fn apply_probes(proxy: ProxyConfig, samples: &[Option<u64>], timeout_ms: u128) -> (probed:
    Option<ProxyConfig>)
    ensures
        match mean_latency(samples@, timeout_ms) {
            Some(ping) => probed matches Some(p) && p@ == with_ping(proxy@, ping),
            None => probed is None,
        },
{
    match average_ping(samples, timeout_ms) {
        Some(ping) => {
            let mut probed = proxy;
            probed.ping = ping;
            Some(probed)
        },
        None => None,
    }
}

/// The two passes of probing for a configured number of probes: one probe
/// first, then the rest for those that answered. No probing at all where the
/// number is zero.
pub fn probe_passes(ping_count: usize) -> (passes: Option<(usize, usize)>)
    ensures
        passes == (if ping_count > 0 {
            Some((1usize, (ping_count - 1) as usize))
        } else {
            None
        }),
{
    if ping_count > 0 {
        Some((1, ping_count - 1))
    } else {
        None
    }
}

/// Whether a pause is due between the probes of one endpoint.
pub fn pause_between_probes(ping_count: usize) -> (pause: bool)
    ensures
        pause == (ping_count > 1),
{
    ping_count > 1
}

/// A chunk of the survivors: the positions `start..end`, and the local port of
/// the first of them.
#[derive(Debug, Clone, Copy, PartialEq, Eq)]
pub struct Chunk {
    pub start: usize,
    pub end: usize,
    pub base_port: usize,
}

impl Chunk {
    /// Where the chunk begins, where it ends, and its first port.
    pub open spec fn bounds(self) -> (nat, nat, nat) {
        (self.start as nat, self.end as nat, self.base_port as nat)
    }

    /// The local port of the endpoint at a position of the chunk: the first
    /// port of the chunk plus the position. A position behind the end of the
    /// chunk has no port, nor has one whose port would be no number of the
    /// machine.
    pub open spec fn listener(self, position: usize) -> Option<usize> {
        if self.start + position < self.end && self.base_port + position <= usize::MAX {
            Some((self.base_port + position) as usize)
        } else {
            None
        }
    }

    /// The local port through which the endpoint at a position of the chunk is
    /// reached.
    pub fn listener_port(&self, position: usize) -> (port: Option<usize>)
        ensures
            port == self.listener(position),
    {
        if self.start < self.end && position < self.end - self.start {
            self.base_port.checked_add(position)
        } else {
            None
        }
    }
}

/// The port that a chunk gives to a position is the port on which the
/// listener of that position listens in the document of the chunk.
pub proof fn lemma_listener_port(chunk: Chunk, members: Seq<Entity>, position: usize)
    requires
        members.len() == chunk.end - chunk.start,
        chunk.listener(position) is Some,
    ensures
        inbounds(members, chunk.base_port as nat)[position as int].members()["port"@] == Json::Int(
            chunk.listener(position)->0 as int,
        ),
{
    lemma_listener_ports(members, chunk.base_port as nat, position as int);
}

/// The number of chunks of `chunk_size` that `len` endpoints fill.
pub open spec fn chunk_count(len: nat, chunk_size: nat) -> nat {
    if chunk_size == 0 {
        0
    } else {
        ((len + chunk_size - 1) / chunk_size as int) as nat
    }
}

/// The chunk at a position: `chunk_size` endpoints from `index * chunk_size`
/// on, fewer in the last chunk; its ports start at
/// `base_start_port + index * chunk_size`.
pub open spec fn chunk_at(len: nat, chunk_size: nat, base_start_port: nat, index: nat) -> (
    nat,
    nat,
    nat,
) {
    (
        index * chunk_size,
        if (index + 1) * chunk_size < len {
            (index + 1) * chunk_size
        } else {
            len
        },
        base_start_port + index * chunk_size,
    )
}

/// Cuts `len` survivors into chunks of `chunk_size`, in their order, and gives
/// each chunk its range of local ports: one port per endpoint, by position.
pub fn plan_chunks(len: usize, chunk_size: usize, base_start_port: usize) -> (chunks: Vec<Chunk>)
    requires
        chunk_size > 0,
        base_start_port + len <= usize::MAX,
    ensures
        chunks.len() == chunk_count(len as nat, chunk_size as nat),
        forall|i: int|
            0 <= i < chunks.len() ==> (#[trigger] chunks[i]).bounds() == chunk_at(
                len as nat,
                chunk_size as nat,
                base_start_port as nat,
                i as nat,
            ),
{
    let mut chunks: Vec<Chunk> = Vec::new();
    let mut start: usize = 0;
    proof {
        assert(0 * chunk_size == 0) by (nonlinear_arith);
        assert((0 + chunk_size - 1) / chunk_size as int == 0) by (nonlinear_arith)
            requires
                chunk_size > 0,
        ;
    }
    while start < len
        invariant
            chunk_size > 0,
            base_start_port + len <= usize::MAX,
            start <= len,
            start < len ==> start == chunks.len() * chunk_size,
            chunks.len() == chunk_count(start as nat, chunk_size as nat),
            forall|i: int|
                0 <= i < chunks.len() ==> (#[trigger] chunks[i]).bounds() == chunk_at(
                    len as nat,
                    chunk_size as nat,
                    base_start_port as nat,
                    i as nat,
                ),
        decreases len - start,
    {
        let end = if len - start > chunk_size {
            start + chunk_size
        } else {
            len
        };
        let ghost index = chunks.len() as int;
        proof {
            assert((index + 1) * chunk_size == index * chunk_size + chunk_size)
                by (nonlinear_arith);
            lemma_chunk_count_step(start as nat, len as nat, chunk_size as nat, index as nat);
        }
        chunks.push(Chunk { start, end, base_port: base_start_port + start });
        start = end;
    }
    chunks
}

/// The chunks cut the survivors without gap or overlap: the first chunk
/// begins at the first survivor, each chunk begins where the one before it
/// ends, the last chunk ends at the last survivor, and no chunk is empty or
/// longer than `chunk_size`. The port of every chunk is `base_start_port` plus
/// the position at which the chunk begins, so that an endpoint at position `p`
/// listens on `base_start_port + p`, and no two endpoints share a port.
pub proof fn lemma_chunks_partition(len: nat, chunk_size: nat, base_start_port: nat, index: nat)
    requires
        chunk_size > 0,
        index < chunk_count(len, chunk_size),
    ensures
        chunk_at(len, chunk_size, base_start_port, index).0 < chunk_at(
            len,
            chunk_size,
            base_start_port,
            index,
        ).1 <= len,
        chunk_at(len, chunk_size, base_start_port, index).1 - chunk_at(
            len,
            chunk_size,
            base_start_port,
            index,
        ).0 <= chunk_size,
        chunk_at(len, chunk_size, base_start_port, index).2 == base_start_port + chunk_at(
            len,
            chunk_size,
            base_start_port,
            index,
        ).0,
        index == 0 ==> chunk_at(len, chunk_size, base_start_port, index).0 == 0,
        index + 1 < chunk_count(len, chunk_size) ==> chunk_at(
            len,
            chunk_size,
            base_start_port,
            index + 1,
        ).0 == chunk_at(len, chunk_size, base_start_port, index).1,
        index + 1 == chunk_count(len, chunk_size) ==> chunk_at(
            len,
            chunk_size,
            base_start_port,
            index,
        ).1 == len,
{
    let count = chunk_count(len, chunk_size);
    assert(index * chunk_size < len && (index + 1 < count ==> (index + 1) * chunk_size < len) && (
    index + 1 == count ==> (index + 1) * chunk_size >= len) && (index + 1) * chunk_size == index
        * chunk_size + chunk_size && (index == 0 ==> index * chunk_size == 0))
        by (nonlinear_arith)
        requires
            chunk_size > 0,
            count == (len + chunk_size - 1) / chunk_size as int,
            index < count,
    ;
}

proof fn lemma_chunk_count_step(start: nat, len: nat, chunk_size: nat, index: nat)
    requires
        chunk_size > 0,
        start == index * chunk_size,
        start < len,
    ensures
        chunk_count(start, chunk_size) == index,
        chunk_count(
            if start + chunk_size < len {
                start + chunk_size
            } else {
                len
            },
            chunk_size,
        ) == index + 1,
{
    assert((index * chunk_size + chunk_size - 1) / chunk_size as int == index)
        by (nonlinear_arith)
        requires
            chunk_size > 0,
    ;
    let next = if start + chunk_size < len {
        start + chunk_size
    } else {
        len
    };
    assert((next + chunk_size - 1) / chunk_size as int == index + 1) by (nonlinear_arith)
        requires
            chunk_size > 0,
            index * chunk_size < next,
            next <= index * chunk_size + chunk_size,
    ;
}

/// What to do with a chunk once its document was asked for and its engine was
/// given time to come up.
#[derive(Debug, Clone, Copy, PartialEq, Eq)]
pub enum ChunkStep {
    /// The chunk yields no verified endpoint; the pipeline goes on with the
    /// next chunk.
    Skip,
    /// The endpoints of the chunk are verified through the engine.
    Verify,
}

/// Decides what to do with a chunk. A chunk whose document could not be
/// compiled is skipped, and so is a chunk whose engine has exited before the
/// first request; neither ends the run. Any other chunk is verified.
pub fn chunk_step(compiled: bool, engine_exited: bool) -> (step: ChunkStep)
    ensures
        step == (if compiled && !engine_exited {
            ChunkStep::Verify
        } else {
            ChunkStep::Skip
        }),
{
    if compiled && !engine_exited {
        ChunkStep::Verify
    } else {
        ChunkStep::Skip
    }
}

/// The endpoints of a chunk that were verified: those whose request through
/// the forwarding engine succeeded, in their order. A position without a
/// verdict counts as failed.
pub open spec fn verified_of(chunk: Seq<Entity>, verdicts: Seq<bool>) -> Seq<Entity>
    decreases chunk.len(),
{
    if chunk.len() == 0 {
        Seq::empty()
    } else {
        let rest = verified_of(chunk.drop_last(), verdicts);
        if chunk.len() <= verdicts.len() && verdicts[chunk.len() - 1] {
            rest.push(chunk.last())
        } else {
            rest
        }
    }
}

/// Keeps the endpoints of a chunk that were verified.
pub fn select_verified(chunk: &[ProxyConfig], verdicts: &[bool]) -> (verified: Vec<ProxyConfig>)
    ensures
        entities(verified@) == verified_of(entities(chunk@), verdicts@),
{
    let ghost all = entities(chunk@);
    let mut verified: Vec<ProxyConfig> = Vec::new();
    let mut i: usize = 0;
    while i < chunk.len()
        invariant
            i <= chunk.len(),
            all == entities(chunk@),
            entities(verified@) == verified_of(all.take(i as int), verdicts@),
        decreases chunk.len() - i,
    {
        proof {
            assert(all.take(i + 1).drop_last() == all.take(i as int));
        }
        if i < verdicts.len() && verdicts[i] {
            let copy = chunk[i].clone();
            proof {
                lemma_entities_push(verified@, copy);
            }
            verified.push(copy);
        }
        i += 1;
    }
    proof {
        assert(all.take(chunk.len() as int) == all);
    }
    verified
}

/// The place of a new latency among endpoints in ascending order: behind
/// every endpoint that is no slower, at or after `from`.
pub open spec fn rank_position(sorted: Seq<Entity>, ping: u64, from: int) -> int
    decreases sorted.len() - from,
{
    if from < 0 || from >= sorted.len() {
        sorted.len() as int
    } else if sorted[from].ping > ping {
        from
    } else {
        rank_position(sorted, ping, from + 1)
    }
}

/// The endpoints in ascending order of latency; endpoints of the same latency
/// keep the order in which they came.
pub open spec fn ranked(all: Seq<Entity>) -> Seq<Entity>
    decreases all.len(),
{
    if all.len() == 0 {
        Seq::empty()
    } else {
        let sorted = ranked(all.drop_last());
        sorted.insert(rank_position(sorted, all.last().ping, 0), all.last())
    }
}

/// No endpoint is slower than one behind it.
pub open spec fn ascending(s: Seq<Entity>) -> bool {
    forall|i: int, j: int| 0 <= i < j < s.len() ==> s[i].ping <= s[j].ping
}

/// Before the place of a new latency no endpoint is slower, and the endpoint
/// at the place, where there is one, is slower.
pub proof fn lemma_rank_position(sorted: Seq<Entity>, ping: u64, from: int)
    requires
        0 <= from <= sorted.len(),
    ensures
        from <= rank_position(sorted, ping, from) <= sorted.len(),
        forall|k: int| from <= k < rank_position(sorted, ping, from) ==> sorted[k].ping <= ping,
        rank_position(sorted, ping, from) < sorted.len() ==> sorted[rank_position(
            sorted,
            ping,
            from,
        )].ping > ping,
    decreases sorted.len() - from,
{
    if from < sorted.len() && sorted[from].ping <= ping {
        lemma_rank_position(sorted, ping, from + 1);
    }
}

/// Ranking puts the endpoints in ascending order of latency and neither loses
/// nor invents one.
pub proof fn lemma_ranked(all: Seq<Entity>)
    ensures
        ascending(ranked(all)),
        ranked(all).len() == all.len(),
        ranked(all).to_multiset() == all.to_multiset(),
    decreases all.len(),
{
    broadcast use vstd::seq_lib::group_to_multiset_ensures;

    if all.len() > 0 {
        let head = all.drop_last();
        let last = all.last();
        lemma_ranked(head);
        let sorted = ranked(head);
        let at = rank_position(sorted, last.ping, 0);
        lemma_rank_position(sorted, last.ping, 0);
        let after = sorted.insert(at, last);
        assert forall|i: int, j: int| 0 <= i < j < after.len() implies after[i].ping
            <= after[j].ping by {
            if j < at {
                assert(after[i] == sorted[i] && after[j] == sorted[j]);
            } else if j == at {
                assert(after[i] == sorted[i]);
            } else if i < at {
                assert(after[i] == sorted[i] && after[j] == sorted[j - 1]);
            } else if i == at {
                assert(after[j] == sorted[j - 1]);
            } else {
                assert(after[i] == sorted[i - 1] && after[j] == sorted[j - 1]);
            }
        }
        assert(all == head.push(last));
        vstd::seq_lib::lemma_multiset_commutative(sorted.take(at), seq![last]);
        assert(after == sorted.take(at) + seq![last] + sorted.skip(at));
        assert(sorted == sorted.take(at) + sorted.skip(at));
        vstd::seq_lib::lemma_multiset_commutative(sorted.take(at) + seq![last], sorted.skip(at));
        vstd::seq_lib::lemma_multiset_commutative(sorted.take(at), sorted.skip(at));
        assert(seq![last].to_multiset() == Seq::<Entity>::empty().push(last).to_multiset());
    }
}

/// The endpoints of one latency, in their order.
pub open spec fn at_latency(s: Seq<Entity>, ping: u64) -> Seq<Entity>
    decreases s.len(),
{
    if s.len() == 0 {
        Seq::empty()
    } else if s.last().ping == ping {
        at_latency(s.drop_last(), ping).push(s.last())
    } else {
        at_latency(s.drop_last(), ping)
    }
}

proof fn lemma_at_latency_joined(a: Seq<Entity>, b: Seq<Entity>, ping: u64)
    ensures
        at_latency(a + b, ping) == at_latency(a, ping) + at_latency(b, ping),
    decreases b.len(),
{
    if b.len() == 0 {
        assert(a + b == a);
    } else {
        lemma_at_latency_joined(a, b.drop_last(), ping);
        assert((a + b).drop_last() == a + b.drop_last());
        assert((a + b).last() == b.last());
    }
}

proof fn lemma_at_latency_none(s: Seq<Entity>, ping: u64)
    requires
        forall|i: int| 0 <= i < s.len() ==> s[i].ping != ping,
    ensures
        at_latency(s, ping) == Seq::<Entity>::empty(),
    decreases s.len(),
{
    if s.len() > 0 {
        assert forall|i: int| 0 <= i < s.drop_last().len() implies s.drop_last()[i].ping
            != ping by {
            assert(s.drop_last()[i] == s[i]);
        }
        lemma_at_latency_none(s.drop_last(), ping);
    }
}

/// Ranking is stable: the endpoints of one latency stand in the order in which
/// they came.
pub proof fn lemma_ranked_stable(all: Seq<Entity>, ping: u64)
    ensures
        at_latency(ranked(all), ping) == at_latency(all, ping),
    decreases all.len(),
{
    if all.len() > 0 {
        let head = all.drop_last();
        let last = all.last();
        lemma_ranked_stable(head, ping);
        lemma_ranked(head);
        let sorted = ranked(head);
        let at = rank_position(sorted, last.ping, 0);
        lemma_rank_position(sorted, last.ping, 0);
        let front = sorted.take(at);
        let back = sorted.skip(at);
        assert(sorted == front + back);
        assert(ranked(all) == front + seq![last] + back);
        lemma_at_latency_joined(front, back, ping);
        lemma_at_latency_joined(front + seq![last], back, ping);
        lemma_at_latency_joined(front, seq![last], ping);
        assert(seq![last].drop_last() == Seq::<Entity>::empty());
        assert(at_latency(Seq::<Entity>::empty(), ping) == Seq::<Entity>::empty());
        if last.ping == ping {
            assert(at_latency(seq![last], ping) == Seq::<Entity>::empty().push(last));
            assert forall|i: int| 0 <= i < back.len() implies back[i].ping != ping by {
                assert(back[i] == sorted[at + i]);
                if i > 0 {
                    assert(sorted[at].ping <= sorted[at + i].ping);
                }
            }
            lemma_at_latency_none(back, ping);
            assert(at_latency(front, ping) + Seq::<Entity>::empty().push(last) + Seq::<
                Entity,
            >::empty() == (at_latency(front, ping) + Seq::<Entity>::empty()).push(last));
        } else {
            assert(at_latency(seq![last], ping) == Seq::<Entity>::empty());
            assert(at_latency(front, ping) + Seq::<Entity>::empty() + at_latency(back, ping)
                == at_latency(front, ping) + at_latency(back, ping));
        }
    }
}

/// What a run of endpoints holds after an endpoint was put in.
pub proof fn lemma_entities_insert(v: Seq<ProxyConfig>, at: int, p: ProxyConfig)
    requires
        0 <= at <= v.len(),
    ensures
        entities(v.insert(at, p)) == entities(v).insert(at, p@),
{
}

/// Ranks the verified endpoints: ascending by latency, and endpoints of the
/// same latency in the order in which they came.
pub fn rank(verified: Vec<ProxyConfig>) -> (sorted: Vec<ProxyConfig>)
    ensures
        entities(sorted@) == ranked(entities(verified@)),
{
    let ghost all = entities(verified@);
    let mut sorted: Vec<ProxyConfig> = Vec::new();
    let mut i: usize = 0;
    while i < verified.len()
        invariant
            i <= verified.len(),
            all == entities(verified@),
            sorted.len() == i,
            entities(sorted@) == ranked(all.take(i as int)),
        decreases verified.len() - i,
    {
        proof {
            assert(all.take(i + 1).drop_last() == all.take(i as int));
        }
        let ping = verified[i].ping;
        let mut at: usize = 0;
        while at < sorted.len() && sorted[at].ping <= ping
            invariant
                at <= sorted.len(),
                rank_position(entities(sorted@), ping, 0) == rank_position(
                    entities(sorted@),
                    ping,
                    at as int,
                ),
            decreases sorted.len() - at,
        {
            at += 1;
        }
        let copy = verified[i].clone();
        proof {
            lemma_entities_insert(sorted@, at as int, copy);
        }
        sorted.insert(at, copy);
        i += 1;
    }
    proof {
        assert(all.take(verified.len() as int) == all);
    }
    sorted
}

/// The line of the result file for an endpoint at a rank:
/// `connection-string#Novaprox - rank [latency ms]`, the latency in whole
/// milliseconds.
pub open spec fn result_line(e: Entity, place: nat) -> Seq<char> {
    e.uri() + "#Novaprox - "@ + decimal(place) + " ["@ + decimal(
        (e.ping / NANOS_PER_MILLI) as nat,
    ) + "ms]"@
}

/// The lines of the result file for endpoints in their order, ranks from one,
/// with a line feed between neighbours.
pub open spec fn result_lines(sorted: Seq<Entity>) -> Seq<char>
    decreases sorted.len(),
{
    if sorted.len() == 0 {
        Seq::empty()
    } else if sorted.len() == 1 {
        result_line(sorted[0], 1)
    } else {
        result_lines(sorted.drop_last()) + "\n"@ + result_line(sorted.last(), sorted.len())
    }
}

/// The text of the result file: the working endpoints, ranked, one line each.
pub fn save_results(working_proxies: &[ProxyConfig]) -> (results: String)
    ensures
        results@ == result_lines(ranked(entities(working_proxies@))),
{
    let mut copies: Vec<ProxyConfig> = Vec::new();
    let mut k: usize = 0;
    while k < working_proxies.len()
        invariant
            k <= working_proxies.len(),
            entities(copies@) == entities(working_proxies@).take(k as int),
        decreases working_proxies.len() - k,
    {
        let copy = working_proxies[k].clone();
        proof {
            lemma_entities_push(copies@, copy);
        }
        copies.push(copy);
        k += 1;
    }
    proof {
        assert(entities(working_proxies@).take(working_proxies.len() as int) == entities(
            working_proxies@,
        ));
    }
    let sorted = rank(copies);
    let ghost all = entities(sorted@);
    let mut out: Vec<char> = Vec::new();
    let mut i: usize = 0;
    while i < sorted.len()
        invariant
            i <= sorted.len(),
            all == entities(sorted@),
            out@ == result_lines(all.take(i as int)),
        decreases sorted.len() - i,
    {
        proof {
            assert(all.take(i + 1).drop_last() == all.take(i as int));
        }
        if i > 0 {
            push_text(&mut out, "\n");
        }
        push_text(&mut out, sorted[i].to_uri().as_str());
        push_text(&mut out, "#Novaprox - ");
        push_decimal(&mut out, (i + 1) as u64);
        push_text(&mut out, " [");
        push_decimal(&mut out, sorted[i].ping / NANOS_PER_MILLI);
        push_text(&mut out, "ms]");
        i += 1;
    }
    proof {
        assert(all.take(sorted.len() as int) == all);
    }
    text_of(out)
}

} // verus!
