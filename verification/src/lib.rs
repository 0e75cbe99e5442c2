//! Filtering and ranking of proxy endpoints: the parser of endpoint
//! descriptors, the DNS cache with its retention policy, the decisions of the
//! checking pipeline, and the translator that compiles a batch of endpoints
//! into the configuration document of the forwarding engine.
//!
//! Everything here works on plain values. Reading files, resolving names,
//! probing hosts and running the forwarding engine belong to the caller.

pub mod candidate;
pub mod codec;
pub mod dns_cache;
pub mod fields;
pub mod json;
pub mod params;
pub mod parse_url;
pub mod pipeline;
pub mod proxy_config;
pub mod text;
pub mod transport;
pub mod xray_config;
