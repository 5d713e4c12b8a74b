//! The consumer side of the fetch pipeline: its configuration and the
//! per-candidate admission rules — country filtering and deduplication
//! by endpoint. Crawling the sources happens outside the library; every
//! candidate a source yields is passed through `accept` before it reaches
//! the consumer.

use vstd::prelude::*;

use std::collections::HashSet;

use crate::addr::Ipv4;
use crate::geo::GeoData;
use crate::proxy::Proxy;

verus! {

broadcast use vstd::std_specs::hash::group_hash_axioms;

/// Options of the fetch pipeline.
#[derive(Debug, Clone)]
pub struct Config {
    /// Accept each `(ip, port)` endpoint at most once.
    pub enforce_unique_ip: bool,
    /// How many source fetches may run at once.
    pub concurrency_limit: usize,
    /// Per-request timeout in milliseconds.
    pub request_timeout: u64,
    /// Attach geographical data to each candidate.
    pub enable_geo_lookup: bool,
    /// Accept only these ISO country codes; an empty list accepts all.
    pub countries: Vec<String>,
}

impl Default for Config {
    /// The defaults: unique endpoints, ten concurrent fetches, a three
    /// second timeout, geo lookup on, no country filter.
    fn default() -> (r: Config)
        ensures
            r.enforce_unique_ip == true,
            r.concurrency_limit == 10,
            r.request_timeout == 3000,
            r.enable_geo_lookup == true,
            r.countries@.len() == 0,
    {
        Config {
            enforce_unique_ip: true,
            concurrency_limit: 10,
            request_timeout: 3000,
            enable_geo_lookup: true,
            countries: Vec::new(),
        }
    }
}

/// The dedup key of an endpoint: the four address octets and the port,
/// packed base-256.
pub open spec fn spec_endpoint_key(ip: Ipv4, port: u16) -> u64 {
    ((((ip.a * 256 + ip.b) * 256 + ip.c) * 256 + ip.d) * 65536 + port) as u64
}

/// Distinct endpoints have distinct keys.
pub proof fn lemma_endpoint_key_injective(ip1: Ipv4, p1: u16, ip2: Ipv4, p2: u16)
    requires
        spec_endpoint_key(ip1, p1) == spec_endpoint_key(ip2, p2),
    ensures
        ip1 == ip2 && p1 == p2,
{
    let n1 = ((ip1.a * 256 + ip1.b) * 256 + ip1.c) * 256 + ip1.d;
    let n2 = ((ip2.a * 256 + ip2.b) * 256 + ip2.c) * 256 + ip2.d;
    assert(n1 * 65536 + p1 == n2 * 65536 + p2 ==> n1 == n2 && p1 == p2) by (nonlinear_arith)
        requires
            0 <= p1 < 65536,
            0 <= p2 < 65536,
            n1 >= 0,
            n2 >= 0,
    ;
    lemma_octets_injective(ip1, ip2);
}

/// Distinct addresses pack to distinct numbers.
proof fn lemma_octets_injective(ip1: Ipv4, ip2: Ipv4)
    requires
        ((ip1.a * 256 + ip1.b) * 256 + ip1.c) * 256 + ip1.d == ((ip2.a * 256 + ip2.b) * 256
            + ip2.c) * 256 + ip2.d,
    ensures
        ip1 == ip2,
{
    let m1 = (ip1.a * 256 + ip1.b) * 256 + ip1.c;
    let m2 = (ip2.a * 256 + ip2.b) * 256 + ip2.c;
    assert(m1 * 256 + ip1.d == m2 * 256 + ip2.d ==> m1 == m2 && ip1.d == ip2.d)
        by (nonlinear_arith)
        requires
            0 <= ip1.d < 256,
            0 <= ip2.d < 256,
            m1 >= 0,
            m2 >= 0,
    ;
    let k1 = ip1.a * 256 + ip1.b;
    let k2 = ip2.a * 256 + ip2.b;
    assert(k1 * 256 + ip1.c == k2 * 256 + ip2.c ==> k1 == k2 && ip1.c == ip2.c)
        by (nonlinear_arith)
        requires
            0 <= ip1.c < 256,
            0 <= ip2.c < 256,
            k1 >= 0,
            k2 >= 0,
    ;
    assert(ip1.a * 256 + ip1.b == ip2.a * 256 + ip2.b ==> ip1.a == ip2.a && ip1.b == ip2.b)
        by (nonlinear_arith)
        requires
            0 <= ip1.b < 256,
            0 <= ip2.b < 256,
    ;
}

/// Computes the dedup key of an endpoint.
pub fn endpoint_key(ip: &Ipv4, port: u16) -> (r: u64)
    ensures
        r == spec_endpoint_key(*ip, port),
{
    ((((ip.a as u64) * 256 + (ip.b as u64)) * 256 + (ip.c as u64)) * 256 + (ip.d as u64)) * 65536
        + (port as u64)
}

/// The country filter: with geo lookup on and a non-empty country list,
/// a candidate passes only when its ISO code is on the list.
pub open spec fn spec_country_ok(config: Config, geo: GeoData) -> bool {
    !config.enable_geo_lookup || config.countries@.len() == 0 || (geo.iso_code matches Some(c)
        && spec_country_listed(config.countries@, c@))
}

/// The code appears on the list.
pub open spec fn spec_country_listed(countries: Seq<String>, code: Seq<char>) -> bool {
    exists|i: int| 0 <= i < countries.len() && (#[trigger] countries[i])@ == code
}

/// Whether `accept` lets a candidate through, given the endpoints already
/// seen.
pub open spec fn spec_accepts(config: Config, seen: Set<u64>, p: Proxy) -> bool {
    spec_country_ok(config, p.geo) && (!config.enforce_unique_ip || !seen.contains(
        spec_endpoint_key(p.ip, p.port),
    ))
}

/// What `accept` records: an accepted endpoint, when uniqueness is
/// enforced.
pub open spec fn spec_accept_step(config: Config, seen: Set<u64>, p: Proxy) -> Set<u64> {
    if config.enforce_unique_ip && spec_accepts(config, seen, p) {
        seen.insert(spec_endpoint_key(p.ip, p.port))
    } else {
        seen
    }
}

/// The consumer-side state of the fetcher: its options and the
/// endpoints already accepted.
pub struct FetcherState {
    config: Config,
    seen: HashSet<u64>,
}

impl FetcherState {
    /// The endpoints accepted so far, as key values.
    pub closed spec fn seen(&self) -> Set<u64> {
        self.seen@
    }

    /// The options the state was built with.
    pub closed spec fn cfg(&self) -> Config {
        self.config
    }

    /// A fresh state: nothing seen yet.
    pub fn new(config: Config) -> (r: FetcherState)
        ensures
            r.cfg() == config,
            r.seen() == Set::<u64>::empty(),
    {
        FetcherState { config, seen: HashSet::new() }
    }

    /// Decides whether a candidate (already geo-enriched when lookup is
    /// on) reaches the consumer: its country must pass the filter, and
    /// with uniqueness enforced its endpoint must not have been accepted
    /// before. An accepted endpoint is recorded.
    pub fn accept(&mut self, p: &Proxy) -> (r: bool)
        ensures
            r == spec_accepts(old(self).cfg(), old(self).seen(), *p),
            final(self).cfg() == old(self).cfg(),
            final(self).seen() == spec_accept_step(old(self).cfg(), old(self).seen(), *p),
            old(self).seen().subset_of(final(self).seen()),
    {
        if self.config.enable_geo_lookup && self.config.countries.len() > 0 {
            let listed = match &p.geo.iso_code {
                Some(code) => {
                    let mut found = false;
                    let mut i: usize = 0;
                    while i < self.config.countries.len()
                        invariant
                            0 <= i <= self.config.countries@.len(),
                            found == exists|k: int|
                                0 <= k < i && (#[trigger] self.config.countries@[k])@ == code@,
                        decreases self.config.countries@.len() - i,
                    {
                        if self.config.countries[i].eq(code) {
                            found = true;
                            proof {
                                assert((#[trigger] self.config.countries@[i as int])@ == code@);
                            }
                        }
                        i = i + 1;
                    }
                    found
                },
                None => false,
            };
            if !listed {
                proof {
                    assert(!spec_accepts(self.config, self.seen(), *p));
                }
                return false;
            }
        }
        if self.config.enforce_unique_ip {
            let key = endpoint_key(&p.ip, p.port);
            let fresh = self.seen.insert(key);
            if fresh {
                proof {
                    assert(spec_accepts(old(self).config, old(self).seen(), *p));
                    assert(self.seen() =~= spec_accept_step(old(self).config, old(self).seen(), *p));
                }
                true
            } else {
                proof {
                    assert(old(self).seen().insert(key) =~= old(self).seen());
                    assert(self.seen() =~= old(self).seen());
                }
                false
            }
        } else {
            true
        }
    }
}

/// With uniqueness enforced, an endpoint is accepted at most once: after
/// one acceptance, any later state that still holds what the acceptance
/// recorded refuses the same endpoint.
pub proof fn lemma_accept_at_most_once(
    config: Config,
    seen0: Set<u64>,
    p1: Proxy,
    seen1: Set<u64>,
    p2: Proxy,
)
    requires
        config.enforce_unique_ip,
        spec_accepts(config, seen0, p1),
        spec_accept_step(config, seen0, p1).subset_of(seen1),
        p2.ip == p1.ip,
        p2.port == p1.port,
    ensures
        !spec_accepts(config, seen1, p2),
{
    let key = spec_endpoint_key(p1.ip, p1.port);
    assert(spec_accept_step(config, seen0, p1).contains(key));
    assert(seen1.contains(key));
}

/// Recorded endpoints only accumulate across acceptances.
pub proof fn lemma_accept_step_monotone(config: Config, seen: Set<u64>, p: Proxy)
    ensures
        seen.subset_of(spec_accept_step(config, seen, p)),
{
}

} // verus!
