//! The validator's decisions: its configuration check, the choice of
//! which protocols of a candidate to probe, and what a finished probe
//! does to the proxy. Running the probes over the network happens
//! outside the library.

use vstd::prelude::*;

use crate::errors::ConfigError;
use crate::models::Protocol;
use crate::proxy::{Proxy, ProxyType};

verus! {

/// Options of the validating pipeline.
#[derive(Debug, Clone)]
pub struct Config {
    /// How many probes may run at once.
    pub concurrency_limit: usize,
    /// Per-request timeout in milliseconds.
    pub request_timeout: u64,
    /// The protocols to confirm; must not be empty.
    pub types: Vec<Protocol>,
    /// How many judges one probe may try.
    pub max_attempts: usize,
}

impl Default for Config {
    /// The defaults: fifty concurrent probes, a three second timeout, no
    /// filter yet, one attempt per probe.
    fn default() -> (r: Config)
        ensures
            r.concurrency_limit == 50,
            r.request_timeout == 3000,
            r.types@.len() == 0,
            r.max_attempts == 1,
    {
        Config { concurrency_limit: 50, request_timeout: 3000, types: Vec::new(), max_attempts: 1 }
    }
}

/// Checks a configuration before the validator starts: an empty protocol
/// filter is the one fatal mistake.
pub fn check_config(config: &Config) -> (r: Result<(), ConfigError>)
    ensures
        config.types@.len() == 0 <==> r == Err::<(), ConfigError>(ConfigError::EmptyTypeFilter),
        config.types@.len() > 0 <==> r is Ok,
{
    if config.types.len() == 0 {
        Err(ConfigError::EmptyTypeFilter)
    } else {
        Ok(())
    }
}

/// A protocol passes the filter when it family-matches some entry.
pub open spec fn spec_filter_matches(p: Protocol, filter: Seq<Protocol>) -> bool {
    exists|i: int| 0 <= i < filter.len() && p.spec_family_matches(#[trigger] filter[i])
}

/// The protocols of a candidate that the validator probes: those of its
/// remaining expectations that pass the filter, in order.
pub open spec fn spec_probe_plan(expected: Seq<Protocol>, filter: Seq<Protocol>) -> Seq<Protocol>
    decreases expected.len(),
{
    if expected.len() == 0 {
        Seq::empty()
    } else {
        spec_probe_plan(expected.drop_last(), filter) + (if spec_filter_matches(
            expected.last(),
            filter,
        ) {
            seq![expected.last()]
        } else {
            Seq::empty()
        })
    }
}

/// Decides whether one protocol passes the filter.
pub fn filter_matches(p: &Protocol, filter: &Vec<Protocol>) -> (r: bool)
    ensures
        r == spec_filter_matches(*p, filter@),
{
    let mut i: usize = 0;
    let mut found = false;
    while i < filter.len()
        invariant
            0 <= i <= filter@.len(),
            found == exists|k: int|
                0 <= k < i && p.spec_family_matches(#[trigger] filter@[k]),
        decreases filter@.len() - i,
    {
        if p.family_matches(&filter[i]) {
            found = true;
            proof {
                assert(p.spec_family_matches(#[trigger] filter@[i as int]));
            }
        }
        i = i + 1;
    }
    found
}

/// Plans the probes for one candidate.
pub fn probe_plan(expected: &Vec<Protocol>, filter: &Vec<Protocol>) -> (r: Vec<Protocol>)
    ensures
        r@ == spec_probe_plan(expected@, filter@),
{
    let mut out: Vec<Protocol> = Vec::new();
    let mut i: usize = 0;
    proof {
        assert(expected@.take(0) =~= Seq::<Protocol>::empty());
    }
    while i < expected.len()
        invariant
            0 <= i <= expected@.len(),
            out@ == spec_probe_plan(expected@.take(i as int), filter@),
        decreases expected@.len() - i,
    {
        proof {
            assert(expected@.take(i + 1).drop_last() =~= expected@.take(i as int));
            assert(expected@.take(i + 1).last() == expected@[i as int]);
        }
        if filter_matches(&expected[i], filter) {
            out.push(expected[i]);
            proof {
                assert(out@ =~= spec_probe_plan(expected@.take(i + 1), filter@));
            }
        } else {
            proof {
                assert(out@ =~= spec_probe_plan(expected@.take(i + 1), filter@));
            }
        }
        i = i + 1;
    }
    proof {
        assert(expected@.take(expected@.len() as int) =~= expected@);
    }
    out
}

/// What a finished probe does: a confirmed protocol is recorded on the
/// proxy as a checked type stamped `now_ms`, and the proxy is emitted;
/// a failed probe discards it.
pub fn apply_probe_outcome(proxy: Proxy, confirmed: Option<Protocol>, now_ms: u64) -> (r: Option<
    Proxy,
>)
    ensures
        confirmed is None ==> r is None,
        confirmed matches Some(pr) ==> r matches Some(p) && {
            &&& p.types@ == proxy.types@.push(
                ProxyType { protocol: pr, checked: true, checked_on: now_ms },
            )
            &&& p.ip == proxy.ip
            &&& p.port == proxy.port
            &&& p.geo == proxy.geo
            &&& p.runtimes == proxy.runtimes
            &&& p.expected_types == proxy.expected_types
        },
{
    match confirmed {
        None => None,
        Some(pr) => {
            let mut out = proxy;
            out.types.push(ProxyType::checked(pr, now_ms));
            Some(out)
        },
    }
}

/// A confirmation accounts for every checked type it adds: afterwards,
/// each checked type either was already there, checked, or records
/// exactly the confirmed protocol and its timestamp.
pub proof fn lemma_confirmation_accounts_checked(
    before: Seq<ProxyType>,
    protocol: Protocol,
    now_ms: u64,
)
    ensures
        ({
            let after = before.push(ProxyType { protocol, checked: true, checked_on: now_ms });
            forall|i: int|
                0 <= i < after.len() && (#[trigger] after[i]).checked ==> {
                    ||| (i < before.len() && after[i] == before[i] && before[i].checked)
                    ||| after[i] == (ProxyType { protocol, checked: true, checked_on: now_ms })
                }
        }),
{
}

} // verus!
