//! The configuration the service is built from: a global poll interval and
//! admission limit, and one named, typed parameter set per source. Reading
//! and deserializing the file happens outside; these are the plain,
//! schema-shaped values the core consumes.
use vstd::prelude::*;

verus! {

/// The whole configuration document.
pub struct Config {
    /// The admission limit: how many refresh tasks may be in flight at once.
    pub concurrency: u64,
    /// Seconds to sleep between poll cycles.
    pub interval: u64,
    /// The named sources, in document order.
    pub metrics: Vec<(String, MetricConfig)>,
}

/// One named source: whether it is enabled, which source type builds it,
/// and its type-specific parameters.
pub struct MetricConfig {
    pub enabled: bool,
    pub adapter: String,
    pub config: AdapterParams,
}

/// The type-specific parameter set, schema-shaped: every field optional
/// here, required per source type by the factory, which reports a typed
/// error for a missing one instead of aborting the process.
pub struct AdapterParams {
    pub addresses: Option<Vec<String>>,
    pub infura_token: Option<String>,
    pub decimals: Option<u64>,
    pub contract: Option<String>,
    pub denoms: Option<Vec<String>>,
    pub rpc: Option<String>,
    pub objects: Option<Vec<QueryObject>>,
}

impl AdapterParams {
    /// A parameter set with nothing given.
    pub fn empty() -> (p: AdapterParams)
        ensures
            p.addresses is None,
            p.infura_token is None,
            p.decimals is None,
            p.contract is None,
            p.denoms is None,
            p.rpc is None,
            p.objects is None,
    {
        AdapterParams {
            addresses: None,
            infura_token: None,
            decimals: None,
            contract: None,
            denoms: None,
            rpc: None,
            objects: None,
        }
    }
}

/// One smart-query entry: a query payload and its extraction rules, with
/// the value type still a text tag (`int` or `float`).
pub struct QueryObject {
    pub query: String,
    pub keys: Vec<RawRule>,
}

/// One extraction rule as configured.
pub struct RawRule {
    pub key: String,
    pub path: String,
    pub value_type: String,
}

} // verus!
