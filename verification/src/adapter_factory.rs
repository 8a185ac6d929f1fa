//! The factory and the registry: dispatches on a source-type tag, validates
//! the type-specific parameters with a typed per-field error, builds the
//! adapter, and registers its keys — per named source, so that one bad
//! source never blocks the others.
use vstd::prelude::*;
use crate::adapters::base::BuildError;
use crate::adapters::base::StoreError;
use crate::adapters::base::ValueType;
use crate::adapters::base::str_eq;
use crate::adapters::btc::BTCAdapter;
use crate::adapters::btc::btc_registration;
use crate::adapters::cosmos_bank::CosmosBankAdapter;
use crate::adapters::cosmos_bank::bank_registration;
use crate::adapters::cosmos_bank::tendermint_url_accepted;
use crate::adapters::cosmwasm_smart_query::CosmWasmSmartQueryAdapter;
use crate::adapters::cosmwasm_smart_query::ExtractionRule;
use crate::adapters::cosmwasm_smart_query::QueryDef;
use crate::adapters::cosmwasm_smart_query::smart_registration;
use crate::adapters::eth::ETHAdapter;
use crate::adapters::eth::eth_registration;
use crate::adapters::eth::http_url_accepted;
use crate::config::MetricConfig;
use crate::config::QueryObject;
use crate::config::RawRule;
use crate::store::MetricStore;
use crate::store::spec_register_all;

verus! {

/// One built source, behind the common refresh vocabulary: the closed set
/// of the four source variants.
pub enum Adapter {
    Btc(BTCAdapter),
    Eth(ETHAdapter),
    CosmosBank(CosmosBankAdapter),
    CosmWasmSmartQuery(CosmWasmSmartQueryAdapter),
}

impl Adapter {
    pub open spec fn spec_name(&self) -> Seq<char> {
        match self {
            Adapter::Btc(a) => a.spec_name(),
            Adapter::Eth(a) => a.spec_name(),
            Adapter::CosmosBank(a) => a.spec_name(),
            Adapter::CosmWasmSmartQuery(a) => a.spec_name(),
        }
    }

    pub fn get_name(&self) -> (r: &str)
        ensures
            r@ == self.spec_name(),
    {
        match self {
            Adapter::Btc(a) => a.get_name(),
            Adapter::Eth(a) => a.get_name(),
            Adapter::CosmosBank(a) => a.get_name(),
            Adapter::CosmWasmSmartQuery(a) => a.get_name(),
        }
    }

    /// `{name}_{parameter}`, the key of one of this adapter's parameters.
    pub fn get_key(&self, param_name: &str) -> (r: String)
        ensures
            r@ == crate::adapters::base::key_of(self.spec_name(), param_name@),
    {
        match self {
            Adapter::Btc(a) => a.get_key(param_name),
            Adapter::Eth(a) => a.get_key(param_name),
            Adapter::CosmosBank(a) => a.get_key(param_name),
            Adapter::CosmWasmSmartQuery(a) => a.get_key(param_name),
        }
    }

    /// Registers one parameter of this adapter under its key and type.
    pub fn register_param(
        &self,
        store: &mut MetricStore,
        param_name: &str,
        param_type: ValueType,
    ) -> (r: Result<(), StoreError>)
        ensures
            ({
                let key = crate::adapters::base::key_of(self.spec_name(), param_name@);
                let op = crate::store::StoreOp::RegisterOp { key, ty: param_type };
                &&& final(store)@ == crate::store::apply_op(old(store)@, op)
                &&& (r is Ok <==> crate::store::op_ok(old(store)@, op))
            }),
    {
        let key = self.get_key(param_name);
        store.register(key, param_type)
    }
}

/// A construction-time error, attributed to one named source; the registry
/// goes on building the other sources.
#[derive(Clone, Copy, PartialEq, Eq, Structural, Debug)]
pub enum ConfigError {
    /// The source-type tag names no known variant.
    UnknownAdapter,
    MissingAddresses,
    MissingInfuraToken,
    MissingDecimals,
    /// The configured decimals leave the supported scaling range once the
    /// fixed offset is taken off.
    DecimalsOutOfRange,
    MissingContract,
    MissingDenoms,
    MissingRpc,
    MissingObjects,
    /// An extraction rule declares a value type other than `int` or `float`.
    UnknownValueType,
    /// The configured endpoint does not parse as a client URL; checked
    /// before any key is registered.
    InvalidEndpoint,
    /// The store refused a key: a collision with an already-registered key,
    /// or a name outside the metric-name grammar.
    Store(StoreError),
}

impl ConfigError {
    /// A short description, as the startup log reports it.
    pub fn message(&self) -> (r: &'static str)
        ensures
            match self {
                ConfigError::UnknownAdapter => r@ == "Unknown adapter"@,
                ConfigError::MissingAddresses => r@ == "Missing addresses"@,
                ConfigError::MissingInfuraToken => r@ == "Missing infura_token"@,
                ConfigError::MissingDecimals => r@ == "Missing decimals"@,
                ConfigError::DecimalsOutOfRange => r@ == "decimals out of range"@,
                ConfigError::MissingContract => r@ == "Missing contract"@,
                ConfigError::MissingDenoms => r@ == "Missing denoms"@,
                ConfigError::MissingRpc => r@ == "Missing rpc"@,
                ConfigError::MissingObjects => r@ == "Missing objects"@,
                ConfigError::UnknownValueType => r@ == "Unknown value type"@,
                ConfigError::InvalidEndpoint => r@ == "invalid endpoint url"@,
                ConfigError::Store(_) => r@ == "metric key refused"@,
            },
    {
        match self {
            ConfigError::UnknownAdapter => "Unknown adapter",
            ConfigError::MissingAddresses => "Missing addresses",
            ConfigError::MissingInfuraToken => "Missing infura_token",
            ConfigError::MissingDecimals => "Missing decimals",
            ConfigError::DecimalsOutOfRange => "decimals out of range",
            ConfigError::MissingContract => "Missing contract",
            ConfigError::MissingDenoms => "Missing denoms",
            ConfigError::MissingRpc => "Missing rpc",
            ConfigError::MissingObjects => "Missing objects",
            ConfigError::UnknownValueType => "Unknown value type",
            ConfigError::InvalidEndpoint => "invalid endpoint url",
            ConfigError::Store(_) => "metric key refused",
        }
    }
}

/// The value type a rule's text tag declares.
pub open spec fn value_type_of(s: Seq<char>) -> Option<ValueType> {
    if s == "int"@ {
        Some(ValueType::Int)
    } else if s == "float"@ {
        Some(ValueType::Float)
    } else {
        None
    }
}

/// One built rule against its configured form.
pub open spec fn rule_matches(rl: ExtractionRule, rr: RawRule) -> bool {
    rl.key@ == rr.key@ && rl.path@ == rr.path@ && Some(rl.value_type) == value_type_of(
        rr.value_type@,
    )
}

/// One built query against its configured form.
pub open spec fn query_matches_object(q: QueryDef, o: QueryObject) -> bool {
    q.query@ == o.query@ && q.rules@.len() == o.keys@.len() && forall|ri: int|
        0 <= ri < q.rules@.len() ==> rule_matches(#[trigger] q.rules@[ri], o.keys@[ri])
}

/// The built query list against the configured objects, in order.
pub open spec fn queries_match_objects(qs: Seq<QueryDef>, os: Seq<QueryObject>) -> bool {
    qs.len() == os.len() && forall|qi: int|
        0 <= qi < qs.len() ==> query_matches_object(#[trigger] qs[qi], os[qi])
}

/// Whether the eth-family tag needs a token contract.
pub open spec fn is_eth_family(tag: Seq<char>) -> bool {
    tag == "eth"@ || tag == "erc20"@ || tag == "compound"@
}

/// The first validation error of a source's configuration, before any key
/// is registered; nothing when every required field is present and well
/// formed. Field order follows the factory's reads.
pub open spec fn cfg_error(c: MetricConfig) -> Option<ConfigError> {
    let p = c.config;
    if c.adapter@ == "btc"@ {
        if p.addresses is None {
            Some(ConfigError::MissingAddresses)
        } else {
            None
        }
    } else if is_eth_family(c.adapter@) {
        if p.addresses is None {
            Some(ConfigError::MissingAddresses)
        } else if p.infura_token is None {
            Some(ConfigError::MissingInfuraToken)
        } else if p.decimals is None {
            Some(ConfigError::MissingDecimals)
        } else if p.decimals.unwrap() < 2 || p.decimals.unwrap() > 257 {
            Some(ConfigError::DecimalsOutOfRange)
        } else if c.adapter@ != "eth"@ && p.contract is None {
            Some(ConfigError::MissingContract)
        } else {
            None
        }
    } else if c.adapter@ == "cosmos_bank"@ {
        if p.addresses is None {
            Some(ConfigError::MissingAddresses)
        } else if p.denoms is None {
            Some(ConfigError::MissingDenoms)
        } else if p.rpc is None {
            Some(ConfigError::MissingRpc)
        } else {
            None
        }
    } else if c.adapter@ == "cosmwasm_smart_query"@ {
        if p.contract is None {
            Some(ConfigError::MissingContract)
        } else if p.rpc is None {
            Some(ConfigError::MissingRpc)
        } else if p.objects is None {
            Some(ConfigError::MissingObjects)
        } else if exists|qi: int, ri: int|
            0 <= qi < p.objects.unwrap()@.len() && 0 <= ri < (#[trigger] p.objects.unwrap()@[
                qi
            ]).keys@.len() && value_type_of(
                (#[trigger] p.objects.unwrap()@[qi].keys@[ri]).value_type@,
            ) is None {
            Some(ConfigError::UnknownValueType)
        } else {
            None
        }
    } else {
        Some(ConfigError::UnknownAdapter)
    }
}

/// Builds one adapter from one named source configuration.
///
/// Validation first, with a typed per-field error and the store untouched;
/// then the keys are registered, and a key the store refuses surfaces as a
/// `Store` error. The decimals a configuration gives an eth-family source
/// are reduced by 2 before use — the service's scaling convention for those
/// exposed values, preserved as documented behavior.
pub fn create_adapter(name: &str, store: &mut MetricStore, config: &MetricConfig) -> (r: Result<
    Adapter,
    ConfigError,
>)
    ensures
        forall|k: Seq<char>|
            #[trigger] old(store)@.dom().contains(k) ==> final(store)@.dom().contains(k)
                && final(store)@[k] == old(store)@[k],
        match cfg_error(*config) {
            Some(e) => final(store)@ == old(store)@ && r == Err::<Adapter, ConfigError>(e),
            None => if config.adapter@ == "btc"@ {
                ({
                    let out = spec_register_all(
                        old(store)@,
                        btc_registration(name@, config.config.addresses.unwrap()@),
                    );
                    &&& final(store)@ == out.0
                    &&& match r {
                        Ok(a) => out.1 is None && (a matches Adapter::Btc(b) && b.spec_name()
                            == name@ && b.spec_addresses() == config.config.addresses.unwrap()@),
                        Err(e) => (out.1 matches Some(se) && e == ConfigError::Store(se)),
                    }
                })
            } else if is_eth_family(config.adapter@) {
                if !http_url_accepted(
                    "https://mainnet.infura.io/v3/"@ + config.config.infura_token.unwrap()@,
                ) {
                    final(store)@ == old(store)@ && r == Err::<Adapter, ConfigError>(
                        ConfigError::InvalidEndpoint,
                    )
                } else {
                    ({
                        let out = spec_register_all(
                            old(store)@,
                            eth_registration(name@, config.config.addresses.unwrap()@),
                        );
                        &&& final(store)@ == out.0
                        &&& match r {
                            Ok(a) => out.1 is None && (a matches Adapter::Eth(b) && b.spec_name()
                                == name@ && b.spec_addresses() == config.config.addresses.unwrap()@
                                && b.spec_token() == config.config.infura_token.unwrap()@
                                && b.spec_decimals() == (config.config.decimals.unwrap() - 2) as u8
                                && b.spec_contract() == (if config.adapter@ == "eth"@ {
                                None::<Seq<char>>
                            } else {
                                Some(config.config.contract.unwrap()@)
                            })),
                            Err(e) => (out.1 matches Some(se) && e == ConfigError::Store(se)),
                        }
                    })
                }
            } else if config.adapter@ == "cosmos_bank"@ {
                if !tendermint_url_accepted(config.config.rpc.unwrap()@) {
                    final(store)@ == old(store)@ && r == Err::<Adapter, ConfigError>(
                        ConfigError::InvalidEndpoint,
                    )
                } else {
                    ({
                        let out = spec_register_all(
                            old(store)@,
                            bank_registration(
                                name@,
                                config.config.addresses.unwrap()@,
                                config.config.denoms.unwrap()@,
                            ),
                        );
                        &&& final(store)@ == out.0
                        &&& match r {
                            Ok(a) => out.1 is None && (a matches Adapter::CosmosBank(b)
                                && b.spec_name() == name@ && b.spec_addresses()
                                == config.config.addresses.unwrap()@ && b.spec_denoms()
                                == config.config.denoms.unwrap()@ && b.spec_rpc()
                                == config.config.rpc.unwrap()@),
                            Err(e) => (out.1 matches Some(se) && e == ConfigError::Store(se)),
                        }
                    })
                }
            } else {
                if !tendermint_url_accepted(config.config.rpc.unwrap()@) {
                    final(store)@ == old(store)@ && r == Err::<Adapter, ConfigError>(
                        ConfigError::InvalidEndpoint,
                    )
                } else {
                    (exists|qs: Seq<QueryDef>|
                        {
                            let out = spec_register_all(old(store)@, smart_registration(name@, qs));
                            &&& #[trigger] queries_match_objects(
                                qs,
                                config.config.objects.unwrap()@,
                            )
                            &&& final(store)@ == out.0
                            &&& match r {
                                Ok(a) => out.1 is None && (a matches Adapter::CosmWasmSmartQuery(b)
                                    && b.spec_name() == name@ && b.spec_contract()
                                    == config.config.contract.unwrap()@ && b.spec_rpc()
                                    == config.config.rpc.unwrap()@ && b.spec_queries() == qs),
                                Err(e) => (out.1 matches Some(se) && e == ConfigError::Store(se)),
                            }
                        })
                }
            },
        },
{
    let tag = config.adapter.as_str();
    if str_eq(tag, "btc") {
        let addresses = match &config.config.addresses {
            None => {
                return Err(ConfigError::MissingAddresses);
            },
            Some(a) => clone_strings(a),
        };
        let ghost av = addresses@;
        let res = BTCAdapter::new(name, store, addresses);
        proof {
            assert forall|k: Seq<char>| #[trigger] old(store)@.dom().contains(k)
                implies store@.dom().contains(k) && store@[k] == old(store)@[k] by {
                crate::store::lemma_register_all_preserves(
                    old(store)@,
                    btc_registration(name@, av),
                    k,
                );
            }
        }
        match res {
            Ok(b) => Ok(Adapter::Btc(b)),
            Err(se) => Err(ConfigError::Store(se)),
        }
    } else if str_eq(tag, "eth") || str_eq(tag, "erc20") || str_eq(tag, "compound") {
        let addresses = match &config.config.addresses {
            None => {
                return Err(ConfigError::MissingAddresses);
            },
            Some(a) => clone_strings(a),
        };
        let token = match &config.config.infura_token {
            None => {
                return Err(ConfigError::MissingInfuraToken);
            },
            Some(t) => t.as_str(),
        };
        let decimals_raw = match &config.config.decimals {
            None => {
                return Err(ConfigError::MissingDecimals);
            },
            Some(d) => *d,
        };
        if decimals_raw < 2 || decimals_raw > 257 {
            return Err(ConfigError::DecimalsOutOfRange);
        }
        let decimals: u8 = (decimals_raw - 2) as u8;
        let contract: Option<String> = if str_eq(tag, "eth") {
            None
        } else {
            match &config.config.contract {
                None => {
                    return Err(ConfigError::MissingContract);
                },
                Some(c) => Some(c.clone()),
            }
        };
        let ghost av = addresses@;
        let res = ETHAdapter::new(name, store, addresses, token, decimals, contract);
        proof {
            assert forall|k: Seq<char>| #[trigger] old(store)@.dom().contains(k)
                implies store@.dom().contains(k) && store@[k] == old(store)@[k] by {
                crate::store::lemma_register_all_preserves(
                    old(store)@,
                    eth_registration(name@, av),
                    k,
                );
            }
        }
        match res {
            Ok(b) => Ok(Adapter::Eth(b)),
            Err(BuildError::InvalidEndpoint) => Err(ConfigError::InvalidEndpoint),
            Err(BuildError::Store(se)) => Err(ConfigError::Store(se)),
        }
    } else if str_eq(tag, "cosmos_bank") {
        let addresses = match &config.config.addresses {
            None => {
                return Err(ConfigError::MissingAddresses);
            },
            Some(a) => clone_strings(a),
        };
        let denoms = match &config.config.denoms {
            None => {
                return Err(ConfigError::MissingDenoms);
            },
            Some(d) => clone_strings(d),
        };
        let rpc = match &config.config.rpc {
            None => {
                return Err(ConfigError::MissingRpc);
            },
            Some(u) => u.as_str(),
        };
        let ghost av = addresses@;
        let ghost dv = denoms@;
        let res = CosmosBankAdapter::new(name, store, addresses, rpc, denoms);
        proof {
            assert forall|k: Seq<char>| #[trigger] old(store)@.dom().contains(k)
                implies store@.dom().contains(k) && store@[k] == old(store)@[k] by {
                crate::store::lemma_register_all_preserves(
                    old(store)@,
                    bank_registration(name@, av, dv),
                    k,
                );
            }
        }
        match res {
            Ok(b) => Ok(Adapter::CosmosBank(b)),
            Err(BuildError::InvalidEndpoint) => Err(ConfigError::InvalidEndpoint),
            Err(BuildError::Store(se)) => Err(ConfigError::Store(se)),
        }
    } else if str_eq(tag, "cosmwasm_smart_query") {
        let contract = match &config.config.contract {
            None => {
                return Err(ConfigError::MissingContract);
            },
            Some(c) => c.as_str(),
        };
        let rpc = match &config.config.rpc {
            None => {
                return Err(ConfigError::MissingRpc);
            },
            Some(u) => u.as_str(),
        };
        let objects = match &config.config.objects {
            None => {
                return Err(ConfigError::MissingObjects);
            },
            Some(os) => os,
        };
        let queries = match build_queries(objects) {
            Ok(qs) => qs,
            Err(e) => {
                return Err(e);
            },
        };
        let ghost qv = queries@;
        let res = CosmWasmSmartQueryAdapter::new(name, contract, store, queries, rpc);
        proof {
            assert(queries_match_objects(qv, config.config.objects.unwrap()@));
            assert forall|k: Seq<char>| #[trigger] old(store)@.dom().contains(k)
                implies store@.dom().contains(k) && store@[k] == old(store)@[k] by {
                crate::store::lemma_register_all_preserves(
                    old(store)@,
                    smart_registration(name@, qv),
                    k,
                );
            }
        }
        match res {
            Ok(b) => Ok(Adapter::CosmWasmSmartQuery(b)),
            Err(BuildError::InvalidEndpoint) => Err(ConfigError::InvalidEndpoint),
            Err(BuildError::Store(se)) => Err(ConfigError::Store(se)),
        }
    } else {
        Err(ConfigError::UnknownAdapter)
    }
}

/// The enabled sources, in document order.
pub open spec fn enabled_configs(cs: Seq<(String, MetricConfig)>) -> Seq<(String, MetricConfig)>
    decreases cs.len(),
{
    if cs.len() == 0 {
        Seq::<(String, MetricConfig)>::empty()
    } else {
        let rest = enabled_configs(cs.drop_last());
        if cs.last().1.enabled {
            rest.push(cs.last())
        } else {
            rest
        }
    }
}

/// Builds one adapter per enabled source, in document order. A failure is
/// attributed to its named source and does not block construction of the
/// others: the result holds one entry, success or typed error, for every
/// enabled source. Registered keys of earlier sources keep their type.
pub fn build_registry(store: &mut MetricStore, configs: &Vec<(String, MetricConfig)>) -> (r: Vec<
    (String, Result<Adapter, ConfigError>),
>)
    ensures
        forall|k: Seq<char>|
            #[trigger] old(store)@.dom().contains(k) ==> final(store)@.dom().contains(k)
                && final(store)@[k] == old(store)@[k],
        r@.len() == enabled_configs(configs@).len(),
        forall|i: int|
            0 <= i < r@.len() ==> (#[trigger] r@[i]).0@ == enabled_configs(configs@)[i].0@
                && match r@[i].1 {
                Ok(a) => a.spec_name() == r@[i].0@ && cfg_error(
                    enabled_configs(configs@)[i].1,
                ) is None,
                Err(e) => cfg_error(enabled_configs(configs@)[i].1) == Some(e) || (cfg_error(
                    enabled_configs(configs@)[i].1,
                ) is None && (e matches ConfigError::Store(_) || e
                    == ConfigError::InvalidEndpoint)),
            },
{
    let n = configs.len();
    let mut r: Vec<(String, Result<Adapter, ConfigError>)> = Vec::new();
    let mut i: usize = 0;
    proof {
        assert(enabled_configs(configs@.take(0)) =~= Seq::<(String, MetricConfig)>::empty());
    }
    while i < n
        invariant
            0 <= i <= n,
            n == configs@.len(),
            forall|k: Seq<char>|
                #[trigger] old(store)@.dom().contains(k) ==> store@.dom().contains(k)
                    && store@[k] == old(store)@[k],
            r@.len() == enabled_configs(configs@.take(i as int)).len(),
            forall|j: int|
                0 <= j < r@.len() ==> (#[trigger] r@[j]).0@ == enabled_configs(
                    configs@.take(i as int),
                )[j].0@ && match r@[j].1 {
                    Ok(a) => a.spec_name() == r@[j].0@ && cfg_error(
                        enabled_configs(configs@.take(i as int))[j].1,
                    ) is None,
                    Err(e) => cfg_error(enabled_configs(configs@.take(i as int))[j].1) == Some(
                        e,
                    ) || (cfg_error(enabled_configs(configs@.take(i as int))[j].1) is None
                        && (e matches ConfigError::Store(_) || e
                        == ConfigError::InvalidEndpoint)),
                },
        decreases n - i,
    {
        let ghost mi = store@;
        proof {
            assert(configs@.take(i + 1).drop_last() =~= configs@.take(i as int));
            assert(configs@.take(i + 1).last() == configs@[i as int]);
        }
        if configs[i].1.enabled {
            let name = configs[i].0.clone();
            let res = create_adapter(name.as_str(), store, &configs[i].1);
            r.push((name, res));
            proof {
                assert(enabled_configs(configs@.take(i + 1)) =~= enabled_configs(
                    configs@.take(i as int),
                ).push(configs@[i as int]));
            }
        }
        i = i + 1;
    }
    proof {
        assert(configs@.take(n as int) =~= configs@);
    }
    r
}

/// An owned copy of a configured string list.
fn clone_strings(v: &Vec<String>) -> (r: Vec<String>)
    ensures
        r@ == v@,
{
    let n = v.len();
    let mut r: Vec<String> = Vec::new();
    let mut i: usize = 0;
    while i < n
        invariant
            0 <= i <= n,
            n == v@.len(),
            r@ =~= v@.take(i as int),
        decreases n - i,
    {
        r.push(v[i].clone());
        proof {
            assert(r@ =~= v@.take(i + 1));
        }
        i = i + 1;
    }
    proof {
        assert(v@.take(n as int) =~= v@);
    }
    r
}

/// Builds the typed query list from the configured objects; an unknown
/// value-type tag is this source's configuration error.
fn build_queries(objects: &Vec<QueryObject>) -> (r: Result<Vec<QueryDef>, ConfigError>)
    ensures
        match r {
            Ok(qs) => queries_match_objects(qs@, objects@) && (forall|qi: int, ri: int|
                0 <= qi < objects@.len() && 0 <= ri < (#[trigger] objects@[qi]).keys@.len()
                    ==> value_type_of(
                    (#[trigger] objects@[qi].keys@[ri]).value_type@,
                ) is Some),
            Err(e) => e == ConfigError::UnknownValueType && (exists|qi: int, ri: int|
                0 <= qi < objects@.len() && 0 <= ri < (#[trigger] objects@[qi]).keys@.len()
                    && value_type_of(
                    (#[trigger] objects@[qi].keys@[ri]).value_type@,
                ) is None),
        },
{
    let n = objects.len();
    let mut qs: Vec<QueryDef> = Vec::new();
    let mut i: usize = 0;
    while i < n
        invariant
            0 <= i <= n,
            n == objects@.len(),
            qs@.len() == i,
            forall|qi: int|
                0 <= qi < i ==> query_matches_object(#[trigger] qs@[qi], objects@[qi]),
            forall|qi: int, ri: int|
                0 <= qi < i && 0 <= ri < (#[trigger] objects@[qi]).keys@.len()
                    ==> value_type_of(
                    (#[trigger] objects@[qi].keys@[ri]).value_type@,
                ) is Some,
        decreases n - i,
    {
        let kl = objects[i].keys.len();
        let mut rules: Vec<ExtractionRule> = Vec::new();
        let mut j: usize = 0;
        while j < kl
            invariant
                0 <= j <= kl,
                0 <= i < n,
                n == objects@.len(),
                kl == objects@[i as int].keys@.len(),
                rules@.len() == j,
                forall|ri: int|
                    0 <= ri < j ==> rule_matches(
                        #[trigger] rules@[ri],
                        objects@[i as int].keys@[ri],
                    ),
            decreases kl - j,
        {
            let raw = &objects[i].keys[j];
            let ty = if str_eq(raw.value_type.as_str(), "int") {
                ValueType::Int
            } else if str_eq(raw.value_type.as_str(), "float") {
                ValueType::Float
            } else {
                return Err(ConfigError::UnknownValueType);
            };
            rules.push(
                ExtractionRule { key: raw.key.clone(), path: raw.path.clone(), value_type: ty },
            );
            j = j + 1;
        }
        let q = QueryDef { query: objects[i].query.clone(), rules };
        qs.push(q);
        proof {
            assert(query_matches_object(qs@.last(), objects@[i as int]));
            assert forall|qi: int| 0 <= qi < i + 1 implies query_matches_object(
                #[trigger] qs@[qi],
                objects@[qi],
            ) by {}
            assert forall|qi: int, ri: int|
                0 <= qi < i + 1 && 0 <= ri < (#[trigger] objects@[qi]).keys@.len()
                implies value_type_of(
                (#[trigger] objects@[qi].keys@[ri]).value_type@,
            ) is Some by {
                assert(query_matches_object(qs@[qi], objects@[qi]));
                assert(rule_matches(qs@[qi].rules@[ri], objects@[qi].keys@[ri]));
            }
            assert(qs@.len() == i + 1);
        }
        i = i + 1;
    }
    Ok(qs)
}

} // verus!
