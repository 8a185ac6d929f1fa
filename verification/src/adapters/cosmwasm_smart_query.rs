//! The smart-query source: per configured query payload, a binary-encoded
//! contract-state query whose response payload is a JSON document; each
//! configured `(key, path, type)` rule runs its path through the extraction
//! engine against that document, and the scalar is coerced to the declared
//! type and written. The network call happens outside; this type owns the
//! keys, the request encoding, the response decoding, the extraction and
//! the store writes.
use vstd::prelude::*;
use cosmos_sdk_proto::cosmwasm::wasm::v1::QuerySmartContractStateRequest;
use cosmos_sdk_proto::cosmwasm::wasm::v1::QuerySmartContractStateResponse;
use cosmos_sdk_proto::traits::Message;
use crate::adapters::base::BuildError;
use crate::adapters::base::FloatText;
use crate::adapters::base::GaugeView;
use crate::adapters::base::RefreshError;
use crate::adapters::base::StoreError;
use crate::adapters::base::Value;
use crate::adapters::base::ValueType;
use crate::adapters::base::key_of;
use crate::adapters::base::make_key;
use crate::adapters::cosmos_bank::tendermint_url_accepted;
use crate::adapters::cosmos_bank::tendermint_url_ok;
use crate::extraction::evaluate_path;
use crate::extraction::extracted;
use crate::extraction::json_is_valid;
use crate::extraction::json_ok;
use crate::store::MetricStore;
use crate::store::register_keys;
use crate::store::spec_register_all;
use crate::store::spec_set_value;
use crate::text::is_float_text;
use crate::text::parse_i64_spec;
use crate::text::parse_i64;

verus! {

pub type StorageKey = String;

pub type JqPath = String;

pub type SmartQuery = String;

/// One extraction rule: the parameter name to write, the path to evaluate,
/// and the declared type of the scalar.
pub struct ExtractionRule {
    pub key: StorageKey,
    pub path: JqPath,
    pub value_type: ValueType,
}

/// One configured query payload with its ordered extraction rules.
pub struct QueryDef {
    pub query: SmartQuery,
    pub rules: Vec<ExtractionRule>,
}

/// The bytes of the encoded contract-state query.
pub uninterp spec fn smart_request_bytes(contract: Seq<char>, query: Seq<char>) -> Seq<u8>;

/// Relies on prost encoding of cosmos-sdk-proto's
/// QuerySmartContractStateRequest: deterministic bytes from the contract
/// address and the query payload.
#[verifier::external_body]
fn encode_smart_query_request(contract: &str, query: &str) -> (r: Vec<u8>)
    ensures
        r@ == smart_request_bytes(contract@, query@),
{
    let req = QuerySmartContractStateRequest {
        address: contract.to_string(),
        query_data: query.as_bytes().to_vec(),
    };
    let mut buf: Vec<u8> = Vec::new();
    let _ = req.encode(&mut buf);
    buf
}

/// The data payload of a decoded contract-state response; nothing when the
/// bytes do not decode.
pub uninterp spec fn smart_response_data(bytes: Seq<u8>) -> Option<Seq<u8>>;

/// Relies on prost decoding of cosmos-sdk-proto's
/// QuerySmartContractStateResponse: the contract's JSON payload, a function
/// of the bytes alone.
#[verifier::external_body]
fn decode_smart_query_response(bytes: &Vec<u8>) -> (r: Option<Vec<u8>>)
    ensures
        match r {
            Some(d) => smart_response_data(bytes@) == Some(d@),
            None => smart_response_data(bytes@) is None,
        },
{
    match QuerySmartContractStateResponse::decode(bytes.as_slice()) {
        Ok(resp) => Some(resp.data),
        Err(_) => None,
    }
}

/// A scalar's text coerced to the declared type: an integer parsed from its
/// decimal text, or a float kept as its validated text.
pub open spec fn coerce(ty: ValueType, text: Seq<char>) -> Option<GaugeView> {
    match ty {
        ValueType::Int => match parse_i64_spec(text) {
            Some(v) => Some(GaugeView::Int(v)),
            None => None,
        },
        ValueType::Float => if is_float_text(text) {
            Some(GaugeView::Float(text))
        } else {
            None
        },
    }
}

/// The registration batch of one query: one gauge per rule, under the
/// rule's declared type.
pub open spec fn smart_query_registration(name: Seq<char>, rules: Seq<ExtractionRule>) -> Seq<
    (Seq<char>, ValueType),
> {
    Seq::new(rules.len(), |j: int| (key_of(name, rules[j].key@), rules[j].value_type))
}

/// The whole registration batch, query by query.
pub open spec fn smart_registration(name: Seq<char>, queries: Seq<QueryDef>) -> Seq<
    (Seq<char>, ValueType),
>
    decreases queries.len(),
{
    if queries.len() == 0 {
        Seq::<(Seq<char>, ValueType)>::empty()
    } else {
        smart_registration(name, queries.drop_last()) + smart_query_registration(
            name,
            queries.last().rules@,
        )
    }
}

/// One rule against the store: no scalar fails the refresh, a scalar of the
/// wrong shape fails it, a coerced scalar is written.
pub open spec fn rule_step(
    m: Map<Seq<char>, GaugeView>,
    name: Seq<char>,
    doc: Seq<u8>,
    rule: ExtractionRule,
) -> (Map<Seq<char>, GaugeView>, Option<RefreshError>) {
    match extracted(doc, rule.path@) {
        None => (m, Some(RefreshError::Extraction)),
        Some(text) => match coerce(rule.value_type, text) {
            None => (m, Some(RefreshError::Parse)),
            Some(gv) => {
                let step = spec_set_value(m, key_of(name, rule.key@), gv);
                match step.1 {
                    Some(e) => (m, Some(RefreshError::Store(e))),
                    None => (step.0, None),
                }
            },
        },
    }
}

/// The rules of one query in order, stopping at the first failure; writes
/// made before the failure stay.
pub open spec fn apply_rules(
    m: Map<Seq<char>, GaugeView>,
    name: Seq<char>,
    doc: Seq<u8>,
    rules: Seq<ExtractionRule>,
) -> (Map<Seq<char>, GaugeView>, Option<RefreshError>)
    decreases rules.len(),
{
    if rules.len() == 0 {
        (m, None)
    } else {
        let st = rule_step(m, name, doc, rules[0]);
        if st.1 is Some {
            st
        } else {
            apply_rules(st.0, name, doc, rules.drop_first())
        }
    }
}

/// One response against the store: a decode failure or a non-JSON payload
/// fails the refresh, otherwise the rules are applied in order.
pub open spec fn apply_smart_response(
    m: Map<Seq<char>, GaugeView>,
    name: Seq<char>,
    rules: Seq<ExtractionRule>,
    resp: Seq<u8>,
) -> (Map<Seq<char>, GaugeView>, Option<RefreshError>) {
    match smart_response_data(resp) {
        None => (m, Some(RefreshError::Decode)),
        Some(doc) => if !json_ok(doc) {
            (m, Some(RefreshError::Json))
        } else {
            apply_rules(m, name, doc, rules)
        },
    }
}

/// One refresh over the queries in order, stopping at the first failure.
pub open spec fn smart_apply(
    m: Map<Seq<char>, GaugeView>,
    name: Seq<char>,
    queries: Seq<QueryDef>,
    resps: Seq<Vec<u8>>,
) -> (Map<Seq<char>, GaugeView>, Option<RefreshError>)
    decreases queries.len(),
{
    if queries.len() == 0 || resps.len() == 0 {
        (m, None)
    } else {
        let st = apply_smart_response(m, name, queries[0].rules@, resps[0]@);
        if st.1 is Some {
            st
        } else {
            smart_apply(st.0, name, queries.drop_first(), resps.drop_first())
        }
    }
}

/// A smart-query source.
pub struct CosmWasmSmartQueryAdapter {
    name: String,
    contract_address: String,
    rpc: String,
    queries: Vec<QueryDef>,
}

impl CosmWasmSmartQueryAdapter {
    pub closed spec fn spec_name(&self) -> Seq<char> {
        self.name@
    }

    pub closed spec fn spec_contract(&self) -> Seq<char> {
        self.contract_address@
    }

    pub closed spec fn spec_rpc(&self) -> Seq<char> {
        self.rpc@
    }

    pub closed spec fn spec_queries(&self) -> Seq<QueryDef> {
        self.queries@
    }

    /// Whether `k` is one of this adapter's keys: the key of some rule of
    /// some configured query.
    pub open spec fn owns(&self, k: Seq<char>) -> bool {
        exists|qi: int, ri: int|
            0 <= qi < self.spec_queries().len() && 0 <= ri < (#[trigger] self.spec_queries()[
                qi
            ]).rules@.len() && k == key_of(
                self.spec_name(),
                (#[trigger] self.spec_queries()[qi].rules@[ri]).key@,
            )
    }

    /// Builds the adapter: the RPC endpoint is checked first — before any
    /// key exists, as the client was constructed before registration — then
    /// the keys are registered. Either failure is a configuration error for
    /// this source and aborts its construction.
    pub fn new(
        name: &str,
        contract_address: &str,
        store: &mut MetricStore,
        queries: Vec<QueryDef>,
        rpc: &str,
    ) -> (r: Result<CosmWasmSmartQueryAdapter, BuildError>)
        ensures
            final(store)@ == (if tendermint_url_accepted(rpc@) {
                spec_register_all(old(store)@, smart_registration(name@, queries@)).0
            } else {
                old(store)@
            }),
            match r {
                Ok(a) => tendermint_url_accepted(rpc@) && spec_register_all(
                    old(store)@,
                    smart_registration(name@, queries@),
                ).1 is None && a.spec_name() == name@ && a.spec_contract() == contract_address@
                    && a.spec_rpc() == rpc@ && a.spec_queries() == queries@,
                Err(BuildError::InvalidEndpoint) => !tendermint_url_accepted(rpc@),
                Err(BuildError::Store(se)) => tendermint_url_accepted(rpc@)
                    && spec_register_all(old(store)@, smart_registration(name@, queries@)).1
                    == Some(se),
            },
    {
        if !tendermint_url_ok(rpc) {
            return Err(BuildError::InvalidEndpoint);
        }
        let pairs = smart_key_pairs(name, &queries);
        match register_keys(store, &pairs) {
            Ok(()) => Ok(
                CosmWasmSmartQueryAdapter {
                    name: name.to_owned(),
                    contract_address: contract_address.to_owned(),
                    rpc: rpc.to_owned(),
                    queries,
                },
            ),
            Err(e) => Err(BuildError::Store(e)),
        }
    }

    pub fn get_name(&self) -> (r: &str)
        ensures
            r@ == self.spec_name(),
    {
        self.name.as_str()
    }

    /// `{name}_{parameter}`, the key of one of this adapter's parameters.
    pub fn get_key(&self, param_name: &str) -> (r: String)
        ensures
            r@ == key_of(self.spec_name(), param_name@),
    {
        make_key(self.name.as_str(), param_name)
    }

    /// The RPC endpoint the queries go to.
    pub fn rpc_endpoint(&self) -> (r: &str)
        ensures
            r@ == self.spec_rpc(),
    {
        self.rpc.as_str()
    }

    /// How many queries are configured; the caller issues one request per
    /// query and hands back one response per query.
    pub fn query_count(&self) -> (n: usize)
        ensures
            n == self.spec_queries().len(),
    {
        self.queries.len()
    }

    /// The ABCI path of the contract-state query.
    pub fn query_path() -> (r: String)
        ensures
            r@ == "/cosmwasm.wasm.v1.Query/SmartContractState"@,
    {
        "/cosmwasm.wasm.v1.Query/SmartContractState".to_owned()
    }

    /// The encoded contract-state request of query `i`.
    pub fn state_request(&self, i: usize) -> (r: Vec<u8>)
        requires
            i < self.spec_queries().len(),
        ensures
            r@ == smart_request_bytes(
                self.spec_contract(),
                self.spec_queries()[i as int].query@,
            ),
    {
        encode_smart_query_request(self.contract_address.as_str(), self.queries[i].query.as_str())
    }

    /// One refresh cycle over fetched responses, one per query, in order,
    /// stopping at the first failure: a response that does not decode, a
    /// payload that is not JSON, a path that yields no scalar, or a scalar
    /// that does not coerce to the declared type. The affected key keeps its
    /// prior value; keys of other adapters are untouched in every case, and
    /// no key is ever added or removed.
    pub fn update_params(&self, store: &mut MetricStore, responses: &Vec<Vec<u8>>) -> (r: Result<
        (),
        RefreshError,
    >)
        requires
            responses@.len() == self.spec_queries().len(),
        ensures
            final(store)@ == smart_apply(
                old(store)@,
                self.spec_name(),
                self.spec_queries(),
                responses@,
            ).0,
            match r {
                Ok(()) => smart_apply(
                    old(store)@,
                    self.spec_name(),
                    self.spec_queries(),
                    responses@,
                ).1 is None,
                Err(e) => smart_apply(
                    old(store)@,
                    self.spec_name(),
                    self.spec_queries(),
                    responses@,
                ).1 == Some(e),
            },
            final(store)@.dom() =~= old(store)@.dom(),
            forall|k: Seq<char>|
                old(store)@.dom().contains(k) && !self.owns(k) ==> final(store)@[k] == old(
                    store,
                )@[k],
            forall|k: Seq<char>|
                #[trigger] old(store)@.dom().contains(k) ==> final(store)@[k].tag() == old(
                    store,
                )@[k].tag(),
    {
        let ghost m0 = store@;
        let ghost qs = self.spec_queries();
        let n = self.queries.len();
        let mut i: usize = 0;
        proof {
            assert(qs.skip(0) =~= qs);
            assert(responses@.skip(0) =~= responses@);
        }
        while i < n
            invariant
                0 <= i <= n,
                n == qs.len(),
                qs == self.spec_queries(),
                responses@.len() == n,
                m0 == old(store)@,
                smart_apply(m0, self.spec_name(), qs, responses@) == smart_apply(
                    store@,
                    self.spec_name(),
                    qs.skip(i as int),
                    responses@.skip(i as int),
                ),
                store@.dom() =~= m0.dom(),
                forall|k: Seq<char>|
                    m0.dom().contains(k) && !self.owns(k) ==> store@[k] == m0[k],
                forall|k: Seq<char>|
                    #[trigger] m0.dom().contains(k) ==> store@[k].tag() == m0[k].tag(),
            decreases n - i,
        {
            let ghost mi = store@;
            proof {
                assert(qs.skip(i as int)[0] == qs[i as int]);
                assert(responses@.skip(i as int)[0] == responses@[i as int]);
                assert(qs.skip(i as int).drop_first() =~= qs.skip(i + 1));
                assert(responses@.skip(i as int).drop_first() =~= responses@.skip(i + 1));
            }
            let doc = match decode_smart_query_response(&responses[i]) {
                None => {
                    return Err(RefreshError::Decode);
                },
                Some(d) => d,
            };
            if !json_is_valid(&doc) {
                return Err(RefreshError::Json);
            }
            let ghost rules = qs[i as int].rules@;
            let rl = self.queries[i].rules.len();
            let mut j: usize = 0;
            proof {
                assert(rules.skip(0) =~= rules);
            }
            while j < rl
                invariant
                    0 <= j <= rl,
                    rl == rules.len(),
                    0 <= i < n,
                    n == qs.len(),
                    qs == self.spec_queries(),
                    responses@.len() == n,
                    rules == qs[i as int].rules@,
                    rules == self.spec_queries()[i as int].rules@,
                    m0 == old(store)@,
                    smart_response_data(responses@[i as int]@) == Some(doc@),
                    json_ok(doc@),
                    apply_rules(mi, self.spec_name(), doc@, rules) == apply_rules(
                        store@,
                        self.spec_name(),
                        doc@,
                        rules.skip(j as int),
                    ),
                    smart_apply(m0, self.spec_name(), qs, responses@) == (
                    if apply_rules(mi, self.spec_name(), doc@, rules).1 is Some {
                        apply_rules(mi, self.spec_name(), doc@, rules)
                    } else {
                        smart_apply(
                            apply_rules(mi, self.spec_name(), doc@, rules).0,
                            self.spec_name(),
                            qs.skip(i + 1),
                            responses@.skip(i + 1),
                        )
                    }),
                    store@.dom() =~= m0.dom(),
                    forall|k: Seq<char>|
                        m0.dom().contains(k) && !self.owns(k) ==> store@[k] == m0[k],
                    forall|k: Seq<char>|
                        #[trigger] m0.dom().contains(k) ==> store@[k].tag() == m0[k].tag(),
                decreases rl - j,
            {
                let ghost mj = store@;
                proof {
                    assert(rules.skip(j as int)[0] == rules[j as int]);
                    assert(rules.skip(j as int).drop_first() =~= rules.skip(j + 1));
                }
                let rule = &self.queries[i].rules[j];
                let text = match evaluate_path(&doc, rule.path.as_str()) {
                    None => {
                        return Err(RefreshError::Extraction);
                    },
                    Some(t) => t,
                };
                let value: Value = match rule.value_type {
                    ValueType::Int => {
                        match parse_i64(text.as_str()) {
                            None => {
                                return Err(RefreshError::Parse);
                            },
                            Some(v) => Value::Int(v),
                        }
                    },
                    ValueType::Float => {
                        let ghost tv = text@;
                        match FloatText::new(text) {
                            None => {
                                return Err(RefreshError::Parse);
                            },
                            Some(f) => Value::Float(f),
                        }
                    },
                };
                let ghost gv = value@;
                proof {
                    assert(coerce(rules[j as int].value_type, extracted(
                        doc@,
                        rules[j as int].path@,
                    ).unwrap()) == Some(gv));
                }
                let key = make_key(self.name.as_str(), rule.key.as_str());
                proof {
                    assert(key@ == key_of(self.spec_name(), rules[j as int].key@));
                    assert(self.owns(key@));
                }
                match store.set(&key, value) {
                    Ok(()) => {},
                    Err(e) => {
                        proof {
                            assert(spec_set_value(mj, key@, gv).1 == Some(e));
                        }
                        return Err(RefreshError::Store(e));
                    },
                }
                proof {
                    assert(store@ == spec_set_value(mj, key@, gv).0);
                    assert forall|k: Seq<char>|
                        m0.dom().contains(k) && !self.owns(k) implies store@[k] == m0[k] by {
                        assert(k != key@);
                        assert(store@[k] == mj[k]);
                    }
                    assert forall|k: Seq<char>| #[trigger] m0.dom().contains(k)
                        implies store@[k].tag() == m0[k].tag() by {
                        if k != key@ {
                            assert(store@[k] == mj[k]);
                        }
                    }
                }
                j = j + 1;
            }
            proof {
                assert(rules.skip(rl as int) =~= Seq::<ExtractionRule>::empty());
                assert(apply_rules(mi, self.spec_name(), doc@, rules) == (store@, None::<
                    RefreshError,
                >));
            }
            i = i + 1;
        }
        proof {
            assert(qs.skip(n as int) =~= Seq::<QueryDef>::empty());
        }
        Ok(())
    }
}

/// The executable registration batch: `{name}_{rule key}` under the rule's
/// declared type, per query and rule.
fn smart_key_pairs(name: &str, queries: &Vec<QueryDef>) -> (pairs: Vec<(String, ValueType)>)
    ensures
        crate::store::pairs_view(pairs@) == smart_registration(name@, queries@),
{
    let n = queries.len();
    let mut pairs: Vec<(String, ValueType)> = Vec::new();
    let mut i: usize = 0;
    while i < n
        invariant
            0 <= i <= n,
            n == queries@.len(),
            crate::store::pairs_view(pairs@) =~= smart_registration(
                name@,
                queries@.take(i as int),
            ),
        decreases n - i,
    {
        let ghost before = crate::store::pairs_view(pairs@);
        let rl = queries[i].rules.len();
        let mut j: usize = 0;
        while j < rl
            invariant
                0 <= j <= rl,
                0 <= i < n,
                n == queries@.len(),
                rl == queries@[i as int].rules@.len(),
                before == smart_registration(name@, queries@.take(i as int)),
                crate::store::pairs_view(pairs@) =~= before + smart_query_registration(
                    name@,
                    queries@[i as int].rules@,
                ).take(j as int),
            decreases rl - j,
        {
            let key = make_key(name, queries[i].rules[j].key.as_str());
            let ty = queries[i].rules[j].value_type;
            let ghost kv = key@;
            let ghost pv_old = pairs@;
            pairs.push((key, ty));
            proof {
                let reg = smart_query_registration(name@, queries@[i as int].rules@);
                assert(crate::store::pairs_view(pairs@) =~= crate::store::pairs_view(
                    pv_old,
                ).push((kv, ty)));
                assert(kv == reg[j as int].0);
                assert(ty == reg[j as int].1);
                assert(reg.take(j + 1).drop_last() =~= reg.take(j as int));
                assert(reg.take(j + 1).last() == reg[j as int]);
                assert((before + reg.take(j as int)).push(reg[j as int]) =~= before + reg.take(
                    j + 1,
                ));
                assert(crate::store::pairs_view(pairs@) =~= before + reg.take(j + 1));
            }
            j = j + 1;
        }
        proof {
            assert(smart_query_registration(name@, queries@[i as int].rules@).take(rl as int)
                =~= smart_query_registration(name@, queries@[i as int].rules@));
            assert(queries@.take(i + 1).drop_last() =~= queries@.take(i as int));
            assert(queries@.take(i + 1).last() == queries@[i as int]);
            assert(crate::store::pairs_view(pairs@) =~= smart_registration(
                name@,
                queries@.take(i + 1),
            ));
        }
        i = i + 1;
    }
    proof {
        assert(queries@.take(n as int) =~= queries@);
    }
    pairs
}

} // verus!
