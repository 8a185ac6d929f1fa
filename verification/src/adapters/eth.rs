//! The RPC-balance source: per address, a JSON-RPC balance query — against
//! the chain itself, or against a token contract — whose hexadecimal result
//! is scaled down by a configured power of ten and exposed as an integer
//! gauge. The HTTP POST happens outside; this type owns the keys, the
//! request bodies, the response parsing, the scaling and the store writes.
use vstd::prelude::*;
use crate::adapters::base::BuildError;
use crate::adapters::base::GaugeView;
use crate::adapters::base::RefreshError;
use crate::adapters::base::StoreError;
use crate::adapters::base::Value;
use crate::adapters::base::ValueType;
use crate::adapters::base::balance_key;
use crate::adapters::base::key_of;
use crate::adapters::base::make_balance_key;
use crate::adapters::base::make_key;
use crate::store::MetricStore;
use crate::store::register_keys;
use crate::store::spec_register_all;
use crate::store::spec_set_value;
use crate::text::div_pow10_u128;
use crate::text::parse_hex_u128;
use crate::text::parse_hex_u128_spec;
use crate::text::pow10;

verus! {

/// The `result` member of a JSON-RPC response, when the response is an
/// object holding that member as a string.
pub uninterp spec fn string_field_spec(doc: Seq<u8>, field: Seq<char>) -> Option<Seq<char>>;

/// Relies on serde_json::from_slice, Value::get and Value::as_str: the named
/// member of the top-level JSON object, when it is a string. The result
/// depends on the bytes and the field name alone.
#[verifier::external_body]
fn json_string_field(doc: &Vec<u8>, field: &str) -> (r: Option<String>)
    ensures
        match r {
            Some(s) => string_field_spec(doc@, field@) == Some(s@),
            None => string_field_spec(doc@, field@) is None,
        },
{
    let parsed: Result<serde_json::Value, serde_json::Error> = serde_json::from_slice(
        doc.as_slice(),
    );
    match parsed {
        Ok(v) => match v.get(field) {
            Some(f) => f.as_str().map(|s| s.to_string()),
            None => None,
        },
        Err(_) => None,
    }
}

/// Whether a text is a URL the HTTP client accepts.
pub uninterp spec fn http_url_accepted(s: Seq<char>) -> bool;

/// Relies on reqwest's re-exported url::Url parser: whether the endpoint
/// text parses as a URL, a function of the text alone.
#[verifier::external_body]
pub(crate) fn http_url_ok(s: &str) -> (r: bool)
    ensures
        r == http_url_accepted(s@),
{
    s.parse::<reqwest::Url>().is_ok()
}

/// The registration batch of an RPC-balance source: one integer gauge per
/// address.
pub open spec fn eth_registration(name: Seq<char>, addrs: Seq<String>) -> Seq<
    (Seq<char>, ValueType),
> {
    Seq::new(addrs.len(), |i: int| (balance_key(name, addrs[i]@), ValueType::Int))
}

/// What one JSON-RPC response is worth: the `result` hex quantity, divided
/// by ten to the configured decimals, rejected when the scaled balance
/// exceeds the integer gauge's range.
pub open spec fn eth_value_of(resp: Seq<u8>, decimals: u8) -> Result<i64, RefreshError> {
    match string_field_spec(resp, "result"@) {
        Some(h) => match parse_hex_u128_spec(h) {
            Some(raw) => {
                let scaled = raw as int / pow10(decimals as nat) as int;
                if scaled <= i64::MAX as int {
                    Ok(scaled as i64)
                } else {
                    Err(RefreshError::Overflow)
                }
            },
            None => Err(RefreshError::Parse),
        },
        None => Err(RefreshError::Field),
    }
}

/// One refresh over the addresses in order, stopping at the first failure;
/// writes made before the failure stay, as the stale-on-error policy keeps
/// only the affected keys at their old value.
pub open spec fn eth_apply(
    m: Map<Seq<char>, GaugeView>,
    name: Seq<char>,
    addrs: Seq<String>,
    decimals: u8,
    resps: Seq<Vec<u8>>,
) -> (Map<Seq<char>, GaugeView>, Option<RefreshError>)
    decreases addrs.len(),
{
    if addrs.len() == 0 || resps.len() == 0 {
        (m, None)
    } else {
        match eth_value_of(resps[0]@, decimals) {
            Err(e) => (m, Some(e)),
            Ok(v) => {
                let step = spec_set_value(m, balance_key(name, addrs[0]@), GaugeView::Int(v));
                match step.1 {
                    Some(e) => (m, Some(RefreshError::Store(e))),
                    None => eth_apply(step.0, name, addrs.drop_first(), decimals, resps.drop_first()),
                }
            },
        }
    }
}

/// An RPC-balance source: a native balance when `contract` is absent, a
/// token balance against `contract` otherwise.
pub struct ETHAdapter {
    name: String,
    decimals: u8,
    addresses: Vec<String>,
    token: String,
    contract: Option<String>,
}

impl ETHAdapter {
    pub closed spec fn spec_name(&self) -> Seq<char> {
        self.name@
    }

    pub closed spec fn spec_addresses(&self) -> Seq<String> {
        self.addresses@
    }

    pub closed spec fn spec_decimals(&self) -> u8 {
        self.decimals
    }

    pub closed spec fn spec_token(&self) -> Seq<char> {
        self.token@
    }

    pub closed spec fn spec_contract(&self) -> Option<Seq<char>> {
        match self.contract {
            Some(c) => Some(c@),
            None => None,
        }
    }

    /// The metric keys this adapter owns.
    pub open spec fn owned_keys(&self) -> Seq<Seq<char>> {
        Seq::new(
            self.spec_addresses().len(),
            |i: int| balance_key(self.spec_name(), self.spec_addresses()[i]@),
        )
    }

    /// Builds the adapter: the provider URL is checked first — before any
    /// key exists, as the client was constructed before registration — then
    /// the keys are registered. Either failure is a configuration error for
    /// this source and aborts its construction.
    ///
    /// `decimals` arrives already reduced by the configured offset; the
    /// reduction itself is the factory's documented convention.
    pub fn new(
        name: &str,
        store: &mut MetricStore,
        addresses: Vec<String>,
        token: &str,
        decimals: u8,
        contract: Option<String>,
    ) -> (r: Result<ETHAdapter, BuildError>)
        ensures
            final(store)@ == (if http_url_accepted("https://mainnet.infura.io/v3/"@ + token@) {
                spec_register_all(old(store)@, eth_registration(name@, addresses@)).0
            } else {
                old(store)@
            }),
            match r {
                Ok(a) => http_url_accepted("https://mainnet.infura.io/v3/"@ + token@)
                    && spec_register_all(old(store)@, eth_registration(name@, addresses@)).1
                    is None && a.spec_name() == name@ && a.spec_addresses() == addresses@
                    && a.spec_decimals() == decimals && a.spec_token() == token@
                    && a.spec_contract() == (match contract {
                    Some(c) => Some(c@),
                    None => None::<Seq<char>>,
                }),
                Err(BuildError::InvalidEndpoint) => !http_url_accepted(
                    "https://mainnet.infura.io/v3/"@ + token@,
                ),
                Err(BuildError::Store(se)) => http_url_accepted(
                    "https://mainnet.infura.io/v3/"@ + token@,
                ) && spec_register_all(old(store)@, eth_registration(name@, addresses@)).1
                    == Some(se),
            },
    {
        let mut url = "https://mainnet.infura.io/v3/".to_owned();
        url.append(token);
        if !http_url_ok(url.as_str()) {
            return Err(BuildError::InvalidEndpoint);
        }
        let pairs = eth_key_pairs(name, &addresses);
        match register_keys(store, &pairs) {
            Ok(()) => Ok(
                ETHAdapter {
                    name: name.to_owned(),
                    decimals,
                    addresses,
                    token: token.to_owned(),
                    contract,
                },
            ),
            Err(e) => Err(BuildError::Store(e)),
        }
    }

    pub fn get_name(&self) -> (r: &str)
        ensures
            r@ == self.spec_name(),
    {
        self.name.as_str()
    }

    /// `{name}_{parameter}`, the key of one of this adapter's parameters.
    pub fn get_key(&self, param_name: &str) -> (r: String)
        ensures
            r@ == key_of(self.spec_name(), param_name@),
    {
        make_key(self.name.as_str(), param_name)
    }

    /// How many addresses are configured; the caller posts one request per
    /// address and hands back one response per address.
    pub fn address_count(&self) -> (n: usize)
        ensures
            n == self.spec_addresses().len(),
    {
        self.addresses.len()
    }

    /// The endpoint the JSON-RPC requests go to.
    pub fn endpoint_url(&self) -> (r: String)
        ensures
            r@ == "https://mainnet.infura.io/v3/"@ + self.spec_token(),
    {
        let mut r = "https://mainnet.infura.io/v3/".to_owned();
        r.append(self.token.as_str());
        r
    }

    /// The JSON-RPC body asking for the balance of address `i`: a native
    /// `eth_getBalance`, or an `eth_call` of `balanceOf(address)` against
    /// the configured token contract.
    pub fn request_body(&self, i: usize) -> (r: String)
        requires
            i < self.spec_addresses().len(),
        ensures
            r@ == eth_request_body(
                self.spec_contract(),
                self.spec_addresses()[i as int]@,
            ),
    {
        match &self.contract {
            None => {
                let mut r = "{\"jsonrpc\":\"2.0\",\"id\":1,\"method\":\"eth_getBalance\",\"params\":[\"".to_owned();
                r.append(self.addresses[i].as_str());
                r.append("\",\"latest\"]}");
                r
            },
            Some(c) => {
                let mut r = "{\"jsonrpc\":\"2.0\",\"id\":1,\"method\":\"eth_call\",\"params\":[{\"to\":\"".to_owned();
                r.append(c.as_str());
                r.append("\",\"data\":\"0x70a08231000000000000000000000000");
                let addr = strip_hex_prefix(self.addresses[i].as_str());
                r.append(addr);
                r.append("\"},\"latest\"]}");
                r
            },
        }
    }

    /// One refresh cycle over fetched responses, one per address, in order,
    /// stopping at the first failure. Keys of other adapters are untouched
    /// in every case, and no key is ever added or removed.
    pub fn update_params(&self, store: &mut MetricStore, responses: &Vec<Vec<u8>>) -> (r: Result<
        (),
        RefreshError,
    >)
        requires
            responses@.len() == self.spec_addresses().len(),
        ensures
            final(store)@ == eth_apply(
                old(store)@,
                self.spec_name(),
                self.spec_addresses(),
                self.spec_decimals(),
                responses@,
            ).0,
            match r {
                Ok(()) => eth_apply(
                    old(store)@,
                    self.spec_name(),
                    self.spec_addresses(),
                    self.spec_decimals(),
                    responses@,
                ).1 is None,
                Err(e) => eth_apply(
                    old(store)@,
                    self.spec_name(),
                    self.spec_addresses(),
                    self.spec_decimals(),
                    responses@,
                ).1 == Some(e),
            },
            final(store)@.dom() =~= old(store)@.dom(),
            forall|k: Seq<char>|
                old(store)@.dom().contains(k) && !self.owned_keys().contains(k) ==> final(store)@[k] == old(store)@[k],
            forall|k: Seq<char>|
                #[trigger] old(store)@.dom().contains(k) ==> final(store)@[k].tag() == old(
                    store,
                )@[k].tag(),
    {
        let ghost m0 = store@;
        let ghost ads = self.spec_addresses();
        let n = self.addresses.len();
        let mut i: usize = 0;
        proof {
            assert(ads.skip(0) =~= ads);
            assert(responses@.skip(0) =~= responses@);
        }
        while i < n
            invariant
                0 <= i <= n,
                n == ads.len(),
                ads == self.spec_addresses(),
                responses@.len() == n,
                m0 == old(store)@,
                eth_apply(m0, self.spec_name(), ads, self.spec_decimals(), responses@)
                    == eth_apply(
                    store@,
                    self.spec_name(),
                    ads.skip(i as int),
                    self.spec_decimals(),
                    responses@.skip(i as int),
                ),
                store@.dom() =~= m0.dom(),
                forall|k: Seq<char>|
                    m0.dom().contains(k) && !self.owned_keys().contains(k) ==> store@[k]
                        == m0[k],
                forall|k: Seq<char>|
                    #[trigger] m0.dom().contains(k) ==> store@[k].tag() == m0[k].tag(),
            decreases n - i,
        {
            let ghost mi = store@;
            proof {
                assert(ads.skip(i as int)[0] == ads[i as int]);
                assert(responses@.skip(i as int)[0] == responses@[i as int]);
                assert(ads.skip(i as int).drop_first() =~= ads.skip(i + 1));
                assert(responses@.skip(i as int).drop_first() =~= responses@.skip(i + 1));
            }
            let v: i64 = match json_string_field(&responses[i], "result") {
                None => {
                    return Err(RefreshError::Field);
                },
                Some(h) => {
                    match parse_hex_u128(h.as_str()) {
                        None => {
                            return Err(RefreshError::Parse);
                        },
                        Some(raw) => {
                            let scaled = div_pow10_u128(raw, self.decimals);
                            if scaled > i64::MAX as u128 {
                                return Err(RefreshError::Overflow);
                            }
                            scaled as i64
                        },
                    }
                },
            };
            let key = make_balance_key(self.name.as_str(), self.addresses[i].as_str());
            proof {
                assert(key@ == balance_key(self.spec_name(), ads[i as int]@));
                assert(self.owned_keys()[i as int] == key@);
            }
            match store.set(&key, Value::Int(v)) {
                Ok(()) => {},
                Err(e) => {
                    proof {
                        assert(spec_set_value(mi, key@, GaugeView::Int(v)).1 == Some(e));
                    }
                    return Err(RefreshError::Store(e));
                },
            }
            proof {
                assert(store@ == spec_set_value(mi, key@, GaugeView::Int(v)).0);
                assert forall|k: Seq<char>|
                    m0.dom().contains(k) && !self.owned_keys().contains(k) implies store@[k]
                    == m0[k] by {
                    assert(self.owned_keys().contains(key@));
                    assert(k != key@);
                    assert(store@[k] == mi[k]);
                }
                assert forall|k: Seq<char>| #[trigger] m0.dom().contains(k)
                    implies store@[k].tag() == m0[k].tag() by {
                    if k != key@ {
                        assert(store@[k] == mi[k]);
                    }
                }
            }
            i = i + 1;
        }
        proof {
            assert(ads.skip(n as int) =~= Seq::<String>::empty());
            assert(responses@.skip(n as int).len() == 0);
        }
        Ok(())
    }
}

/// The JSON-RPC request body of one balance query.
pub open spec fn eth_request_body(contract: Option<Seq<char>>, addr: Seq<char>) -> Seq<char> {
    match contract {
        None => "{\"jsonrpc\":\"2.0\",\"id\":1,\"method\":\"eth_getBalance\",\"params\":[\""@
            + addr + "\",\"latest\"]}"@,
        Some(c) => "{\"jsonrpc\":\"2.0\",\"id\":1,\"method\":\"eth_call\",\"params\":[{\"to\":\""@
            + c + "\",\"data\":\"0x70a08231000000000000000000000000"@ + strip_0x(addr)
            + "\"},\"latest\"]}"@,
    }
}

/// An address without its `0x` prefix, as it is embedded into call data.
pub open spec fn strip_0x(a: Seq<char>) -> Seq<char> {
    if a.len() >= 2 && a[0] == '0' && (a[1] == 'x' || a[1] == 'X') {
        a.subrange(2, a.len() as int)
    } else {
        a
    }
}

/// Executable twin of `strip_0x`.
fn strip_hex_prefix(a: &str) -> (r: &str)
    ensures
        r@ == strip_0x(a@),
{
    let n = a.unicode_len();
    if n >= 2 && a.get_char(0) == '0' {
        let x = a.get_char(1);
        if x == 'x' || x == 'X' {
            let r = a.substring_char(2, n);
            return r;
        }
    }
    a
}

/// The executable registration batch: `{name}_balance_{address}` as an
/// integer gauge, per address.
fn eth_key_pairs(name: &str, addresses: &Vec<String>) -> (pairs: Vec<(String, ValueType)>)
    ensures
        crate::store::pairs_view(pairs@) == eth_registration(name@, addresses@),
{
    let n = addresses.len();
    let mut pairs: Vec<(String, ValueType)> = Vec::new();
    let mut i: usize = 0;
    while i < n
        invariant
            0 <= i <= n,
            n == addresses@.len(),
            pairs@.len() == i,
            crate::store::pairs_view(pairs@) =~= eth_registration(name@, addresses@).take(
                i as int,
            ),
        decreases n - i,
    {
        let key = make_balance_key(name, addresses[i].as_str());
        pairs.push((key, ValueType::Int));
        proof {
            assert(crate::store::pairs_view(pairs@) =~= eth_registration(
                name@,
                addresses@,
            ).take(i + 1));
        }
        i = i + 1;
    }
    proof {
        assert(eth_registration(name@, addresses@).take(n as int) =~= eth_registration(
            name@,
            addresses@,
        ));
    }
    pairs
}

} // verus!
