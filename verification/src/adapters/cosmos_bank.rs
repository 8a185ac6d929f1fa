//! The account-balances source: per address, a binary-encoded "all
//! balances" ledger query whose decoded coins are filtered to an allow-list
//! of denominations; each surviving `(address, denom)` pair is an integer
//! gauge. The network call happens outside; this type owns the keys, the
//! request encoding, the response decoding, the filtering and the store
//! writes.
use vstd::prelude::*;
use cosmos_sdk_proto::cosmos::bank::v1beta1::QueryAllBalancesRequest;
use cosmos_sdk_proto::cosmos::bank::v1beta1::QueryAllBalancesResponse;
use cosmos_sdk_proto::cosmos::base::query::v1beta1::PageRequest;
use cosmos_sdk_proto::traits::Message;
use crate::adapters::base::BuildError;
use crate::adapters::base::GaugeView;
use crate::adapters::base::RefreshError;
use crate::adapters::base::StoreError;
use crate::adapters::base::Value;
use crate::adapters::base::ValueType;
use crate::adapters::base::key_of;
use crate::adapters::base::make_key;
use crate::store::MetricStore;
use crate::store::register_keys;
use crate::store::spec_register_all;
use crate::store::spec_set_value;
use crate::text::parse_i64_spec;
use crate::text::parse_i64;

verus! {

/// Whether a text is a URL the ledger's RPC client accepts.
pub uninterp spec fn tendermint_url_accepted(s: Seq<char>) -> bool;

/// Relies on tendermint_rpc's HttpClientUrl parser: whether the endpoint
/// text parses as a client URL, a function of the text alone.
#[verifier::external_body]
pub(crate) fn tendermint_url_ok(s: &str) -> (r: bool)
    ensures
        r == tendermint_url_accepted(s@),
{
    s.parse::<tendermint_rpc::HttpClientUrl>().is_ok()
}

/// The bytes of the encoded "all balances" query for one address.
pub uninterp spec fn bank_request_bytes(addr: Seq<char>) -> Seq<u8>;

/// Relies on prost encoding of cosmos-sdk-proto's QueryAllBalancesRequest:
/// deterministic bytes from the address and the fixed first-page pagination.
#[verifier::external_body]
fn encode_all_balances_request(address: &str) -> (r: Vec<u8>)
    ensures
        r@ == bank_request_bytes(address@),
{
    let req = QueryAllBalancesRequest {
        address: address.to_string(),
        pagination: Some(
            PageRequest { key: vec![], offset: 0, limit: 1000, count_total: false, reverse: false },
        ),
        resolve_denom: false,
    };
    let mut buf: Vec<u8> = Vec::new();
    let _ = req.encode(&mut buf);
    buf
}

/// The `(denom, amount)` pairs of a decoded "all balances" response, in
/// response order; nothing when the bytes do not decode.
pub uninterp spec fn bank_response_coins(bytes: Seq<u8>) -> Option<Seq<(Seq<char>, Seq<char>)>>;

/// Relies on prost decoding of cosmos-sdk-proto's QueryAllBalancesResponse:
/// the coins of the response, a function of the bytes alone.
#[verifier::external_body]
fn decode_all_balances_response(bytes: &Vec<u8>) -> (r: Option<Vec<(String, String)>>)
    ensures
        match r {
            Some(v) => bank_response_coins(bytes@) == Some(
                v@.map_values(|p: (String, String)| (p.0@, p.1@)),
            ),
            None => bank_response_coins(bytes@) is None,
        },
{
    match QueryAllBalancesResponse::decode(bytes.as_slice()) {
        Ok(resp) => Some(resp.balances.into_iter().map(|c| (c.denom, c.amount)).collect()),
        Err(_) => None,
    }
}

/// The key of one `(address, denom)` gauge:
/// `{name}_balance_{address}_{denom}`.
pub open spec fn bank_key(name: Seq<char>, addr: Seq<char>, denom: Seq<char>) -> Seq<char> {
    key_of(name, "balance_"@ + addr + "_"@ + denom)
}

/// Builds `{name}_balance_{address}_{denom}`.
fn make_bank_key(name: &str, addr: &str, denom: &str) -> (r: String)
    ensures
        r@ == bank_key(name@, addr@, denom@),
{
    let mut r = name.to_owned();
    r.append("_balance_");
    r.append(addr);
    r.append("_");
    r.append(denom);
    proof {
        reveal_strlit("_");
        reveal_strlit("balance_");
        reveal_strlit("_balance_");
        assert("_balance_"@ =~= "_"@ + "balance_"@);
        assert(r@ =~= bank_key(name@, addr@, denom@));
    }
    r
}

/// Whether a response denomination is allow-listed.
pub open spec fn denom_listed(denoms: Seq<String>, d: Seq<char>) -> bool {
    exists|j: int| 0 <= j < denoms.len() && (#[trigger] denoms[j])@ == d
}

/// The registration batch of one address: one integer gauge per allow-listed
/// denomination.
pub open spec fn bank_addr_registration(
    name: Seq<char>,
    addr: Seq<char>,
    denoms: Seq<String>,
) -> Seq<(Seq<char>, ValueType)> {
    Seq::new(denoms.len(), |j: int| (bank_key(name, addr, denoms[j]@), ValueType::Int))
}

/// The whole registration batch, address by address.
pub open spec fn bank_registration(
    name: Seq<char>,
    addrs: Seq<String>,
    denoms: Seq<String>,
) -> Seq<(Seq<char>, ValueType)>
    decreases addrs.len(),
{
    if addrs.len() == 0 {
        Seq::<(Seq<char>, ValueType)>::empty()
    } else {
        bank_registration(name, addrs.drop_last(), denoms) + bank_addr_registration(
            name,
            addrs.last()@,
            denoms,
        )
    }
}

/// One decoded coin against the store: skipped when its denomination is not
/// allow-listed, otherwise its amount parsed and written.
pub open spec fn coin_step(
    m: Map<Seq<char>, GaugeView>,
    name: Seq<char>,
    addr: Seq<char>,
    denoms: Seq<String>,
    coin: (Seq<char>, Seq<char>),
) -> (Map<Seq<char>, GaugeView>, Option<RefreshError>) {
    if !denom_listed(denoms, coin.0) {
        (m, None)
    } else {
        match parse_i64_spec(coin.1) {
            None => (m, Some(RefreshError::Parse)),
            Some(v) => {
                let step = spec_set_value(m, bank_key(name, addr, coin.0), GaugeView::Int(v));
                match step.1 {
                    Some(e) => (m, Some(RefreshError::Store(e))),
                    None => (step.0, None),
                }
            },
        }
    }
}

/// The coins of one response in order, stopping at the first failure;
/// writes made before the failure stay.
pub open spec fn apply_coins(
    m: Map<Seq<char>, GaugeView>,
    name: Seq<char>,
    addr: Seq<char>,
    denoms: Seq<String>,
    coins: Seq<(Seq<char>, Seq<char>)>,
) -> (Map<Seq<char>, GaugeView>, Option<RefreshError>)
    decreases coins.len(),
{
    if coins.len() == 0 {
        (m, None)
    } else {
        let st = coin_step(m, name, addr, denoms, coins[0]);
        if st.1 is Some {
            st
        } else {
            apply_coins(st.0, name, addr, denoms, coins.drop_first())
        }
    }
}

/// One response against the store: a decode failure fails the refresh,
/// otherwise its coins are applied in order.
pub open spec fn apply_bank_response(
    m: Map<Seq<char>, GaugeView>,
    name: Seq<char>,
    addr: Seq<char>,
    denoms: Seq<String>,
    resp: Seq<u8>,
) -> (Map<Seq<char>, GaugeView>, Option<RefreshError>) {
    match bank_response_coins(resp) {
        None => (m, Some(RefreshError::Decode)),
        Some(coins) => apply_coins(m, name, addr, denoms, coins),
    }
}

/// One refresh over the addresses in order, stopping at the first failure.
pub open spec fn bank_apply(
    m: Map<Seq<char>, GaugeView>,
    name: Seq<char>,
    addrs: Seq<String>,
    denoms: Seq<String>,
    resps: Seq<Vec<u8>>,
) -> (Map<Seq<char>, GaugeView>, Option<RefreshError>)
    decreases addrs.len(),
{
    if addrs.len() == 0 || resps.len() == 0 {
        (m, None)
    } else {
        let st = apply_bank_response(m, name, addrs[0]@, denoms, resps[0]@);
        if st.1 is Some {
            st
        } else {
            bank_apply(st.0, name, addrs.drop_first(), denoms, resps.drop_first())
        }
    }
}

/// An account-balances source.
pub struct CosmosBankAdapter {
    name: String,
    addresses: Vec<String>,
    rpc: String,
    denoms: Vec<String>,
}

impl CosmosBankAdapter {
    pub closed spec fn spec_name(&self) -> Seq<char> {
        self.name@
    }

    pub closed spec fn spec_addresses(&self) -> Seq<String> {
        self.addresses@
    }

    pub closed spec fn spec_rpc(&self) -> Seq<char> {
        self.rpc@
    }

    pub closed spec fn spec_denoms(&self) -> Seq<String> {
        self.denoms@
    }

    /// Whether `k` is one of this adapter's keys: some configured address
    /// paired with some allow-listed denomination.
    pub open spec fn owns(&self, k: Seq<char>) -> bool {
        exists|i: int, j: int|
            0 <= i < self.spec_addresses().len() && 0 <= j < self.spec_denoms().len() && k
                == bank_key(
                self.spec_name(),
                (#[trigger] self.spec_addresses()[i])@,
                (#[trigger] self.spec_denoms()[j])@,
            )
    }

    /// Builds the adapter: the RPC endpoint is checked first — before any
    /// key exists, as the client was constructed before registration — then
    /// the keys are registered. Either failure is a configuration error for
    /// this source and aborts its construction.
    pub fn new(
        name: &str,
        store: &mut MetricStore,
        addresses: Vec<String>,
        rpc: &str,
        denoms: Vec<String>,
    ) -> (r: Result<CosmosBankAdapter, BuildError>)
        ensures
            final(store)@ == (if tendermint_url_accepted(rpc@) {
                spec_register_all(old(store)@, bank_registration(name@, addresses@, denoms@)).0
            } else {
                old(store)@
            }),
            match r {
                Ok(a) => tendermint_url_accepted(rpc@) && spec_register_all(
                    old(store)@,
                    bank_registration(name@, addresses@, denoms@),
                ).1 is None && a.spec_name() == name@ && a.spec_addresses() == addresses@
                    && a.spec_rpc() == rpc@ && a.spec_denoms() == denoms@,
                Err(BuildError::InvalidEndpoint) => !tendermint_url_accepted(rpc@),
                Err(BuildError::Store(se)) => tendermint_url_accepted(rpc@)
                    && spec_register_all(
                    old(store)@,
                    bank_registration(name@, addresses@, denoms@),
                ).1 == Some(se),
            },
    {
        if !tendermint_url_ok(rpc) {
            return Err(BuildError::InvalidEndpoint);
        }
        let pairs = bank_key_pairs(name, &addresses, &denoms);
        match register_keys(store, &pairs) {
            Ok(()) => Ok(
                CosmosBankAdapter { name: name.to_owned(), addresses, rpc: rpc.to_owned(), denoms },
            ),
            Err(e) => Err(BuildError::Store(e)),
        }
    }

    pub fn get_name(&self) -> (r: &str)
        ensures
            r@ == self.spec_name(),
    {
        self.name.as_str()
    }

    /// `{name}_{parameter}`, the key of one of this adapter's parameters.
    pub fn get_key(&self, param_name: &str) -> (r: String)
        ensures
            r@ == key_of(self.spec_name(), param_name@),
    {
        make_key(self.name.as_str(), param_name)
    }

    /// The RPC endpoint the queries go to.
    pub fn rpc_endpoint(&self) -> (r: &str)
        ensures
            r@ == self.spec_rpc(),
    {
        self.rpc.as_str()
    }

    /// How many addresses are configured; the caller queries one response
    /// per address.
    pub fn address_count(&self) -> (n: usize)
        ensures
            n == self.spec_addresses().len(),
    {
        self.addresses.len()
    }

    /// The ABCI path of the "all balances" query.
    pub fn query_path() -> (r: String)
        ensures
            r@ == "/cosmos.bank.v1beta1.Query/AllBalances"@,
    {
        "/cosmos.bank.v1beta1.Query/AllBalances".to_owned()
    }

    /// The encoded "all balances" request for address `i`.
    pub fn balance_request(&self, i: usize) -> (r: Vec<u8>)
        requires
            i < self.spec_addresses().len(),
        ensures
            r@ == bank_request_bytes(self.spec_addresses()[i as int]@),
    {
        encode_all_balances_request(self.addresses[i].as_str())
    }

    /// Whether a response denomination is allow-listed.
    fn denom_allowed(&self, d: &String) -> (b: bool)
        ensures
            b == denom_listed(self.spec_denoms(), d@),
    {
        let n = self.denoms.len();
        let mut j: usize = 0;
        while j < n
            invariant
                0 <= j <= n,
                n == self.spec_denoms().len(),
                forall|m: int| 0 <= m < j ==> (#[trigger] self.spec_denoms()[m])@ != d@,
            decreases n - j,
        {
            if d.eq(&self.denoms[j]) {
                return true;
            }
            j = j + 1;
        }
        false
    }

    /// One refresh cycle over fetched responses, one per address, in order,
    /// stopping at the first failure. Coins outside the allow-list are
    /// skipped and create no key; keys of other adapters are untouched in
    /// every case, and no key is ever added or removed.
    pub fn update_params(&self, store: &mut MetricStore, responses: &Vec<Vec<u8>>) -> (r: Result<
        (),
        RefreshError,
    >)
        requires
            responses@.len() == self.spec_addresses().len(),
        ensures
            final(store)@ == bank_apply(
                old(store)@,
                self.spec_name(),
                self.spec_addresses(),
                self.spec_denoms(),
                responses@,
            ).0,
            match r {
                Ok(()) => bank_apply(
                    old(store)@,
                    self.spec_name(),
                    self.spec_addresses(),
                    self.spec_denoms(),
                    responses@,
                ).1 is None,
                Err(e) => bank_apply(
                    old(store)@,
                    self.spec_name(),
                    self.spec_addresses(),
                    self.spec_denoms(),
                    responses@,
                ).1 == Some(e),
            },
            final(store)@.dom() =~= old(store)@.dom(),
            forall|k: Seq<char>|
                old(store)@.dom().contains(k) && !self.owns(k) ==> final(store)@[k] == old(
                    store,
                )@[k],
            forall|k: Seq<char>|
                #[trigger] old(store)@.dom().contains(k) ==> final(store)@[k].tag() == old(
                    store,
                )@[k].tag(),
    {
        let ghost m0 = store@;
        let ghost ads = self.spec_addresses();
        let ghost dns = self.spec_denoms();
        let n = self.addresses.len();
        let mut i: usize = 0;
        proof {
            assert(ads.skip(0) =~= ads);
            assert(responses@.skip(0) =~= responses@);
        }
        while i < n
            invariant
                0 <= i <= n,
                n == ads.len(),
                ads == self.spec_addresses(),
                dns == self.spec_denoms(),
                responses@.len() == n,
                m0 == old(store)@,
                bank_apply(m0, self.spec_name(), ads, dns, responses@) == bank_apply(
                    store@,
                    self.spec_name(),
                    ads.skip(i as int),
                    dns,
                    responses@.skip(i as int),
                ),
                store@.dom() =~= m0.dom(),
                forall|k: Seq<char>|
                    m0.dom().contains(k) && !self.owns(k) ==> store@[k] == m0[k],
                forall|k: Seq<char>|
                    #[trigger] m0.dom().contains(k) ==> store@[k].tag() == m0[k].tag(),
            decreases n - i,
        {
            let ghost mi = store@;
            proof {
                assert(ads.skip(i as int)[0] == ads[i as int]);
                assert(responses@.skip(i as int)[0] == responses@[i as int]);
                assert(ads.skip(i as int).drop_first() =~= ads.skip(i + 1));
                assert(responses@.skip(i as int).drop_first() =~= responses@.skip(i + 1));
            }
            let coins = match decode_all_balances_response(&responses[i]) {
                None => {
                    return Err(RefreshError::Decode);
                },
                Some(cs) => cs,
            };
            let ghost cv = coins@.map_values(|p: (String, String)| (p.0@, p.1@));
            let ghost addr = ads[i as int]@;
            let cl = coins.len();
            let mut j: usize = 0;
            proof {
                assert(cv.skip(0) =~= cv);
            }
            while j < cl
                invariant
                    0 <= j <= cl,
                    cl == cv.len(),
                    cv == coins@.map_values(|p: (String, String)| (p.0@, p.1@)),
                    ads == self.spec_addresses(),
                    dns == self.spec_denoms(),
                    0 <= i < n,
                    n == ads.len(),
                    responses@.len() == n,
                    addr == ads[i as int]@,
                    m0 == old(store)@,
                    apply_coins(mi, self.spec_name(), addr, dns, cv) == apply_coins(
                        store@,
                        self.spec_name(),
                        addr,
                        dns,
                        cv.skip(j as int),
                    ),
                    bank_apply(m0, self.spec_name(), ads, dns, responses@) == (
                    if apply_coins(mi, self.spec_name(), addr, dns, cv).1 is Some {
                        apply_coins(mi, self.spec_name(), addr, dns, cv)
                    } else {
                        bank_apply(
                            apply_coins(mi, self.spec_name(), addr, dns, cv).0,
                            self.spec_name(),
                            ads.skip(i + 1),
                            dns,
                            responses@.skip(i + 1),
                        )
                    }),
                    store@.dom() =~= m0.dom(),
                    forall|k: Seq<char>|
                        m0.dom().contains(k) && !self.owns(k) ==> store@[k] == m0[k],
                    forall|k: Seq<char>|
                        #[trigger] m0.dom().contains(k) ==> store@[k].tag() == m0[k].tag(),
                decreases cl - j,
            {
                let ghost mj = store@;
                proof {
                    assert(cv.skip(j as int)[0] == cv[j as int]);
                    assert(cv[j as int] == (coins@[j as int].0@, coins@[j as int].1@));
                    assert(cv.skip(j as int).drop_first() =~= cv.skip(j + 1));
                }
                let listed = self.denom_allowed(&coins[j].0);
                if listed {
                    let v = match parse_i64(coins[j].1.as_str()) {
                        None => {
                            return Err(RefreshError::Parse);
                        },
                        Some(v) => v,
                    };
                    let key = make_bank_key(
                        self.name.as_str(),
                        self.addresses[i].as_str(),
                        coins[j].0.as_str(),
                    );
                    proof {
                        assert(key@ == bank_key(self.spec_name(), addr, cv[j as int].0));
                        let w = choose|w: int|
                            0 <= w < dns.len() && (#[trigger] dns[w])@ == cv[j as int].0;
                        assert(key@ == bank_key(
                            self.spec_name(),
                            self.spec_addresses()[i as int]@,
                            self.spec_denoms()[w]@,
                        ));
                        assert(self.owns(key@));
                    }
                    match store.set(&key, Value::Int(v)) {
                        Ok(()) => {},
                        Err(e) => {
                            proof {
                                assert(spec_set_value(mj, key@, GaugeView::Int(v)).1 == Some(
                                    e,
                                ));
                            }
                            return Err(RefreshError::Store(e));
                        },
                    }
                    proof {
                        assert(store@ == spec_set_value(mj, key@, GaugeView::Int(v)).0);
                        assert forall|k: Seq<char>|
                            m0.dom().contains(k) && !self.owns(k) implies store@[k] == m0[k] by {
                            assert(k != key@);
                            assert(store@[k] == mj[k]);
                        }
                        assert forall|k: Seq<char>| #[trigger] m0.dom().contains(k)
                            implies store@[k].tag() == m0[k].tag() by {
                            if k != key@ {
                                assert(store@[k] == mj[k]);
                            }
                        }
                    }
                }
                j = j + 1;
            }
            proof {
                assert(cv.skip(cl as int) =~= Seq::<(Seq<char>, Seq<char>)>::empty());
                assert(apply_coins(mi, self.spec_name(), addr, dns, cv) == (store@, None::<
                    RefreshError,
                >));
            }
            i = i + 1;
        }
        proof {
            assert(ads.skip(n as int) =~= Seq::<String>::empty());
        }
        Ok(())
    }
}

/// The executable registration batch: `{name}_balance_{address}_{denom}` as
/// an integer gauge, per address and allow-listed denomination.
fn bank_key_pairs(name: &str, addresses: &Vec<String>, denoms: &Vec<String>) -> (pairs: Vec<
    (String, ValueType),
>)
    ensures
        crate::store::pairs_view(pairs@) == bank_registration(name@, addresses@, denoms@),
{
    let n = addresses.len();
    let dl = denoms.len();
    let mut pairs: Vec<(String, ValueType)> = Vec::new();
    let mut i: usize = 0;
    while i < n
        invariant
            0 <= i <= n,
            n == addresses@.len(),
            dl == denoms@.len(),
            crate::store::pairs_view(pairs@) =~= bank_registration(
                name@,
                addresses@.take(i as int),
                denoms@,
            ),
        decreases n - i,
    {
        let ghost before = crate::store::pairs_view(pairs@);
        let mut j: usize = 0;
        while j < dl
            invariant
                0 <= j <= dl,
                0 <= i < n,
                n == addresses@.len(),
                dl == denoms@.len(),
                before == bank_registration(name@, addresses@.take(i as int), denoms@),
                crate::store::pairs_view(pairs@) =~= before + bank_addr_registration(
                    name@,
                    addresses@[i as int]@,
                    denoms@,
                ).take(j as int),
            decreases dl - j,
        {
            let key = make_bank_key(name, addresses[i].as_str(), denoms[j].as_str());
            let ghost kv = key@;
            let ghost pv_old = pairs@;
            pairs.push((key, ValueType::Int));
            proof {
                let reg = bank_addr_registration(name@, addresses@[i as int]@, denoms@);
                assert(crate::store::pairs_view(pairs@) =~= crate::store::pairs_view(
                    pv_old,
                ).push((kv, ValueType::Int)));
                assert(kv == reg[j as int].0);
                assert(reg.take(j + 1).drop_last() =~= reg.take(j as int));
                assert(reg.take(j + 1).last() == reg[j as int]);
                assert((before + reg.take(j as int)).push(reg[j as int]) =~= before + reg.take(
                    j + 1,
                ));
                assert(crate::store::pairs_view(pairs@) =~= before + reg.take(j + 1));
            }
            j = j + 1;
        }
        proof {
            assert(bank_addr_registration(name@, addresses@[i as int]@, denoms@).take(
                dl as int,
            ) =~= bank_addr_registration(name@, addresses@[i as int]@, denoms@));
            assert(addresses@.take(i + 1).drop_last() =~= addresses@.take(i as int));
            assert(addresses@.take(i + 1).last() == addresses@[i as int]);
            assert(crate::store::pairs_view(pairs@) =~= bank_registration(
                name@,
                addresses@.take(i + 1),
                denoms@,
            ));
        }
        i = i + 1;
    }
    proof {
        assert(addresses@.take(n as int) =~= addresses@);
    }
    pairs
}

} // verus!
