//! The plain-balance source: one HTTP endpoint per address, answering with
//! a plaintext integer balance. The fetch itself happens outside; this type
//! owns the keys, the parsing and the store writes.
use vstd::prelude::*;
use crate::adapters::base::RefreshError;
use crate::adapters::base::StoreError;
use crate::adapters::base::Value;
use crate::adapters::base::ValueType;
use crate::adapters::base::GaugeView;
use crate::adapters::base::balance_key;
use crate::adapters::base::key_of;
use crate::adapters::base::make_balance_key;
use crate::adapters::base::make_key;
use crate::store::MetricStore;
use crate::store::insert_all;
use crate::store::lemma_insert_all_frame;
use crate::store::register_keys;
use crate::store::spec_register_all;
use crate::text::parse_u64_spec;
use crate::text::parse_u64;
use crate::text::trim_spec;
use crate::text::trim;

verus! {

/// The registration batch of a plain-balance source: one integer gauge per
/// address.
pub open spec fn btc_registration(name: Seq<char>, addrs: Seq<String>) -> Seq<
    (Seq<char>, ValueType),
> {
    Seq::new(addrs.len(), |i: int| (balance_key(name, addrs[i]@), ValueType::Int))
}

/// What one plaintext response is worth: the trimmed text read as an
/// unsigned decimal, rejected when it exceeds the integer gauge's range.
pub open spec fn parsed_balance(t: Seq<char>) -> Option<i64> {
    match parse_u64_spec(trim_spec(t)) {
        Some(v) => if v <= i64::MAX as u64 {
            Some(v as i64)
        } else {
            None
        },
        None => None,
    }
}

/// The writes of a fully successful refresh, in address order.
pub open spec fn btc_updates(name: Seq<char>, addrs: Seq<String>, resps: Seq<String>) -> Seq<
    (Seq<char>, GaugeView),
> {
    Seq::new(
        addrs.len(),
        |i: int|
            (balance_key(name, addrs[i]@), GaugeView::Int(parsed_balance(resps[i]@).unwrap())),
    )
}

/// A plain-balance source.
pub struct BTCAdapter {
    name: String,
    addresses: Vec<String>,
}

impl BTCAdapter {
    pub closed spec fn spec_name(&self) -> Seq<char> {
        self.name@
    }

    pub closed spec fn spec_addresses(&self) -> Seq<String> {
        self.addresses@
    }

    /// The metric keys this adapter owns.
    pub open spec fn owned_keys(&self) -> Seq<Seq<char>> {
        Seq::new(
            self.spec_addresses().len(),
            |i: int| balance_key(self.spec_name(), self.spec_addresses()[i]@),
        )
    }

    /// Builds the adapter and registers its keys; a registration failure is
    /// a configuration error for this source and aborts its construction.
    pub fn new(name: &str, store: &mut MetricStore, addresses: Vec<String>) -> (r: Result<
        BTCAdapter,
        StoreError,
    >)
        ensures
            final(store)@ == spec_register_all(
                old(store)@,
                btc_registration(name@, addresses@),
            ).0,
            match r {
                Ok(a) => spec_register_all(old(store)@, btc_registration(name@, addresses@)).1
                    is None && a.spec_name() == name@ && a.spec_addresses() == addresses@,
                Err(e) => spec_register_all(old(store)@, btc_registration(name@, addresses@)).1
                    == Some(e),
            },
    {
        let pairs = btc_key_pairs(name, &addresses);
        match register_keys(store, &pairs) {
            Ok(()) => Ok(BTCAdapter { name: name.to_owned(), addresses }),
            Err(e) => Err(e),
        }
    }

    pub fn get_name(&self) -> (r: &str)
        ensures
            r@ == self.spec_name(),
    {
        self.name.as_str()
    }

    /// `{name}_{parameter}`, the key of one of this adapter's parameters.
    pub fn get_key(&self, param_name: &str) -> (r: String)
        ensures
            r@ == key_of(self.spec_name(), param_name@),
    {
        make_key(self.name.as_str(), param_name)
    }

    /// How many addresses are configured; the caller fetches one response
    /// per address.
    pub fn address_count(&self) -> (n: usize)
        ensures
            n == self.spec_addresses().len(),
    {
        self.addresses.len()
    }

    /// The endpoint that answers with the plaintext balance of address `i`.
    pub fn balance_url(&self, i: usize) -> (r: String)
        requires
            i < self.spec_addresses().len(),
        ensures
            r@ == "https://blockchain.info/q/addressbalance/"@ + self.spec_addresses()[
                i as int
            ]@,
    {
        let mut r = "https://blockchain.info/q/addressbalance/".to_owned();
        r.append(self.addresses[i].as_str());
        r
    }

    /// One refresh cycle over fetched responses, one per address, in order.
    ///
    /// All-or-nothing: every response is parsed and every key checked before
    /// anything is written, so a failure leaves every key of this adapter at
    /// its last good value. Keys of other adapters are untouched in every
    /// case, and no key is ever added or removed.
    pub fn update_params(&self, store: &mut MetricStore, responses: &Vec<String>) -> (r: Result<
        (),
        RefreshError,
    >)
        requires
            responses@.len() == self.spec_addresses().len(),
        ensures
            final(store)@.dom() =~= old(store)@.dom(),
            forall|k: Seq<char>|
                old(store)@.dom().contains(k) && !self.owned_keys().contains(k) ==> final(store)@[k] == old(store)@[k],
            forall|k: Seq<char>|
                #[trigger] old(store)@.dom().contains(k) ==> final(store)@[k].tag() == old(
                    store,
                )@[k].tag(),
            match r {
                Ok(()) => (forall|i: int|
                    0 <= i < responses@.len() ==> parsed_balance(
                        (#[trigger] responses@[i])@,
                    ) is Some) && (forall|i: int|
                    0 <= i < self.owned_keys().len() ==> old(store)@.dom().contains(
                        #[trigger] self.owned_keys()[i],
                    ) && old(store)@[self.owned_keys()[i]].tag() == ValueType::Int) && final(store)@ == insert_all(
                    old(store)@,
                    btc_updates(self.spec_name(), self.spec_addresses(), responses@),
                ),
                Err(RefreshError::Parse) => (exists|i: int|
                    0 <= i < responses@.len() && parse_u64_spec(
                        trim_spec((#[trigger] responses@[i])@),
                    ) is None) && final(store)@ == old(store)@,
                Err(RefreshError::Overflow) => (exists|i: int|
                    0 <= i < responses@.len() && parse_u64_spec(
                        trim_spec((#[trigger] responses@[i])@),
                    ) is Some && parsed_balance((#[trigger] responses@[i])@) is None) && final(store)@ == old(store)@,
                Err(RefreshError::Store(StoreError::UnknownKey)) => (exists|i: int|
                    0 <= i < self.owned_keys().len() && !old(store)@.dom().contains(
                        #[trigger] self.owned_keys()[i],
                    )) && final(store)@ == old(store)@,
                Err(RefreshError::Store(StoreError::TypeMismatch)) => (exists|i: int|
                    0 <= i < self.owned_keys().len() && old(store)@.dom().contains(
                        #[trigger] self.owned_keys()[i],
                    ) && old(store)@[self.owned_keys()[i]].tag() != ValueType::Int) && final(store)@ == old(store)@,
                _ => false,
            },
    {
        let ghost m0 = store@;
        let n = self.addresses.len();
        // parse every response before touching the store
        let mut vals: Vec<i64> = Vec::new();
        let mut i: usize = 0;
        while i < n
            invariant
                0 <= i <= n,
                n == self.spec_addresses().len(),
                responses@.len() == n,
                vals@.len() == i,
                forall|j: int|
                    0 <= j < i ==> parsed_balance((#[trigger] responses@[j])@) == Some(
                        vals@[j],
                    ),
            decreases n - i,
        {
            let t = trim(responses[i].as_str());
            match parse_u64(t) {
                None => {
                    return Err(RefreshError::Parse);
                },
                Some(v) => {
                    if v > i64::MAX as u64 {
                        return Err(RefreshError::Overflow);
                    }
                    vals.push(v as i64);
                },
            }
            i = i + 1;
        }
        // check every key before writing any
        let mut i: usize = 0;
        while i < n
            invariant
                0 <= i <= n,
                n == self.spec_addresses().len(),
                m0 == old(store)@,
                store@ == m0,
                forall|j: int|
                    0 <= j < i ==> m0.dom().contains(#[trigger] self.owned_keys()[j])
                        && m0[self.owned_keys()[j]].tag() == ValueType::Int,
            decreases n - i,
        {
            let key = make_balance_key(self.name.as_str(), self.addresses[i].as_str());
            proof {
                assert(self.owned_keys()[i as int] == key@);
            }
            match store.get(&key) {
                None => {
                    return Err(RefreshError::Store(StoreError::UnknownKey));
                },
                Some(v) => {
                    match v {
                        Value::Int(_) => {},
                        Value::Float(_) => {
                            return Err(RefreshError::Store(StoreError::TypeMismatch));
                        },
                    }
                },
            }
            i = i + 1;
        }
        // write, in address order
        let ghost ups = btc_updates(self.spec_name(), self.spec_addresses(), responses@);
        let mut i: usize = 0;
        proof {
            assert(insert_all(m0, ups.take(0)) == m0);
        }
        while i < n
            invariant
                0 <= i <= n,
                n == self.spec_addresses().len(),
                responses@.len() == n,
                vals@.len() == n,
                m0 == old(store)@,
                ups == btc_updates(self.spec_name(), self.spec_addresses(), responses@),
                forall|j: int|
                    0 <= j < n ==> parsed_balance((#[trigger] responses@[j])@) == Some(
                        vals@[j],
                    ),
                forall|j: int|
                    0 <= j < n ==> m0.dom().contains(#[trigger] self.owned_keys()[j])
                        && m0[self.owned_keys()[j]].tag() == ValueType::Int,
                store@ == insert_all(m0, ups.take(i as int)),
                store@.dom() =~= m0.dom(),
                forall|j: int|
                    0 <= j < n ==> store@.dom().contains(#[trigger] self.owned_keys()[j])
                        && store@[self.owned_keys()[j]].tag() == ValueType::Int,
                forall|k: Seq<char>|
                    #[trigger] m0.dom().contains(k) ==> store@[k].tag() == m0[k].tag(),
            decreases n - i,
        {
            let ghost mi = store@;
            let key = make_balance_key(self.name.as_str(), self.addresses[i].as_str());
            let r = store.set(&key, Value::Int(vals[i]));
            proof {
                assert(self.owned_keys()[i as int] == key@);
                assert(mi.dom().contains(key@));
                assert(mi[key@].tag() == ValueType::Int);
            }
            match r {
                Ok(()) => {},
                Err(_) => {
                    proof {
                        assert(false);
                    }
                    return Err(RefreshError::Parse);
                },
            }
            i = i + 1;
            proof {
                assert(ups.take(i as int).drop_last() =~= ups.take(i - 1));
                assert(ups.take(i as int).last() == ups[i - 1]);
                assert(store@ == insert_all(m0, ups.take(i as int)));
                assert forall|j: int|
                    0 <= j < n implies store@.dom().contains(#[trigger] self.owned_keys()[j])
                    && store@[self.owned_keys()[j]].tag() == ValueType::Int by {
                    if self.owned_keys()[j] == key@ {
                    } else {
                        assert(store@[self.owned_keys()[j]] == mi[self.owned_keys()[j]]);
                    }
                }
                assert forall|k: Seq<char>| #[trigger] m0.dom().contains(k)
                    implies store@[k].tag() == m0[k].tag() by {
                    if k != key@ {
                        assert(store@[k] == mi[k]);
                    }
                }
            }
        }
        proof {
            assert(ups.take(n as int) =~= ups);
            assert forall|k: Seq<char>|
                old(store)@.dom().contains(k) && !self.owned_keys().contains(k) implies store@[k]
                == old(store)@[k] by {
                assert forall|j: int| 0 <= j < ups.len() implies (#[trigger] ups[j]).0 != k by {
                    assert(self.owned_keys()[j] == ups[j].0);
                }
                lemma_insert_all_frame(m0, ups, k);
            }
        }
        Ok(())
    }
}

/// The executable registration batch: `{name}_balance_{address}` as an
/// integer gauge, per address.
fn btc_key_pairs(name: &str, addresses: &Vec<String>) -> (pairs: Vec<(String, ValueType)>)
    ensures
        crate::store::pairs_view(pairs@) == btc_registration(name@, addresses@),
{
    let n = addresses.len();
    let mut pairs: Vec<(String, ValueType)> = Vec::new();
    let mut i: usize = 0;
    while i < n
        invariant
            0 <= i <= n,
            n == addresses@.len(),
            pairs@.len() == i,
            crate::store::pairs_view(pairs@) =~= btc_registration(name@, addresses@).take(
                i as int,
            ),
        decreases n - i,
    {
        let key = make_balance_key(name, addresses[i].as_str());
        pairs.push((key, ValueType::Int));
        proof {
            assert(crate::store::pairs_view(pairs@) =~= btc_registration(
                name@,
                addresses@,
            ).take(i + 1));
        }
        i = i + 1;
    }
    proof {
        assert(btc_registration(name@, addresses@).take(n as int) =~= btc_registration(
            name@,
            addresses@,
        ));
    }
    pairs
}

} // verus!
