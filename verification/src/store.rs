//! The shared metric store: the sole source of truth for current readings.
//!
//! A store is a mapping from metric key to typed gauge value. Keys are
//! registered once, at adapter construction, under the exposition format's
//! name grammar; refreshes only overwrite the payload of existing entries,
//! never their registered type; nothing is ever removed.
use vstd::prelude::*;
use crate::adapters::base::FloatText;
use crate::adapters::base::GaugeView;
use crate::adapters::base::StoreError;
use crate::adapters::base::Value;
use crate::adapters::base::ValueType;
use crate::text::check_metric_name;
use crate::text::is_metric_name;

verus! {

/// One registered metric: its key and its current value, whose tag is the
/// type the key was registered under.
pub struct MetricEntry {
    pub key: String,
    pub value: Value,
}

impl Clone for MetricEntry {
    fn clone(&self) -> (r: Self)
        ensures
            r == *self,
    {
        let r = MetricEntry { key: self.key.clone(), value: self.value.clone() };
        proof {
            assert(r == *self);
        }
        r
    }
}

/// The keys of an entry sequence, in registration order.
pub open spec fn entry_keys(s: Seq<MetricEntry>) -> Seq<Seq<char>> {
    s.map_values(|e: MetricEntry| e.key@)
}

/// No key occurs twice.
pub open spec fn distinct_keys(s: Seq<MetricEntry>) -> bool {
    forall|i: int, j: int| 0 <= i < j < s.len() ==> s[i].key@ != s[j].key@
}

/// Every key obeys the metric-name grammar and every value is well formed.
pub open spec fn entries_wf(s: Seq<MetricEntry>) -> bool {
    forall|i: int|
        0 <= i < s.len() ==> is_metric_name(#[trigger] s[i].key@) && s[i].value@.wf()
}

/// The mapping an entry sequence denotes.
pub open spec fn entries_map(s: Seq<MetricEntry>) -> Map<Seq<char>, GaugeView>
    decreases s.len(),
{
    if s.len() == 0 {
        Map::empty()
    } else {
        entries_map(s.drop_last()).insert(s.last().key@, s.last().value@)
    }
}

/// A key is in the map exactly when some entry holds it.
pub proof fn lemma_entries_map_contains(s: Seq<MetricEntry>, k: Seq<char>)
    ensures
        entries_map(s).dom().contains(k) == exists|i: int| 0 <= i < s.len() && #[trigger] s[i].key@
            == k,
    decreases s.len(),
{
    if s.len() > 0 {
        lemma_entries_map_contains(s.drop_last(), k);
        if s.last().key@ == k {
            assert(s[s.len() - 1].key@ == k);
        } else {
            assert forall|i: int| 0 <= i < s.drop_last().len() && #[trigger] s.drop_last()[i].key@
                == k implies s[i].key@ == k by {}
            assert forall|i: int| 0 <= i < s.len() && #[trigger] s[i].key@ == k
                implies 0 <= i < s.drop_last().len() && s.drop_last()[i].key@ == k by {
                assert(i != s.len() - 1);
            }
        }
    }
}

/// With distinct keys, the map agrees with each entry.
pub proof fn lemma_entries_map_value(s: Seq<MetricEntry>, i: int)
    requires
        distinct_keys(s),
        0 <= i < s.len(),
    ensures
        entries_map(s).dom().contains(s[i].key@),
        entries_map(s)[s[i].key@] == s[i].value@,
    decreases s.len(),
{
    if i == s.len() - 1 {
    } else {
        assert(distinct_keys(s.drop_last()));
        assert(s.drop_last()[i] == s[i]);
        lemma_entries_map_value(s.drop_last(), i);
        assert(s[i].key@ != s.last().key@);
    }
}

/// Replacing one entry under its own key is a map insert.
pub proof fn lemma_entries_map_update(s: Seq<MetricEntry>, i: int, e: MetricEntry)
    requires
        distinct_keys(s),
        0 <= i < s.len(),
        e.key@ == s[i].key@,
    ensures
        entries_map(s.update(i, e)) =~= entries_map(s).insert(e.key@, e.value@),
    decreases s.len(),
{
    if i == s.len() - 1 {
        assert(s.update(i, e).drop_last() =~= s.drop_last());
        assert(s.update(i, e).last() == e);
    } else {
        assert(distinct_keys(s.drop_last()));
        assert(s.drop_last()[i] == s[i]);
        lemma_entries_map_update(s.drop_last(), i, e);
        assert(s.update(i, e).drop_last() =~= s.drop_last().update(i, e));
        assert(s.update(i, e).last() == s.last());
        assert(s[i].key@ != s.last().key@);
    }
}

/// Appending a fresh entry is a map insert.
pub proof fn lemma_entries_map_push(s: Seq<MetricEntry>, e: MetricEntry)
    ensures
        entries_map(s.push(e)) == entries_map(s).insert(e.key@, e.value@),
{
    assert(s.push(e).drop_last() =~= s);
    assert(s.push(e).last() == e);
}

/// The initial value of a freshly registered gauge of type `ty`.
pub open spec fn init_gauge(ty: ValueType) -> GaugeView {
    match ty {
        ValueType::Int => GaugeView::Int(0),
        ValueType::Float => GaugeView::Float("0"@),
    }
}

/// One operation against the store, at the level of its mathematical view.
pub ghost enum StoreOp {
    RegisterOp { key: Seq<char>, ty: ValueType },
    SetOp { key: Seq<char>, value: GaugeView },
}

/// Whether the operation succeeds against map `m`. A registration demands a
/// fresh key: a naming collision between two configured sources is a
/// configuration error, detected at construction.
pub open spec fn op_ok(m: Map<Seq<char>, GaugeView>, op: StoreOp) -> bool {
    match op {
        StoreOp::RegisterOp { key, ty } => is_metric_name(key) && !m.dom().contains(key),
        StoreOp::SetOp { key, value } => m.dom().contains(key) && m[key].tag() == value.tag(),
    }
}

/// The map after the operation; a failed operation changes nothing.
pub open spec fn apply_op(m: Map<Seq<char>, GaugeView>, op: StoreOp) -> Map<Seq<char>, GaugeView> {
    if op_ok(m, op) {
        match op {
            StoreOp::RegisterOp { key, ty } => m.insert(key, init_gauge(ty)),
            StoreOp::SetOp { key, value } => m.insert(key, value),
        }
    } else {
        m
    }
}

/// The map after a whole sequence of operations.
pub open spec fn run_ops(m: Map<Seq<char>, GaugeView>, ops: Seq<StoreOp>) -> Map<
    Seq<char>,
    GaugeView,
>
    decreases ops.len(),
{
    if ops.len() == 0 {
        m
    } else {
        apply_op(run_ops(m, ops.drop_last()), ops.last())
    }
}

/// Once a key is registered, no later operation — however many, successful
/// or failed — removes it or changes its value-type tag.
pub proof fn lemma_tag_stable(m: Map<Seq<char>, GaugeView>, ops: Seq<StoreOp>, k: Seq<char>)
    requires
        m.dom().contains(k),
    ensures
        run_ops(m, ops).dom().contains(k),
        run_ops(m, ops)[k].tag() == m[k].tag(),
    decreases ops.len(),
{
    if ops.len() > 0 {
        lemma_tag_stable(m, ops.drop_last(), k);
    }
}

/// The shared, append-only store of current readings.
pub struct MetricStore {
    entries: Vec<MetricEntry>,
}

impl View for MetricStore {
    type V = Map<Seq<char>, GaugeView>;

    closed spec fn view(&self) -> Map<Seq<char>, GaugeView> {
        entries_map(self.entries@)
    }
}

impl MetricStore {
    #[verifier::type_invariant]
    spec fn inv(self) -> bool {
        distinct_keys(self.entries@) && entries_wf(self.entries@)
    }

    /// The registered keys, in registration order.
    pub closed spec fn keys_in_order(self) -> Seq<Seq<char>> {
        entry_keys(self.entries@)
    }

    /// An empty store, as the process starts with.
    pub fn new() -> (s: MetricStore)
        ensures
            s@ =~= Map::<Seq<char>, GaugeView>::empty(),
            s.keys_in_order() =~= Seq::<Seq<char>>::empty(),
    {
        MetricStore { entries: Vec::new() }
    }

    /// The index holding `key`, if any.
    fn find(&self, key: &String) -> (r: Option<usize>)
        ensures
            match r {
                Some(i) => i < self.entries@.len() && self.entries@[i as int].key@ == key@,
                None => forall|j: int|
                    0 <= j < self.entries@.len() ==> (#[trigger] self.entries@[j].key@) != key@,
            },
    {
        let n = self.entries.len();
        let mut i: usize = 0;
        while i < n
            invariant
                0 <= i <= n,
                n == self.entries@.len(),
                forall|j: int| 0 <= j < i ==> (#[trigger] self.entries@[j].key@) != key@,
            decreases n - i,
        {
            if key.eq(&self.entries[i].key) {
                return Some(i);
            }
            i = i + 1;
        }
        None
    }

    /// Inserts a new key of type `ty`, with the zero value of that type.
    ///
    /// Fails on a name outside the metric-name grammar, and on any key that
    /// already exists — a naming collision between two configured sources is
    /// a configuration error, detected here at construction, and the
    /// existing entry is left intact.
    pub fn register(&mut self, key: String, ty: ValueType) -> (r: Result<(), StoreError>)
        ensures
            final(self)@ == apply_op(old(self)@, StoreOp::RegisterOp { key: key@, ty }),
            match r {
                Ok(()) => op_ok(old(self)@, StoreOp::RegisterOp { key: key@, ty })
                    && final(self)@ == old(self)@.insert(key@, init_gauge(ty))
                    && final(self).keys_in_order() == old(self).keys_in_order().push(key@),
                Err(StoreError::InvalidKey) => !is_metric_name(key@) && final(self)@ == old(self)@
                    && final(self).keys_in_order() == old(self).keys_in_order(),
                Err(StoreError::DuplicateKey) => is_metric_name(key@)
                    && old(self)@.dom().contains(key@) && final(self)@ == old(self)@
                    && final(self).keys_in_order() == old(self).keys_in_order(),
                Err(_) => false,
            },
    {
        proof {
            use_type_invariant(&*self);
        }
        let ghost s0 = self.entries@;
        if !check_metric_name(key.as_str()) {
            return Err(StoreError::InvalidKey);
        }
        match self.find(&key) {
            Some(i) => {
                proof {
                    lemma_entries_map_contains(s0, key@);
                }
                Err(StoreError::DuplicateKey)
            },
            None => {
                proof {
                    lemma_entries_map_contains(s0, key@);
                }
                let entry = MetricEntry { key, value: zero_value(ty) };
                let mut es: Vec<MetricEntry> = Vec::new();
                core::mem::swap(&mut es, &mut self.entries);
                es.push(entry);
                proof {
                    lemma_entries_map_push(s0, es@.last());
                    assert(distinct_keys(es@));
                    assert(entries_wf(es@));
                    assert(entry_keys(es@) =~= entry_keys(s0).push(es@.last().key@));
                }
                self.entries = es;
                Ok(())
            },
        }
    }

    /// Overwrites the payload of an existing entry.
    ///
    /// Fails on an unknown key and on a value whose tag differs from the
    /// registered type; both are programming errors under the store's write
    /// discipline, and the store is unchanged.
    pub fn set(&mut self, key: &String, value: Value) -> (r: Result<(), StoreError>)
        ensures
            final(self)@ == apply_op(old(self)@, StoreOp::SetOp { key: key@, value: value@ }),
            final(self).keys_in_order() == old(self).keys_in_order(),
            match r {
                Ok(()) => old(self)@.dom().contains(key@) && old(self)@[key@].tag()
                    == value@.tag() && final(self)@ == old(self)@.insert(key@, value@),
                Err(StoreError::UnknownKey) => !old(self)@.dom().contains(key@) && final(self)@
                    == old(self)@,
                Err(StoreError::TypeMismatch) => old(self)@.dom().contains(key@) && old(
                    self,
                )@[key@].tag() != value@.tag() && final(self)@ == old(self)@,
                Err(_) => false,
            },
    {
        proof {
            use_type_invariant(&*self);
        }
        let ghost s0 = self.entries@;
        match self.find(key) {
            None => {
                proof {
                    lemma_entries_map_contains(s0, key@);
                }
                Err(StoreError::UnknownKey)
            },
            Some(i) => {
                proof {
                    lemma_entries_map_contains(s0, key@);
                    lemma_entries_map_value(s0, i as int);
                }
                let same = match (&self.entries[i].value, &value) {
                    (Value::Int(_), Value::Int(_)) => true,
                    (Value::Float(_), Value::Float(_)) => true,
                    _ => false,
                };
                if !same {
                    return Err(StoreError::TypeMismatch);
                }
                let _wf = value.check_wf();
                let mut es: Vec<MetricEntry> = Vec::new();
                core::mem::swap(&mut es, &mut self.entries);
                let mut entry = es.remove(i);
                entry.value = value;
                es.insert(i, entry);
                proof {
                    assert(es@ =~= s0.update(i as int, es@[i as int]));
                    lemma_entries_map_update(s0, i as int, es@[i as int]);
                    assert(distinct_keys(es@));
                    assert(entries_wf(es@));
                    assert(entry_keys(es@) =~= entry_keys(s0));
                }
                self.entries = es;
                Ok(())
            },
        }
    }

    /// The current value under `key`, if registered.
    pub fn get(&self, key: &String) -> (r: Option<&Value>)
        ensures
            match r {
                Some(v) => self@.dom().contains(key@) && v@ == self@[key@],
                None => !self@.dom().contains(key@),
            },
    {
        proof {
            use_type_invariant(self);
        }
        match self.find(key) {
            Some(i) => {
                proof {
                    lemma_entries_map_contains(self.entries@, key@);
                    lemma_entries_map_value(self.entries@, i as int);
                }
                Some(&self.entries[i].value)
            },
            None => {
                proof {
                    lemma_entries_map_contains(self.entries@, key@);
                }
                None
            },
        }
    }

    /// How many keys are registered.
    pub fn len(&self) -> (n: usize)
        ensures
            n == self.keys_in_order().len(),
    {
        self.entries.len()
    }

    /// An immutable copy of all entries, in registration order, for the
    /// exposition endpoint to serialize.
    pub fn snapshot(&self) -> (r: Vec<MetricEntry>)
        ensures
            entry_keys(r@) == self.keys_in_order(),
            distinct_keys(r@),
            entries_wf(r@),
            forall|i: int| 0 <= i < r@.len() ==> self@[(#[trigger] r@[i]).key@] == r@[i].value@,
            forall|i: int|
                0 <= i < r@.len() ==> self@.dom().contains((#[trigger] r@[i]).key@),
    {
        proof {
            use_type_invariant(self);
        }
        let n = self.entries.len();
        let mut r: Vec<MetricEntry> = Vec::new();
        let mut i: usize = 0;
        while i < n
            invariant
                0 <= i <= n,
                n == self.entries@.len(),
                distinct_keys(self.entries@),
                entries_wf(self.entries@),
                r@ =~= self.entries@.take(i as int),
            decreases n - i,
        {
            r.push(self.entries[i].clone());
            proof {
                assert(r@ =~= self.entries@.take(i + 1));
            }
            i = i + 1;
        }
        proof {
            assert(r@ =~= self.entries@);
            assert(entry_keys(r@) =~= entry_keys(self.entries@));
            assert forall|i: int| 0 <= i < r@.len() implies self@[(#[trigger] r@[i]).key@]
                == r@[i].value@ && self@.dom().contains(r@[i].key@) by {
                lemma_entries_map_value(self.entries@, i);
            }
        }
        r
    }
}

// ---------------------------------------------------------------------------
// Registering a batch of keys, as every adapter does at construction.
// ---------------------------------------------------------------------------

/// The error `register` reports for `key` of type `ty` against map `m`.
pub open spec fn register_err(m: Map<Seq<char>, GaugeView>, key: Seq<char>, ty: ValueType) -> StoreError {
    if !is_metric_name(key) {
        StoreError::InvalidKey
    } else {
        StoreError::DuplicateKey
    }
}

/// Registering a list of keys in order, stopping at the first failure: the
/// map reached and the error, if any. Keys registered before the failure
/// stay registered, as the construction-time flow leaves them.
pub open spec fn spec_register_all(
    m: Map<Seq<char>, GaugeView>,
    pairs: Seq<(Seq<char>, ValueType)>,
) -> (Map<Seq<char>, GaugeView>, Option<StoreError>)
    decreases pairs.len(),
{
    if pairs.len() == 0 {
        (m, None)
    } else {
        let key = pairs[0].0;
        let ty = pairs[0].1;
        if op_ok(m, StoreOp::RegisterOp { key, ty }) {
            spec_register_all(m.insert(key, init_gauge(ty)), pairs.drop_first())
        } else {
            (m, Some(register_err(m, key, ty)))
        }
    }
}

/// Registration only adds: a batch registers fresh keys, so every existing
/// key keeps its value and its registered type.
pub proof fn lemma_register_all_preserves(
    m: Map<Seq<char>, GaugeView>,
    pairs: Seq<(Seq<char>, ValueType)>,
    k: Seq<char>,
)
    requires
        m.dom().contains(k),
    ensures
        spec_register_all(m, pairs).0.dom().contains(k),
        spec_register_all(m, pairs).0[k] == m[k],
    decreases pairs.len(),
{
    if pairs.len() > 0 {
        let key = pairs[0].0;
        let ty = pairs[0].1;
        if op_ok(m, StoreOp::RegisterOp { key, ty }) {
            lemma_register_all_preserves(m.insert(key, init_gauge(ty)), pairs.drop_first(), k);
        }
    }
}

/// The view of an executable registration batch.
pub open spec fn pairs_view(pairs: Seq<(String, ValueType)>) -> Seq<(Seq<char>, ValueType)> {
    pairs.map_values(|p: (String, ValueType)| (p.0@, p.1))
}

/// Registers every `(key, type)` pair in order, stopping at the first
/// failure; the batch every adapter submits at construction.
pub fn register_keys(store: &mut MetricStore, pairs: &Vec<(String, ValueType)>) -> (r: Result<
    (),
    StoreError,
>)
    ensures
        final(store)@ == spec_register_all(old(store)@, pairs_view(pairs@)).0,
        match r {
            Ok(()) => spec_register_all(old(store)@, pairs_view(pairs@)).1 is None,
            Err(e) => spec_register_all(old(store)@, pairs_view(pairs@)).1 == Some(e),
        },
{
    let ghost m0 = store@;
    let ghost pv = pairs_view(pairs@);
    let n = pairs.len();
    let mut i: usize = 0;
    proof {
        assert(pv.skip(0) =~= pv);
    }
    while i < n
        invariant
            0 <= i <= n,
            n == pairs@.len(),
            m0 == old(store)@,
            pv == pairs_view(pairs@),
            spec_register_all(m0, pv) == spec_register_all(store@, pv.skip(i as int)),
        decreases n - i,
    {
        let ghost mi = store@;
        let key = pairs[i].0.clone();
        let ty = pairs[i].1;
        proof {
            assert(pv[i as int] == (pairs@[i as int].0@, pairs@[i as int].1));
            assert(pv.skip(i as int)[0] == pv[i as int]);
            assert(pv.skip(i as int).drop_first() =~= pv.skip(i + 1));
            assert(key@ == pv[i as int].0);
        }
        match store.register(key, ty) {
            Ok(()) => {
                proof {
                    assert(op_ok(mi, StoreOp::RegisterOp { key: pv[i as int].0, ty }));
                    assert(store@ == mi.insert(pv[i as int].0, init_gauge(ty)));
                    assert(spec_register_all(mi, pv.skip(i as int)) == spec_register_all(
                        store@,
                        pv.skip(i + 1),
                    ));
                }
            },
            Err(e) => {
                proof {
                    assert(!op_ok(mi, StoreOp::RegisterOp { key: pv[i as int].0, ty }));
                    assert(e == register_err(mi, pv[i as int].0, ty));
                    assert(spec_register_all(mi, pv.skip(i as int)) == (mi, Some(e)));
                }
                return Err(e);
            },
        }
        i = i + 1;
    }
    proof {
        assert(pv.skip(n as int) =~= Seq::<(Seq<char>, ValueType)>::empty());
    }
    Ok(())
}

// ---------------------------------------------------------------------------
// Overwriting a batch of existing keys, as an all-or-nothing refresh does.
// ---------------------------------------------------------------------------

/// The map after inserting every pair in order.
pub open spec fn insert_all(
    m: Map<Seq<char>, GaugeView>,
    pairs: Seq<(Seq<char>, GaugeView)>,
) -> Map<Seq<char>, GaugeView>
    decreases pairs.len(),
{
    if pairs.len() == 0 {
        m
    } else {
        insert_all(m, pairs.drop_last()).insert(pairs.last().0, pairs.last().1)
    }
}

/// Inserting under named keys touches nothing else.
pub proof fn lemma_insert_all_frame(
    m: Map<Seq<char>, GaugeView>,
    pairs: Seq<(Seq<char>, GaugeView)>,
    k: Seq<char>,
)
    requires
        forall|i: int| 0 <= i < pairs.len() ==> (#[trigger] pairs[i]).0 != k,
    ensures
        insert_all(m, pairs).dom().contains(k) == m.dom().contains(k),
        m.dom().contains(k) ==> insert_all(m, pairs)[k] == m[k],
    decreases pairs.len(),
{
    if pairs.len() > 0 {
        lemma_insert_all_frame(m, pairs.drop_last(), k);
    }
}

/// One write at the level of the map: the map after it and the store error,
/// if the key is unknown or the tag differs. The refresh folds of the
/// adapters are built from this step.
pub open spec fn spec_set_value(
    m: Map<Seq<char>, GaugeView>,
    key: Seq<char>,
    v: GaugeView,
) -> (Map<Seq<char>, GaugeView>, Option<StoreError>) {
    if !m.dom().contains(key) {
        (m, Some(StoreError::UnknownKey))
    } else if m[key].tag() != v.tag() {
        (m, Some(StoreError::TypeMismatch))
    } else {
        (m.insert(key, v), None)
    }
}

/// The zero value a key starts from when registered under `ty`.
fn zero_value(ty: ValueType) -> (v: Value)
    ensures
        v@ == init_gauge(ty),
        v@.tag() == ty,
        v@.wf(),
{
    let v = match ty {
        ValueType::Int => Value::Int(0),
        ValueType::Float => Value::Float(FloatText::zero()),
    };
    let _wf = v.check_wf();
    v
}

} // verus!
