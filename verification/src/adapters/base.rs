//! The common vocabulary of every adapter: the type tag a metric is
//! registered under, the tagged value a gauge holds, and the errors the
//! store and the refresh operations report.
use vstd::prelude::*;
use crate::text::is_float_text;
use crate::text::is_float_literal;

verus! {

/// The type tag a metric key is registered under. Fixed at registration and
/// never changed by a later `set`.
#[derive(Clone, Copy, PartialEq, Eq, Structural, Debug)]
pub enum ValueType {
    Int,
    Float,
}

/// The decimal text of a floating-point gauge value.
///
/// The store's own logic never computes with the number, it only records it
/// and renders it, so the text is the value; the invariant keeps it inside
/// the float-literal grammar so that exposition lines stay well formed.
#[derive(Debug)]
pub struct FloatText {
    text: String,
}

impl View for FloatText {
    type V = Seq<char>;

    closed spec fn view(&self) -> Seq<char> {
        self.text@
    }
}

impl FloatText {
    #[verifier::type_invariant]
    spec fn inv(self) -> bool {
        is_float_text(self.text@)
    }

    /// Accepts exactly the float-literal grammar.
    pub fn new(text: String) -> (r: Option<FloatText>)
        ensures
            match r {
                Some(f) => is_float_text(text@) && f@ == text@,
                None => !is_float_text(text@),
            },
    {
        if is_float_literal(text.as_str()) {
            Some(FloatText { text })
        } else {
            None
        }
    }

    /// The stored text, which always satisfies the grammar.
    pub fn as_string(&self) -> (r: &String)
        ensures
            r@ == self@,
            is_float_text(self@),
    {
        proof {
            use_type_invariant(self);
        }
        &self.text
    }

    /// The text `0`, the initial value of a freshly registered float gauge.
    pub fn zero() -> (r: FloatText)
        ensures
            r@ == "0"@,
    {
        let text = "0".to_owned();
        proof {
            reveal_strlit("0");
            assert(is_float_text(text@));
        }
        FloatText { text }
    }
}

impl Clone for FloatText {
    fn clone(&self) -> (r: Self)
        ensures
            r == *self,
    {
        proof {
            use_type_invariant(self);
        }
        FloatText { text: self.text.clone() }
    }
}

/// The mathematical value of one gauge.
pub ghost enum GaugeView {
    Int(i64),
    Float(Seq<char>),
}

impl GaugeView {
    pub open spec fn tag(self) -> ValueType {
        match self {
            GaugeView::Int(_) => ValueType::Int,
            GaugeView::Float(_) => ValueType::Float,
        }
    }

    pub open spec fn wf(self) -> bool {
        match self {
            GaugeView::Int(_) => true,
            GaugeView::Float(t) => is_float_text(t),
        }
    }
}

/// The current payload of one gauge: an integer, or the decimal text of a
/// floating-point value.
#[derive(Debug)]
pub enum Value {
    Int(i64),
    Float(FloatText),
}

impl View for Value {
    type V = GaugeView;

    open spec fn view(&self) -> GaugeView {
        match self {
            Value::Int(i) => GaugeView::Int(*i),
            Value::Float(t) => GaugeView::Float(t@),
        }
    }
}

impl Value {
    /// The tag of this value, checked against the registered tag on every write.
    pub open spec fn spec_type(self) -> ValueType {
        self@.tag()
    }

    /// Executable twin of `spec_type`.
    pub fn value_type(&self) -> (t: ValueType)
        ensures
            t == self.spec_type(),
    {
        match self {
            Value::Int(_) => ValueType::Int,
            Value::Float(_) => ValueType::Float,
        }
    }

    /// Every reachable value is well formed: a float gauge's text obeys the
    /// float-literal grammar.
    pub(crate) fn check_wf(&self) -> (r: bool)
        ensures
            r,
            self@.wf(),
    {
        match self {
            Value::Int(_) => true,
            Value::Float(t) => {
                proof {
                    use_type_invariant(t);
                }
                true
            },
        }
    }
}

impl Clone for Value {
    fn clone(&self) -> (r: Self)
        ensures
            r == *self,
    {
        match self {
            Value::Int(i) => Value::Int(*i),
            Value::Float(t) => Value::Float(t.clone()),
        }
    }
}

/// The key an adapter registers a parameter under: `{name}_{parameter}`.
pub open spec fn key_of(name: Seq<char>, param: Seq<char>) -> Seq<char> {
    name + "_"@ + param
}

/// The key of a balance parameter: `{name}_balance_{address}`.
pub open spec fn balance_key(name: Seq<char>, addr: Seq<char>) -> Seq<char> {
    key_of(name, "balance_"@ + addr)
}

/// Builds `{name}_{parameter}`.
pub fn make_key(name: &str, param: &str) -> (r: String)
    ensures
        r@ == key_of(name@, param@),
{
    let mut r = name.to_owned();
    r.append("_");
    r.append(param);
    proof {
        assert(r@ =~= key_of(name@, param@));
    }
    r
}

/// Builds `{name}_balance_{address}`.
pub fn make_balance_key(name: &str, addr: &str) -> (r: String)
    ensures
        r@ == balance_key(name@, addr@),
{
    let mut r = name.to_owned();
    r.append("_balance_");
    r.append(addr);
    proof {
        reveal_strlit("_");
        reveal_strlit("balance_");
        reveal_strlit("_balance_");
        assert("_balance_"@ =~= "_"@ + "balance_"@);
        assert(r@ =~= key_of(name@, "balance_"@ + addr@));
    }
    r
}

/// Text equality, as the factory compares source-type tags.
pub fn str_eq(a: &str, b: &str) -> (r: bool)
    ensures
        r == (a@ == b@),
{
    let sa = a.to_owned();
    let sb = b.to_owned();
    sa.eq(&sb)
}

/// A violation of the store's write discipline. Distinct from the runtime
/// refresh failures so that callers and tests can tell a programming error
/// from a network fault.
#[derive(Clone, Copy, PartialEq, Eq, Structural, Debug)]
pub enum StoreError {
    /// Registering a key that exists under another type.
    DuplicateKey,
    /// Registering a name outside the metric-name grammar.
    InvalidKey,
    /// Setting a key that was never registered.
    UnknownKey,
    /// Setting a value whose tag differs from the registered tag.
    TypeMismatch,
}

/// Why an adapter with a remote endpoint could not be built: the endpoint
/// does not parse as a client URL — checked before any key is registered,
/// as the client was constructed first — or the store refused a key.
#[derive(Clone, Copy, PartialEq, Eq, Structural, Debug)]
pub enum BuildError {
    InvalidEndpoint,
    Store(StoreError),
}

/// Why one adapter's refresh cycle failed. Adapter-local: the affected keys
/// keep their last good value and the next cycle is the retry.
#[derive(Clone, Copy, PartialEq, Eq, Structural, Debug)]
pub enum RefreshError {
    /// A numeric text failed to parse.
    Parse,
    /// A response failed to decode.
    Decode,
    /// A payload was not a JSON document.
    Json,
    /// An extraction path yielded no scalar.
    Extraction,
    /// An expected response field was missing or had the wrong shape.
    Field,
    /// A scaled balance exceeds the gauge range.
    Overflow,
    /// The store refused a write: a programming error, not a network fault.
    Store(StoreError),
}

} // verus!
