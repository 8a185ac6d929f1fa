//! The extraction engine: a narrow capability that evaluates a path/filter
//! expression against a JSON document and yields at most one scalar, as the
//! smart-query source needs. Its implementation — a jq-style filter
//! interpreter over a parsed JSON value — is behind one trusted boundary,
//! so it can be swapped without touching adapter logic.
use vstd::prelude::*;
use jaq_interpret::FilterT;

verus! {

/// Whether the bytes form a JSON document.
pub uninterp spec fn json_ok(doc: Seq<u8>) -> bool;

/// Relies on serde_json::from_slice: whether the bytes parse as JSON.
#[verifier::external_body]
pub(crate) fn json_is_valid(doc: &Vec<u8>) -> (r: bool)
    ensures
        r == json_ok(doc@),
{
    serde_json::from_slice::<serde_json::Value>(doc.as_slice()).is_ok()
}

/// The JSON text of the first value the path expression yields on the
/// document, if any; a function of the document and the expression alone.
pub uninterp spec fn extracted(doc: Seq<u8>, path: Seq<char>) -> Option<Seq<char>>;

/// Relies on serde_json::from_slice and on jaq — jaq_parse::parse,
/// jaq_interpret's ParseCtx::compile and Filter::run — to evaluate the
/// expression against the document; the first value it yields is handed
/// back as its text, via jaq's own value formatting. Yields nothing when
/// the document or the expression does not parse, when the expression
/// carries its own definitions or names this engine does not define —
/// either could recurse or fall back to an unintended filter — or when it
/// produces no value.
#[verifier::external_body]
pub(crate) fn evaluate_path(doc: &Vec<u8>, path: &str) -> (r: Option<String>)
    ensures
        match r {
            Some(s) => extracted(doc@, path@) == Some(s@),
            None => extracted(doc@, path@) is None,
        },
{
    let json: serde_json::Value = serde_json::from_slice(doc.as_slice()).ok()?;
    let (main, errs) = jaq_parse::parse(path, jaq_parse::main());
    let main = main.filter(|m| errs.is_empty() && m.defs.is_empty())?;
    let mut defs = jaq_interpret::ParseCtx::new(Vec::new());
    let filter = defs.compile(main);
    if !defs.errs.is_empty() {
        return None;
    }
    let inputs = jaq_interpret::RcIter::new(core::iter::empty());
    let out = filter.run((jaq_interpret::Ctx::new([], &inputs), jaq_interpret::Val::from(json)))
        .find_map(|x| x.ok());
    out.map(|v| v.to_string())
}

} // verus!
