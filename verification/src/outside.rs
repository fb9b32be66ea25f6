//! The calls this library makes into other crates, each with the contract
//! that the rest of the library relies on.
use vstd::prelude::*;

verus! {

/// The text that `bytefmt::format` produces for a byte count (for example
/// "123 B" or "1.23 KB"). It is a function of the count alone.
pub uninterp spec fn bytefmt_format(bytes: u64) -> Seq<char>;

/// Calls `bytefmt::format`, which renders a byte count with a decimal unit
/// (B, KB, MB, GB, TB or PB). Claimed: the result is `bytefmt_format(bytes)`,
/// that is, it depends on `bytes` alone.
#[verifier::external_body]
pub(crate) fn format_bytes(bytes: u64) -> (text: String)
    ensures
        text@ == bytefmt_format(bytes),
{
    bytefmt::format(bytes)
}

/// Calls `num_cpus::get`, the number of logical CPUs this process may use.
/// The count depends on the machine, so nothing is claimed of it.
#[verifier::external_body]
pub(crate) fn available_cpus() -> usize {
    num_cpus::get()
}

/// The keys of the JSON object found under `section` at the top level of the
/// JSON document `text`, in the order in which `serde_json` lists them; `None`
/// when `text` is not a JSON document, or has no member named `section`, or
/// that member is not an object.
pub uninterp spec fn json_section_keys(text: Seq<char>, section: Seq<char>) -> Option<Seq<Seq<char>>>;

/// Parses `text` with `serde_json::from_str` into a `serde_json::Value`, looks
/// up `section` with `Value::get`, keeps it only if `Value::as_object` finds an
/// object there, and lists that object's keys with `Map::keys`. Claimed: the
/// result is `json_section_keys(text, section)`, a function of the two
/// strings alone.
#[verifier::external_body]
pub(crate) fn section_keys(text: &str, section: &str) -> (keys: Option<Vec<String>>)
    ensures
        keys.deep_view() == json_section_keys(text@, section@),
{
    let value: serde_json::Value = serde_json::from_str(text).ok()?;
    let object = value.get(section)?.as_object()?;
    Some(object.keys().cloned().collect())
}

} // verus!
