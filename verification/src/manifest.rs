//! The dependency names that a package manifest declares, as the `toml`
//! crate reads them.
use vstd::prelude::*;

use crate::api::texts;

verus! {

/// The keys of the `[dependencies]` table of the TOML text `text`, in the
/// table's order; nothing when the text is not TOML or has no such table.
pub uninterp spec fn manifest_dependency_keys(text: Seq<char>) -> Option<Seq<Seq<char>>>;

/// Calls `str::parse::<toml::Value>` on `manifest`, then `toml::Value::get`
/// with "dependencies" and `as_table`, and collects the table's keys in its
/// order. The result is a function of the text alone, named
/// `manifest_dependency_keys`; what that function is (the TOML grammar) is
/// not stated here.
#[verifier::external_body]
pub(crate) fn dependency_keys(manifest: &str) -> (r: Option<Vec<String>>)
    ensures
        match r {
            Some(v) => manifest_dependency_keys(manifest@) == Some(texts(v@)),
            None => manifest_dependency_keys(manifest@) is None,
        },
{
    let value = manifest.parse::<toml::Value>().ok()?;
    let table = value.get("dependencies").and_then(|d| d.as_table())?;
    Some(table.keys().cloned().collect())
}

} // verus!
