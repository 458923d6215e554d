//! Checking YAML text against the grammar, through serde_yaml.
use vstd::prelude::*;
use crate::error::{BridgeError, ErrModel};

verus! {

/// What serde_yaml makes of a text: accepted, or rejected with its diagnostic.
pub uninterp spec fn yaml_scan_of(text: Seq<char>) -> Result<(), Seq<char>>;

/// Relies on serde_yaml::from_str, read into serde's `IgnoredAny` so that the whole
/// document is walked and nothing is kept: whether the text is YAML, and the
/// parser's diagnostic where it is not, depend on the text alone.
#[verifier::external_body]
fn yaml_scan(text: &str) -> (r: Result<(), String>)
    ensures
        match r {
            Ok(_) => yaml_scan_of(text@) is Ok,
            Err(m) => yaml_scan_of(text@) == Err::<(), Seq<char>>(m@),
        },
{
    serde_yaml::from_str::<serde::de::IgnoredAny>(text).map(|_| ()).map_err(|e| e.to_string())
}

/// Checks YAML text against the grammar. Text that the parser rejects fails with
/// `Grammar`, carrying the parser's own diagnostic; any other text passes.
pub fn check_yaml(text: &str) -> (r: Result<(), BridgeError>)
    ensures
        r is Ok <==> yaml_scan_of(text@) is Ok,
        r is Err ==> (yaml_scan_of(text@) matches Err(m) && r->Err_0@ == ErrModel::Grammar(m)),
{
    match yaml_scan(text) {
        Ok(()) => Ok(()),
        Err(message) => Err(BridgeError::Grammar { message }),
    }
}

} // verus!
