use vstd::prelude::*;
use std::collections::HashMap;

use crate::table::entries_map;

verus! {

/// The `serde_json` crate's error.
#[verifier::external_type_specification]
#[verifier::external_body]
pub struct ExJsonError(serde_json::Error);

/// What `serde_json::from_str::<HashMap<String, String>>` reads from `text`: the
/// JSON object of string values, or `None` where `text` is not one.
pub uninterp spec fn json_string_map(text: Seq<char>) -> Option<Map<Seq<char>, Seq<char>>>;

/// Calls `serde_json::from_str::<HashMap<String, String>>` and lists the map's
/// entries. Claimed: it succeeds exactly where the named reading exists, and
/// the entries make up that map. The order of the entries is not claimed.
#[verifier::external_body]
pub(crate) fn parse_json_string_map(text: &str) -> (res: Result<Vec<(String, String)>, serde_json::Error>)
    ensures
        res is Ok <==> json_string_map(text@) is Some,
        res matches Ok(entries) ==> entries_map(entries@) == json_string_map(text@)->0,
{
    match serde_json::from_str::<HashMap<String, String>>(text) {
        Ok(map) => Ok(map.into_iter().collect()),
        Err(e) => Err(e),
    }
}

} // verus!
