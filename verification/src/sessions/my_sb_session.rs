//! What a session tells about its client.
use vstd::prelude::*;

verus! {

pub struct SessionNameAndVersion {
    pub name: String,
    pub version: Option<String>,
    pub env_info: Option<String>,
}

/// A copy of an optional text.
pub fn copy_opt_string(s: &Option<String>) -> (r: Option<String>)
    ensures
        match (s, r) {
            (Some(a), Some(b)) => a@ == b@,
            (None, None) => true,
            _ => false,
        },
{
    match s {
        Some(v) => Some(v.clone()),
        None => None,
    }
}

} // verus!
