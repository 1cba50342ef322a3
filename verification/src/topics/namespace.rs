//! How a topic's namespace is named to persistence.
use vstd::prelude::*;
use vstd::string::{StrSliceExecFns, StringExecFns};

verus! {

/// Whether two texts hold the same characters.
pub fn same_text(a: &str, b: &str) -> (r: bool)
    ensures
        r == (a@ == b@),
{
    let n = a.unicode_len();
    if n != b.unicode_len() {
        return false;
    }
    let mut i: usize = 0;
    while i < n
        invariant
            n == a@.len(),
            n == b@.len(),
            i <= n,
            forall|j: int| 0 <= j < i ==> a@[j] == b@[j],
        decreases n - i,
    {
        if a.get_char(i) != b.get_char(i) {
            return false;
        }
        i += 1;
    }
    assert(a@ =~= b@);
    true
}

/// The namespace as persistence wants it: none for the default namespace,
/// `default`, which is what a node that knows no namespaces sends.
pub fn as_grpc_namespace(namespace: &str) -> (r: Option<String>)
    ensures
        namespace@ == "default"@ ==> r is None,
        namespace@ != "default"@ ==> (r matches Some(s) && s@ == namespace@),
{
    if same_text(namespace, "default") {
        None
    } else {
        Some(String::from_str(namespace))
    }
}

} // verus!
