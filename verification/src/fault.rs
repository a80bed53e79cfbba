//! The terminal error path.
//!
//! Any unrecoverable fault (a failed write on the diagnostic line, an
//! out-of-memory condition) ends in a halt: the surrounding program makes
//! one best-effort attempt to put a diagnostic line on the wire and then
//! loops forever.  The library supplies the exact fault descriptions.

use vstd::prelude::*;
use vstd::string::StringExecFns;

verus! {

/// The description reported when a dynamic allocation fails.  The
/// surrounding program logs it best-effort and halts; no recovery is
/// attempted.
pub fn alloc_error() -> (m: String)
    ensures
        m@ == "Alloc error."@,
{
    String::from_str("Alloc error.")
}

} // verus!
