//! The oracle comparison: the interpreter's result is the trusted reference
//! against which a native run is judged.

use vstd::prelude::*;

verus! {

/// True exactly when the native result agrees with the interpreted one. A
/// disagreement signals a code-generator defect; it is advisory, reported
/// rather than treated as fatal.
pub fn results_agree(interpreted: i64, native: i64) -> (r: bool)
    ensures
        r == (interpreted == native),
{
    interpreted == native
}

} // verus!
