pub mod alerts;
pub mod clock;
pub mod columnar;
pub mod dispatch;
pub mod flatten;
pub mod partition;
pub mod jsontext;
pub mod row;
pub mod schema;
pub mod timestamp;
pub mod value;

use vstd::prelude::*;

verus! {

/// Rounds a row count up to the storage alignment of 64 rows.
pub fn round_upto_multiple_of_64(n: usize) -> (r: usize)
    requires
        n <= usize::MAX - 63,
    ensures
        r == ((n + 63) / 64) * 64,
        r >= n,
        r % 64 == 0,
{
    let r = ((n + 63) / 64) * 64;
    assert(r >= n && r % 64 == 0) by (nonlinear_arith)
        requires
            r == ((n + 63) / 64) * 64,
            n <= usize::MAX - 63,
    ;
    r
}

} // verus!
