//! Laws of time buckets.
use vstd::prelude::*;
use crate::column_groups::div_toward_zero;

verus! {

/// A timestamp at or after the epoch falls in the bucket that starts at the
/// greatest multiple of the bucket size not above it.
pub proof fn bucket_holds_its_timestamp(t: int, size: int)
    requires
        0 <= t,
        0 < size,
    ensures
        div_toward_zero(t, size) * size <= t < div_toward_zero(t, size) * size + size,
        (div_toward_zero(t, size) * size) % size == 0,
{
    let q = t / size;
    assert(div_toward_zero(t, size) == q);
    assert(q * size <= t < q * size + size) by (nonlinear_arith)
        requires
            0 <= t,
            0 < size,
            q == t / size,
    ;
    vstd::arithmetic::div_mod::lemma_mod_multiples_basic(q, size);
}

} // verus!
