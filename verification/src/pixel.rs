//! The integer rules of the pixel integration model: how far a pixel's
//! decimation rises once it has fired, and when its oldest event has to be
//! taken out.

use crate::types::{spec_d_shift, DeltaT, D, D_MAX};
use vstd::arithmetic::power2::{
    lemma2_to64_rest,
    lemma_pow2_adds,
    lemma_pow2_strictly_increases,
    lemma_pow2_unfold,
};
use vstd::prelude::*;

verus! {

/// The decimation of a node that has fired at `d` and holds `integration`:
/// the least one above `d` whose threshold `2^r` exceeds the integration.
pub fn raise_decimation(d: D, integration: u128) -> (r: D)
    requires
        d < D_MAX,
        integration < spec_d_shift(D_MAX),
    ensures
        d < r <= D_MAX,
        integration < spec_d_shift(r),
        forall|e: D| d < e < r ==> #[trigger] spec_d_shift(e) <= integration,
{
    let mut r: D = d + 1;
    let mut threshold: u128 = crate::types::d_shift(r);
    while threshold <= integration
        invariant
            d < r <= D_MAX,
            threshold == spec_d_shift(r),
            integration < spec_d_shift(D_MAX),
            forall|e: D| d < e < r ==> #[trigger] spec_d_shift(e) <= integration,
        decreases D_MAX - r,
    {
        proof {
            assert(r < D_MAX);
            lemma_pow2_unfold((r + 1) as nat);
            lemma2_to64_rest();
            lemma_pow2_adds(64, 63);
            if r + 1 < 127 {
                lemma_pow2_strictly_increases((r + 1) as nat, 127);
            }
        }
        r = r + 1;
        threshold = threshold * 2;
    }
    r
}

/// Whether the oldest event of a pixel has to be taken out: its node has
/// reached the largest decimation, or has gathered `dtm` ticks.
pub fn must_pop_top(d: D, delta_t: DeltaT, dtm: DeltaT) -> (r: bool)
    ensures
        r == (d == D_MAX || delta_t >= dtm),
{
    d == D_MAX || delta_t >= dtm
}

} // verus!
