//! The batch decision of the driving simulation's spawner: how many obstacles or cars a
//! spawning round adds. Where they go and how they move is floating-point work of the
//! simulation itself.

use vstd::prelude::*;

verus! {

/// The most entities one spawning round adds.
pub const SPAWN_BATCH: usize = 10;

/// How many entities a spawning round adds where `current` of them exist and at most
/// `max` may: the shortfall, but no more than `SPAWN_BATCH` at a time, and none once
/// the maximum is reached.
pub open spec fn spawn_count_spec(current: nat, max: nat) -> nat {
    if current < max {
        let short = (max - current) as nat;
        if short < SPAWN_BATCH {
            short
        } else {
            SPAWN_BATCH as nat
        }
    } else {
        0
    }
}

/// How many entities a spawning round adds (see `spawn_count_spec`). A round never
/// takes the count past the maximum, and it adds some wherever the maximum is not
/// reached.
pub fn spawn_count(current: usize, max: usize) -> (r: usize)
    ensures
        r == spawn_count_spec(current as nat, max as nat),
        current < max ==> 0 < r && current + r <= max,
        r <= SPAWN_BATCH,
{
    if current < max {
        let short = max - current;
        if short < SPAWN_BATCH {
            short
        } else {
            SPAWN_BATCH
        }
    } else {
        0
    }
}

} // verus!
