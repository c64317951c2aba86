//! Simulated dice rolls backed by the process-wide random generator.

use vstd::prelude::*;

verus! {

/// Relies on `rand::random_range`: a value drawn uniformly from
/// `start..end` by the thread-local generator. The call panics on an
/// empty range, so the contract excludes one.
#[verifier::external_body]
fn rand_in_range(start: usize, end: usize) -> (n: usize)
    requires
        start < end,
    ensures
        start <= n < end,
{
    rand::random_range(start..end)
}

/// Rolls dice: `runs` independent runs of `rolls` outcomes each, every
/// outcome drawn from `start` inclusive to `end` exclusive. An empty
/// range is a misconfigured dice scheme and is ruled out by contract.
pub fn roll_dice(runs: usize, rolls: usize, start: usize, end: usize) -> (r: Vec<Vec<usize>>)
    requires
        start < end,
    ensures
        r@.len() == runs,
        forall|i: int| 0 <= i < runs ==> (#[trigger] r@[i])@.len() == rolls,
        forall|i: int, j: int|
            0 <= i < runs && 0 <= j < rolls ==> start <= #[trigger] r@[i]@[j] < end,
{
    let mut r: Vec<Vec<usize>> = Vec::new();
    let mut i: usize = 0;
    while i < runs
        invariant
            start < end,
            0 <= i <= runs,
            r@.len() == i,
            forall|a: int| 0 <= a < i ==> (#[trigger] r@[a])@.len() == rolls,
            forall|a: int, b: int|
                0 <= a < i && 0 <= b < rolls ==> start <= #[trigger] r@[a]@[b] < end,
        decreases runs - i,
    {
        let mut one: Vec<usize> = Vec::new();
        let mut j: usize = 0;
        while j < rolls
            invariant
                start < end,
                0 <= j <= rolls,
                one@.len() == j,
                forall|b: int| 0 <= b < j ==> start <= #[trigger] one@[b] < end,
            decreases rolls - j,
        {
            one.push(rand_in_range(start, end));
            j += 1;
        }
        r.push(one);
        i += 1;
    }
    r
}

} // verus!
