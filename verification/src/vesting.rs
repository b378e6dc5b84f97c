//! Vesting schedules: cliffs that unlock shares of an allocation over time.

use vstd::prelude::*;

use crate::decimal::{dec_wf, pow10, units, Dec, MAX_SCALE};
use crate::SimulationError;

verus! {

/// A cliff: a share of the allocation unlocked once its duration has passed.
#[derive(Clone, Copy, Debug, PartialEq)]
pub struct VestingCliff {
    /// Fraction of tokens unlocked at the end of this cliff.
    pub allocation_percentage: Dec,
    /// Duration of the cliff in seconds.
    pub duration: u64,
}

/// A vesting schedule: an overall allocation fraction and a list of cliffs.
#[derive(Clone, Debug, PartialEq)]
pub struct VestingSchedule {
    /// Fraction of tokens allocated (total for this schedule).
    pub allocation_percentage: Dec,
    /// Cliffs with their fractions and durations. For an unlock at the start
    /// set the duration to 0.
    pub cliffs: Vec<VestingCliff>,
}

/// The units of the unlocked amount, scaled by `10^56`: walking the cliffs in
/// order from position `i` with cumulative duration `cum`, each cliff whose
/// end has passed contributes `allocated * its fraction`; the walk stops at
/// the first cliff still in the future.
pub open spec fn unlocked_units_from(
    cliffs: Seq<VestingCliff>,
    i: int,
    cum: int,
    elapsed: int,
    allocated: int,
) -> int
    decreases cliffs.len() - i,
{
    if i < 0 || i >= cliffs.len() {
        0
    } else {
        let cum2 = cum + cliffs[i].duration;
        if elapsed >= cum2 {
            allocated * units(cliffs[i].allocation_percentage) + unlocked_units_from(
                cliffs,
                i + 1,
                cum2,
                elapsed,
                allocated,
            )
        } else {
            0
        }
    }
}

/// Whether the schedule's fractions and the token total carry few enough
/// fractional digits for every product of the unlock computation to stay
/// exact.
pub open spec fn aligned_scales(v: VestingSchedule, total_tokens: Dec) -> bool {
    &&& v.allocation_percentage.scale + total_tokens.scale <= MAX_SCALE
    &&& forall|i: int|
        0 <= i < v.cliffs@.len() ==> v.allocation_percentage.scale + total_tokens.scale + (
        #[trigger] v.cliffs@[i]).allocation_percentage.scale <= MAX_SCALE
}

impl VestingSchedule {
    /// Calculates the tokens unlocked after `elapsed_time` seconds: the sum
    /// of `total_tokens * allocation_percentage * cliff fraction` over the
    /// longest prefix of cliffs whose cumulative duration has passed. While
    /// the operand scales are small enough for the products to stay exact
    /// ([`aligned_scales`]), the result is pinned to that sum exactly; the
    /// call fails when a product or the running sum leaves the representable
    /// range, and then changes nothing.
    pub fn calculate_unlocked_tokens(&self, total_tokens: Dec, elapsed_time: u64) -> (r: Result<
        Dec,
        SimulationError,
    >)
        requires
            dec_wf(self.allocation_percentage),
            dec_wf(total_tokens),
            forall|i: int|
                0 <= i < self.cliffs@.len() ==> dec_wf(
                    (#[trigger] self.cliffs@[i]).allocation_percentage,
                ),
        ensures
            r matches Ok(v) ==> dec_wf(v),
            aligned_scales(*self, total_tokens) ==> (r matches Ok(v) ==> units(v) * pow10(56)
                == unlocked_units_from(
                self.cliffs@,
                0,
                0,
                elapsed_time as int,
                units(self.allocation_percentage) * units(total_tokens),
            )),
            r is Err ==> r == Err::<Dec, SimulationError>(SimulationError::InvalidDecimal),
    {
        let ghost aligned = aligned_scales(*self, total_tokens);
        let ghost allocated_u = units(self.allocation_percentage) * units(total_tokens);
        let ghost s = self.cliffs@;
        let allocated = match self.allocation_percentage.checked_mul(&total_tokens) {
            Some(v) => v,
            None => {
                return Err(SimulationError::InvalidDecimal);
            },
        };
        let mut unlocked = Dec::zero();
        let mut cum: u64 = 0;
        let mut i: usize = 0;
        let n = self.cliffs.len();
        proof {
            crate::decimal::lemma_pow10_vals();
            vstd::arithmetic::power::lemma_pow_adds(10, 28nat, 28nat);
            assert((0int) * pow10(56) == 0) by (nonlinear_arith);
        }
        while i < n
            invariant
                i <= n,
                n == s.len(),
                s == self.cliffs@,
                allocated_u == units(self.allocation_percentage) * units(total_tokens),
                aligned == aligned_scales(*self, total_tokens),
                dec_wf(unlocked),
                dec_wf(allocated),
                dec_wf(self.allocation_percentage),
                dec_wf(total_tokens),
                pow10(56) == pow10(MAX_SCALE as nat) * pow10(MAX_SCALE as nat),
                forall|j: int| 0 <= j < s.len() ==> dec_wf((#[trigger] s[j]).allocation_percentage),
                elapsed_time >= cum,
                aligned ==> {
                    &&& allocated.scale == self.allocation_percentage.scale + total_tokens.scale
                    &&& allocated.scale <= MAX_SCALE
                    &&& units(allocated) * pow10(MAX_SCALE as nat) == allocated_u
                    &&& forall|j: int|
                        0 <= j < s.len() ==> allocated.scale + (
                        #[trigger] s[j]).allocation_percentage.scale <= MAX_SCALE
                    &&& units(unlocked) * pow10(56) + unlocked_units_from(
                        s,
                        i as int,
                        cum as int,
                        elapsed_time as int,
                        allocated_u,
                    ) == unlocked_units_from(s, 0, 0, elapsed_time as int, allocated_u)
                },
            decreases n - i,
        {
            let cliff = self.cliffs[i];
            let cum2 = match cum.checked_add(cliff.duration) {
                Some(v) => v,
                None => {
                    // The cumulative duration left the range of `u64`, so the
                    // elapsed time cannot have reached this cliff.
                    proof {
                        if aligned {
                            assert(unlocked_units_from(
                                s,
                                i as int,
                                cum as int,
                                elapsed_time as int,
                                allocated_u,
                            ) == 0);
                        }
                    }
                    return Ok(unlocked);
                },
            };
            if elapsed_time >= cum2 {
                let tokens_for_cliff = match allocated.checked_mul(&cliff.allocation_percentage) {
                    Some(v) => v,
                    None => {
                        return Err(SimulationError::InvalidDecimal);
                    },
                };
                let ghost before = unlocked;
                proof {
                    if aligned {
                        assert(units(tokens_for_cliff) * pow10(56) == allocated_u * units(
                            cliff.allocation_percentage,
                        )) by (nonlinear_arith)
                            requires
                                units(tokens_for_cliff) * pow10(MAX_SCALE as nat) == units(
                                    allocated,
                                ) * units(cliff.allocation_percentage),
                                units(allocated) * pow10(MAX_SCALE as nat) == allocated_u,
                                pow10(56) == pow10(MAX_SCALE as nat) * pow10(MAX_SCALE as nat),
                        ;
                    }
                }
                unlocked = match unlocked.checked_add(&tokens_for_cliff) {
                    Some(v) => v,
                    None => {
                        return Err(SimulationError::InvalidDecimal);
                    },
                };
                proof {
                    if aligned {
                        assert(units(unlocked) * pow10(56) == units(before) * pow10(56) + units(
                            tokens_for_cliff,
                        ) * pow10(56)) by (nonlinear_arith)
                            requires
                                units(unlocked) == units(before) + units(tokens_for_cliff),
                        ;
                    }
                }
            } else {
                // Elapsed time did not reach the next cliff; stop here.
                proof {
                    if aligned {
                        assert(unlocked_units_from(
                            s,
                            i as int,
                            cum as int,
                            elapsed_time as int,
                            allocated_u,
                        ) == 0);
                    }
                }
                return Ok(unlocked);
            }
            cum = cum2;
            i = i + 1;
        }
        Ok(unlocked)
    }
}

} // verus!
