//! Simulation reports: the results of a simulation and the derived metrics.

use vstd::prelude::*;

use crate::decimal::{
    dec_wf, div_units, lemma_units_facts, mdr_fits, pow10, units, Dec, MAX_SCALE,
};
use crate::trusted::now_millis;
use crate::user::User;
use crate::SimulationError;

verus! {

/// Report containing the results of a simulation interval, or the final
/// aggregate over all intervals.
#[derive(Debug)]
pub struct SimulationReport {
    /// Timestamp of the simulation interval, in milliseconds.
    pub interval: i64,
    /// Profit or loss for the interval; negative values indicate loss.
    pub profit_loss: Dec,
    /// Number of trades made in the interval, successful and failed.
    pub trades: u64,
    /// Number of successful trades made in the interval.
    pub successful_trades: u64,
    /// Number of failed trades made in the interval.
    pub failed_trades: u64,
    /// Token distribution among participants: one balance per user.
    pub token_distribution: Vec<Dec>,
    /// Market volatility during the simulation.
    pub market_volatility: Dec,
    /// Liquidity of the token: trades per base time-unit.
    pub liquidity: Dec,
    /// Adoption rate: the share of users with a positive balance.
    pub adoption_rate: Dec,
    /// Total number of tokens burned during the simulation.
    pub total_burned: Dec,
    /// Burn rate: tokens burned per user (per trade in the final report).
    pub burn_rate: Dec,
    /// Inflation rate: new tokens created per user (per trade in the final
    /// report).
    pub inflation_rate: Dec,
    /// User retention rate: the share of users with a positive balance.
    pub user_retention: Dec,
    /// Network activity: trades per base time-unit, as a whole number.
    pub network_activity: u64,
    /// Token price at the end of the interval.
    pub token_price: Dec,
    /// Total number of new tokens created during the simulation.
    pub total_new_tokens: Dec,
}

/// The number of users of `s` holding a positive balance.
pub open spec fn count_positive(s: Seq<User>) -> int
    decreases s.len(),
{
    if s.len() == 0 {
        0
    } else {
        count_positive(s.drop_last()) + if units(s.last().balance) > 0 {
            1int
        } else {
            0int
        }
    }
}

/// The share of users of `s` with a positive balance, rounded at `decimals`
/// fractional digits: the model of both the adoption rate and the user
/// retention rate, which this design computes identically.
pub open spec fn positive_share_units(s: Seq<User>, decimals: u32) -> int
    recommends
        s.len() >= 1,
        decimals <= MAX_SCALE,
{
    div_units(
        count_positive(s) * pow10(MAX_SCALE as nat),
        s.len() * pow10(MAX_SCALE as nat),
        decimals,
    )
}

/// Whether the positive-balance share is representable: the count scaled to
/// the requested precision must fit the machine's arithmetic; the rounded
/// share itself (at most one) always fits.
pub open spec fn positive_share_fits(s: Seq<User>, decimals: u32) -> bool {
    count_positive(s) * pow10(decimals as nat) <= u128::MAX
}

/// A population of zero balances has no positive holder.
pub proof fn lemma_count_positive_zero(s: Seq<User>)
    requires
        forall|i: int| 0 <= i < s.len() ==> units((#[trigger] s[i]).balance) == 0,
    ensures
        count_positive(s) == 0,
    decreases s.len(),
{
    if s.len() != 0 {
        assert(forall|i: int|
            0 <= i < s.drop_last().len() ==> units((#[trigger] s.drop_last()[i]).balance) == 0);
        lemma_count_positive_zero(s.drop_last());
    }
}

/// Counting never exceeds the length.
pub proof fn lemma_count_positive_le(s: Seq<User>)
    ensures
        0 <= count_positive(s) <= s.len(),
    decreases s.len(),
{
    if s.len() != 0 {
        lemma_count_positive_le(s.drop_last());
    }
}

impl Default for SimulationReport {
    /// A report with every metric zero and an empty distribution; the
    /// interval field is stamped with the current time in seconds.
    fn default() -> (r: SimulationReport)
        ensures
            units(r.profit_loss) == 0,
            r.trades == 0,
            r.successful_trades == 0,
            r.failed_trades == 0,
            r.token_distribution@.len() == 0,
            units(r.market_volatility) == 0,
            units(r.liquidity) == 0,
            units(r.adoption_rate) == 0,
            units(r.total_burned) == 0,
            units(r.burn_rate) == 0,
            units(r.inflation_rate) == 0,
            units(r.user_retention) == 0,
            r.network_activity == 0,
            units(r.token_price) == 0,
            units(r.total_new_tokens) == 0,
            dec_wf(r.profit_loss) && dec_wf(r.market_volatility) && dec_wf(r.liquidity) && dec_wf(
                r.adoption_rate,
            ) && dec_wf(r.total_burned) && dec_wf(r.burn_rate) && dec_wf(r.inflation_rate)
                && dec_wf(r.user_retention) && dec_wf(r.token_price) && dec_wf(r.total_new_tokens),
    {
        let ms = now_millis();
        let secs: i64 = if ms >= 0 {
            ((ms as u64) / 1000) as i64
        } else {
            0
        };
        SimulationReport {
            interval: secs,
            profit_loss: Dec::zero(),
            trades: 0,
            successful_trades: 0,
            failed_trades: 0,
            token_distribution: Vec::new(),
            market_volatility: Dec::zero(),
            liquidity: Dec::zero(),
            adoption_rate: Dec::zero(),
            total_burned: Dec::zero(),
            burn_rate: Dec::zero(),
            inflation_rate: Dec::zero(),
            user_retention: Dec::zero(),
            network_activity: 0,
            token_price: Dec::zero(),
            total_new_tokens: Dec::zero(),
        }
    }
}

impl SimulationReport {
    /// Calculates the liquidity: trades per base time-unit, rounded at
    /// `decimals` fractional digits. Fails exactly when the quotient is not
    /// representable.
    pub fn calculate_liquidity(&self, trades: Dec, interval_duration: Dec, decimals: u32) -> (r:
        Result<Dec, SimulationError>)
        requires
            dec_wf(trades),
            dec_wf(interval_duration),
            interval_duration.mag >= 1,
            decimals <= MAX_SCALE,
        ensures
            r matches Ok(v) ==> dec_wf(v) && units(v) == div_units(
                units(trades),
                units(interval_duration),
                decimals,
            ),
            r is Ok <==> mdr_fits(
                trades,
                (Dec { neg: false, mag: 1, scale: 0 }),
                interval_duration,
                decimals,
            ),
            r is Err ==> r == Err::<Dec, SimulationError>(SimulationError::InvalidDecimal),
    {
        match trades.div_round(&interval_duration, decimals) {
            Some(v) => Ok(v),
            None => Err(SimulationError::InvalidDecimal),
        }
    }

    /// Calculates the adoption rate: the share of users holding a positive
    /// balance, rounded at `decimals` fractional digits.
    pub fn calculate_adoption_rate(&self, users: &[User], decimals: u32) -> (r: Result<
        Dec,
        SimulationError,
    >)
        requires
            users@.len() >= 1,
            users@.len() <= u64::MAX,
            forall|i: int| 0 <= i < users@.len() ==> dec_wf((#[trigger] users@[i]).balance),
            decimals <= MAX_SCALE,
        ensures
            r matches Ok(v) ==> dec_wf(v) && units(v) == positive_share_units(users@, decimals),
            r is Ok <==> positive_share_fits(users@, decimals),
            r is Err ==> r == Err::<Dec, SimulationError>(SimulationError::InvalidDecimal),
    {
        positive_share(users, decimals)
    }

    /// Calculates the user retention rate. This design computes it exactly as
    /// the adoption rate: the share of users holding a positive balance.
    pub fn calculate_user_retention(&self, users: &[User], decimals: u32) -> (r: Result<
        Dec,
        SimulationError,
    >)
        requires
            users@.len() >= 1,
            users@.len() <= u64::MAX,
            forall|i: int| 0 <= i < users@.len() ==> dec_wf((#[trigger] users@[i]).balance),
            decimals <= MAX_SCALE,
        ensures
            r matches Ok(v) ==> dec_wf(v) && units(v) == positive_share_units(users@, decimals),
            r is Ok <==> positive_share_fits(users@, decimals),
            r is Err ==> r == Err::<Dec, SimulationError>(SimulationError::InvalidDecimal),
    {
        positive_share(users, decimals)
    }

    /// Calculates the burn rate: tokens burned per user, rounded at
    /// `decimals` fractional digits. Fails exactly when the quotient is not
    /// representable.
    pub fn calculate_burn_rate(&self, total_burned: Dec, total_users: Dec, decimals: u32) -> (r:
        Result<Dec, SimulationError>)
        requires
            dec_wf(total_burned),
            dec_wf(total_users),
            total_users.mag >= 1,
            decimals <= MAX_SCALE,
        ensures
            r matches Ok(v) ==> dec_wf(v) && units(v) == div_units(
                units(total_burned),
                units(total_users),
                decimals,
            ),
            r is Ok <==> mdr_fits(
                total_burned,
                (Dec { neg: false, mag: 1, scale: 0 }),
                total_users,
                decimals,
            ),
            r is Err ==> r == Err::<Dec, SimulationError>(SimulationError::InvalidDecimal),
    {
        match total_burned.div_round(&total_users, decimals) {
            Some(v) => Ok(v),
            None => Err(SimulationError::InvalidDecimal),
        }
    }

    /// Calculates the inflation rate: new tokens created per user, rounded at
    /// `decimals` fractional digits. Fails exactly when the quotient is not
    /// representable.
    pub fn calculate_inflation_rate(
        &self,
        total_new_tokens: Dec,
        total_users: Dec,
        decimals: u32,
    ) -> (r: Result<Dec, SimulationError>)
        requires
            dec_wf(total_new_tokens),
            dec_wf(total_users),
            total_users.mag >= 1,
            decimals <= MAX_SCALE,
        ensures
            r matches Ok(v) ==> dec_wf(v) && units(v) == div_units(
                units(total_new_tokens),
                units(total_users),
                decimals,
            ),
            r is Ok <==> mdr_fits(
                total_new_tokens,
                (Dec { neg: false, mag: 1, scale: 0 }),
                total_users,
                decimals,
            ),
            r is Err ==> r == Err::<Dec, SimulationError>(SimulationError::InvalidDecimal),
    {
        match total_new_tokens.div_round(&total_users, decimals) {
            Some(v) => Ok(v),
            None => Err(SimulationError::InvalidDecimal),
        }
    }
}

/// The share of users with a positive balance, rounded at `decimals`
/// fractional digits.
fn positive_share(users: &[User], decimals: u32) -> (r: Result<Dec, SimulationError>)
    requires
        users@.len() >= 1,
        users@.len() <= u64::MAX,
        forall|i: int| 0 <= i < users@.len() ==> dec_wf((#[trigger] users@[i]).balance),
        decimals <= MAX_SCALE,
    ensures
        r matches Ok(v) ==> dec_wf(v) && units(v) == positive_share_units(users@, decimals),
        r is Ok <==> positive_share_fits(users@, decimals),
        r is Err ==> r == Err::<Dec, SimulationError>(SimulationError::InvalidDecimal),
{
    let mut positive: u64 = 0;
    let mut i: usize = 0;
    let n = users.len();
    proof {
        lemma_count_positive_le(users@);
    }
    while i < n
        invariant
            i <= n,
            n == users@.len(),
            n <= u64::MAX,
            forall|j: int| 0 <= j < users@.len() ==> dec_wf((#[trigger] users@[j]).balance),
            positive == count_positive(users@.take(i as int)),
            positive <= i,
        decreases n - i,
    {
        proof {
            assert(users@.take(i as int + 1).drop_last() == users@.take(i as int));
            assert(users@.take(i as int + 1).last() == users@[i as int]);
            lemma_count_positive_le(users@.take(i as int));
        }
        let b = users[i].balance;
        let zero = Dec::zero();
        let is_pos = !b.le(&zero);
        proof {
            crate::decimal::lemma_units_facts(b);
        }
        if is_pos {
            positive = positive + 1;
        }
        i = i + 1;
    }
    proof {
        assert(users@.take(n as int) == users@);
    }
    let count_dec = Dec::from_u64(positive);
    let len_dec = Dec::from_u64(n as u64);
    proof {
        crate::decimal::lemma_units_facts(len_dec);
        lemma_share_div_fits(count_dec, len_dec, decimals);
    }
    match count_dec.div_round(&len_dec, decimals) {
        Some(v) => Ok(v),
        None => Err(SimulationError::InvalidDecimal),
    }
}

/// Dividing a count by a length at least as large fits exactly when the
/// scaled count fits the machine's arithmetic: the rounded quotient is at
/// most one unit and always representable.
proof fn lemma_share_div_fits(count_dec: Dec, len_dec: Dec, decimals: u32)
    requires
        !count_dec.neg,
        count_dec.scale == 0,
        count_dec.mag <= len_dec.mag,
        !len_dec.neg,
        len_dec.scale == 0,
        len_dec.mag >= 1,
        decimals <= MAX_SCALE,
    ensures
        crate::decimal::mdr_fits(
            count_dec,
            (Dec { neg: false, mag: 1, scale: 0 }),
            len_dec,
            decimals,
        ) <==> (count_dec.mag as int) * pow10(decimals as nat) <= u128::MAX,
{
    crate::decimal::lemma_pow10_vals();
    crate::decimal::lemma_pow10_pos(decimals as nat);
    let c = count_dec.mag as int;
    let l = len_dec.mag as int;
    let pd = pow10(decimals as nat);
    let nm = c * 1;
    assert(nm == c) by (nonlinear_arith)
        requires
            nm == c * 1,
    ;
    if c == 0 {
        assert((0int) * pd == 0) by (nonlinear_arith);
    } else {
        // The rounded quotient of a share is bounded by one scaled unit,
        // which always stays below the magnitude limit.
        if nm * pd <= u128::MAX {
            let q = crate::decimal::rhe(nm * pd, l);
            crate::decimal::lemma_rhe_error(nm * pd, l);
            assert(0 <= nm * pd) by (nonlinear_arith)
                requires
                    0 <= nm,
                    pd >= 1,
            ;
            assert(2 * q * l - 2 * (nm * pd) <= l);
            assert(nm * pd <= l * pd) by (nonlinear_arith)
                requires
                    nm <= l,
                    pd >= 1,
            ;
            assert(q <= pd) by (nonlinear_arith)
                requires
                    2 * q * l <= 2 * (nm * pd) + l,
                    nm * pd <= l * pd,
                    l >= 1,
                    pd >= 1,
            ;
            vstd::arithmetic::power::lemma_pow_increases(10, decimals as nat, 28nat);
            assert(q < crate::decimal::MAG_LIMIT as int);
        }
    }
}

} // verus!
