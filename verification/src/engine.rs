//! The core simulation engine: status transitions, the interval loop, and
//! the wiring from token ledger to user population, trade simulation and
//! report aggregation.

use vstd::prelude::*;

use crate::decimal::{
    dec_wf, div_units, lemma_pow10_pos, mdr_fits, mdr_units, mul_units, pow10, units, Dec,
    MAG_LIMIT, MAX_SCALE,
};
use crate::engine_builder::SimulationBuilder;
use crate::engine_config::{options_wf, SimulationOptions, SimulationOptionsBuilder, ValuationModel};
use crate::report::{count_positive, positive_share_units, SimulationReport};
use crate::token::{token_wf, Token};
use crate::token_builder::TokenBuilder;
use crate::trusted::{dec_exp, dec_exp_of, now_millis, random_below, random_coin};
use crate::user::User;
use crate::SimulationError;

verus! {

/// Status of a simulation: a linear state machine with no cancel or retry
/// edge.
#[derive(Debug, Clone, Copy, PartialEq, Eq, Structural)]
pub enum SimulationStatus {
    /// Simulation has not started.
    Pending,
    /// Simulation is currently running.
    Running,
    /// Simulation has completed.
    Completed,
}

/// Interval type for the simulation: determines the duration of each
/// interval in base hours.
#[derive(Debug, Clone, Copy, PartialEq, Eq, Structural)]
pub enum SimulationInterval {
    /// Hourly interval.
    Hourly,
    /// Daily interval.
    Daily,
    /// Weekly interval.
    Weekly,
    /// Monthly interval.
    Monthly,
}

/// The number of base hours in one interval of the given type.
pub open spec fn interval_hours(t: SimulationInterval) -> u64 {
    match t {
        SimulationInterval::Hourly => 1,
        SimulationInterval::Daily => 24,
        SimulationInterval::Weekly => 168,
        SimulationInterval::Monthly => 720,
    }
}

/// Fractional digits at which the exponential valuation's exponent is
/// computed. Any exponent too large for this precision would overflow the
/// exponential anyway.
pub const EXPONENT_SCALE: u32 = 18;

/// The largest population one interval can process without its trade
/// counters overflowing.
pub const MAX_POPULATION: u64 = u64::MAX / 720;

/// A simulation: the input parameters, the token, and the reports produced
/// by running it.
#[derive(Debug)]
pub struct Simulation {
    /// ID of the simulation.
    pub id: uuid::Uuid,
    /// Name of the simulation.
    pub name: String,
    /// Token used in the simulation.
    pub token: Token,
    /// Description of the simulation.
    pub description: Option<String>,
    /// Status of the simulation.
    pub status: SimulationStatus,
    /// Input parameters for the simulation.
    pub options: SimulationOptions,
    /// Report of the results for each interval, in chronological order.
    pub interval_reports: Vec<SimulationReport>,
    /// Report of the total results of the simulation.
    pub report: SimulationReport,
    /// Date and time the simulation was created, in milliseconds.
    pub created_at: i64,
    /// Date and time the simulation was last updated, in milliseconds.
    pub updated_at: i64,
}

impl Simulation {
    /// Creates a new simulation builder.
    pub fn builder() -> (r: SimulationBuilder)
        ensures
            r == (SimulationBuilder { name: None, token: None, description: None, options: None }),
    {
        SimulationBuilder::new()
    }

    /// Creates a new simulation options builder.
    pub fn options_builder() -> (r: SimulationOptionsBuilder)
        ensures
            r == (SimulationOptionsBuilder {
                duration: None,
                total_users: None,
                market_volatility: None,
                decimal_precision: None,
                interval_type: None,
                transaction_fee_percentage: None,
                adoption_rate: None,
                valuation_model: None,
            }),
    {
        SimulationOptionsBuilder::new()
    }

    /// Creates a new token builder.
    pub fn token_builder() -> (r: TokenBuilder)
        ensures
            r == (TokenBuilder {
                name: None,
                symbol: None,
                total_supply: None,
                current_supply: None,
                initial_supply_percentage: None,
                inflation_rate: None,
                burn_rate: None,
                initial_price: None,
                airdrop_percentage: None,
                unlock_schedule: None,
            }),
    {
        TokenBuilder::new()
    }

    /// Updates the status of the simulation and stamps the update time.
    pub fn update_status(&mut self, status: SimulationStatus)
        ensures
            final(self).status == status,
            *final(self) == (Simulation {
                status,
                updated_at: final(self).updated_at,
                ..*old(self)
            }),
    {
        self.status = status;
        self.updated_at = now_millis();
    }

    /// The duration of one simulation interval, in base hours.
    pub fn get_interval(&self) -> (r: u64)
        ensures
            r == interval_hours(self.options.interval_type),
            1 <= r <= 720,
    {
        match self.options.interval_type {
            SimulationInterval::Hourly => 1,
            SimulationInterval::Daily => 24,
            SimulationInterval::Weekly => 24 * 7,
            SimulationInterval::Monthly => 24 * 30,
        }
    }

    /// Simulates user adoption: with an adoption rate set, the user count
    /// grows by `round(current_users * rate)` (never shrinking); without one
    /// it is returned unchanged. Fails when the product is unrepresentable or
    /// the grown count leaves the range of `u64`.
    pub fn simulate_adoption(&self, current_users: u64) -> (r: Result<u64, SimulationError>)
        requires
            options_wf(self.options),
        ensures
            self.options.adoption_rate is None ==> r == Ok::<u64, SimulationError>(current_users),
            self.options.adoption_rate matches Some(rate) ==> {
                let du = mdr_units(
                    current_users * pow10(MAX_SCALE as nat),
                    units(rate),
                    pow10(MAX_SCALE as nat),
                    0,
                );
                &&& (r matches Ok(n) ==> n >= current_users && (n - current_users) * pow10(
                    MAX_SCALE as nat,
                ) == (if du > 0 {
                    du
                } else {
                    0
                }))
                &&& (r is Ok <==> (mdr_fits(
                    (Dec { neg: false, mag: current_users as u128, scale: 0 }),
                    rate,
                    (Dec { neg: false, mag: 1, scale: 0 }),
                    0,
                ) && (du > 0 ==> current_users * pow10(MAX_SCALE as nat) + du <= u64::MAX * pow10(
                    MAX_SCALE as nat,
                ))))
            },
            r is Err ==> r == Err::<u64, SimulationError>(SimulationError::InvalidDecimal),
    {
        let rate = match &self.options.adoption_rate {
            Some(rate) => *rate,
            None => {
                return Ok(current_users);
            },
        };
        let c_dec = Dec::from_u64(current_users);
        let one = Dec::one();
        let d = match c_dec.mul_div_round(&rate, &one, 0) {
            Some(v) => v,
            None => {
                return Err(SimulationError::InvalidDecimal);
            },
        };
        proof {
            crate::decimal::lemma_units_facts(d);
            lemma_pow10_pos(MAX_SCALE as nat);
        }
        let delta: u64 = if d.neg || d.mag == 0 {
            0
        } else if d.mag > u64::MAX as u128 {
            // The grown count cannot fit: the rounded product alone exceeds
            // the range of the counter.
            proof {
                crate::decimal::lemma_units_facts(d);
                assert(units(d) == (d.mag as int) * pow10(MAX_SCALE as nat));
                assert((d.mag as int) * pow10(MAX_SCALE as nat) > u64::MAX * pow10(
                    MAX_SCALE as nat,
                )) by (nonlinear_arith)
                    requires
                        d.mag as int > u64::MAX as int,
                        pow10(MAX_SCALE as nat) >= 1,
                ;
                assert(current_users * pow10(MAX_SCALE as nat) >= 0) by (nonlinear_arith)
                    requires
                        pow10(MAX_SCALE as nat) >= 1,
                ;
            }
            return Err(SimulationError::InvalidDecimal);
        } else {
            d.mag as u64
        };
        proof {
            if !(d.neg || d.mag == 0) {
                assert(units(d) == (d.mag as int) * pow10(MAX_SCALE as nat));
            }
            if d.neg && d.mag != 0 {
                assert(units(d) < 0);
                assert((0int) * pow10(MAX_SCALE as nat) == 0) by (nonlinear_arith);
            }
            if d.mag == 0 {
                assert(units(d) == 0);
                assert((0int) * pow10(MAX_SCALE as nat) == 0) by (nonlinear_arith);
            }
            // Relate the count arithmetic to its scaled form.
            assert((current_users as int + delta as int) * pow10(MAX_SCALE as nat) == current_users
                * pow10(MAX_SCALE as nat) + delta * pow10(MAX_SCALE as nat)) by (nonlinear_arith);
            if !(d.neg || d.mag == 0) {
                assert((current_users as int + d.mag as int <= u64::MAX as int) == (current_users
                    * pow10(MAX_SCALE as nat) + (d.mag as int) * pow10(MAX_SCALE as nat)
                    <= u64::MAX * pow10(MAX_SCALE as nat))) by (nonlinear_arith)
                    requires
                        pow10(MAX_SCALE as nat) >= 1,
                ;
            }
        }
        match current_users.checked_add(delta) {
            Some(n) => Ok(n),
            None => Err(SimulationError::InvalidDecimal),
        }
    }

    /// The valuation applied when the exponential model saturates or once the
    /// exponential of the exponent is known: `None` saturates to the initial
    /// price, `Some(e)` gives `initial_price * e`, which fails exactly when
    /// the product is unrepresentable.
    pub fn exp_valuation(initial_price: Dec, exp: Option<Dec>) -> (r: Result<
        Dec,
        SimulationError,
    >)
        requires
            dec_wf(initial_price),
            exp matches Some(e) ==> dec_wf(e),
        ensures
            exp_apply_post(initial_price, exp, r),
    {
        match exp {
            None => Ok(initial_price),
            Some(e) => match initial_price.checked_mul(&e) {
                Some(v) => Ok(v),
                None => Err(SimulationError::InvalidDecimal),
            },
        }
    }

    /// Calculates the valuation of the token for the given number of users.
    /// Without a valuation model the valuation is zero. The linear model
    /// gives `users * initial_price`. The exponential model computes
    /// `e^(users / factor)` through the decimal exponential and multiplies it
    /// by the initial price; when the exponent or the exponential is not
    /// representable, the valuation saturates to the initial price.
    pub fn calculate_valuation(&self, token: &Token, users: u64) -> (r: Result<
        Dec,
        SimulationError,
    >)
        requires
            options_wf(self.options),
            dec_wf(token.initial_price),
        ensures
            r matches Ok(v) ==> dec_wf(v),
            self.options.valuation_model is None ==> (r matches Ok(v) && units(v) == 0),
            self.options.valuation_model matches Some(ValuationModel::Linear) ==> {
                &&& (r is Ok <==> (users as int) * (token.initial_price.mag as int) < MAG_LIMIT
                    as int)
                &&& (r matches Ok(v) ==> dec_wf(v) && units(v) * pow10(MAX_SCALE as nat) == (users
                    * pow10(MAX_SCALE as nat)) * units(token.initial_price))
                &&& (r is Err ==> r == Err::<Dec, SimulationError>(SimulationError::InvalidDecimal))
            },
            self.options.valuation_model matches Some(ValuationModel::Exponential(f)) ==> {
                &&& (!exponent_fits(users, f) ==> r == Ok::<Dec, SimulationError>(
                    token.initial_price,
                ))
                &&& (exponent_fits(users, f) ==> exp_exponent_post(
                    users,
                    f,
                    token.initial_price,
                    r,
                ))
            },
    {
        let model = match &self.options.valuation_model {
            Some(m) => *m,
            None => {
                return Ok(Dec::zero());
            },
        };
        match model {
            ValuationModel::Linear => {
                let users_dec = Dec::from_u64(users);
                match users_dec.checked_mul(&token.initial_price) {
                    Some(v) => Ok(v),
                    None => Err(SimulationError::InvalidDecimal),
                }
            },
            ValuationModel::Exponential(factor) => {
                let users_dec = Dec::from_u64(users);
                let exponent = match users_dec.div_round(&factor, EXPONENT_SCALE) {
                    Some(v) => v,
                    None => {
                        // The exponent is not representable at the supported
                        // precision; saturate to the initial price.
                        return Ok(token.initial_price);
                    },
                };
                let e = dec_exp(&exponent);
                Self::exp_valuation(token.initial_price, e)
            },
        }
    }

    /// Fills in the derived metrics of an interval report from its raw
    /// totals and the user snapshot: total trades, liquidity, adoption rate,
    /// burn and inflation rates, user retention, market volatility and
    /// network activity. An error leaves the report unchanged.
    pub fn generate_interval_report(
        &self,
        users: &[User],
        report: &mut SimulationReport,
        interval: u64,
    ) -> (r: Result<(), SimulationError>)
        requires
            options_wf(self.options),
            users@.len() >= 1,
            users@.len() <= u64::MAX,
            forall|i: int| 0 <= i < users@.len() ==> dec_wf((#[trigger] users@[i]).balance),
            interval >= 1,
            dec_wf(old(report).total_burned),
            dec_wf(old(report).total_new_tokens),
            old(report).successful_trades + old(report).failed_trades <= u64::MAX,
        ensures
            r is Ok ==> {
                let p = self.options.decimal_precision;
                let t = old(report).successful_trades + old(report).failed_trades;
                &&& final(report).trades == t
                &&& units(final(report).liquidity) == div_units(
                    t * pow10(MAX_SCALE as nat),
                    interval * pow10(MAX_SCALE as nat),
                    p,
                )
                &&& units(final(report).adoption_rate) == positive_share_units(users@, p)
                &&& units(final(report).user_retention) == positive_share_units(users@, p)
                &&& units(final(report).burn_rate) == div_units(
                    units(old(report).total_burned),
                    users@.len() * pow10(MAX_SCALE as nat),
                    p,
                )
                &&& units(final(report).inflation_rate) == div_units(
                    units(old(report).total_new_tokens),
                    users@.len() * pow10(MAX_SCALE as nat),
                    p,
                )
                &&& final(report).market_volatility == self.options.market_volatility
                &&& final(report).network_activity == t / (interval as int)
                &&& dec_wf(final(report).liquidity) && dec_wf(final(report).adoption_rate)
                    && dec_wf(final(report).burn_rate) && dec_wf(final(report).inflation_rate)
                    && dec_wf(final(report).user_retention)
                &&& *final(report) == (SimulationReport {
                    trades: final(report).trades,
                    liquidity: final(report).liquidity,
                    adoption_rate: final(report).adoption_rate,
                    burn_rate: final(report).burn_rate,
                    user_retention: final(report).user_retention,
                    market_volatility: final(report).market_volatility,
                    network_activity: final(report).network_activity,
                    inflation_rate: final(report).inflation_rate,
                    ..*old(report)
                })
            },
            r is Ok <==> {
                let t = old(report).successful_trades + old(report).failed_trades;
                let one = Dec { neg: false, mag: 1, scale: 0 };
                let len_dec = Dec { neg: false, mag: users@.len() as u128, scale: 0 };
                &&& mdr_fits(
                    (Dec { neg: false, mag: t as u128, scale: 0 }),
                    one,
                    (Dec { neg: false, mag: interval as u128, scale: 0 }),
                    self.options.decimal_precision,
                )
                &&& crate::report::positive_share_fits(users@, self.options.decimal_precision)
                &&& mdr_fits(old(report).total_burned, one, len_dec, self.options.decimal_precision)
                &&& mdr_fits(
                    old(report).total_new_tokens,
                    one,
                    len_dec,
                    self.options.decimal_precision,
                )
            },
            r is Err ==> *final(report) == *old(report) && r == Err::<(), SimulationError>(
                SimulationError::InvalidDecimal,
            ),
    {
        let p = self.options.decimal_precision;
        let trades = report.successful_trades + report.failed_trades;
        let trades_dec = Dec::from_u64(trades);
        let interval_dec = Dec::from_u64(interval);
        let len_u64 = users.len() as u64;
        let len_dec = Dec::from_u64(len_u64);
        let liquidity = match report.calculate_liquidity(trades_dec, interval_dec, p) {
            Ok(v) => v,
            Err(e) => {
                return Err(e);
            },
        };
        let adoption_rate = match report.calculate_adoption_rate(users, p) {
            Ok(v) => v,
            Err(e) => {
                return Err(e);
            },
        };
        let burn_rate = match report.calculate_burn_rate(report.total_burned, len_dec, p) {
            Ok(v) => v,
            Err(e) => {
                return Err(e);
            },
        };
        let user_retention = match report.calculate_user_retention(users, p) {
            Ok(v) => v,
            Err(e) => {
                return Err(e);
            },
        };
        let inflation_rate = match report.calculate_inflation_rate(
            report.total_new_tokens,
            len_dec,
            p,
        ) {
            Ok(v) => v,
            Err(e) => {
                return Err(e);
            },
        };
        report.trades = trades;
        report.liquidity = liquidity;
        report.adoption_rate = adoption_rate;
        report.burn_rate = burn_rate;
        report.user_retention = user_retention;
        report.market_volatility = self.options.market_volatility;
        report.network_activity = trades / interval;
        report.inflation_rate = inflation_rate;
        Ok(())
    }

    /// Simulates the trades of one interval over the user population: for
    /// each of `interval` passes, every user with a nonzero balance flips a
    /// fair coin and on success trades a random amount of at most roughly a
    /// tenth of their balance, with the configured burn, inflation and fee
    /// applied. The returned report carries the raw totals and the derived
    /// metrics over the final population.
    pub fn process_interval(&self, users: &mut Vec<User>, interval: u64) -> (r: Result<
        SimulationReport,
        SimulationError,
    >)
        requires
            options_wf(self.options),
            self.token.burn_rate matches Some(d) ==> dec_wf(d),
            self.token.inflation_rate matches Some(d) ==> dec_wf(d),
            old(users)@.len() >= 1,
            (interval as int) * old(users)@.len() <= u64::MAX,
            interval >= 1,
            forall|i: int| 0 <= i < old(users)@.len() ==> dec_wf((#[trigger] old(users)@[i]).balance),
        ensures
            final(users)@.len() == old(users)@.len(),
            forall|i: int| 0 <= i < final(users)@.len() ==> dec_wf((#[trigger] final(users)@[i]).balance),
            r matches Ok(rep) ==> {
                let p = self.options.decimal_precision;
                &&& rep.trades == rep.successful_trades + rep.failed_trades
                &&& rep.trades <= (interval as int) * old(users)@.len()
                &&& units(rep.liquidity) == div_units(
                    rep.trades * pow10(MAX_SCALE as nat),
                    interval * pow10(MAX_SCALE as nat),
                    p,
                )
                &&& units(rep.adoption_rate) == positive_share_units(final(users)@, p)
                &&& units(rep.user_retention) == positive_share_units(final(users)@, p)
                &&& units(rep.burn_rate) == div_units(
                    units(rep.total_burned),
                    final(users)@.len() * pow10(MAX_SCALE as nat),
                    p,
                )
                &&& units(rep.inflation_rate) == div_units(
                    units(rep.total_new_tokens),
                    final(users)@.len() * pow10(MAX_SCALE as nat),
                    p,
                )
                &&& rep.market_volatility == self.options.market_volatility
                &&& rep.network_activity == (rep.trades as int) / (interval as int)
                &&& 0 <= units(rep.profit_loss)
                &&& dec_wf(rep.profit_loss) && dec_wf(rep.total_burned) && dec_wf(
                    rep.total_new_tokens,
                ) && dec_wf(rep.liquidity) && dec_wf(rep.adoption_rate) && dec_wf(rep.burn_rate)
                    && dec_wf(rep.inflation_rate) && dec_wf(rep.user_retention) && dec_wf(
                    rep.market_volatility,
                ) && dec_wf(rep.token_price)
                &&& rep.token_distribution@.len() == 0
            },
            r is Err ==> r == Err::<SimulationReport, SimulationError>(
                SimulationError::InvalidDecimal,
            ),
            (forall|i: int|
                0 <= i < old(users)@.len() ==> units((#[trigger] old(users)@[i]).balance) == 0)
                ==> r is Ok,
            forall|i: int|
                0 <= i < old(users)@.len() ==> (units((#[trigger] old(users)@[i]).balance) == 0
                    ==> units(final(users)@[i].balance) == 0),
    {
        let ghost allzero = forall|i: int|
            0 <= i < old(users)@.len() ==> units((#[trigger] old(users)@[i]).balance) == 0;
        let p = self.options.decimal_precision;
        let n = users.len();
        let mut profit_loss = Dec::zero();
        let mut total_burned = Dec::zero();
        let mut total_new_tokens = Dec::zero();
        let mut successful: u64 = 0;
        let mut failed: u64 = 0;
        let mut t: u64 = 0;
        while t < interval
            invariant
                t <= interval,
                interval >= 1,
                n == users@.len(),
                n == old(users)@.len(),
                options_wf(self.options),
                self.token.burn_rate matches Some(d) ==> dec_wf(d),
                self.token.inflation_rate matches Some(d) ==> dec_wf(d),
                (interval as int) * (n as int) <= u64::MAX,
                p == self.options.decimal_precision,
                forall|i: int| 0 <= i < users@.len() ==> dec_wf((#[trigger] users@[i]).balance),
                dec_wf(profit_loss),
                0 <= units(profit_loss),
                dec_wf(total_burned),
                dec_wf(total_new_tokens),
                successful + failed <= (t as int) * (n as int),
                allzero == (forall|q: int|
                    0 <= q < old(users)@.len() ==> units((#[trigger] old(users)@[q]).balance)
                        == 0),
                allzero ==> users@ == old(users)@ && successful == 0 && failed == 0 && total_burned
                    == (Dec { neg: false, mag: 0, scale: 0 }) && total_new_tokens == (Dec {
                    neg: false,
                    mag: 0,
                    scale: 0,
                }),
                forall|q: int|
                    0 <= q < old(users)@.len() ==> (units((#[trigger] old(users)@[q]).balance) == 0
                        ==> units(users@[q].balance) == 0),
            decreases interval - t,
        {
            let mut idx: usize = 0;
            proof {
                assert((t as int) * (n as int) + (n as int) == (t as int + 1) * (n as int))
                    by (nonlinear_arith);
                assert((t as int + 1) * (n as int) <= (interval as int) * (n as int))
                    by (nonlinear_arith)
                    requires
                        t as int + 1 <= interval as int,
                        n as int >= 0,
                ;
            }
            while idx < n
                invariant
                    idx <= n,
                    n == users@.len(),
                    n == old(users)@.len(),
                    options_wf(self.options),
                    self.token.burn_rate matches Some(d) ==> dec_wf(d),
                    self.token.inflation_rate matches Some(d) ==> dec_wf(d),
                    (t as int) * (n as int) + (n as int) <= (interval as int) * (n as int),
                    (interval as int) * (n as int) <= u64::MAX,
                    p == self.options.decimal_precision,
                    p <= MAX_SCALE,
                    forall|i: int| 0 <= i < users@.len() ==> dec_wf((#[trigger] users@[i]).balance),
                    dec_wf(profit_loss),
                    0 <= units(profit_loss),
                    dec_wf(total_burned),
                    dec_wf(total_new_tokens),
                    successful + failed <= (t as int) * (n as int) + idx,
                    allzero == (forall|q: int|
                        0 <= q < old(users)@.len() ==> units((#[trigger] old(users)@[q]).balance)
                            == 0),
                    allzero ==> users@ == old(users)@ && successful == 0 && failed == 0
                        && total_burned == (Dec { neg: false, mag: 0, scale: 0 })
                        && total_new_tokens == (Dec { neg: false, mag: 0, scale: 0 }),
                    forall|q: int|
                        0 <= q < old(users)@.len() ==> (units(
                            (#[trigger] old(users)@[q]).balance,
                        ) == 0 ==> units(users@[q].balance) == 0),
                decreases n - idx,
            {
                let balance = users[idx].balance;
                if !balance.is_zero() {
                    if random_coin() {
                        // A trade fraction in [0.01, 0.10), in steps of one
                        // ten-thousandth.
                        let fraction = Dec { neg: false, mag: 100 + random_below(900), scale: 4 };
                        let one = Dec::one();
                        let max_trade = match balance.mul_div_round(&fraction, &one, p) {
                            Some(v) => v,
                            None => {
                                return Err(SimulationError::InvalidDecimal);
                            },
                        };
                        if !max_trade.neg && max_trade.mag >= 1 {
                            let amount = Dec {
                                neg: false,
                                mag: random_below(max_trade.mag),
                                scale: p,
                            };
                            let mut new_balance = match balance.checked_sub(&amount) {
                                Some(v) => v,
                                None => {
                                    return Err(SimulationError::InvalidDecimal);
                                },
                            };
                            proof {
                                crate::decimal::lemma_units_facts(amount);
                            }
                            profit_loss = match profit_loss.checked_add(&amount) {
                                Some(v) => v,
                                None => {
                                    return Err(SimulationError::InvalidDecimal);
                                },
                            };
                            successful = successful + 1;
                            match &self.token.burn_rate {
                                Some(rate) => {
                                    let burned = match amount.checked_mul(rate) {
                                        Some(v) => v,
                                        None => {
                                            return Err(SimulationError::InvalidDecimal);
                                        },
                                    };
                                    new_balance = match new_balance.checked_sub(&burned) {
                                        Some(v) => v,
                                        None => {
                                            return Err(SimulationError::InvalidDecimal);
                                        },
                                    };
                                    total_burned = match total_burned.checked_add(&burned) {
                                        Some(v) => v,
                                        None => {
                                            return Err(SimulationError::InvalidDecimal);
                                        },
                                    };
                                },
                                None => {},
                            }
                            match &self.token.inflation_rate {
                                Some(rate) => {
                                    let minted = match amount.checked_mul(rate) {
                                        Some(v) => v,
                                        None => {
                                            return Err(SimulationError::InvalidDecimal);
                                        },
                                    };
                                    new_balance = match new_balance.checked_add(&minted) {
                                        Some(v) => v,
                                        None => {
                                            return Err(SimulationError::InvalidDecimal);
                                        },
                                    };
                                    total_new_tokens = match total_new_tokens.checked_add(&minted) {
                                        Some(v) => v,
                                        None => {
                                            return Err(SimulationError::InvalidDecimal);
                                        },
                                    };
                                },
                                None => {},
                            }
                            match &self.options.transaction_fee_percentage {
                                Some(fee) => {
                                    let hundred = Dec::hundred();
                                    let fee_amount = match amount.mul_div_round(
                                        fee,
                                        &hundred,
                                        p,
                                    ) {
                                        Some(v) => v,
                                        None => {
                                            return Err(SimulationError::InvalidDecimal);
                                        },
                                    };
                                    new_balance = match new_balance.checked_sub(&fee_amount) {
                                        Some(v) => v,
                                        None => {
                                            return Err(SimulationError::InvalidDecimal);
                                        },
                                    };
                                },
                                None => {},
                            }
                            let uid = users[idx].id;
                            let beh = users[idx].behaviour;
                            users[idx] = User { id: uid, balance: new_balance, behaviour: beh };
                        } else {
                            failed = failed + 1;
                        }
                    } else {
                        failed = failed + 1;
                    }
                }
                idx = idx + 1;
            }
            t = t + 1;
        }
        let mut report = SimulationReport::default();
        report.profit_loss = profit_loss;
        report.successful_trades = successful;
        report.failed_trades = failed;
        report.total_burned = total_burned;
        report.total_new_tokens = total_new_tokens;
        proof {
            assert((interval as int) * (n as int) >= (t as int) * (n as int)) by (nonlinear_arith)
                requires
                    t as int <= interval as int,
                    n as int >= 0,
            ;
            if allzero {
                // With no balance to trade the raw totals are all zero and
                // every derived metric fits.
                crate::report::lemma_count_positive_zero(users@);
                assert((0int) * (1int) == 0 && count_positive(users@) * pow10(
                    p as nat,
                ) == 0) by (nonlinear_arith)
                    requires
                        count_positive(users@) == 0,
                ;
            }
        }
        match self.generate_interval_report(users.as_slice(), &mut report, interval) {
            Ok(()) => Ok(report),
            Err(e) => Err(e),
        }
    }

    /// Aggregates the interval reports into the final report: counters are
    /// summed; liquidity, adoption rate, user retention and token price are
    /// averaged over the intervals; burn and inflation rates are re-derived
    /// from the per-interval rates scaled by the configured user count and
    /// divided by the total trades (zero when no trade happened); the token
    /// distribution snapshots the final balances. An error leaves the
    /// simulation unchanged.
    pub fn generate_final_report(&mut self, users: Vec<User>) -> (r: Result<(), SimulationError>)
        requires
            options_wf(old(self).options),
            old(self).options.duration >= 1,
            1 <= old(self).interval_reports@.len() <= u64::MAX,
            forall|i: int|
                0 <= i < old(self).interval_reports@.len() ==> {
                    let rep = #[trigger] old(self).interval_reports@[i];
                    dec_wf(rep.profit_loss) && dec_wf(rep.liquidity) && dec_wf(rep.adoption_rate)
                        && dec_wf(rep.user_retention) && dec_wf(rep.token_price) && dec_wf(
                        rep.burn_rate,
                    ) && dec_wf(rep.inflation_rate)
                },
        ensures
            r is Ok ==> {
                let rep = final(self).report;
                &&& final_report_post(rep, old(self).interval_reports@, old(self).options)
                &&& rep.token_distribution@.len() == users@.len()
                &&& (forall|j: int|
                    0 <= j < users@.len() ==> rep.token_distribution@[j] == (
                    #[trigger] users@[j]).balance)
                &&& *final(self) == (Simulation { report: final(self).report, ..*old(self) })
            },
            r is Err ==> *final(self) == *old(self) && r == Err::<(), SimulationError>(
                SimulationError::InvalidDecimal,
            ),
            aggregate_plain(old(self).interval_reports@, old(self).options) ==> r is Ok,
    {
        let p = self.options.decimal_precision;
        let ghost s = self.interval_reports@;
        let ghost plain = aggregate_plain(s, self.options);
        let count = self.interval_reports.len();
        let total_users_dec = Dec::from_u64(self.options.total_users);
        let ghost tu = self.options.total_users as int;
        let ghost p28 = pow10(MAX_SCALE as nat);
        let zero_p = Dec { neg: false, mag: 0, scale: p };
        let mut profit_loss = zero_p;
        let mut trades: u64 = 0;
        let mut successful: u64 = 0;
        let mut failed: u64 = 0;
        let mut total_burned = zero_p;
        let mut total_new_tokens = zero_p;
        let mut liquidity = zero_p;
        let mut adoption = zero_p;
        let mut retention = zero_p;
        let mut total_price = zero_p;
        let mut i: usize = 0;
        proof {
            lemma_pow10_pos(MAX_SCALE as nat);
            crate::decimal::lemma_units_facts(zero_p);
            assert((0int) * tu == 0) by (nonlinear_arith);
        }
        while i < count
            invariant
                i <= count,
                count == s.len(),
                s == self.interval_reports@,
                p28 == pow10(MAX_SCALE as nat),
                tu == self.options.total_users as int,
                total_users_dec == (Dec {
                    neg: false,
                    mag: self.options.total_users as u128,
                    scale: 0,
                }),
                units(total_users_dec) == tu * p28,
                dec_wf(total_users_dec),
                count <= u64::MAX,
                forall|q: int|
                    0 <= q < s.len() ==> {
                        let rep = #[trigger] s[q];
                        dec_wf(rep.profit_loss) && dec_wf(rep.liquidity) && dec_wf(
                            rep.adoption_rate,
                        ) && dec_wf(rep.user_retention) && dec_wf(rep.token_price) && dec_wf(
                            rep.burn_rate,
                        ) && dec_wf(rep.inflation_rate)
                    },
                dec_wf(profit_loss),
                dec_wf(total_burned),
                dec_wf(total_new_tokens),
                dec_wf(liquidity),
                dec_wf(adoption),
                dec_wf(retention),
                dec_wf(total_price),
                units(profit_loss) == sum_units_to(s, i as int, |rr: SimulationReport| rr.profit_loss),
                trades == sum_trades_to(s, i as int),
                successful == sum_successful_to(s, i as int),
                failed == sum_failed_to(s, i as int),
                units(liquidity) == sum_units_to(s, i as int, |rr: SimulationReport| rr.liquidity),
                units(adoption) == sum_units_to(s, i as int, |rr: SimulationReport| rr.adoption_rate),
                units(retention) == sum_units_to(s, i as int, |rr: SimulationReport| rr.user_retention),
                units(total_price) == sum_units_to(s, i as int, |rr: SimulationReport| rr.token_price),
                units(total_burned) == sum_units_to(s, i as int, |rr: SimulationReport| rr.burn_rate) * tu,
                units(total_new_tokens) == sum_units_to(s, i as int, |rr: SimulationReport| rr.inflation_rate) * tu,
                p == self.options.decimal_precision,
                p <= MAX_SCALE,
                plain == aggregate_plain(s, self.options),
                plain ==> {
                    let bound = (MAG_LIMIT as int) * pow10((MAX_SCALE - p) as nat);
                    &&& profit_loss.scale == p && liquidity.scale == p && adoption.scale == p
                        && retention.scale == p && total_price.scale == p && total_burned.scale
                        == p && total_new_tokens.scale == p
                    &&& crate::decimal::abs_val(units(profit_loss)) <= sum_abs_units_to(
                        s,
                        i as int,
                        |rr: SimulationReport| rr.profit_loss,
                    )
                    &&& crate::decimal::abs_val(units(liquidity)) <= sum_abs_units_to(
                        s,
                        i as int,
                        |rr: SimulationReport| rr.liquidity,
                    )
                    &&& crate::decimal::abs_val(units(adoption)) <= sum_abs_units_to(
                        s,
                        i as int,
                        |rr: SimulationReport| rr.adoption_rate,
                    )
                    &&& crate::decimal::abs_val(units(retention)) <= sum_abs_units_to(
                        s,
                        i as int,
                        |rr: SimulationReport| rr.user_retention,
                    )
                    &&& crate::decimal::abs_val(units(total_price)) <= sum_abs_units_to(
                        s,
                        i as int,
                        |rr: SimulationReport| rr.token_price,
                    )
                    &&& crate::decimal::abs_val(units(total_burned)) <= sum_abs_units_to(
                        s,
                        i as int,
                        |rr: SimulationReport| rr.burn_rate,
                    ) * tu
                    &&& crate::decimal::abs_val(units(total_new_tokens)) <= sum_abs_units_to(
                        s,
                        i as int,
                        |rr: SimulationReport| rr.inflation_rate,
                    ) * tu
                },
            decreases count - i,
        {
            proof {
                assert(s.take(i as int + 1).drop_last() == s.take(i as int));
            }
            let rep_profit = self.interval_reports[i].profit_loss;
            let rep_trades = self.interval_reports[i].trades;
            let rep_successful = self.interval_reports[i].successful_trades;
            let rep_failed = self.interval_reports[i].failed_trades;
            let rep_liquidity = self.interval_reports[i].liquidity;
            let rep_adoption = self.interval_reports[i].adoption_rate;
            let rep_retention = self.interval_reports[i].user_retention;
            let rep_price = self.interval_reports[i].token_price;
            let rep_burn = self.interval_reports[i].burn_rate;
            let rep_inflation = self.interval_reports[i].inflation_rate;
            proof {
                if plain {
                    // On plain input every accumulation of this iteration
                    // stays in range: the prefix sums are bounded by the full
                    // sums, which the hypothesis bounds.
                    let bound = (MAG_LIMIT as int) * pow10((MAX_SCALE - p) as nat);
                    lemma_pow10_pos((MAX_SCALE - p) as nat);
                    lemma_sum_prefix_le(s, i as int + 1, |rr: SimulationReport| rr.profit_loss);
                    lemma_sum_prefix_le(s, i as int + 1, |rr: SimulationReport| rr.liquidity);
                    lemma_sum_prefix_le(s, i as int + 1, |rr: SimulationReport| rr.adoption_rate);
                    lemma_sum_prefix_le(s, i as int + 1, |rr: SimulationReport| rr.user_retention);
                    lemma_sum_prefix_le(s, i as int + 1, |rr: SimulationReport| rr.token_price);
                    lemma_sum_prefix_le(s, i as int + 1, |rr: SimulationReport| rr.burn_rate);
                    lemma_sum_prefix_le(s, i as int + 1, |rr: SimulationReport| rr.inflation_rate);
                    lemma_sum_nonneg(s, i as int, |rr: SimulationReport| rr.burn_rate);
                    lemma_sum_nonneg(s, i as int, |rr: SimulationReport| rr.inflation_rate);
                    crate::decimal::lemma_same_scale_add_fits(profit_loss, rep_profit);
                    crate::decimal::lemma_same_scale_add_fits(liquidity, rep_liquidity);
                    crate::decimal::lemma_same_scale_add_fits(adoption, rep_adoption);
                    crate::decimal::lemma_same_scale_add_fits(retention, rep_retention);
                    crate::decimal::lemma_same_scale_add_fits(total_price, rep_price);
                    // The per-interval burn and inflation terms fit their
                    // product with the user count.
                    crate::decimal::lemma_units_facts(rep_burn);
                    crate::decimal::lemma_units_facts(rep_inflation);
                    assert(crate::decimal::abs_val(units(rep_burn)) == (rep_burn.mag as int)
                        * pow10((MAX_SCALE - p) as nat)) by (nonlinear_arith)
                        requires
                            rep_burn.scale == p,
                            units(rep_burn) == if rep_burn.neg {
                                -((rep_burn.mag as int) * pow10((MAX_SCALE - p) as nat))
                            } else {
                                (rep_burn.mag as int) * pow10((MAX_SCALE - p) as nat)
                            },
                            0 <= rep_burn.mag as int,
                            pow10((MAX_SCALE - p) as nat) >= 1,
                    ;
                    assert(crate::decimal::abs_val(units(rep_inflation)) == (
                    rep_inflation.mag as int) * pow10((MAX_SCALE - p) as nat)) by (nonlinear_arith)
                        requires
                            rep_inflation.scale == p,
                            units(rep_inflation) == if rep_inflation.neg {
                                -((rep_inflation.mag as int) * pow10((MAX_SCALE - p) as nat))
                            } else {
                                (rep_inflation.mag as int) * pow10((MAX_SCALE - p) as nat)
                            },
                            0 <= rep_inflation.mag as int,
                            pow10((MAX_SCALE - p) as nat) >= 1,
                    ;
                    assert(crate::decimal::abs_val(units(rep_burn)) * tu <= sum_abs_units_to(
                        s,
                        i as int + 1,
                        |rr: SimulationReport| rr.burn_rate,
                    ) * tu && sum_abs_units_to(s, i as int + 1, |rr: SimulationReport| rr.burn_rate)
                        * tu <= sum_abs_units_to(
                        s,
                        s.len() as int,
                        |rr: SimulationReport| rr.burn_rate,
                    ) * tu) by (nonlinear_arith)
                        requires
                            0 <= tu,
                            crate::decimal::abs_val(units(rep_burn)) <= sum_abs_units_to(
                                s,
                                i as int + 1,
                                |rr: SimulationReport| rr.burn_rate,
                            ),
                            sum_abs_units_to(s, i as int + 1, |rr: SimulationReport| rr.burn_rate)
                                <= sum_abs_units_to(
                                s,
                                s.len() as int,
                                |rr: SimulationReport| rr.burn_rate,
                            ),
                    ;
                    assert(crate::decimal::abs_val(units(rep_inflation)) * tu <= sum_abs_units_to(
                        s,
                        i as int + 1,
                        |rr: SimulationReport| rr.inflation_rate,
                    ) * tu && sum_abs_units_to(
                        s,
                        i as int + 1,
                        |rr: SimulationReport| rr.inflation_rate,
                    ) * tu <= sum_abs_units_to(
                        s,
                        s.len() as int,
                        |rr: SimulationReport| rr.inflation_rate,
                    ) * tu) by (nonlinear_arith)
                        requires
                            0 <= tu,
                            crate::decimal::abs_val(units(rep_inflation)) <= sum_abs_units_to(
                                s,
                                i as int + 1,
                                |rr: SimulationReport| rr.inflation_rate,
                            ),
                            sum_abs_units_to(
                                s,
                                i as int + 1,
                                |rr: SimulationReport| rr.inflation_rate,
                            ) <= sum_abs_units_to(
                                s,
                                s.len() as int,
                                |rr: SimulationReport| rr.inflation_rate,
                            ),
                    ;
                    assert((rep_burn.mag as int) * tu < MAG_LIMIT as int) by (nonlinear_arith)
                        requires
                            crate::decimal::abs_val(units(rep_burn)) == (rep_burn.mag as int)
                                * pow10((MAX_SCALE - p) as nat),
                            crate::decimal::abs_val(units(rep_burn)) * tu < (MAG_LIMIT as int)
                                * pow10((MAX_SCALE - p) as nat),
                            pow10((MAX_SCALE - p) as nat) >= 1,
                            0 <= tu,
                    ;
                    assert((rep_inflation.mag as int) * tu < MAG_LIMIT as int) by (nonlinear_arith)
                        requires
                            crate::decimal::abs_val(units(rep_inflation)) == (
                            rep_inflation.mag as int) * pow10((MAX_SCALE - p) as nat),
                            crate::decimal::abs_val(units(rep_inflation)) * tu < (MAG_LIMIT as int)
                                * pow10((MAX_SCALE - p) as nat),
                            pow10((MAX_SCALE - p) as nat) >= 1,
                            0 <= tu,
                    ;
                }
            }
            profit_loss = match profit_loss.checked_add(&rep_profit) {
                Some(v) => v,
                None => {
                    return Err(SimulationError::InvalidDecimal);
                },
            };
            trades = match trades.checked_add(rep_trades) {
                Some(v) => v,
                None => {
                    return Err(SimulationError::InvalidDecimal);
                },
            };
            successful = match successful.checked_add(rep_successful) {
                Some(v) => v,
                None => {
                    return Err(SimulationError::InvalidDecimal);
                },
            };
            failed = match failed.checked_add(rep_failed) {
                Some(v) => v,
                None => {
                    return Err(SimulationError::InvalidDecimal);
                },
            };
            liquidity = match liquidity.checked_add(&rep_liquidity) {
                Some(v) => v,
                None => {
                    return Err(SimulationError::InvalidDecimal);
                },
            };
            adoption = match adoption.checked_add(&rep_adoption) {
                Some(v) => v,
                None => {
                    return Err(SimulationError::InvalidDecimal);
                },
            };
            retention = match retention.checked_add(&rep_retention) {
                Some(v) => v,
                None => {
                    return Err(SimulationError::InvalidDecimal);
                },
            };
            total_price = match total_price.checked_add(&rep_price) {
                Some(v) => v,
                None => {
                    return Err(SimulationError::InvalidDecimal);
                },
            };
            let burned_term = match rep_burn.checked_mul(&total_users_dec) {
                Some(v) => v,
                None => {
                    return Err(SimulationError::InvalidDecimal);
                },
            };
            let minted_term = match rep_inflation.checked_mul(&total_users_dec) {
                Some(v) => v,
                None => {
                    return Err(SimulationError::InvalidDecimal);
                },
            };
            proof {
                // The per-interval terms are exact products: cancel the
                // common power of ten and distribute over the running sum.
                lemma_pow10_pos(MAX_SCALE as nat);
                assert(units(burned_term) == units(rep_burn) * tu) by (nonlinear_arith)
                    requires
                        units(burned_term) * p28 == units(rep_burn) * (tu * p28),
                        p28 >= 1,
                ;
                assert(units(minted_term) == units(rep_inflation) * tu) by (nonlinear_arith)
                    requires
                        units(minted_term) * p28 == units(rep_inflation) * (tu * p28),
                        p28 >= 1,
                ;
                assert((sum_units_to(s, i as int, |rr: SimulationReport| rr.burn_rate) + units(rep_burn)) * tu == sum_units_to(
                    s,
                    i as int,
                    |rr: SimulationReport| rr.burn_rate,
                ) * tu + units(rep_burn) * tu) by (nonlinear_arith);
                assert((sum_units_to(s, i as int, |rr: SimulationReport| rr.inflation_rate) + units(rep_inflation)) * tu
                    == sum_units_to(s, i as int, |rr: SimulationReport| rr.inflation_rate) * tu + units(rep_inflation) * tu)
                    by (nonlinear_arith);
                if plain {
                    // The scaled terms still fit the running totals.
                    assert(crate::decimal::abs_val(units(burned_term)) == crate::decimal::abs_val(
                        units(rep_burn),
                    ) * tu) by (nonlinear_arith)
                        requires
                            units(burned_term) == units(rep_burn) * tu,
                            0 <= tu,
                    ;
                    assert(crate::decimal::abs_val(units(minted_term)) == crate::decimal::abs_val(
                        units(rep_inflation),
                    ) * tu) by (nonlinear_arith)
                        requires
                            units(minted_term) == units(rep_inflation) * tu,
                            0 <= tu,
                    ;
                    assert((sum_abs_units_to(s, i as int, |rr: SimulationReport| rr.burn_rate)
                        + crate::decimal::abs_val(units(rep_burn))) * tu == sum_abs_units_to(
                        s,
                        i as int,
                        |rr: SimulationReport| rr.burn_rate,
                    ) * tu + crate::decimal::abs_val(units(rep_burn)) * tu) by (nonlinear_arith);
                    assert((sum_abs_units_to(s, i as int, |rr: SimulationReport| rr.inflation_rate)
                        + crate::decimal::abs_val(units(rep_inflation))) * tu == sum_abs_units_to(
                        s,
                        i as int,
                        |rr: SimulationReport| rr.inflation_rate,
                    ) * tu + crate::decimal::abs_val(units(rep_inflation)) * tu)
                        by (nonlinear_arith);
                    crate::decimal::lemma_same_scale_add_fits(total_burned, burned_term);
                    crate::decimal::lemma_same_scale_add_fits(total_new_tokens, minted_term);
                }
            }
            total_burned = match total_burned.checked_add(&burned_term) {
                Some(v) => v,
                None => {
                    return Err(SimulationError::InvalidDecimal);
                },
            };
            total_new_tokens = match total_new_tokens.checked_add(&minted_term) {
                Some(v) => v,
                None => {
                    return Err(SimulationError::InvalidDecimal);
                },
            };
            i = i + 1;
            proof {
                if plain {
                    assert((sum_abs_units_to(s, i as int, |rr: SimulationReport| rr.burn_rate))
                        * tu == (sum_abs_units_to(
                        s,
                        i as int - 1,
                        |rr: SimulationReport| rr.burn_rate,
                    ) + crate::decimal::abs_val(units(rep_burn))) * tu);
                    assert((sum_abs_units_to(
                        s,
                        i as int,
                        |rr: SimulationReport| rr.inflation_rate,
                    )) * tu == (sum_abs_units_to(
                        s,
                        i as int - 1,
                        |rr: SimulationReport| rr.inflation_rate,
                    ) + crate::decimal::abs_val(units(rep_inflation))) * tu);
                }
            }
        }
        let count_dec = Dec::from_u64(count as u64);
        proof {
            if plain {
                // Averaging a same-scale total over a whole-number count
                // always fits.
                crate::decimal::lemma_same_scale_div_fits(liquidity, count_dec, p);
                crate::decimal::lemma_same_scale_div_fits(adoption, count_dec, p);
                crate::decimal::lemma_same_scale_div_fits(retention, count_dec, p);
                crate::decimal::lemma_same_scale_div_fits(total_price, count_dec, p);
            }
        }
        let final_liquidity = match liquidity.div_round(&count_dec, p) {
            Some(v) => v,
            None => {
                return Err(SimulationError::InvalidDecimal);
            },
        };
        let final_adoption = match adoption.div_round(&count_dec, p) {
            Some(v) => v,
            None => {
                return Err(SimulationError::InvalidDecimal);
            },
        };
        let final_retention = match retention.div_round(&count_dec, p) {
            Some(v) => v,
            None => {
                return Err(SimulationError::InvalidDecimal);
            },
        };
        let final_price = match total_price.div_round(&count_dec, p) {
            Some(v) => v,
            None => {
                return Err(SimulationError::InvalidDecimal);
            },
        };
        let (final_burn, final_inflation) = if trades == 0 {
            (Dec::zero(), Dec::zero())
        } else {
            let trades_dec = Dec::from_u64(trades);
            proof {
                if plain {
                    crate::decimal::lemma_same_scale_div_fits(total_burned, trades_dec, p);
                    crate::decimal::lemma_same_scale_div_fits(total_new_tokens, trades_dec, p);
                }
            }
            let b = match total_burned.div_round(&trades_dec, p) {
                Some(v) => v,
                None => {
                    return Err(SimulationError::InvalidDecimal);
                },
            };
            let f = match total_new_tokens.div_round(&trades_dec, p) {
                Some(v) => v,
                None => {
                    return Err(SimulationError::InvalidDecimal);
                },
            };
            (b, f)
        };
        let network_activity = trades / self.options.duration;
        let mut token_distribution: Vec<Dec> = Vec::new();
        let users_count = users.len();
        let mut j: usize = 0;
        while j < users_count
            invariant
                j <= users_count,
                users_count == users@.len(),
                token_distribution@.len() == j,
                forall|q: int|
                    0 <= q < j ==> token_distribution@[q] == (#[trigger] users@[q]).balance,
            decreases users_count - j,
        {
            let b = users[j].balance;
            token_distribution.push(b);
            j = j + 1;
        }
        let mut report = SimulationReport::default();
        report.profit_loss = profit_loss;
        report.trades = trades;
        report.successful_trades = successful;
        report.failed_trades = failed;
        report.liquidity = final_liquidity;
        report.adoption_rate = final_adoption;
        report.user_retention = final_retention;
        report.burn_rate = final_burn;
        report.inflation_rate = final_inflation;
        report.network_activity = network_activity;
        report.token_price = final_price;
        report.market_volatility = self.options.market_volatility;
        report.token_distribution = token_distribution;
        proof {
            assert(s.take(s.len() as int) == s);
        }
        self.report = report;
        Ok(())
    }

    /// Runs the simulation: applies the configured airdrop, generates the
    /// initial population, then simulates one interval at a time — releasing
    /// due unlock events, growing the population by the adoption rate,
    /// regenerating the balances, valuing the token and recording one report
    /// per interval — and finally aggregates the interval reports into the
    /// final report. On success the status is `Completed` and there is
    /// exactly one interval report per configured interval; a numeric error
    /// aborts the run immediately, leaving the status `Running` and the
    /// reports recorded so far in place.
    pub fn run(&mut self) -> (r: Result<(), SimulationError>)
        requires
            token_wf(old(self).token),
            options_wf(old(self).options),
            old(self).options.total_users >= 1,
            // The upper bound is what the i64 millisecond timestamps force:
            // one more interval would not be expressible.
            1 <= old(self).options.duration <= 3000000000,
        ensures
            r is Ok ==> {
                &&& final(self).status == SimulationStatus::Completed
                &&& final(self).interval_reports@.len() == old(self).options.duration
                &&& interval_reports_consistent(final(self).interval_reports@, old(self).options)
                &&& intervals_chronological(final(self).interval_reports@)
                &&& final_report_post(
                    final(self).report,
                    final(self).interval_reports@,
                    old(self).options,
                )
                &&& (old(self).options.adoption_rate is None
                    ==> final(self).report.token_distribution@.len() == old(
                    self,
                ).options.total_users)
            },
            r is Err ==> final(self).status == SimulationStatus::Running
                && (final(self).interval_reports == old(self).interval_reports
                || (final(self).interval_reports@.len() <= old(self).options.duration
                && interval_reports_consistent(final(self).interval_reports@, old(self).options)
                && intervals_chronological(final(self).interval_reports@))),
            final(self).options == old(self).options,
            final(self).name == old(self).name,
            final(self).id == old(self).id,
            final(self).description == old(self).description,
            final(self).created_at == old(self).created_at,
    {
        proof {
            crate::token::lemma_schedule_units_nonneg(crate::token::sched_seq(old(self).token));
            crate::decimal::lemma_units_facts(old(self).token.total_supply);
        }
        self.update_status(SimulationStatus::Running);
        let decimal_precision = self.options.decimal_precision;
        let airdrop_amount = match &self.token.airdrop_percentage {
            Some(percentage) => {
                let pct = *percentage;
                match self.token.airdrop(pct) {
                    Ok(a) => a,
                    Err(e) => {
                        return Err(e);
                    },
                }
            },
            None => Dec::zero(),
        };
        let initial = match self.token.initial_supply() {
            Ok(v) => v,
            Err(e) => {
                return Err(e);
            },
        };
        proof {
            crate::token::lemma_airdrop_desired_nonneg(
                self.token.total_supply,
                self.token.initial_supply_percentage,
            );
        }
        let mut users = match User::generate(
            self.options.total_users,
            initial,
            self.token.initial_price,
            decimal_precision,
        ) {
            Ok(u) => u,
            Err(e) => {
                return Err(e);
            },
        };
        // Distribute the airdrop amount evenly among the users.
        if !airdrop_amount.is_zero() {
            let users_count = users.len();
            let count_dec = Dec::from_u64(users_count as u64);
            let per_user = match airdrop_amount.div_round(&count_dec, decimal_precision) {
                Some(v) => v,
                None => {
                    return Err(SimulationError::InvalidDecimal);
                },
            };
            let mut ai: usize = 0;
            while ai < users_count
                invariant
                    ai <= users_count,
                    users@.len() == users_count,
                    dec_wf(per_user),
                    forall|q: int| 0 <= q < users@.len() ==> dec_wf((#[trigger] users@[q]).balance),
                    self.status == SimulationStatus::Running,
                    self.options == old(self).options,
                    self.name == old(self).name,
                    self.id == old(self).id,
                    self.description == old(self).description,
                    self.created_at == old(self).created_at,
                    self.interval_reports == old(self).interval_reports,
                decreases users_count - ai,
            {
                let b = users[ai].balance;
                let uid = users[ai].id;
                let beh = users[ai].behaviour;
                let nb = match b.checked_add(&per_user) {
                    Some(v) => v,
                    None => {
                        return Err(SimulationError::InvalidDecimal);
                    },
                };
                users[ai] = User { id: uid, balance: nb, behaviour: beh };
                ai = ai + 1;
            }
        }
        self.interval_reports = Vec::new();
        let interval = self.get_interval();
        let start = now_millis();
        let duration = self.options.duration;
        let mut time: u64 = 0;
        while time < duration
            invariant
                time <= duration,
                duration == self.options.duration,
                1 <= duration <= 3000000000,
                self.options == old(self).options,
                options_wf(self.options),
                self.options.total_users >= 1,
                decimal_precision == self.options.decimal_precision,
                interval == interval_hours(self.options.interval_type),
                1 <= interval <= 720,
                self.status == SimulationStatus::Running,
                self.name == old(self).name,
                self.id == old(self).id,
                self.description == old(self).description,
                self.created_at == old(self).created_at,
                self.interval_reports@.len() == time,
                interval_reports_consistent(self.interval_reports@, old(self).options),
                intervals_chronological(self.interval_reports@),
                forall|q: int|
                    0 <= q < time ==> (#[trigger] self.interval_reports@[q]).interval == sat_ts(
                        start,
                        q * ((interval as int) * 3600000),
                    ),
                old(self).options.adoption_rate is None ==> users@.len() == old(
                    self,
                ).options.total_users as int,
                dec_wf(self.token.total_supply),
                dec_wf(self.token.current_supply),
                dec_wf(self.token.initial_supply_percentage),
                dec_wf(self.token.initial_price),
                0 <= units(self.token.total_supply),
                0 <= units(self.token.initial_supply_percentage),
                self.token.burn_rate matches Some(d) ==> dec_wf(d),
                self.token.inflation_rate matches Some(d) ==> dec_wf(d),
                self.token.unlock_schedule matches Some(v) ==> forall|q: int|
                    0 <= q < v@.len() ==> dec_wf((#[trigger] v@[q]).amount),
                users@.len() >= 1,
                forall|q: int| 0 <= q < users@.len() ==> dec_wf((#[trigger] users@[q]).balance),
                forall|q: int|
                    0 <= q < self.interval_reports@.len() ==> {
                        let rep = #[trigger] self.interval_reports@[q];
                        dec_wf(rep.profit_loss) && dec_wf(rep.liquidity) && dec_wf(
                            rep.adoption_rate,
                        ) && dec_wf(rep.user_retention) && dec_wf(rep.token_price) && dec_wf(
                            rep.burn_rate,
                        ) && dec_wf(rep.inflation_rate)
                    },
            decreases duration - time,
        {
            let ghost sched_before = crate::token::sched_seq(self.token);
            // Process unlock events up to the current simulated date.
            let hours = time * interval;
            let current_date = interval_timestamp(start, hours);
            match self.token.process_unlocks(current_date) {
                Ok(()) => {},
                Err(e) => {
                    return Err(e);
                },
            }
            proof {
                crate::token::lemma_kept_events_wf(sched_before, current_date);
            }
            // Simulate user adoption and regenerate the population.
            let current_count = users.len() as u64;
            let current_users = match self.simulate_adoption(current_count) {
                Ok(c) => c,
                Err(e) => {
                    return Err(e);
                },
            };
            if current_users > MAX_POPULATION || current_users == 0 {
                return Err(SimulationError::InvalidDecimal);
            }
            let supply = match self.token.initial_supply() {
                Ok(v) => v,
                Err(e) => {
                    return Err(e);
                },
            };
            proof {
                crate::token::lemma_airdrop_desired_nonneg(
                    self.token.total_supply,
                    self.token.initial_supply_percentage,
                );
            }
            users = match User::generate(
                current_users,
                supply,
                self.token.initial_price,
                decimal_precision,
            ) {
                Ok(u) => u,
                Err(e) => {
                    return Err(e);
                },
            };
            let valuation = match self.calculate_valuation(&self.token, current_users) {
                Ok(v) => v,
                Err(e) => {
                    return Err(e);
                },
            };
            proof {
                assert((interval as int) * (users@.len() as int) <= 720 * (
                MAX_POPULATION as int)) by (nonlinear_arith)
                    requires
                        1 <= interval <= 720,
                        1 <= users@.len() <= MAX_POPULATION as int,
                ;
            }
            let mut report = match self.process_interval(&mut users, interval) {
                Ok(rep) => rep,
                Err(e) => {
                    return Err(e);
                },
            };
            report.token_price = valuation;
            report.interval = current_date;
            proof {
                // The fresh report's timestamp extends the chronological order.
                let c = (interval as int) * 3600000;
                assert((hours as int) * 3600000 == (time as int) * c) by (nonlinear_arith)
                    requires
                        hours as int == (time as int) * (interval as int),
                        c == (interval as int) * 3600000,
                ;
                assert forall|q: int| 0 <= q < time implies #[trigger] sat_ts(start, q * c)
                    <= sat_ts(start, (time as int) * c) by {
                    assert(q * c <= (time as int) * c) by (nonlinear_arith)
                        requires
                            0 <= q < time as int,
                            c >= 0,
                    ;
                }
            }
            self.interval_reports.push(report);
            time = time + 1;
        }
        match self.generate_final_report(users) {
            Ok(()) => {},
            Err(e) => {
                return Err(e);
            },
        }
        self.update_status(SimulationStatus::Completed);
        Ok(())
    }

}

/// The timestamp `start + hours`, expressed in milliseconds and saturating
/// at the largest representable instant.
pub fn interval_timestamp(start: i64, hours: u64) -> (r: i64)
    requires
        hours <= 2160000000000,
    ensures
        r == sat_ts(start, hours * 3600000),
{
    proof {
        assert((hours as int) * 3600000 <= 2160000000000int * 3600000) by (nonlinear_arith)
            requires
                hours as int <= 2160000000000,
        ;
    }
    let ms = (hours as i64) * 3600000;
    match start.checked_add(ms) {
        Some(v) => v,
        None => i64::MAX,
    }
}

/// The summed absolute units of a decimal field over the first `k` interval
/// reports, selected by `sel`.
pub open spec fn sum_abs_units_to(
    s: Seq<SimulationReport>,
    k: int,
    sel: spec_fn(SimulationReport) -> Dec,
) -> int
    decreases k,
{
    if k <= 0 {
        0
    } else {
        sum_abs_units_to(s, k - 1, sel) + crate::decimal::abs_val(units(sel(s[k - 1])))
    }
}

/// A plain aggregation input: every summed decimal field of every interval
/// report sits at the configured precision, the counters sum within range,
/// and the summed magnitudes stay below the magnitude limit. On such reports
/// the final aggregation always succeeds.
pub open spec fn aggregate_plain(s: Seq<SimulationReport>, o: SimulationOptions) -> bool {
    let p = o.decimal_precision;
    let tu = o.total_users as int;
    let bound = (MAG_LIMIT as int) * pow10((MAX_SCALE - p) as nat);
    let n = s.len() as int;
    &&& p <= MAX_SCALE
    &&& (forall|i: int|
        0 <= i < n ==> {
            let rep = #[trigger] s[i];
            rep.profit_loss.scale == p && rep.liquidity.scale == p && rep.adoption_rate.scale == p
                && rep.user_retention.scale == p && rep.token_price.scale == p
                && rep.burn_rate.scale == p && rep.inflation_rate.scale == p
        })
    &&& sum_trades_to(s, n) <= u64::MAX
    &&& sum_successful_to(s, n) <= u64::MAX
    &&& sum_failed_to(s, n) <= u64::MAX
    &&& sum_abs_units_to(s, n, |rr: SimulationReport| rr.profit_loss) < bound
    &&& sum_abs_units_to(s, n, |rr: SimulationReport| rr.liquidity) < bound
    &&& sum_abs_units_to(s, n, |rr: SimulationReport| rr.adoption_rate) < bound
    &&& sum_abs_units_to(s, n, |rr: SimulationReport| rr.user_retention) < bound
    &&& sum_abs_units_to(s, n, |rr: SimulationReport| rr.token_price) < bound
    &&& sum_abs_units_to(s, n, |rr: SimulationReport| rr.burn_rate) * tu < bound
    &&& sum_abs_units_to(s, n, |rr: SimulationReport| rr.inflation_rate) * tu < bound
}

/// Counter and magnitude sums grow with the prefix and stay nonnegative.
proof fn lemma_sum_prefix_le(s: Seq<SimulationReport>, k: int, sel: spec_fn(SimulationReport) -> Dec)
    requires
        0 <= k <= s.len(),
    ensures
        sum_trades_to(s, k) <= sum_trades_to(s, s.len() as int),
        sum_successful_to(s, k) <= sum_successful_to(s, s.len() as int),
        sum_failed_to(s, k) <= sum_failed_to(s, s.len() as int),
        0 <= sum_abs_units_to(s, k, sel),
        sum_abs_units_to(s, k, sel) <= sum_abs_units_to(s, s.len() as int, sel),
        0 <= sum_trades_to(s, k),
        0 <= sum_successful_to(s, k),
        0 <= sum_failed_to(s, k),
    decreases s.len() - k,
{
    lemma_sum_nonneg(s, k, sel);
    if k < s.len() {
        lemma_sum_prefix_le(s, k + 1, sel);
    }
}

/// The partial sums are nonnegative.
proof fn lemma_sum_nonneg(s: Seq<SimulationReport>, k: int, sel: spec_fn(SimulationReport) -> Dec)
    requires
        k <= s.len(),
    ensures
        0 <= sum_abs_units_to(s, k, sel),
        0 <= sum_trades_to(s, k),
        0 <= sum_successful_to(s, k),
        0 <= sum_failed_to(s, k),
    decreases k,
{
    if k > 0 {
        lemma_sum_nonneg(s, k - 1, sel);
    }
}

/// What the final aggregate report states over the interval reports `s` and
/// the options `o`: counters are summed; liquidity, adoption rate, user
/// retention and token price are averaged over the intervals; burn and
/// inflation rates are re-derived from the per-interval rates scaled by the
/// configured user count and divided by the total trades (zero when no trade
/// happened).
pub open spec fn final_report_post(
    rep: SimulationReport,
    s: Seq<SimulationReport>,
    o: SimulationOptions,
) -> bool {
    let p = o.decimal_precision;
    let count = s.len() as int;
    let tu = o.total_users as int;
    &&& rep.trades == sum_trades_to(s, count)
    &&& rep.successful_trades == sum_successful_to(s, count)
    &&& rep.failed_trades == sum_failed_to(s, count)
    &&& units(rep.profit_loss) == sum_units_to(s, count, |rr: SimulationReport| rr.profit_loss)
    &&& units(rep.liquidity) == div_units(
        sum_units_to(s, count, |rr: SimulationReport| rr.liquidity),
        count * pow10(MAX_SCALE as nat),
        p,
    )
    &&& units(rep.adoption_rate) == div_units(
        sum_units_to(s, count, |rr: SimulationReport| rr.adoption_rate),
        count * pow10(MAX_SCALE as nat),
        p,
    )
    &&& units(rep.user_retention) == div_units(
        sum_units_to(s, count, |rr: SimulationReport| rr.user_retention),
        count * pow10(MAX_SCALE as nat),
        p,
    )
    &&& units(rep.token_price) == div_units(
        sum_units_to(s, count, |rr: SimulationReport| rr.token_price),
        count * pow10(MAX_SCALE as nat),
        p,
    )
    &&& (sum_trades_to(s, count) == 0 ==> units(rep.burn_rate) == 0 && units(rep.inflation_rate)
        == 0)
    &&& (sum_trades_to(s, count) != 0 ==> units(rep.burn_rate) == div_units(
        sum_units_to(s, count, |rr: SimulationReport| rr.burn_rate) * tu,
        sum_trades_to(s, count) * pow10(MAX_SCALE as nat),
        p,
    ) && units(rep.inflation_rate) == div_units(
        sum_units_to(s, count, |rr: SimulationReport| rr.inflation_rate) * tu,
        sum_trades_to(s, count) * pow10(MAX_SCALE as nat),
        p,
    ))
    &&& rep.network_activity == sum_trades_to(s, count) / (o.duration as int)
    &&& rep.market_volatility == o.market_volatility
}

/// The per-interval identities every recorded report satisfies: total trades
/// split into successes and failures, and the configured market volatility.
pub open spec fn interval_reports_consistent(s: Seq<SimulationReport>, o: SimulationOptions) -> bool {
    forall|q: int|
        0 <= q < s.len() ==> (#[trigger] s[q]).trades == s[q].successful_trades
            + s[q].failed_trades && s[q].market_volatility == o.market_volatility
}

/// Timestamps are nondecreasing along the report sequence.
pub open spec fn intervals_chronological(s: Seq<SimulationReport>) -> bool {
    forall|i: int, j: int|
        0 <= i <= j < s.len() ==> (#[trigger] s[i]).interval <= (#[trigger] s[j]).interval
}

/// The instant `start + off` milliseconds, saturating at the largest
/// representable instant.
pub open spec fn sat_ts(start: i64, off: int) -> int {
    if start + off <= i64::MAX {
        start + off
    } else {
        i64::MAX as int
    }
}

/// The summed trades of the first `k` interval reports.
pub open spec fn sum_trades_to(s: Seq<SimulationReport>, k: int) -> int
    decreases k,
{
    if k <= 0 {
        0
    } else {
        sum_trades_to(s, k - 1) + s[k - 1].trades
    }
}

/// The summed successful trades of the first `k` interval reports.
pub open spec fn sum_successful_to(s: Seq<SimulationReport>, k: int) -> int
    decreases k,
{
    if k <= 0 {
        0
    } else {
        sum_successful_to(s, k - 1) + s[k - 1].successful_trades
    }
}

/// The summed failed trades of the first `k` interval reports.
pub open spec fn sum_failed_to(s: Seq<SimulationReport>, k: int) -> int
    decreases k,
{
    if k <= 0 {
        0
    } else {
        sum_failed_to(s, k - 1) + s[k - 1].failed_trades
    }
}

/// The summed units of a decimal field over the first `k` interval reports,
/// selected by `sel`.
pub open spec fn sum_units_to(
    s: Seq<SimulationReport>,
    k: int,
    sel: spec_fn(SimulationReport) -> Dec,
) -> int
    decreases k,
{
    if k <= 0 {
        0
    } else {
        sum_units_to(s, k - 1, sel) + units(sel(s[k - 1]))
    }
}

/// What holds of the result of scaling the initial price by a known
/// exponential outcome: `None` saturates to the initial price, `Some(e)`
/// multiplies exactly (rounded half-to-even at 28 digits when the combined
/// scale overflows), and the only error is an unrepresentable product.
pub open spec fn exp_product_post(price: Dec, e: Dec, r: Result<Dec, SimulationError>) -> bool {
    &&& (price.scale + e.scale <= MAX_SCALE ==> {
        &&& (r is Ok <==> (price.mag as int) * (e.mag as int) < MAG_LIMIT as int)
        &&& (r matches Ok(v) ==> dec_wf(v) && units(v) * pow10(MAX_SCALE as nat) == units(price)
            * units(e))
    })
    &&& (price.scale + e.scale > MAX_SCALE ==> {
        &&& (r is Ok <==> mdr_fits(price, e, (Dec { neg: false, mag: 1, scale: 0 }), MAX_SCALE))
        &&& (r matches Ok(v) ==> dec_wf(v) && units(v) == mul_units(
            units(price),
            units(e),
            MAX_SCALE,
        ))
    })
    &&& (r is Err ==> r == Err::<Dec, SimulationError>(SimulationError::InvalidDecimal))
}

/// `exp_product_post` lifted over an optional exponential outcome.
pub open spec fn exp_apply_post(price: Dec, eo: Option<Dec>, r: Result<
    Dec,
    SimulationError,
>) -> bool {
    match eo {
        None => r == Ok::<Dec, SimulationError>(price),
        Some(e) => exp_product_post(price, e, r),
    }
}

/// The valuation outcome of the exponential model when the exponent is
/// representable: some decimal `x` holds the exponent `users / factor`
/// rounded at the supported precision, and the result follows from the
/// decimal exponential of `x`.
pub open spec fn exp_exponent_post(
    users: u64,
    f: Dec,
    price: Dec,
    r: Result<Dec, SimulationError>,
) -> bool {
    exists|x: Dec|
        {
            &&& #[trigger] units(x) == div_units(
                (users as int) * pow10(MAX_SCALE as nat),
                units(f),
                EXPONENT_SCALE,
            )
            &&& x.scale == EXPONENT_SCALE
            &&& dec_wf(x)
            &&& exp_apply_post(price, dec_exp_of(x), r)
        }
}

/// Whether the exponent `users / factor` is representable at the supported
/// precision.
pub open spec fn exponent_fits(users: u64, f: Dec) -> bool {
    mdr_fits(
        (Dec { neg: false, mag: users as u128, scale: 0 }),
        (Dec { neg: false, mag: 1, scale: 0 }),
        f,
        EXPONENT_SCALE,
    )
}

} // verus!
