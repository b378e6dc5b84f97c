//! Token supply state: airdrops and scheduled unlock events.

use vstd::prelude::*;

use crate::decimal::{
    dec_wf, lemma_rhe_le_n, mdr_fits, mdr_units, pow10, rhe, rhe_frac, units, Dec, MAX_SCALE,
};
use crate::SimulationError;

verus! {

/// A scheduled event that unlocks an amount of tokens at a date, given in
/// milliseconds since the Unix epoch.
#[derive(Clone, Copy, Debug, PartialEq)]
pub struct UnlockEvent {
    /// Date and time of the unlock event.
    pub date: i64,
    /// Amount of tokens to unlock.
    pub amount: Dec,
}

/// A token: supply state plus the rates that drive the simulation.
#[derive(Clone, Debug, PartialEq)]
pub struct Token {
    /// ID for the token.
    pub id: uuid::Uuid,
    /// Name of the token.
    pub name: String,
    /// Symbol of the token, usually 3-4 characters long.
    pub symbol: String,
    /// Total supply: the maximum number of tokens that can ever exist.
    pub total_supply: Dec,
    /// Current supply: the number of tokens minted or airdropped so far.
    pub current_supply: Dec,
    /// Initial supply, in percent of the total supply.
    pub initial_supply_percentage: Dec,
    /// Fraction of each trade minted anew, if the supply is inflationary.
    pub inflation_rate: Option<Dec>,
    /// Fraction of each trade destroyed, if the supply is deflationary.
    pub burn_rate: Option<Dec>,
    /// Price of the token at the start of the simulation.
    pub initial_price: Dec,
    /// Share of the total supply airdropped at the start, in percent.
    pub airdrop_percentage: Option<Dec>,
    /// Unlock schedule, in insertion order.
    pub unlock_schedule: Option<Vec<UnlockEvent>>,
}

/// The events of `s` that stay scheduled after processing at `now`: those
/// dated strictly later than `now`, in their original order.
pub open spec fn kept_events(s: Seq<UnlockEvent>, now: i64) -> Seq<UnlockEvent>
    decreases s.len(),
{
    if s.len() == 0 {
        Seq::empty()
    } else {
        let rest = kept_events(s.drop_last(), now);
        if s.last().date > now {
            rest.push(s.last())
        } else {
            rest
        }
    }
}

/// The summed units of the events of `s` released at `now`: those dated at or
/// before `now`.
pub open spec fn released_units(s: Seq<UnlockEvent>, now: i64) -> int
    decreases s.len(),
{
    if s.len() == 0 {
        0
    } else {
        released_units(s.drop_last(), now) + if s.last().date <= now {
            units(s.last().amount)
        } else {
            0
        }
    }
}

/// The summed units of all events of `s`.
pub open spec fn schedule_units(s: Seq<UnlockEvent>) -> int
    decreases s.len(),
{
    if s.len() == 0 {
        0
    } else {
        schedule_units(s.drop_last()) + units(s.last().amount)
    }
}

/// The units of a token's unlock schedule (zero when there is none).
pub open spec fn token_schedule_units(t: Token) -> int {
    match t.unlock_schedule {
        Some(v) => schedule_units(v@),
        None => 0,
    }
}

/// Well-formedness of a token: every decimal is in range, the current supply
/// lies between zero and the total supply even after all scheduled unlocks,
/// the scheduled amounts are nonnegative, and the configured percentages are
/// nonnegative.
pub open spec fn token_wf(t: Token) -> bool {
    &&& dec_wf(t.total_supply)
    &&& dec_wf(t.current_supply)
    &&& dec_wf(t.initial_supply_percentage)
    &&& dec_wf(t.initial_price)
    &&& 0 <= units(t.current_supply)
    &&& units(t.current_supply) + token_schedule_units(t) <= units(t.total_supply)
    &&& 0 <= units(t.initial_supply_percentage)
    &&& (t.inflation_rate matches Some(d) ==> dec_wf(d))
    &&& (t.burn_rate matches Some(d) ==> dec_wf(d))
    &&& (t.airdrop_percentage matches Some(d) ==> dec_wf(d) && 0 <= units(d))
    &&& (t.unlock_schedule matches Some(v) ==> forall|i: int|
        0 <= i < v@.len() ==> dec_wf(#[trigger] v@[i].amount) && 0 <= units(v@[i].amount))
}

/// A plain airdrop configuration: whole-number, nonnegative supplies and
/// percentage, the percentage at most 100, and the current supply within the
/// total. On such a token an airdrop always succeeds.
pub open spec fn airdrop_plain(t: Token, percentage: Dec) -> bool {
    &&& t.total_supply.scale == 0 && !t.total_supply.neg && dec_wf(t.total_supply)
    &&& t.current_supply.scale == 0 && !t.current_supply.neg
    &&& percentage.scale == 0 && !percentage.neg && percentage.mag <= 100
    &&& t.current_supply.mag <= t.total_supply.mag
}

/// The desired airdrop amount in units: `total * percentage / 100`, rounded
/// to a whole number of tokens.
pub open spec fn airdrop_desired_units(total: Dec, percentage: Dec) -> int {
    mdr_units(units(total), units(percentage), 100 * pow10(MAX_SCALE as nat), 0)
}

/// Splitting a schedule at `now` loses no amount: what is released plus what
/// is kept is the whole schedule.
pub proof fn lemma_schedule_split(s: Seq<UnlockEvent>, now: i64)
    ensures
        released_units(s, now) + schedule_units(kept_events(s, now)) == schedule_units(s),
    decreases s.len(),
{
    if s.len() != 0 {
        lemma_schedule_split(s.drop_last(), now);
        if s.last().date > now {
            assert(kept_events(s, now).drop_last() == kept_events(s.drop_last(), now));
            assert(kept_events(s, now).last() == s.last());
        }
    }
}

/// Each qualifying event is released exactly once: after one pass at `now`,
/// a second pass at the same (or an earlier) date finds nothing to release
/// and keeps the schedule unchanged.
pub proof fn lemma_unlocks_released_once(s: Seq<UnlockEvent>, now: i64, again: i64)
    requires
        again <= now,
    ensures
        released_units(kept_events(s, now), again) == 0,
        kept_events(kept_events(s, now), again) == kept_events(s, now),
    decreases s.len(),
{
    if s.len() == 0 {
        assert(kept_events(s, now) == Seq::<UnlockEvent>::empty());
    } else {
        lemma_unlocks_released_once(s.drop_last(), now, again);
        let k = kept_events(s, now);
        if s.last().date > now {
            assert(k.drop_last() == kept_events(s.drop_last(), now));
            assert(k.last() == s.last());
            assert(kept_events(k, again) == kept_events(k.drop_last(), again).push(k.last()));
        }
    }
}

/// The token's unlock schedule as a sequence (empty when there is none).
pub open spec fn sched_seq(t: Token) -> Seq<UnlockEvent> {
    match t.unlock_schedule {
        Some(v) => v@,
        None => Seq::empty(),
    }
}

/// True when no scheduled event is due at `now`: every event is dated
/// strictly later.
pub open spec fn no_due_events(t: Token, now: i64) -> bool {
    forall|i: int| 0 <= i < sched_seq(t).len() ==> #[trigger] sched_seq(t)[i].date > now
}

/// A plain unlock configuration at `now`: a whole-number, nonnegative
/// current supply and schedule amounts, with the due releases fitting below
/// the magnitude limit. On such a token processing the unlocks always
/// succeeds.
pub open spec fn unlocks_plain(t: Token, now: i64) -> bool {
    &&& dec_wf(t.current_supply)
    &&& t.current_supply.scale == 0
    &&& !t.current_supply.neg
    &&& forall|i: int|
        0 <= i < sched_seq(t).len() ==> dec_wf((#[trigger] sched_seq(t)[i]).amount) && sched_seq(
            t,
        )[i].amount.scale == 0 && !sched_seq(t)[i].amount.neg
    &&& units(t.current_supply) + released_units(sched_seq(t), now) < (
    crate::decimal::MAG_LIMIT as int) * pow10(MAX_SCALE as nat)
}

/// A prefix releases no more than the whole schedule, once every amount is
/// nonnegative.
pub proof fn lemma_released_prefix_le(s: Seq<UnlockEvent>, k: int, now: i64)
    requires
        0 <= k <= s.len(),
        forall|i: int| 0 <= i < s.len() ==> 0 <= units(#[trigger] s[i].amount),
    ensures
        released_units(s.take(k), now) <= released_units(s, now),
    decreases s.len() - k,
{
    if k < s.len() {
        lemma_released_prefix_le(s, k + 1, now);
        assert(s.take(k + 1).drop_last() == s.take(k));
        assert(s.take(k + 1).last() == s[k]);
    } else {
        assert(s.take(k) == s);
    }
}

/// The kept events inherit the schedule's well-formedness: in-range,
/// nonnegative amounts stay in range and nonnegative.
pub proof fn lemma_kept_events_props(s: Seq<UnlockEvent>, now: i64)
    requires
        forall|i: int|
            0 <= i < s.len() ==> dec_wf(#[trigger] s[i].amount) && 0 <= units(s[i].amount),
    ensures
        forall|i: int|
            0 <= i < kept_events(s, now).len() ==> dec_wf(#[trigger] kept_events(s, now)[i].amount)
                && 0 <= units(kept_events(s, now)[i].amount),
    decreases s.len(),
{
    if s.len() != 0 {
        assert(forall|i: int|
            0 <= i < s.drop_last().len() ==> dec_wf(#[trigger] s.drop_last()[i].amount) && 0
                <= units(s.drop_last()[i].amount));
        lemma_kept_events_props(s.drop_last(), now);
        let k = kept_events(s, now);
        let rest = kept_events(s.drop_last(), now);
        if s.last().date > now {
            assert(k == rest.push(s.last()));
            assert(dec_wf(s[s.len() - 1].amount) && 0 <= units(s[s.len() - 1].amount));
            assert(forall|i: int|
                0 <= i < k.len() ==> dec_wf(#[trigger] k[i].amount) && 0 <= units(k[i].amount))
                by {
                assert(forall|i: int|
                    0 <= i < k.len() ==> #[trigger] k[i] == if i < rest.len() {
                        rest[i]
                    } else {
                        s.last()
                    });
            }
        }
    }
}

/// The kept events of a schedule with in-range amounts keep in-range
/// amounts.
pub proof fn lemma_kept_events_wf(s: Seq<UnlockEvent>, now: i64)
    requires
        forall|i: int| 0 <= i < s.len() ==> dec_wf((#[trigger] s[i]).amount),
    ensures
        forall|i: int|
            0 <= i < kept_events(s, now).len() ==> dec_wf(
                (#[trigger] kept_events(s, now)[i]).amount,
            ),
    decreases s.len(),
{
    if s.len() != 0 {
        assert(forall|i: int|
            0 <= i < s.drop_last().len() ==> dec_wf((#[trigger] s.drop_last()[i]).amount));
        lemma_kept_events_wf(s.drop_last(), now);
        let k = kept_events(s, now);
        let rest = kept_events(s.drop_last(), now);
        if s.last().date > now {
            assert(k == rest.push(s.last()));
            assert(dec_wf(s[s.len() - 1].amount));
            assert(forall|i: int| 0 <= i < k.len() ==> dec_wf((#[trigger] k[i]).amount)) by {
                assert(forall|i: int|
                    0 <= i < k.len() ==> #[trigger] k[i] == if i < rest.len() {
                        rest[i]
                    } else {
                        s.last()
                    });
            }
        }
    }
}

/// Nonnegative schedule amounts sum to a nonnegative value.
pub proof fn lemma_schedule_units_nonneg(s: Seq<UnlockEvent>)
    requires
        forall|i: int| 0 <= i < s.len() ==> 0 <= units(#[trigger] s[i].amount),
    ensures
        0 <= schedule_units(s),
    decreases s.len(),
{
    if s.len() != 0 {
        assert(forall|i: int|
            0 <= i < s.drop_last().len() ==> 0 <= units(#[trigger] s.drop_last()[i].amount));
        lemma_schedule_units_nonneg(s.drop_last());
    }
}

/// The released amounts of a nonnegative schedule sum to a nonnegative value.
pub proof fn lemma_released_nonneg(s: Seq<UnlockEvent>, now: i64)
    requires
        forall|i: int| 0 <= i < s.len() ==> 0 <= units(#[trigger] s[i].amount),
    ensures
        0 <= released_units(s, now),
    decreases s.len(),
{
    if s.len() != 0 {
        assert(forall|i: int|
            0 <= i < s.drop_last().len() ==> 0 <= units(#[trigger] s.drop_last()[i].amount));
        lemma_released_nonneg(s.drop_last(), now);
    }
}

/// A nonnegative total supply and percentage give a nonnegative desired
/// airdrop amount.
pub proof fn lemma_airdrop_desired_nonneg(total: Dec, percentage: Dec)
    requires
        0 <= units(total),
        0 <= units(percentage),
    ensures
        0 <= airdrop_desired_units(total, percentage),
{
    let n = units(total) * units(percentage) * pow10(0);
    let d = (100 * pow10(MAX_SCALE as nat)) * pow10(MAX_SCALE as nat);
    crate::decimal::lemma_pow10_pos(0);
    crate::decimal::lemma_pow10_pos(MAX_SCALE as nat);
    crate::decimal::lemma_pow10_vals();
    assert(0 <= n) by (nonlinear_arith)
        requires
            0 <= units(total),
            0 <= units(percentage),
            pow10(0) == 1,
            n == units(total) * units(percentage) * pow10(0),
    ;
    assert(1 <= d) by (nonlinear_arith)
        requires
            pow10(MAX_SCALE as nat) >= 1,
            d == (100 * pow10(MAX_SCALE as nat)) * pow10(MAX_SCALE as nat),
    ;
    lemma_rhe_le_n(n, d);
    assert(rhe_frac(n, d) == rhe(n, d));
    assert(0 <= rhe_frac(n, d) * pow10(MAX_SCALE as nat)) by (nonlinear_arith)
        requires
            0 <= rhe_frac(n, d),
            pow10(MAX_SCALE as nat) >= 1,
    ;
}

/// On a plain configuration the desired airdrop amount is representable:
/// the magnitude product stays in range and the rounded quotient stays below
/// the total supply's magnitude.
proof fn lemma_airdrop_plain_desired_fits(total: Dec, percentage: Dec)
    requires
        total.scale == 0,
        dec_wf(total),
        percentage.scale == 0,
        percentage.mag <= 100,
    ensures
        mdr_fits(total, percentage, (Dec { neg: false, mag: 100, scale: 0 }), 0),
{
    crate::decimal::lemma_pow10_vals();
    let nm = (total.mag as int) * (percentage.mag as int);
    if nm != 0 {
        assert(0 <= nm <= (total.mag as int) * 100) by (nonlinear_arith)
            requires
                0 <= percentage.mag <= 100,
                nm == (total.mag as int) * (percentage.mag as int),
        ;
        assert(nm * pow10(0) == nm) by (nonlinear_arith)
            requires
                pow10(0) == 1,
        ;
        crate::decimal::lemma_rhe_error(nm, 100);
        let q = rhe(nm, 100);
        crate::decimal::lemma_rhe_le_n(nm, 100);
        // 200 q <= 2 nm + 100 <= 200 total.mag + 100, so q <= total.mag.
        assert(2 * q * 100 - 2 * nm <= 100);
        assert(q <= total.mag as int);
        assert(q < crate::decimal::MAG_LIMIT as int);
    }
}

/// On a plain configuration the distributed amount fits back into the
/// current supply: the amount never exceeds the outstanding supply, so the
/// sum stays below the total supply's magnitude.
proof fn lemma_airdrop_plain_amount_fits(t: Token, percentage: Dec, desired: Dec, remaining: Dec, amount: Dec)
    requires
        airdrop_plain(t, percentage),
        dec_wf(desired),
        desired.scale == 0,
        desired.neg ==> ((t.total_supply.neg != percentage.neg) != false),
        units(desired) == airdrop_desired_units(t.total_supply, percentage),
        dec_wf(remaining),
        remaining.scale == 0,
        units(remaining) == units(t.total_supply) - units(t.current_supply),
        dec_wf(amount),
        amount == desired || amount == remaining,
        units(amount) == if units(desired) <= units(remaining) {
            units(desired)
        } else {
            units(remaining)
        },
    ensures
        crate::decimal::add_fits(t.current_supply, amount),
{
    crate::decimal::lemma_pow10_vals();
    let p28 = pow10(MAX_SCALE as nat);
    crate::decimal::lemma_pow10_pos(MAX_SCALE as nat);
    crate::decimal::lemma_units_facts(t.total_supply);
    crate::decimal::lemma_units_facts(t.current_supply);
    crate::decimal::lemma_units_facts(remaining);
    crate::decimal::lemma_units_facts(desired);
    crate::decimal::lemma_units_facts(amount);
    lemma_airdrop_desired_nonneg(t.total_supply, percentage);
    assert(0 <= units(t.total_supply) && 0 <= units(t.current_supply)) by (nonlinear_arith)
        requires
            !t.total_supply.neg,
            !t.current_supply.neg,
            units(t.total_supply) == (t.total_supply.mag as int) * pow10(28),
            units(t.current_supply) == (t.current_supply.mag as int) * pow10(28),
            0 <= t.total_supply.mag,
            0 <= t.current_supply.mag,
            pow10(28) >= 1,
    ;
    assert(units(t.current_supply) <= units(t.total_supply)) by (nonlinear_arith)
        requires
            t.current_supply.mag <= t.total_supply.mag,
            units(t.total_supply) == (t.total_supply.mag as int) * pow10(28),
            units(t.current_supply) == (t.current_supply.mag as int) * pow10(28),
            pow10(28) >= 1,
    ;
    assert(0 <= units(remaining));
    // The chosen amount is nonnegative and at most the outstanding supply.
    assert(0 <= units(amount) && units(amount) <= units(remaining));
    // It contributes its value at the common scale of zero digits.
    let rb = (amount.mag as int) * pow10((0 - amount.scale) as nat);
    assert(amount.scale == 0);
    assert(rb == amount.mag as int) by (nonlinear_arith)
        requires
            rb == (amount.mag as int) * pow10(0),
            pow10(0) == 1,
    ;
    let eb = if amount.neg {
        -rb
    } else {
        rb
    };
    assert(eb * p28 == units(amount)) by (nonlinear_arith)
        requires
            units(amount) == if amount.neg {
                -((amount.mag as int) * p28)
            } else {
                (amount.mag as int) * p28
            },
            eb == if amount.neg {
                -(amount.mag as int)
            } else {
                amount.mag as int
            },
    ;
    let ea = (t.current_supply.mag as int) * pow10(0);
    assert(ea == t.current_supply.mag as int) by (nonlinear_arith)
        requires
            ea == (t.current_supply.mag as int) * pow10(0),
            pow10(0) == 1,
    ;
    // The sum of contributions stays within the total supply's magnitude.
    assert(ea + eb <= t.total_supply.mag as int) by (nonlinear_arith)
        requires
            eb * p28 == units(amount),
            units(amount) <= units(remaining),
            units(remaining) == units(t.total_supply) - units(t.current_supply),
            units(t.total_supply) == (t.total_supply.mag as int) * p28,
            units(t.current_supply) == (t.current_supply.mag as int) * p28,
            ea == t.current_supply.mag as int,
            p28 >= 1,
    ;
    assert(0 <= eb) by (nonlinear_arith)
        requires
            eb * p28 == units(amount),
            0 <= units(amount),
            p28 >= 1,
    ;
}

/// One plain release step fits: the accumulated supply plus the due amount
/// stays below the magnitude limit, so the exact addition succeeds.
proof fn lemma_plain_release_fits(
    t: Token,
    s: Seq<UnlockEvent>,
    i: int,
    now: i64,
    acc: Dec,
    amount: Dec,
)
    requires
        unlocks_plain(t, now),
        sched_seq(t) == s,
        0 <= i < s.len(),
        amount == s[i].amount,
        s[i].date <= now,
        dec_wf(acc),
        acc.scale == 0,
        0 <= units(acc),
        units(acc) == units(t.current_supply) + released_units(s.take(i), now),
    ensures
        crate::decimal::add_fits(acc, amount),
{
    crate::decimal::lemma_pow10_vals();
    let p28 = pow10(MAX_SCALE as nat);
    crate::decimal::lemma_pow10_pos(MAX_SCALE as nat);
    crate::decimal::lemma_units_facts(acc);
    crate::decimal::lemma_units_facts(amount);
    assert(forall|j: int| 0 <= j < s.len() ==> 0 <= units(#[trigger] s[j].amount));
    lemma_released_prefix_le(s, i + 1, now);
    assert(s.take(i + 1).drop_last() == s.take(i));
    assert(s.take(i + 1).last() == s[i]);
    // The sum after this step is still bounded by the whole due release.
    assert(units(acc) + units(amount) <= units(t.current_supply) + released_units(s, now));
    let ra = (acc.mag as int) * pow10((0 - acc.scale) as nat);
    let rb = (amount.mag as int) * pow10((0 - amount.scale) as nat);
    assert(ra == acc.mag as int && rb == amount.mag as int) by (nonlinear_arith)
        requires
            ra == (acc.mag as int) * pow10(0),
            rb == (amount.mag as int) * pow10(0),
            pow10(0) == 1,
    ;
    let ea = if acc.neg {
        -ra
    } else {
        ra
    };
    let eb = if amount.neg {
        -rb
    } else {
        rb
    };
    assert(ea * p28 == units(acc) && eb * p28 == units(amount)) by (nonlinear_arith)
        requires
            units(acc) == if acc.neg {
                -((acc.mag as int) * p28)
            } else {
                (acc.mag as int) * p28
            },
            units(amount) == if amount.neg {
                -((amount.mag as int) * p28)
            } else {
                (amount.mag as int) * p28
            },
            ea == if acc.neg {
                -(acc.mag as int)
            } else {
                acc.mag as int
            },
            eb == if amount.neg {
                -(amount.mag as int)
            } else {
                amount.mag as int
            },
    ;
    assert(0 <= ea + eb && ea + eb < crate::decimal::MAG_LIMIT as int) by (nonlinear_arith)
        requires
            ea * p28 == units(acc),
            eb * p28 == units(amount),
            0 <= units(acc),
            0 <= units(amount),
            units(acc) + units(amount) < (crate::decimal::MAG_LIMIT as int) * p28,
            p28 >= 1,
    ;
}

impl Token {
    /// Performs an airdrop of `percentage` percent of the total supply. The
    /// desired amount is capped at the supply still outstanding; the amount
    /// actually distributed is added to the current supply and returned.
    ///
    /// The airdrop never pushes the current supply above the total supply,
    /// and an error leaves the token unchanged.
    pub fn airdrop(&mut self, percentage: Dec) -> (r: Result<Dec, SimulationError>)
        requires
            dec_wf(percentage),
            dec_wf(old(self).total_supply),
            dec_wf(old(self).current_supply),
        ensures
            r matches Ok(amount) ==> {
                &&& dec_wf(amount)
                &&& units(amount) == if airdrop_desired_units(
                    old(self).total_supply,
                    percentage,
                ) <= units(old(self).total_supply) - units(old(self).current_supply) {
                    airdrop_desired_units(old(self).total_supply, percentage)
                } else {
                    units(old(self).total_supply) - units(old(self).current_supply)
                }
                &&& dec_wf(final(self).current_supply)
                &&& units(final(self).current_supply) == units(old(self).current_supply) + units(
                    amount,
                )
                &&& units(old(self).current_supply) <= units(old(self).total_supply) ==> units(
                    final(self).current_supply,
                ) <= units(old(self).total_supply)
                &&& (0 <= units(old(self).current_supply) && 0 <= units(percentage) && units(
                    old(self).current_supply,
                ) <= units(old(self).total_supply)) ==> 0 <= units(final(self).current_supply)
                &&& *final(self) == (Token { current_supply: final(self).current_supply, ..*old(self) })
            },
            r is Err ==> *final(self) == *old(self) && r == Err::<Dec, SimulationError>(
                SimulationError::InvalidDecimal,
            ),
            airdrop_plain(*old(self), percentage) ==> r is Ok,
    {
        let ghost plain = airdrop_plain(*old(self), percentage);
        let hundred = Dec::hundred();
        let desired = match self.total_supply.mul_div_round(&percentage, &hundred, 0) {
            Some(v) => v,
            None => {
                proof {
                    if plain {
                        lemma_airdrop_plain_desired_fits(self.total_supply, percentage);
                    }
                }
                return Err(SimulationError::InvalidDecimal);
            },
        };
        let remaining = match self.total_supply.checked_sub(&self.current_supply) {
            Some(v) => v,
            None => {
                proof {
                    if plain {
                        crate::decimal::lemma_pow10_vals();
                        let t = self.total_supply;
                        let c = self.current_supply;
                        assert((t.mag as int) * pow10(0) == t.mag as int && (c.mag as int) * pow10(
                            0,
                        ) == c.mag as int) by (nonlinear_arith)
                            requires
                                pow10(0) == 1,
                        ;
                        assert(crate::decimal::add_fits(
                            t,
                            (Dec { neg: !c.neg, mag: c.mag, scale: c.scale }),
                        ));
                    }
                }
                return Err(SimulationError::InvalidDecimal);
            },
        };
        let amount = desired.min_dec(&remaining);
        let updated = match self.current_supply.checked_add(&amount) {
            Some(v) => v,
            None => {
                proof {
                    if plain {
                        lemma_airdrop_plain_amount_fits(
                            *old(self),
                            percentage,
                            desired,
                            remaining,
                            amount,
                        );
                    }
                }
                return Err(SimulationError::InvalidDecimal);
            },
        };
        proof {
            if 0 <= units(old(self).current_supply) && 0 <= units(percentage) && units(
                old(self).current_supply,
            ) <= units(old(self).total_supply) {
                lemma_airdrop_desired_nonneg(old(self).total_supply, percentage);
            }
        }
        self.current_supply = updated;
        Ok(amount)
    }

    /// Appends an unlock event to the schedule; order is insertion order.
    pub fn add_unlock_event(&mut self, date: i64, amount: Dec)
        ensures
            final(self).unlock_schedule matches Some(v) && v@ == match old(self).unlock_schedule {
                Some(w) => w@.push(UnlockEvent { date, amount }),
                None => seq![UnlockEvent { date, amount }],
            },
            *final(self) == (Token { unlock_schedule: final(self).unlock_schedule, ..*old(self) }),
    {
        let event = UnlockEvent { date, amount };
        match &mut self.unlock_schedule {
            Some(schedule) => {
                schedule.push(event);
            },
            None => {
                let mut v: Vec<UnlockEvent> = Vec::new();
                v.push(event);
                self.unlock_schedule = Some(v);
            },
        }
    }

    /// Releases every scheduled event dated at or before `current_date`,
    /// adding its amount to the current supply and removing it from the
    /// schedule. Re-invoking with the same or an earlier date releases
    /// nothing further. An error leaves the token unchanged.
    pub fn process_unlocks(&mut self, current_date: i64) -> (r: Result<(), SimulationError>)
        requires
            dec_wf(old(self).current_supply),
            old(self).unlock_schedule matches Some(v) ==> forall|i: int|
                0 <= i < v@.len() ==> dec_wf(#[trigger] v@[i].amount),
        ensures
            r is Ok ==> {
                &&& match old(self).unlock_schedule {
                    Some(v) => {
                        &&& final(self).unlock_schedule matches Some(k) && k@ == kept_events(
                            v@,
                            current_date,
                        )
                        &&& units(final(self).current_supply) == units(old(self).current_supply)
                            + released_units(v@, current_date)
                    },
                    None => *final(self) == *old(self),
                }
                &&& dec_wf(final(self).current_supply)
                &&& *final(self) == (Token {
                    current_supply: final(self).current_supply,
                    unlock_schedule: final(self).unlock_schedule,
                    ..*old(self)
                })
            },
            r is Err ==> *final(self) == *old(self) && r == Err::<(), SimulationError>(
                SimulationError::InvalidDecimal,
            ),
            no_due_events(*old(self), current_date) ==> r is Ok,
            unlocks_plain(*old(self), current_date) ==> r is Ok,
            token_wf(*old(self)) && r is Ok ==> token_wf(*final(self)),
    {
        let taken = self.unlock_schedule.take();
        let schedule = match taken {
            Some(v) => v,
            None => {
                return Ok(());
            },
        };
        let ghost s = schedule@;
        let mut acc = self.current_supply;
        let mut kept: Vec<UnlockEvent> = Vec::new();
        let mut i: usize = 0;
        proof {
            crate::decimal::lemma_units_facts(acc);
            assert(sched_seq(*old(self)) == s);
            if unlocks_plain(*old(self), current_date) {
                assert(forall|j: int|
                    0 <= j < s.len() ==> dec_wf((#[trigger] s[j]).amount) && s[j].amount.scale == 0
                        && !s[j].amount.neg) by {
                    assert(forall|j: int|
                        0 <= j < s.len() ==> dec_wf(
                            (#[trigger] sched_seq(*old(self))[j]).amount,
                        ) && sched_seq(*old(self))[j].amount.scale == 0 && !sched_seq(
                            *old(self),
                        )[j].amount.neg);
                }
            }
            if unlocks_plain(*old(self), current_date) {
                assert(forall|j: int|
                    0 <= j < s.len() ==> 0 <= units((#[trigger] s[j]).amount)) by {
                    assert forall|j: int| 0 <= j < s.len() implies 0 <= units(
                        (#[trigger] s[j]).amount,
                    ) by {
                        crate::decimal::lemma_units_facts(s[j].amount);
                    }
                }
            }
        }
        while i < schedule.len()
            invariant
                i <= schedule.len(),
                s == schedule@,
                forall|j: int| 0 <= j < s.len() ==> dec_wf(#[trigger] s[j].amount),
                dec_wf(acc),
                kept@ == kept_events(s.take(i as int), current_date),
                units(acc) == units(old(self).current_supply) + released_units(
                    s.take(i as int),
                    current_date,
                ),
                (forall|j: int| 0 <= j < s.len() ==> #[trigger] s[j].date > current_date) ==> acc
                    == old(self).current_supply,
                *self == (Token { unlock_schedule: None, ..*old(self) }),
                old(self).unlock_schedule == Some(schedule),
                dec_wf(old(self).current_supply),
                sched_seq(*old(self)) == s,
                unlocks_plain(*old(self), current_date) ==> {
                    &&& acc.scale == 0
                    &&& 0 <= units(acc)
                    &&& forall|j: int|
                        0 <= j < s.len() ==> (#[trigger] s[j]).amount.scale == 0
                            && !s[j].amount.neg && 0 <= units(s[j].amount)
                    &&& units(old(self).current_supply) + released_units(s, current_date) < (
                    crate::decimal::MAG_LIMIT as int) * pow10(MAX_SCALE as nat)
                },
            decreases schedule.len() - i,
        {
            let ev = schedule[i];
            proof {
                assert(s.take(i + 1).drop_last() == s.take(i as int));
                assert(s.take(i + 1).last() == s[i as int]);
            }
            if ev.date <= current_date {
                proof {
                    if unlocks_plain(*old(self), current_date) {
                        lemma_plain_release_fits(
                            *old(self),
                            s,
                            i as int,
                            current_date,
                            acc,
                            ev.amount,
                        );
                    }
                }
                acc = match acc.checked_add(&ev.amount) {
                    Some(v) => v,
                    None => {
                        proof {
                            assert(old(self).unlock_schedule == Some(schedule));
                            assert(sched_seq(*old(self)) == schedule@);
                            assert(sched_seq(*old(self))[i as int].date <= current_date);
                            assert(!no_due_events(*old(self), current_date));
                        }
                        self.unlock_schedule = Some(schedule);
                        return Err(SimulationError::InvalidDecimal);
                    },
                };
                proof {
                    if unlocks_plain(*old(self), current_date) {
                        crate::decimal::lemma_units_facts(ev.amount);
                    }
                }
            } else {
                kept.push(ev);
            }
            i = i + 1;
        }
        proof {
            assert(s.take(s.len() as int) == s);
            lemma_schedule_split(s, current_date);
            if token_wf(*old(self)) {
                lemma_kept_events_props(s, current_date);
                lemma_released_nonneg(s, current_date);
            }
        }
        self.current_supply = acc;
        self.unlock_schedule = Some(kept);
        Ok(())
    }

    /// The initial supply: `total_supply * initial_supply_percentage / 100`,
    /// rounded to a whole number of tokens. Fails exactly when that product
    /// is not representable.
    pub fn initial_supply(&self) -> (r: Result<Dec, SimulationError>)
        requires
            dec_wf(self.total_supply),
            dec_wf(self.initial_supply_percentage),
        ensures
            r matches Ok(v) ==> dec_wf(v) && v.scale == 0 && units(v) == mdr_units(
                units(self.total_supply),
                units(self.initial_supply_percentage),
                100 * pow10(MAX_SCALE as nat),
                0,
            ),
            r is Ok <==> mdr_fits(
                self.total_supply,
                self.initial_supply_percentage,
                (Dec { neg: false, mag: 100, scale: 0 }),
                0,
            ),
            r is Err ==> r == Err::<Dec, SimulationError>(SimulationError::InvalidDecimal),
    {
        let hundred = Dec::hundred();
        match self.total_supply.mul_div_round(&self.initial_supply_percentage, &hundred, 0) {
            Some(v) => Ok(v),
            None => Err(SimulationError::InvalidDecimal),
        }
    }
}

} // verus!
