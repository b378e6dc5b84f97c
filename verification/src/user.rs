//! Synthetic user populations with random balances.

use vstd::prelude::*;

use crate::decimal::{
    dec_wf, lemma_pow10_pos, lemma_pow10_vals, lemma_rhe_error, lemma_rhe_s_exact, mdr_units,
    pow10, rhe, rhe_frac, rhe_s, units, Dec, MAX_SCALE,
};
use crate::trusted::{fresh_uuid, random_below};
use crate::SimulationError;
use vstd::arithmetic::power::lemma_pow_adds;
use vstd::arithmetic::div_mod::{
    lemma_add_mod_noop, lemma_mod_multiples_basic, lemma_small_mod, lemma_sub_mod_noop,
};

verus! {

/// Market behaviour of a user.
#[derive(Clone, Copy, Debug)]
pub enum UserBehaviour {
    /// Users who buy and sell tokens frequently to make a profit.
    Speculator,
    /// Users who buy tokens and hold them for a long time.
    Holder,
    /// Users who trade tokens frequently but do not hold them for long.
    Trader,
}

/// A user holding a token balance.
#[derive(Debug)]
pub struct User {
    /// ID for the user.
    pub id: uuid::Uuid,
    /// Balance of the user.
    pub balance: Dec,
    /// Market behaviour of the user.
    pub behaviour: UserBehaviour,
}

/// The summed units of the first `k` balances.
pub open spec fn sum_balance_units_to(s: Seq<User>, k: int) -> int
    decreases k,
{
    if k <= 0 {
        0
    } else {
        sum_balance_units_to(s, k - 1) + units(s[k - 1].balance)
    }
}

/// The summed units of all balances.
pub open spec fn sum_balance_units(s: Seq<User>) -> int {
    sum_balance_units_to(s, s.len() as int)
}

/// A prefix sum only depends on the prefix.
pub proof fn lemma_sum_to_congruent(s1: Seq<User>, s2: Seq<User>, k: int)
    requires
        0 <= k <= s1.len(),
        k <= s2.len(),
        forall|j: int| 0 <= j < k ==> s1[j].balance == s2[j].balance,
    ensures
        sum_balance_units_to(s1, k) == sum_balance_units_to(s2, k),
    decreases k,
{
    if k > 0 {
        lemma_sum_to_congruent(s1, s2, k - 1);
    }
}

/// A value carrying at most `p` fractional digits is a whole multiple of the
/// grid step `10^(28-p)`.
proof fn lemma_scale_multiple(d: Dec, p: u32)
    requires
        d.scale <= p <= MAX_SCALE,
    ensures
        units(d) % pow10((MAX_SCALE - p) as nat) == 0,
{
    let g = pow10((MAX_SCALE - p) as nat);
    lemma_pow10_pos((MAX_SCALE - p) as nat);
    crate::decimal::lemma_units_facts(d);
    lemma_pow_adds(10, (p - d.scale) as nat, (MAX_SCALE - p) as nat);
    let m = if d.neg {
        -((d.mag as int) * pow10((p - d.scale) as nat))
    } else {
        (d.mag as int) * pow10((p - d.scale) as nat)
    };
    assert(units(d) == m * g) by (nonlinear_arith)
        requires
            units(d) == if d.neg {
                -((d.mag as int) * pow10((MAX_SCALE - d.scale) as nat))
            } else {
                (d.mag as int) * pow10((MAX_SCALE - d.scale) as nat)
            },
            m == if d.neg {
                -((d.mag as int) * pow10((p - d.scale) as nat))
            } else {
                (d.mag as int) * pow10((p - d.scale) as nat)
            },
            pow10((p - d.scale) as nat) * g == pow10((MAX_SCALE - d.scale) as nat),
            g == pow10((MAX_SCALE - p) as nat),
    ;
    lemma_mod_multiples_basic(m, g);
}

/// The sum and difference of two whole multiples of `m` are whole multiples
/// of `m`.
proof fn lemma_multiple_add_sub(a: int, b: int, m: int)
    requires
        1 <= m,
        a % m == 0,
        b % m == 0,
    ensures
        (a + b) % m == 0,
        (a - b) % m == 0,
{
    lemma_add_mod_noop(a, b, m);
    lemma_sub_mod_noop(a, b, m);
    lemma_small_mod(0, m as nat);
}

impl User {
    /// Creates a new user with the given ID and balance.
    pub fn new(id: uuid::Uuid, balance: Dec) -> (r: User)
        ensures
            r.id == id,
            r.balance == balance,
            r.behaviour is Trader,
    {
        User { id, balance, behaviour: UserBehaviour::Trader }
    }

    /// Generates `total_users` users with random balances: each raw balance
    /// is drawn uniformly below `supply / total_users`, the balances are
    /// normalized so that they sum to the supply, scaled by the price, and
    /// any remaining difference is distributed in smallest-unit steps.
    ///
    /// With a price of one the returned balances sum exactly to the supply.
    /// An unrepresentable intermediate value, or a drawn population whose raw
    /// balances are all zero, gives an error.
    pub fn generate(total_users: u64, supply: Dec, price: Dec, decimals: u32) -> (r: Result<
        Vec<User>,
        SimulationError,
    >)
        requires
            total_users >= 1,
            dec_wf(supply),
            dec_wf(price),
            decimals <= MAX_SCALE,
            0 <= units(supply),
        ensures
            r matches Ok(users) ==> users@.len() == total_users && (forall|i: int|
                0 <= i < users@.len() ==> dec_wf((#[trigger] users@[i]).balance) && (
                #[trigger] users@[i]).behaviour is Trader) && (units(price) == pow10(
                MAX_SCALE as nat,
            ) ==> sum_balance_units(users@) == units(supply)),
            !crate::decimal::mdr_fits(
                supply,
                (Dec { neg: false, mag: 1, scale: 0 }),
                (Dec { neg: false, mag: total_users as u128, scale: 0 }),
                decimals,
            ) ==> r is Err,
            r matches Ok(users) ==> ((units(supply) % pow10((MAX_SCALE - decimals) as nat) == 0
                && units(price) == pow10(MAX_SCALE as nat)) ==> forall|i: int|
                0 <= i < users@.len() ==> units((#[trigger] users@[i]).balance) % pow10(
                    (MAX_SCALE - decimals) as nat,
                ) == 0),
    {
        let n = total_users;
        let n_dec = Dec::from_u64(n);
        let p = decimals;
        let ghost g = pow10((MAX_SCALE - p) as nat);
        let ghost u_s = units(supply);
        let ghost gridp = units(supply) % pow10((MAX_SCALE - decimals) as nat) == 0 && units(price)
            == pow10(MAX_SCALE as nat);
        proof {
            lemma_pow10_pos((MAX_SCALE - p) as nat);
            lemma_pow10_vals();
        }
        let upper = match supply.div_round(&n_dec, p) {
            Some(v) => v,
            None => {
                return Err(SimulationError::InvalidDecimal);
            },
        };
        // Draw the raw balances and accumulate their total.
        let mut users: Vec<User> = Vec::new();
        let mut total = Dec { neg: false, mag: 0, scale: p };
        let mut i: u64 = 0;
        proof {
            crate::decimal::lemma_units_facts(total);
        }
        while i < n
            invariant
                i <= n,
                users@.len() == i,
                dec_wf(total),
                total.scale == p,
                p <= MAX_SCALE,
                dec_wf(upper),
                0 <= units(total),
                units(total) == sum_balance_units_to(users@, i as int),
                forall|j: int|
                    0 <= j < i ==> dec_wf((#[trigger] users@[j]).balance) && users@[j].balance.scale
                        == p && !users@[j].balance.neg && users@[j].behaviour is Trader,
            decreases n - i,
        {
            let mag = if upper.mag >= 1 {
                random_below(upper.mag)
            } else {
                0
            };
            let balance = Dec { neg: false, mag, scale: p };
            let ghost users_before = users@;
            let ghost total_before = total;
            proof {
                crate::decimal::lemma_units_facts(balance);
            }
            total = match total.checked_add(&balance) {
                Some(v) => v,
                None => {
                    return Err(SimulationError::InvalidDecimal);
                },
            };
            users.push(User { id: fresh_uuid(), balance, behaviour: UserBehaviour::Trader });
            proof {
                lemma_sum_to_congruent(users@, users_before, i as int);
                assert(sum_balance_units_to(users@, i + 1) == sum_balance_units_to(
                    users_before,
                    i as int,
                ) + units(balance));
            }
            i = i + 1;
        }
        if total.mag == 0 {
            // Every raw draw was zero; the normalization factor is undefined.
            return Err(SimulationError::InvalidDecimal);
        }
        let count: usize = users.len();
        let ghost u_t = units(total);
        let ghost raw = users@;
        let ghost p28 = pow10(MAX_SCALE as nat);
        let ghost cap_d = u_t * p28;
        let ghost us_p = u_s * p28;
        proof {
            crate::decimal::lemma_units_facts(total);
            assert(u_t > 0);
            assert(sum_balance_units_to(users@, 0) == 0);
            assert(2 * ((0int) * cap_d) == 0 && 2 * ((0int) * us_p) == 0 && (0int) * (cap_d * g)
                == 0) by (nonlinear_arith);
        }
        // Normalize: each balance becomes `raw * supply / total`, rounded.
        let mut j: usize = 0;
        while j < count
            invariant
                j <= count,
                users@.len() == count,
                raw.len() == count,
                count == total_users,
                p <= MAX_SCALE,
                g == pow10((MAX_SCALE - p) as nat),
                p28 == pow10(MAX_SCALE as nat),
                u_s == units(supply),
                u_t == units(total),
                u_t >= 1,
                0 <= u_s,
                cap_d == u_t * p28,
                us_p == u_s * p28,
                dec_wf(supply),
                dec_wf(total),
                total.mag >= 1,
                forall|k: int|
                    0 <= k < raw.len() ==> dec_wf((#[trigger] raw[k]).balance)
                        && !raw[k].balance.neg && raw[k].balance.scale == p,
                forall|k: int| j <= k < count ==> users@[k] == raw[k],
                forall|k: int|
                    0 <= k < j ==> dec_wf((#[trigger] users@[k]).balance) && users@[k].balance.scale
                        == p,
                forall|k: int| 0 <= k < raw.len() ==> (#[trigger] raw[k]).behaviour is Trader,
                forall|k: int| 0 <= k < j ==> (#[trigger] users@[k]).behaviour is Trader,
                -((j as int) * (cap_d * g)) <= 2 * (sum_balance_units_to(users@, j as int) * cap_d)
                    - 2 * (sum_balance_units_to(raw, j as int) * us_p),
                2 * (sum_balance_units_to(users@, j as int) * cap_d) - 2 * (sum_balance_units_to(
                    raw,
                    j as int,
                ) * us_p) <= (j as int) * (cap_d * g),
            decreases count - j,
        {
            let old_balance = users[j].balance;
            let uid = users[j].id;
            let beh = users[j].behaviour;
            let ghost users_before = users@;
            let ghost sn = sum_balance_units_to(users_before, j as int);
            let ghost sr = sum_balance_units_to(raw, j as int);
            let newb = match old_balance.mul_div_round(&supply, &total, p) {
                Some(v) => v,
                None => {
                    return Err(SimulationError::InvalidDecimal);
                },
            };
            users[j] = User { id: uid, balance: newb, behaviour: beh };
            proof {
                let u_raw = units(old_balance);
                assert(old_balance == raw[j as int].balance);
                crate::decimal::lemma_units_facts(old_balance);
                lemma_norm_step(u_raw, u_s, u_t, p);
                assert(units(newb) == mdr_units(u_raw, u_s, u_t, p));
                lemma_sum_to_congruent(users@, users_before, j as int);
                assert(sum_balance_units_to(users@, j as int + 1) == sn + units(newb));
                assert(sum_balance_units_to(raw, j as int + 1) == sr + u_raw);
                // Fold the per-user rounding error into the running bound.
                assert((sn + units(newb)) * cap_d == sn * cap_d + units(newb) * cap_d)
                    by (nonlinear_arith);
                assert((sr + u_raw) * us_p == sr * us_p + u_raw * us_p) by (nonlinear_arith);
                assert((j as int + 1) * (cap_d * g) == (j as int) * (cap_d * g) + cap_d * g)
                    by (nonlinear_arith);
                assert(cap_d * g == (u_t * p28) * g);
            }
            j = j + 1;
        }
        let ghost normed = users@;
        let ghost norm_sum = sum_balance_units_to(normed, count as int);
        // Scale by the price.
        let mut k: usize = 0;
        while k < count
            invariant
                k <= count,
                users@.len() == count,
                normed.len() == count,
                p <= MAX_SCALE,
                p28 == pow10(MAX_SCALE as nat),
                dec_wf(price),
                forall|m: int| k <= m < count ==> users@[m] == normed[m],
                forall|m: int|
                    0 <= m < count ==> dec_wf((#[trigger] normed[m]).balance)
                        && normed[m].balance.scale == p,
                forall|m: int| 0 <= m < k ==> dec_wf((#[trigger] users@[m]).balance),
                forall|m: int| 0 <= m < count ==> (#[trigger] normed[m]).behaviour is Trader,
                forall|m: int| 0 <= m < k ==> (#[trigger] users@[m]).behaviour is Trader,
                units(price) == p28 ==> forall|m: int|
                    0 <= m < k ==> units((#[trigger] users@[m]).balance) == units(
                        normed[m].balance,
                    ),
                units(price) == p28 ==> sum_balance_units_to(users@, k as int)
                    == sum_balance_units_to(normed, k as int),
            decreases count - k,
        {
            let old_balance = users[k].balance;
            let uid = users[k].id;
            let beh = users[k].behaviour;
            let ghost users_before = users@;
            proof {
                assert(users@[k as int] == normed[k as int]);
                assert(dec_wf(normed[k as int].balance));
            }
            let newb = match old_balance.checked_mul(&price) {
                Some(v) => v,
                None => {
                    return Err(SimulationError::InvalidDecimal);
                },
            };
            users[k] = User { id: uid, balance: newb, behaviour: beh };
            proof {
                lemma_sum_to_congruent(users@, users_before, k as int);
                if units(price) == p28 {
                    lemma_mul_one_units(old_balance, price, newb);
                    assert(units(newb) == units(old_balance));
                }
                assert(sum_balance_units_to(users@, k as int + 1) == sum_balance_units_to(
                    users_before,
                    k as int,
                ) + units(newb));
            }
            k = k + 1;
        }
        // Distribute any remaining difference in smallest-unit steps.
        let mut acc = Dec { neg: false, mag: 0, scale: p };
        let mut m: usize = 0;
        proof {
            crate::decimal::lemma_units_facts(acc);
            lemma_pow10_pos((MAX_SCALE - p) as nat);
            lemma_small_mod(0, g as nat);
            if gridp {
                // With a price of one every balance kept the value of its
                // normalized form, a whole multiple of the grid step.
                assert forall|q: int| 0 <= q < count implies units(
                    (#[trigger] users@[q]).balance,
                ) % g == 0 by {
                    lemma_scale_multiple(normed[q].balance, p);
                }
            }
        }
        while m < count
            invariant
                m <= count,
                users@.len() == count,
                p <= MAX_SCALE,
                g == pow10((MAX_SCALE - p) as nat),
                g >= 1,
                dec_wf(acc),
                units(acc) == sum_balance_units_to(users@, m as int),
                forall|q: int| 0 <= q < count ==> dec_wf((#[trigger] users@[q]).balance),
                forall|q: int| 0 <= q < count ==> (#[trigger] users@[q]).behaviour is Trader,
                gridp ==> units(acc) % g == 0 && (forall|q: int|
                    0 <= q < count ==> units((#[trigger] users@[q]).balance) % g == 0),
            decreases count - m,
        {
            let b = users[m].balance;
            proof {
                if gridp {
                    lemma_multiple_add_sub(units(acc), units(b), g);
                }
            }
            acc = match acc.checked_add(&b) {
                Some(v) => v,
                None => {
                    return Err(SimulationError::InvalidDecimal);
                },
            };
            m = m + 1;
        }
        let leftover = match supply.checked_sub(&acc) {
            Some(v) => v,
            None => {
                return Err(SimulationError::InvalidDecimal);
            },
        };
        let ghost big_l = units(leftover);
        let ghost sum0 = sum_balance_units_to(users@, count as int);
        proof {
            assert(big_l == u_s - sum0);
            if gridp {
                lemma_multiple_add_sub(u_s, sum0, g);
            }
            if units(price) == p28 {
                // The normalization error bound carries over to the scaled
                // balances, leaving `|2 L| <= n g`.
                assert(sum0 == norm_sum);
                assert(sum_balance_units_to(raw, count as int) == u_t);
                assert(u_t * us_p == u_s * cap_d) by (nonlinear_arith)
                    requires
                        cap_d == u_t * p28,
                        us_p == u_s * p28,
                ;
                lemma_cancel_bound(sum0, u_s, cap_d, count as int, g);
            }
        }
        let unit = Dec { neg: false, mag: 1, scale: p };
        let mut remaining = leftover;
        let mut w: usize = 0;
        proof {
            crate::decimal::lemma_units_facts(unit);
            assert((1int) * pow10((MAX_SCALE - p) as nat) == pow10((MAX_SCALE - p) as nat))
                by (nonlinear_arith);
            assert(units(unit) == g);
        }
        while w < count
            invariant
                w <= count,
                users@.len() == count,
                p <= MAX_SCALE,
                g == pow10((MAX_SCALE - p) as nat),
                g >= 1,
                unit == (Dec { neg: false, mag: 1, scale: p }),
                units(unit) == g,
                dec_wf(unit),
                dec_wf(remaining),
                forall|q: int| 0 <= q < count ==> dec_wf((#[trigger] users@[q]).balance),
                forall|q: int| 0 <= q < count ==> (#[trigger] users@[q]).behaviour is Trader,
                gridp ==> units(remaining) % g == 0 && (forall|q: int|
                    0 <= q < count ==> units((#[trigger] users@[q]).balance) % g == 0),
                gridp == (units(supply) % pow10((MAX_SCALE - decimals) as nat) == 0 && units(price)
                    == pow10(MAX_SCALE as nat)),
                units(remaining) + sum_balance_units_to(users@, count as int) == big_l + sum0,
                big_l >= 0 ==> 0 <= units(remaining) && units(remaining) <= (
                if big_l - (w as int) * g >= 0 {
                    big_l - (w as int) * g
                } else {
                    0
                }),
                big_l < 0 ==> (w == 0 ==> units(remaining) == big_l) && (w >= 1 ==> units(
                    remaining,
                ) == 0),
            decreases count - w,
        {
            let add_balance = remaining.min_dec(&unit);
            let old_balance = users[w].balance;
            let uid = users[w].id;
            let beh = users[w].behaviour;
            let ghost users_before = users@;
            let ghost remaining_before = remaining;
            let newb = match old_balance.checked_add(&add_balance) {
                Some(v) => v,
                None => {
                    return Err(SimulationError::InvalidDecimal);
                },
            };
            users[w] = User { id: uid, balance: newb, behaviour: beh };
            remaining = match remaining.checked_sub(&add_balance) {
                Some(v) => v,
                None => {
                    return Err(SimulationError::InvalidDecimal);
                },
            };
            proof {
                lemma_sum_update(users_before, users@, w as int, count as int);
                assert((w as int + 1) * g == (w as int) * g + g) by (nonlinear_arith);
                if gridp {
                    // The distributed step is itself a whole multiple of the
                    // grid step, so every balance stays on the grid.
                    assert((1int) * g == g) by (nonlinear_arith);
                    lemma_mod_multiples_basic(1, g);
                    lemma_multiple_add_sub(units(old_balance), units(add_balance), g);
                    lemma_multiple_add_sub(units(remaining_before), units(add_balance), g);
                }
            }
            w = w + 1;
        }
        proof {
            if units(price) == p28 {
                assert((count as int) * g >= 1) by (nonlinear_arith)
                    requires
                        count >= 1,
                        g >= 1,
                ;
                assert(units(remaining) == 0);
                assert(sum_balance_units_to(users@, count as int) == u_s);
            }
        }
        Ok(users)
    }
}

/// One normalization step: the rounded balance `raw * supply / total` is
/// within half a grid step of the exact value, in the scaled form
/// `|2 (norm * (total * 10^28)) - 2 (raw * (supply * 10^28))| <= (total * 10^28) * g`.
proof fn lemma_norm_step(u_raw: int, u_s: int, u_t: int, p: u32)
    requires
        0 <= u_raw,
        0 <= u_s,
        1 <= u_t,
        p <= MAX_SCALE,
    ensures
        -((u_t * pow10(MAX_SCALE as nat)) * pow10((MAX_SCALE - p) as nat)) <= 2 * (mdr_units(
            u_raw,
            u_s,
            u_t,
            p,
        ) * (u_t * pow10(MAX_SCALE as nat))) - 2 * (u_raw * (u_s * pow10(MAX_SCALE as nat))),
        2 * (mdr_units(u_raw, u_s, u_t, p) * (u_t * pow10(MAX_SCALE as nat))) - 2 * (u_raw * (u_s
            * pow10(MAX_SCALE as nat))) <= (u_t * pow10(MAX_SCALE as nat)) * pow10(
            (MAX_SCALE - p) as nat,
        ),
{
    let p28 = pow10(MAX_SCALE as nat);
    let g = pow10((MAX_SCALE - p) as nat);
    let pd = pow10(p as nat);
    let nn = u_raw * u_s * pd;
    let dd = u_t * p28;
    lemma_pow10_pos(MAX_SCALE as nat);
    lemma_pow10_pos((MAX_SCALE - p) as nat);
    lemma_pow10_pos(p as nat);
    assert(0 <= nn) by (nonlinear_arith)
        requires
            0 <= u_raw,
            0 <= u_s,
            pd >= 1,
            nn == u_raw * u_s * pd,
    ;
    assert(1 <= dd) by (nonlinear_arith)
        requires
            1 <= u_t,
            p28 >= 1,
            dd == u_t * p28,
    ;
    assert(rhe_frac(nn, dd) == rhe(nn, dd));
    lemma_rhe_error(nn, dd);
    let q = rhe(nn, dd);
    assert(mdr_units(u_raw, u_s, u_t, p) == q * g);
    // Multiply the error bound by the positive grid step `g`.
    assert((2 * rhe(nn, dd) * dd - 2 * nn) * g == 2 * ((q * g) * dd) - 2 * (nn * g))
        by (nonlinear_arith)
        requires
            q == rhe(nn, dd),
    ;
    assert(-(dd * g) <= (2 * rhe(nn, dd) * dd - 2 * nn) * g && (2 * rhe(nn, dd) * dd - 2 * nn) * g
        <= dd * g) by (nonlinear_arith)
        requires
            -dd <= 2 * rhe(nn, dd) * dd - 2 * nn <= dd,
            g >= 1,
    ;
    lemma_pow_adds(10, p as nat, (MAX_SCALE - p) as nat);
    assert(nn * g == u_raw * (u_s * p28)) by (nonlinear_arith)
        requires
            nn == u_raw * u_s * pd,
            pd * g == p28,
    ;
}

/// Scaling by a price of one keeps the value: the product rounded at the
/// combined scale equals the original balance.
proof fn lemma_mul_one_units(bal: Dec, price: Dec, v: Dec)
    requires
        dec_wf(bal),
        dec_wf(price),
        units(price) == pow10(MAX_SCALE as nat),
        bal.scale + price.scale <= MAX_SCALE ==> units(v) * pow10(MAX_SCALE as nat) == units(bal)
            * units(price),
        bal.scale + price.scale > MAX_SCALE ==> units(v) == crate::decimal::mul_units(
            units(bal),
            units(price),
            MAX_SCALE,
        ),
    ensures
        units(v) == units(bal),
{
    let p28 = pow10(MAX_SCALE as nat);
    lemma_pow10_pos(MAX_SCALE as nat);
    if bal.scale + price.scale <= MAX_SCALE {
        assert(units(v) * p28 == units(bal) * p28) by (nonlinear_arith)
            requires
                units(v) * p28 == units(bal) * units(price),
                units(price) == p28,
        ;
        assert(units(v) == units(bal)) by (nonlinear_arith)
            requires
                units(v) * p28 == units(bal) * p28,
                p28 >= 1,
        ;
    } else {
        lemma_pow_adds(10, MAX_SCALE as nat, MAX_SCALE as nat);
        lemma_pow10_vals();
        assert(units(bal) * p28 * pow10(MAX_SCALE as nat) == (units(bal) * pow10(56)))
            by (nonlinear_arith)
            requires
                p28 * pow10(MAX_SCALE as nat) == pow10(56),
        ;
        lemma_pow10_pos(56);
        lemma_rhe_s_exact(units(bal), pow10(56));
        assert(rhe_frac(units(bal) * pow10(56), pow10(56)) == rhe_s(units(bal) * pow10(56), pow10(
            56,
        )));
        assert(crate::decimal::mul_units(units(bal), units(price), MAX_SCALE) == rhe_frac(
            units(bal) * units(price) * pow10(MAX_SCALE as nat),
            pow10(56),
        ) * pow10(0));
        assert(units(bal) * units(price) * pow10(MAX_SCALE as nat) == units(bal) * pow10(56))
            by (nonlinear_arith)
            requires
                units(price) == p28,
                p28 * pow10(MAX_SCALE as nat) == pow10(56),
        ;
        assert(rhe_s(units(bal) * pow10(56), pow10(56)) * pow10(0) == units(bal))
            by (nonlinear_arith)
            requires
                rhe_s(units(bal) * pow10(56), pow10(56)) == units(bal),
                pow10(0) == 1,
        ;
    }
}

/// Cancels the positive factor `total * 10^28` out of the summed error
/// bound, leaving `|2 (supply - sum)| <= n * g`.
proof fn lemma_cancel_bound(sum0: int, u_s: int, c: int, n: int, g: int)
    by (nonlinear_arith)
    requires
        1 <= c,
        1 <= g,
        1 <= n,
        -(n * (c * g)) <= 2 * (sum0 * c) - 2 * (u_s * c),
        2 * (sum0 * c) - 2 * (u_s * c) <= n * (c * g),
    ensures
        -(n * g) <= 2 * (u_s - sum0) <= n * g,
{
}

/// Changing one balance changes the sum by the difference of that balance.
proof fn lemma_sum_update(s1: Seq<User>, s2: Seq<User>, w: int, k: int)
    requires
        0 <= w < k,
        k <= s1.len(),
        k <= s2.len(),
        forall|j: int| 0 <= j < k && j != w ==> s1[j].balance == s2[j].balance,
    ensures
        sum_balance_units_to(s2, k) == sum_balance_units_to(s1, k) - units(s1[w].balance) + units(
            s2[w].balance,
        ),
    decreases k,
{
    if k - 1 == w {
        lemma_sum_to_congruent(s1, s2, k - 1);
    } else {
        lemma_sum_update(s1, s2, w, k - 1);
    }
}

} // verus!
