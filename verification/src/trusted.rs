//! Trusted boundary to the outside crates.
//!
//! Each item here wraps exactly one function of an outside crate (random
//! numbers, identifiers, the clock, and the decimal exponential). Their
//! contracts state only what the outside source shows; Verus believes them
//! without reading the bodies.

use vstd::prelude::*;

use crate::decimal::{dec_wf, Dec};
use rand::Rng;
use rust_decimal::MathematicalOps;

verus! {

/// `uuid::Uuid`, declared so that it can stand in fields and signatures. The
/// value is opaque and only carried through.
#[verifier::external_type_specification]
#[verifier::external_body]
pub struct ExUuid(uuid::Uuid);

/// Relies on `uuid::Uuid`'s derived `Clone` (the type is `Copy`): cloning
/// returns the same identifier.
pub assume_specification[ <uuid::Uuid as core::clone::Clone>::clone ](u: &uuid::Uuid) -> (r:
    uuid::Uuid)
    ensures
        r == *u,
;

/// Relies on `uuid::Uuid::new_v4`: a freshly generated random identifier.
/// Nothing is promised of the value.
#[verifier::external_body]
pub fn fresh_uuid() -> uuid::Uuid {
    uuid::Uuid::new_v4()
}

/// Relies on `chrono::Utc::now` (read through `timestamp_millis`): the
/// current time in milliseconds since the Unix epoch. Nothing is promised of
/// the value.
#[verifier::external_body]
pub fn now_millis() -> i64 {
    chrono::Utc::now().timestamp_millis()
}

/// Relies on `rand::Rng::random_range` over `0..n`: a uniformly distributed
/// value in `[0, n)`; the call panics only on an empty range, which the
/// precondition rules out.
#[verifier::external_body]
pub fn random_below(n: u128) -> (r: u128)
    requires
        n >= 1,
    ensures
        r < n,
{
    rand::rng().random_range(0..n)
}

/// Relies on `rand::Rng::random::<bool>`: a fair coin flip. Nothing is
/// promised of the value.
#[verifier::external_body]
pub fn random_coin() -> bool {
    rand::rng().random::<bool>()
}

/// What `rust_decimal`'s `checked_exp` returns for a decimal, by
/// representation: `None` when the series overflows, otherwise the estimated
/// value of `e^x`. The result depends on the argument alone.
pub uninterp spec fn dec_exp_of(x: Dec) -> Option<Dec>;

/// Relies on `rust_decimal::MathematicalOps::checked_exp`: the estimated
/// exponential `e^x`, or `None` on overflow. The body only converts between
/// the two decimal representations, which both bound the magnitude by `2^96`
/// and the scale by 28.
#[verifier::external_body]
pub fn dec_exp(x: &Dec) -> (r: Option<Dec>)
    requires
        dec_wf(*x),
    ensures
        r == dec_exp_of(*x),
        r matches Some(v) ==> dec_wf(v),
{
    let mut m = x.mag as i128;
    if x.neg {
        m = -m;
    }
    let d = rust_decimal::Decimal::from_i128_with_scale(m, x.scale);
    match d.checked_exp() {
        Some(v) => Some(
            Dec { neg: v.is_sign_negative(), mag: v.mantissa().unsigned_abs(), scale: v.scale() },
        ),
        None => None,
    }
}

} // verus!
