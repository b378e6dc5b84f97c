//! The computing half of the blockchain fee providers: parsing a gas-price
//! payload and converting the raw fee to a decimal. The network calls that
//! feed these functions live outside the verified library.

use vstd::prelude::*;

use crate::decimal::{dec_wf, pow10, units, Dec, MAX_SCALE};
use crate::SimulationError;

verus! {

/// Ethereum blockchain fee computations.
pub struct EthereumBlockChain;

/// Solana blockchain fee computations.
pub struct SolanaBlockChain;

/// Whether a byte is an ASCII decimal digit.
pub open spec fn is_dec_digit(b: u8) -> bool {
    48 <= b <= 57
}

/// The value of an ASCII decimal digit.
pub open spec fn dec_digit_val(b: u8) -> int {
    b - 48
}

/// Whether a byte is an ASCII hexadecimal digit.
pub open spec fn is_hex_digit(b: u8) -> bool {
    (48 <= b <= 57) || (97 <= b <= 102) || (65 <= b <= 70)
}

/// The value of an ASCII hexadecimal digit.
pub open spec fn hex_digit_val(b: u8) -> int {
    if 48 <= b <= 57 {
        b - 48
    } else if 97 <= b <= 102 {
        b - 87
    } else {
        b - 55
    }
}

/// The number denoted by a big-endian sequence of decimal digits.
pub open spec fn dec_num(s: Seq<u8>) -> int
    decreases s.len(),
{
    if s.len() == 0 {
        0
    } else {
        dec_num(s.drop_last()) * 10 + dec_digit_val(s.last())
    }
}

/// The number denoted by a big-endian sequence of hexadecimal digits.
pub open spec fn hex_num(s: Seq<u8>) -> int
    decreases s.len(),
{
    if s.len() == 0 {
        0
    } else {
        hex_num(s.drop_last()) * 16 + hex_digit_val(s.last())
    }
}

/// Parses the bytes from `start` on as a big-endian sequence of hexadecimal
/// digits into a `u64`. Succeeds exactly when at least one digit follows,
/// all following bytes are hexadecimal digits, and the value fits.
fn parse_hex_u64(bytes: &[u8], start: usize) -> (r: Result<u64, SimulationError>)
    requires
        start <= bytes@.len(),
    ensures
        r matches Ok(n) ==> n == hex_num(bytes@.subrange(start as int, bytes@.len() as int)),
        r is Ok <==> (bytes@.len() - start >= 1 && (forall|i: int|
            start <= i < bytes@.len() ==> is_hex_digit(#[trigger] bytes@[i])) && hex_num(
            bytes@.subrange(start as int, bytes@.len() as int),
        ) <= u64::MAX),
        r is Err ==> r == Err::<u64, SimulationError>(SimulationError::InvalidApiConversion),
{
    let len = bytes.len();
    if len == start {
        return Err(SimulationError::InvalidApiConversion);
    }
    let mut n: u64 = 0;
    let mut i: usize = start;
    while i < len
        invariant
            start <= i <= len,
            len == bytes@.len(),
            forall|j: int| start <= j < i ==> is_hex_digit(#[trigger] bytes@[j]),
            n == hex_num(bytes@.subrange(start as int, i as int)),
        decreases len - i,
    {
        let b = bytes[i];
        proof {
            assert(bytes@.subrange(start as int, i as int + 1).drop_last() == bytes@.subrange(
                start as int,
                i as int,
            ));
            assert(bytes@.subrange(start as int, i as int + 1).last() == bytes@[i as int]);
        }
        let d: u64 = if 48 <= b && b <= 57 {
            (b - 48) as u64
        } else if 97 <= b && b <= 102 {
            (b - 87) as u64
        } else if 65 <= b && b <= 70 {
            (b - 55) as u64
        } else {
            return Err(SimulationError::InvalidApiConversion);
        };
        if n > (u64::MAX - d) / 16 {
            // The value no longer fits; with every remaining digit it can
            // only grow.
            proof {
                lemma_digit_seq_nonneg(bytes@.subrange(start as int, i as int), false);
                assert(hex_num(bytes@.subrange(start as int, i as int + 1)) > u64::MAX)
                    by (nonlinear_arith)
                    requires
                        hex_num(bytes@.subrange(start as int, i as int + 1)) == hex_num(
                            bytes@.subrange(start as int, i as int),
                        ) * 16 + hex_digit_val(bytes@[i as int]),
                        hex_num(bytes@.subrange(start as int, i as int)) == n,
                        hex_digit_val(bytes@[i as int]) == d,
                        n > (u64::MAX - d) / 16,
                        0 <= d < 16,
                ;
                if forall|j: int| start <= j < bytes@.len() ==> is_hex_digit(#[trigger] bytes@[j]) {
                    lemma_hex_suffix_le(bytes@, start as int, i as int + 1);
                }
            }
            return Err(SimulationError::InvalidApiConversion);
        }
        proof {
            assert(n * 16 + d <= u64::MAX) by (nonlinear_arith)
                requires
                    n <= (u64::MAX - d) / 16,
                    0 <= d < 16,
                    0 <= n,
            ;
        }
        n = n * 16 + d;
        i = i + 1;
    }
    Ok(n)
}

/// Parses the bytes from `start` on as a big-endian sequence of decimal
/// digits into a `u64`. Succeeds exactly when at least one digit follows,
/// all following bytes are decimal digits, and the value fits.
fn parse_dec_u64(bytes: &[u8], start: usize) -> (r: Result<u64, SimulationError>)
    requires
        start <= bytes@.len(),
    ensures
        r matches Ok(n) ==> n == dec_num(bytes@.subrange(start as int, bytes@.len() as int)),
        r is Ok <==> (bytes@.len() - start >= 1 && (forall|i: int|
            start <= i < bytes@.len() ==> is_dec_digit(#[trigger] bytes@[i])) && dec_num(
            bytes@.subrange(start as int, bytes@.len() as int),
        ) <= u64::MAX),
        r is Err ==> r == Err::<u64, SimulationError>(SimulationError::InvalidApiConversion),
{
    let len = bytes.len();
    if len == start {
        return Err(SimulationError::InvalidApiConversion);
    }
    let mut n: u64 = 0;
    let mut i: usize = start;
    while i < len
        invariant
            start <= i <= len,
            len == bytes@.len(),
            forall|j: int| start <= j < i ==> is_dec_digit(#[trigger] bytes@[j]),
            n == dec_num(bytes@.subrange(start as int, i as int)),
        decreases len - i,
    {
        let b = bytes[i];
        proof {
            assert(bytes@.subrange(start as int, i as int + 1).drop_last() == bytes@.subrange(
                start as int,
                i as int,
            ));
            assert(bytes@.subrange(start as int, i as int + 1).last() == bytes@[i as int]);
        }
        if !(48 <= b && b <= 57) {
            return Err(SimulationError::InvalidApiConversion);
        }
        let d: u64 = (b - 48) as u64;
        if n > (u64::MAX - d) / 10 {
            proof {
                lemma_digit_seq_nonneg(bytes@.subrange(start as int, i as int), true);
                assert(dec_num(bytes@.subrange(start as int, i as int + 1)) > u64::MAX)
                    by (nonlinear_arith)
                    requires
                        dec_num(bytes@.subrange(start as int, i as int + 1)) == dec_num(
                            bytes@.subrange(start as int, i as int),
                        ) * 10 + dec_digit_val(bytes@[i as int]),
                        dec_num(bytes@.subrange(start as int, i as int)) == n,
                        dec_digit_val(bytes@[i as int]) == d,
                        n > (u64::MAX - d) / 10,
                        0 <= d < 10,
                ;
                if forall|j: int| start <= j < bytes@.len() ==> is_dec_digit(#[trigger] bytes@[j]) {
                    lemma_dec_suffix_le(bytes@, start as int, i as int + 1);
                }
            }
            return Err(SimulationError::InvalidApiConversion);
        }
        proof {
            assert(n * 10 + d <= u64::MAX) by (nonlinear_arith)
                requires
                    n <= (u64::MAX - d) / 10,
                    0 <= d < 10,
                    0 <= n,
            ;
        }
        n = n * 10 + d;
        i = i + 1;
    }
    Ok(n)
}

/// A sequence of digits denotes a nonnegative number (hexadecimal or, with
/// `dec` set, decimal).
proof fn lemma_digit_seq_nonneg(s: Seq<u8>, dec: bool)
    ensures
        (forall|i: int| 0 <= i < s.len() ==> is_hex_digit(#[trigger] s[i])) ==> 0 <= hex_num(s),
        (forall|i: int| 0 <= i < s.len() ==> is_dec_digit(#[trigger] s[i])) ==> 0 <= dec_num(s),
    decreases s.len(),
{
    if s.len() != 0 {
        lemma_digit_seq_nonneg(s.drop_last(), dec);
        assert(forall|i: int| 0 <= i < s.drop_last().len() ==> s.drop_last()[i] == s[i]);
    }
}

/// A longer run of hexadecimal digits never denotes a smaller number.
proof fn lemma_hex_suffix_le(s: Seq<u8>, start: int, k: int)
    requires
        0 <= start <= k <= s.len(),
        forall|i: int| start <= i < s.len() ==> is_hex_digit(#[trigger] s[i]),
    ensures
        hex_num(s.subrange(start, k)) <= hex_num(s.subrange(start, s.len() as int)),
    decreases s.len() - k,
{
    if k < s.len() {
        lemma_hex_suffix_le(s, start, k + 1);
        assert(s.subrange(start, k + 1).drop_last() == s.subrange(start, k));
        assert(s.subrange(start, k + 1).last() == s[k]);
        let pv = hex_num(s.subrange(start, k));
        assert(forall|i: int|
            0 <= i < s.subrange(start, k).len() ==> is_hex_digit(
                #[trigger] s.subrange(start, k)[i],
            ));
        lemma_digit_seq_nonneg(s.subrange(start, k), false);
        assert(pv <= pv * 16 + hex_digit_val(s[k])) by (nonlinear_arith)
            requires
                0 <= pv,
                0 <= hex_digit_val(s[k]),
        ;
    }
}

/// A longer run of decimal digits never denotes a smaller number.
proof fn lemma_dec_suffix_le(s: Seq<u8>, start: int, k: int)
    requires
        0 <= start <= k <= s.len(),
        forall|i: int| start <= i < s.len() ==> is_dec_digit(#[trigger] s[i]),
    ensures
        dec_num(s.subrange(start, k)) <= dec_num(s.subrange(start, s.len() as int)),
    decreases s.len() - k,
{
    if k < s.len() {
        lemma_dec_suffix_le(s, start, k + 1);
        assert(s.subrange(start, k + 1).drop_last() == s.subrange(start, k));
        assert(s.subrange(start, k + 1).last() == s[k]);
        let pv = dec_num(s.subrange(start, k));
        assert(forall|i: int|
            0 <= i < s.subrange(start, k).len() ==> is_dec_digit(
                #[trigger] s.subrange(start, k)[i],
            ));
        lemma_digit_seq_nonneg(s.subrange(start, k), true);
        assert(pv <= pv * 10 + dec_digit_val(s[k])) by (nonlinear_arith)
            requires
                0 <= pv,
                0 <= dec_digit_val(s[k]),
        ;
    }
}

impl EthereumBlockChain {
    /// Parses a gas price payload: either a `0x`-prefixed hexadecimal number
    /// or a plain decimal number, in ASCII.
    pub fn parse_gas_price(payload: &[u8]) -> (r: Result<u64, SimulationError>)
        ensures
            (payload@.len() >= 2 && payload@[0] == 48 && payload@[1] == 120) ==> {
                &&& (r matches Ok(n) ==> n == hex_num(
                    payload@.subrange(2, payload@.len() as int),
                ))
                &&& (r is Ok <==> (payload@.len() >= 3 && (forall|i: int|
                    2 <= i < payload@.len() ==> is_hex_digit(#[trigger] payload@[i])) && hex_num(
                    payload@.subrange(2, payload@.len() as int),
                ) <= u64::MAX))
            },
            !(payload@.len() >= 2 && payload@[0] == 48 && payload@[1] == 120) ==> {
                &&& (r matches Ok(n) ==> n == dec_num(
                    payload@.subrange(0, payload@.len() as int),
                ))
                &&& (r is Ok <==> (payload@.len() >= 1 && (forall|i: int|
                    0 <= i < payload@.len() ==> is_dec_digit(#[trigger] payload@[i])) && dec_num(
                    payload@.subrange(0, payload@.len() as int),
                ) <= u64::MAX))
            },
            r is Err ==> r == Err::<u64, SimulationError>(SimulationError::InvalidApiConversion),
    {
        if payload.len() >= 2 {
            let b0 = payload[0];
            let b1 = payload[1];
            if b0 == 48 && b1 == 120 {
                return parse_hex_u64(payload, 2);
            }
        }
        parse_dec_u64(payload, 0)
    }

    /// The fee per transaction derived from a gas price in wei: the value in
    /// units of `10^-9`, exactly.
    pub fn fee_from_wei(gas_price_wei: u64) -> (r: Dec)
        ensures
            dec_wf(r),
            units(r) == gas_price_wei * pow10((MAX_SCALE - 9) as nat),
            r.scale == 9,
    {
        Dec { neg: false, mag: gas_price_wei as u128, scale: 9 }
    }
}

impl SolanaBlockChain {
    /// The fee per transaction derived from lamports per signature: the value
    /// in units of `10^-9`, exactly.
    pub fn fee_from_lamports(lamports_per_signature: u64) -> (r: Dec)
        ensures
            dec_wf(r),
            units(r) == lamports_per_signature * pow10((MAX_SCALE - 9) as nat),
            r.scale == 9,
    {
        Dec { neg: false, mag: lamports_per_signature as u128, scale: 9 }
    }
}

} // verus!
