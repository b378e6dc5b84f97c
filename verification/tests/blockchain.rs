use tokenomics_simulator::blockchain::{EthereumBlockChain, SolanaBlockChain};
use tokenomics_simulator::decimal::Dec;
use tokenomics_simulator::SimulationError;

#[test]
fn parse_gas_price_hex() {
    let wei = EthereumBlockChain::parse_gas_price(b"0x430e23400").unwrap();
    assert_eq!(wei, 18_000_000_000);
}

#[test]
fn parse_gas_price_plain() {
    let wei = EthereumBlockChain::parse_gas_price(b"18000000000").unwrap();
    assert_eq!(wei, 18_000_000_000);
}

#[test]
fn parse_gas_price_rejects_garbage() {
    let result = EthereumBlockChain::parse_gas_price(b"invalid");
    assert_eq!(result.unwrap_err(), SimulationError::InvalidApiConversion);
}

#[test]
fn parse_gas_price_rejects_empty_hex() {
    let result = EthereumBlockChain::parse_gas_price(b"0x");
    assert_eq!(result.unwrap_err(), SimulationError::InvalidApiConversion);
}

#[test]
fn parse_gas_price_rejects_overflow() {
    let result = EthereumBlockChain::parse_gas_price(b"0xffffffffffffffffff");
    assert_eq!(result.unwrap_err(), SimulationError::InvalidApiConversion);
}

#[test]
fn ethereum_fee_from_wei() {
    // 18,000,000,000 wei is 18 units at nine fractional digits.
    let fee = EthereumBlockChain::fee_from_wei(18_000_000_000);
    assert_eq!(fee, Dec::new(18, 0));
}

#[test]
fn solana_fee_from_lamports() {
    // 5,000 lamports per signature is 0.000005 units.
    let fee = SolanaBlockChain::fee_from_lamports(5_000);
    assert_eq!(fee, Dec::new(5, 6));
}
