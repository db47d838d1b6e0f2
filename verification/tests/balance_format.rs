use eth_crawler::balance::Balance;
use eth_crawler::chain::Wei;

#[test]
fn test_print_balance() {
    let wei = Wei::zero();
    assert_eq!(Balance::from(wei).to_eth_string(), "0.000000000000000000");
}

#[test]
fn one_eth_formats_with_eighteen_fraction_digits() {
    let balance = Balance::from(Wei::from_u64(1_000_000_000_000_000_000));
    assert_eq!(balance.to_eth_string(), "1.000000000000000000");
}

#[test]
fn one_wei_reaches_the_last_fraction_digit() {
    let balance = Balance::from(Wei::from_u64(1));
    assert_eq!(balance.to_eth_string(), "0.000000000000000001");
}

#[test]
fn integer_digits_beyond_one_limb_are_kept() {
    let v: u128 = 1234 * 1_000_000_000_000_000_000u128;
    let wei = Wei { limbs: [v as u64, (v >> 64) as u64, 0, 0] };
    assert_eq!(Balance::from(wei).to_eth_string(), "1234.000000000000000000");
}

#[test]
fn fractions_are_never_rounded() {
    let balance = Balance::from(Wei::from_u64(1_234_567_890_123_456_789));
    assert_eq!(balance.to_eth_string(), "1.234567890123456789");
}

#[test]
fn formatting_commutes_with_addition() {
    let w1: u64 = 1_500_000_000_000_000_000;
    let w2: u64 = 2_250_000_000_000_000_001;
    assert_eq!(
        Balance::from(Wei::from_u64(w1)).to_eth_string(),
        "1.500000000000000000"
    );
    assert_eq!(
        Balance::from(Wei::from_u64(w2)).to_eth_string(),
        "2.250000000000000001"
    );
    assert_eq!(
        Balance::from(Wei::from_u64(w1 + w2)).to_eth_string(),
        "3.750000000000000001"
    );
}
