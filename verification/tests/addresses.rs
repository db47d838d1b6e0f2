use eth_crawler::address::{format_address, Address};
use eth_crawler::server::{parse_address, ServerError};

#[test]
fn test_parse_address() -> Result<(), ServerError> {
    let address = ethers::types::H160::random();
    println!("address: {:?}", address);
    println!("parsed: {:?}", parse_address(&format!("{:?}", address))?);
    assert_eq!(parse_address(&format!("{:?}", address))?.bytes, address.0);
    Ok(())
}

#[test]
fn test_parse_invalid_address() -> Result<(), ServerError> {
    let address = ethers::types::H160::random();
    let invalid_address = &format!("{:?}", address)[0..19];
    assert_eq!(
        parse_address(invalid_address),
        Err(ServerError::InvalidAddress)
    );

    Ok(())
}

#[test]
fn format_then_parse_is_identity() {
    let address = Address {
        bytes: [
            0x12, 0x34, 0x56, 0x78, 0x9a, 0xbc, 0xde, 0xf0, 0x01, 0x23, 0x45, 0x67, 0x89, 0xab,
            0xcd, 0xef, 0x10, 0x32, 0x54, 0x76,
        ],
    };
    let rendered = format_address(&address);
    assert_eq!(rendered.len(), 42);
    assert_eq!(parse_address(&rendered), Ok(address));
}

#[test]
fn format_uses_lowercase_hex_with_prefix() {
    let mut bytes = [0u8; 20];
    bytes[0] = 0xab;
    bytes[19] = 0x01;
    let rendered = format_address(&Address { bytes });
    assert_eq!(rendered, "0xab00000000000000000000000000000000000001");
}

#[test]
fn bare_forty_digits_parse_without_prefix() {
    let parsed = parse_address("AB00000000000000000000000000000000000001").unwrap();
    let mut bytes = [0u8; 20];
    bytes[0] = 0xab;
    bytes[19] = 0x01;
    assert_eq!(parsed.bytes, bytes);
}

#[test]
fn wrong_digit_count_is_rejected() {
    assert_eq!(
        parse_address("0xab0000000000000000000000000000000000001"),
        Err(ServerError::InvalidAddress)
    );
    assert_eq!(
        parse_address("0xab000000000000000000000000000000000000011"),
        Err(ServerError::InvalidAddress)
    );
    assert_eq!(parse_address(""), Err(ServerError::InvalidAddress));
}

#[test]
fn non_hex_characters_are_rejected() {
    assert_eq!(
        parse_address("0xgb00000000000000000000000000000000000001"),
        Err(ServerError::InvalidAddress)
    );
    assert_eq!(
        parse_address("0xab0000000000000000000000000000000000000\u{e9}"),
        Err(ServerError::InvalidAddress)
    );
}
