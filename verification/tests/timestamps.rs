use eth_crawler::server::parse_timestamp;

#[test]
fn test_timestamp_parsing() {
    let time = "2023-03-14T08:55:04";
    parse_timestamp(time).unwrap();
}

#[test]
fn test_short_timestamp_parsing() {
    let time = "2023-03-14T08:55";
    parse_timestamp(time).unwrap();
}

#[test]
fn timestamp_epoch_is_exact() {
    assert_eq!(parse_timestamp("2023-03-14T08:55:04"), Some(1_678_784_104));
}

#[test]
fn short_timestamp_epoch_is_exact() {
    assert_eq!(parse_timestamp("2023-03-14T08:55"), Some(1_678_784_100));
}

#[test]
fn malformed_timestamps_are_rejected() {
    assert_eq!(parse_timestamp("yesterday"), None);
    assert_eq!(parse_timestamp("2023-03-14 08:55:04"), None);
    assert_eq!(parse_timestamp("2023-13-14T08:55:04"), None);
    assert_eq!(parse_timestamp(""), None);
}
