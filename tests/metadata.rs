use streamlog::error::Error;
use streamlog::metadata::{parse_stream_info, parse_topic_info, stream_info, topic_info};

#[test]
fn stream_info_round_trips() {
    let bytes = stream_info(7, &"orders".to_string());
    let mut expected = vec![7, 0, 0, 0, 6, 0, 0, 0];
    expected.extend(b"orders");
    assert_eq!(bytes, expected);
    assert_eq!(parse_stream_info(&bytes), Ok((7, "orders".to_string())));
}

#[test]
fn topic_info_round_trips_with_multibyte_names() {
    let name = "zählung".to_string();
    let bytes = topic_info(3, 12, &name);
    assert_eq!(u32::from_le_bytes(bytes[8..12].try_into().unwrap()), 8);
    assert_eq!(parse_topic_info(&bytes), Ok((3, 12, name)));
}

#[test]
fn info_files_reject_damage() {
    let mut bytes = stream_info(1, &"s".to_string());
    assert_eq!(parse_stream_info(&bytes[..8]), Err(Error::InvalidFormat));
    assert_eq!(parse_stream_info(&bytes[..3]), Err(Error::InvalidFormat));
    bytes[8] = 0xff;
    assert_eq!(parse_stream_info(&bytes), Err(Error::CannotParseUtf8));
}
