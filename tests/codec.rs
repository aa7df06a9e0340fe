use streamlog::error::Error;
use streamlog::message::{
    decode_poll_response, encode_poll_response, error_response, ok_response, read_poll_response,
    Message,
};
use streamlog::partition::AppendMessage;
use streamlog::poll::{PollMessages, PollingKind};
use streamlog::send::SendMessages;
use streamlog::topic::KeyKind;

fn message(offset: u64, payload: &[u8]) -> Message {
    Message::new(offset, 1000 + offset, offset as u128 + 7, 42, payload.to_vec())
}

#[test]
fn error_codes_are_stable() {
    assert_eq!(Error::Error.as_code(), 255);
    assert_eq!(error_response(&Error::Error), vec![255]);
    assert_eq!(Error::InvalidCommand.as_code(), 2);
    assert_eq!(Error::StreamNotFound(3).as_code(), 14);
    assert_eq!(Error::InvalidMessagesCount.as_code(), 41);
    assert_eq!(Error::EmptyMessagePayload.as_code(), 67);
    assert_eq!(Error::InvalidClientId.as_code(), 83);
    assert_eq!(Error::EmptyResponse.as_code(), 255);
    assert_eq!(Error::SegmentClosed(1, 2).as_text_code(), "segment_closed");
    assert_eq!(Error::InvalidConsumerGroupId.as_text_code(), "invalid_consumer_group_id");
    assert_eq!(Error::NotConnected.as_text_code(), "error");
    assert_eq!(
        Error::CannotCreatePartitionSegmentLogFile("p".to_string()).as_text_code(),
        "cannot_create_partition_segment_log_file"
    );
}

#[test]
fn message_size_counts_header_and_payload() {
    let m = message(0, b"hello");
    assert_eq!(m.get_size_bytes(), 45);
    assert_eq!(m.length, 5);
}

#[test]
fn poll_response_is_laid_out_little_endian() {
    let messages = vec![message(1, b"ab")];
    let body = encode_poll_response(&messages);
    let mut expected = vec![1, 0, 0, 0];
    expected.extend(1u64.to_le_bytes());
    expected.extend(1001u64.to_le_bytes());
    expected.extend(8u128.to_le_bytes());
    expected.extend(42u32.to_le_bytes());
    expected.extend(2u32.to_le_bytes());
    expected.extend(b"ab");
    assert_eq!(body, expected);
}

#[test]
fn poll_response_round_trips() {
    let messages = vec![message(0, b"a"), message(1, b"bc"), message(2, b"def")];
    let body = encode_poll_response(&messages);
    let decoded = decode_poll_response(&body).unwrap();
    assert_eq!(decoded.len(), 3);
    for (m, d) in messages.iter().zip(decoded.iter()) {
        assert_eq!(m.offset, d.offset);
        assert_eq!(m.timestamp, d.timestamp);
        assert_eq!(m.id, d.id);
        assert_eq!(m.checksum, d.checksum);
        assert_eq!(m.payload, d.payload);
    }
    let response = ok_response(&body);
    assert_eq!(response[0], 0);
    assert_eq!(read_poll_response(&response).unwrap().len(), 3);
}

#[test]
fn poll_response_rejects_truncated_bodies() {
    let body = encode_poll_response(&vec![message(0, b"abc")]);
    assert!(matches!(decode_poll_response(&body[..body.len() - 1]), Err(Error::InvalidFormat)));
    let mut longer = body.clone();
    longer.push(0);
    assert!(matches!(decode_poll_response(&longer), Err(Error::InvalidFormat)));
    assert!(matches!(decode_poll_response(&[1, 0]), Err(Error::InvalidFormat)));
}

#[test]
fn status_only_response_means_no_messages() {
    assert_eq!(read_poll_response(&[0]).unwrap().len(), 0);
    assert!(matches!(read_poll_response(&[]), Err(Error::EmptyResponse)));
    let failed = error_response(&Error::TopicNotFound(1, 2));
    assert_eq!(failed, vec![27]);
    assert!(matches!(read_poll_response(&failed), Err(Error::InvalidResponse(27))));
}

#[test]
fn poll_command_round_trips() {
    let command = PollMessages {
        stream_id: 1,
        topic_id: 2,
        partition_id: 3,
        kind: PollingKind::Timestamp,
        value: 1679997285,
        count: 10,
    };
    let bytes = command.as_bytes();
    assert_eq!(bytes.len(), 25);
    assert_eq!(bytes[12], 4);
    assert_eq!(PollMessages::from_bytes(&bytes), Ok(command));
    let text = command.to_string();
    assert_eq!(text, "1|2|3|timestamp|1679997285|10");
    assert_eq!(PollMessages::from_str(&text), Ok(command));
    let request = command.as_request();
    assert_eq!(request[0], 2);
    assert_eq!(&request[1..], &bytes[..]);
}

#[test]
fn poll_command_rejects_unknown_kinds() {
    let mut bytes = PollMessages {
        stream_id: 1,
        topic_id: 1,
        partition_id: 1,
        kind: PollingKind::First,
        value: 0,
        count: 1,
    }
    .as_bytes();
    bytes[12] = 5;
    assert_eq!(PollMessages::from_bytes(&bytes), Err(Error::InvalidCommand));
    assert_eq!(PollMessages::from_str("1|1|1|newest|0|1"), Err(Error::InvalidCommand));
    assert_eq!(PollMessages::from_str("0|1|1|first|0|1"), Err(Error::InvalidStreamId));
    assert_eq!(PollingKind::from_code(3), Ok(PollingKind::Offset));
}

#[test]
fn send_command_round_trips() {
    let command = SendMessages {
        stream_id: 1,
        topic_id: 2,
        key_kind: KeyKind::EntityId,
        key_value: 9,
        messages: vec![
            AppendMessage { id: 5, payload: b"hi".to_vec() },
            AppendMessage { id: 6, payload: b"there".to_vec() },
        ],
    };
    let bytes = command.as_bytes();
    assert_eq!(bytes.len(), 17 + 20 + 2 + 20 + 5);
    assert_eq!(bytes[8], 2);
    assert_eq!(u32::from_le_bytes(bytes[13..17].try_into().unwrap()), 2);
    let back = SendMessages::from_bytes(&bytes).unwrap();
    assert_eq!((back.stream_id, back.topic_id, back.key_kind, back.key_value), (1, 2, KeyKind::EntityId, 9));
    assert_eq!(back.messages.len(), 2);
    assert_eq!(back.messages[1].id, 6);
    assert_eq!(back.messages[1].payload, b"there".to_vec());
    assert!(matches!(SendMessages::from_bytes(&bytes[..bytes.len() - 1]), Err(Error::InvalidFormat)));
    let mut bad = bytes.clone();
    bad[8] = 7;
    assert!(matches!(SendMessages::from_bytes(&bad), Err(Error::InvalidCommand)));
    let mut zero = bytes.clone();
    zero[0] = 0;
    assert!(matches!(SendMessages::from_bytes(&zero), Err(Error::InvalidStreamId)));
}
