use streamlog::consumer_type::ConsumerType;
use streamlog::error::Error;
use streamlog::get_offset::GetOffset;
use streamlog::store_offset::StoreOffset;

#[test]
fn get_offset_should_be_serialized_as_bytes() {
    let command = GetOffset {
        consumer_type: ConsumerType::Consumer,
        consumer_id: 1,
        stream_id: 2,
        topic_id: 3,
        partition_id: 4,
    };

    let bytes = command.as_bytes();
    let consumer_type = ConsumerType::from_code(bytes[0]).unwrap();
    let consumer_id = u32::from_le_bytes(bytes[1..5].try_into().unwrap());
    let stream_id = u32::from_le_bytes(bytes[5..9].try_into().unwrap());
    let topic_id = u32::from_le_bytes(bytes[9..13].try_into().unwrap());
    let partition_id = u32::from_le_bytes(bytes[13..17].try_into().unwrap());

    assert!(!bytes.is_empty());
    assert_eq!(consumer_type, command.consumer_type);
    assert_eq!(consumer_id, command.consumer_id);
    assert_eq!(stream_id, command.stream_id);
    assert_eq!(topic_id, command.topic_id);
    assert_eq!(partition_id, command.partition_id);
}

#[test]
fn get_offset_should_be_deserialized_from_bytes() {
    let consumer_type = ConsumerType::Consumer;
    let consumer_id = 1u32;
    let stream_id = 2u32;
    let topic_id = 3u32;
    let partition_id = 4u32;

    let mut bytes = Vec::with_capacity(17);
    bytes.extend(consumer_type.as_code().to_le_bytes());
    bytes.extend(consumer_id.to_le_bytes());
    bytes.extend(stream_id.to_le_bytes());
    bytes.extend(topic_id.to_le_bytes());
    bytes.extend(partition_id.to_le_bytes());

    let command = GetOffset::from_bytes(&bytes);
    assert!(command.is_ok());

    let command = command.unwrap();
    assert_eq!(command.consumer_type, consumer_type);
    assert_eq!(command.consumer_id, consumer_id);
    assert_eq!(command.stream_id, stream_id);
    assert_eq!(command.topic_id, topic_id);
    assert_eq!(command.partition_id, partition_id);
}

#[test]
fn get_offset_should_be_read_from_string() {
    let consumer_type = ConsumerType::Consumer;
    let consumer_id = 1u32;
    let stream_id = 2u32;
    let topic_id = 3u32;
    let partition_id = 4u32;
    let input = format!(
        "{}|{}|{}|{}|{}",
        consumer_type.as_str(),
        consumer_id,
        stream_id,
        topic_id,
        partition_id
    );
    let command = GetOffset::from_str(&input);
    assert!(command.is_ok());

    let command = command.unwrap();
    assert_eq!(command.consumer_type, consumer_type);
    assert_eq!(command.consumer_id, consumer_id);
    assert_eq!(command.stream_id, stream_id);
    assert_eq!(command.topic_id, topic_id);
    assert_eq!(command.partition_id, partition_id);
}

#[test]
fn store_offset_should_be_serialized_as_bytes() {
    let command = StoreOffset {
        consumer_type: ConsumerType::Consumer,
        consumer_id: 1,
        stream_id: 2,
        topic_id: 3,
        partition_id: 4,
        offset: 5,
    };

    let bytes = command.as_bytes();
    let consumer_type = ConsumerType::from_code(bytes[0]).unwrap();
    let consumer_id = u32::from_le_bytes(bytes[1..5].try_into().unwrap());
    let stream_id = u32::from_le_bytes(bytes[5..9].try_into().unwrap());
    let topic_id = u32::from_le_bytes(bytes[9..13].try_into().unwrap());
    let partition_id = u32::from_le_bytes(bytes[13..17].try_into().unwrap());
    let offset = u64::from_le_bytes(bytes[17..25].try_into().unwrap());

    assert!(!bytes.is_empty());
    assert_eq!(consumer_type, command.consumer_type);
    assert_eq!(consumer_id, command.consumer_id);
    assert_eq!(stream_id, command.stream_id);
    assert_eq!(topic_id, command.topic_id);
    assert_eq!(partition_id, command.partition_id);
    assert_eq!(offset, command.offset);
}

#[test]
fn store_offset_should_be_deserialized_from_bytes() {
    let consumer_type = ConsumerType::Consumer;
    let consumer_id = 1u32;
    let stream_id = 2u32;
    let topic_id = 3u32;
    let partition_id = 4u32;
    let offset = 5u64;

    let mut bytes = Vec::with_capacity(25);
    bytes.extend(consumer_type.as_code().to_le_bytes());
    bytes.extend(consumer_id.to_le_bytes());
    bytes.extend(stream_id.to_le_bytes());
    bytes.extend(topic_id.to_le_bytes());
    bytes.extend(partition_id.to_le_bytes());
    bytes.extend(offset.to_le_bytes());

    let command = StoreOffset::from_bytes(&bytes);
    assert!(command.is_ok());

    let command = command.unwrap();
    assert_eq!(command.consumer_type, consumer_type);
    assert_eq!(command.consumer_id, consumer_id);
    assert_eq!(command.stream_id, stream_id);
    assert_eq!(command.topic_id, topic_id);
    assert_eq!(command.partition_id, partition_id);
    assert_eq!(command.offset, offset);
}

#[test]
fn store_offset_should_be_read_from_string() {
    let consumer_type = ConsumerType::Consumer;
    let consumer_id = 1u32;
    let stream_id = 2u32;
    let topic_id = 3u32;
    let partition_id = 4u32;
    let offset = 5u64;
    let input = format!(
        "{}|{}|{}|{}|{}|{}",
        consumer_type.as_str(),
        consumer_id,
        stream_id,
        topic_id,
        partition_id,
        offset
    );
    let command = StoreOffset::from_str(&input);
    assert!(command.is_ok());

    let command = command.unwrap();
    assert_eq!(command.consumer_type, consumer_type);
    assert_eq!(command.consumer_id, consumer_id);
    assert_eq!(command.stream_id, stream_id);
    assert_eq!(command.topic_id, topic_id);
    assert_eq!(command.partition_id, partition_id);
    assert_eq!(command.offset, offset);
}

#[test]
fn get_offset_text_form_round_trips() {
    let command = GetOffset {
        consumer_type: ConsumerType::ConsumerGroup,
        consumer_id: 4294967295,
        stream_id: 10,
        topic_id: 7,
        partition_id: 0,
    };
    let text = command.to_string();
    assert_eq!(text, "consumer_group|4294967295|10|7|0");
    assert_eq!(GetOffset::from_str(&text), Ok(command));
    assert_eq!(GetOffset::from_bytes(&command.as_bytes()), Ok(command));
}

#[test]
fn store_offset_text_form_round_trips() {
    let command = StoreOffset {
        consumer_type: ConsumerType::Consumer,
        consumer_id: 12,
        stream_id: 1,
        topic_id: 2,
        partition_id: 3,
        offset: 18446744073709551615,
    };
    let text = command.to_string();
    assert_eq!(text, "consumer|12|1|2|3|18446744073709551615");
    assert_eq!(StoreOffset::from_str(&text), Ok(command));
    assert_eq!(StoreOffset::from_bytes(&command.as_bytes()), Ok(command));
}

#[test]
fn get_offset_bytes_are_little_endian() {
    let command = GetOffset {
        consumer_type: ConsumerType::ConsumerGroup,
        consumer_id: 0x01020304,
        stream_id: 1,
        topic_id: 2,
        partition_id: 3,
    };
    assert_eq!(
        command.as_bytes(),
        vec![2, 4, 3, 2, 1, 1, 0, 0, 0, 2, 0, 0, 0, 3, 0, 0, 0]
    );
}

#[test]
fn offsets_reject_zero_stream_and_topic_ids() {
    assert_eq!(GetOffset::from_str("consumer|1|0|3|4"), Err(Error::InvalidStreamId));
    assert_eq!(GetOffset::from_str("consumer|1|2|0|4"), Err(Error::InvalidTopicId));
    assert_eq!(StoreOffset::from_str("consumer|1|0|3|4|5"), Err(Error::InvalidStreamId));
    let command = StoreOffset {
        consumer_type: ConsumerType::Consumer,
        consumer_id: 1,
        stream_id: 2,
        topic_id: 0,
        partition_id: 4,
        offset: 5,
    };
    assert_eq!(StoreOffset::from_bytes(&command.as_bytes()), Err(Error::InvalidTopicId));
    assert_eq!(command.validate(), Err(Error::InvalidTopicId));
}

#[test]
fn offsets_reject_malformed_input() {
    assert_eq!(GetOffset::from_str("consumer|1|2|3"), Err(Error::InvalidCommand));
    assert_eq!(GetOffset::from_str("reader|1|2|3|4"), Err(Error::InvalidCommand));
    assert_eq!(GetOffset::from_str("consumer|x|2|3|4"), Err(Error::CannotParseInt));
    assert_eq!(GetOffset::from_str("consumer|4294967296|2|3|4"), Err(Error::CannotParseInt));
    assert_eq!(GetOffset::from_str("consumer||2|3|4"), Err(Error::CannotParseInt));
    assert_eq!(GetOffset::from_str("consumer|+7|2|3|4").unwrap().consumer_id, 7);
    assert_eq!(StoreOffset::from_str("consumer|1|2|3|4|-5"), Err(Error::CannotParseInt));
    assert_eq!(GetOffset::from_bytes(&[1, 2, 3]), Err(Error::InvalidCommand));
    let mut bytes = GetOffset::default().as_bytes();
    bytes[0] = 9;
    assert_eq!(GetOffset::from_bytes(&bytes), Err(Error::InvalidCommand));
}

#[test]
fn offsets_have_defaults() {
    let get = GetOffset::default();
    assert_eq!(get.consumer_type, ConsumerType::Consumer);
    assert_eq!(get.consumer_id, 0);
    assert_eq!((get.stream_id, get.topic_id, get.partition_id), (1, 1, 1));
    let store = StoreOffset::default();
    assert_eq!((store.stream_id, store.topic_id, store.partition_id, store.offset), (1, 1, 1, 0));
    assert_eq!(streamlog::get_offset::default_partition_id(), 1);
    assert_eq!(streamlog::get_offset::default_consumer_id(), 0);
    assert_eq!(streamlog::store_offset::default_consumer_type(), ConsumerType::Consumer);
}

#[test]
fn consumer_type_codes_and_names() {
    assert_eq!(ConsumerType::Consumer.as_code(), 1);
    assert_eq!(ConsumerType::ConsumerGroup.as_code(), 2);
    assert_eq!(ConsumerType::from_code(0), Err(Error::InvalidCommand));
    assert_eq!(ConsumerType::from_str("consumer_group"), Ok(ConsumerType::ConsumerGroup));
    assert_eq!(ConsumerType::from_str("Consumer"), Err(Error::InvalidCommand));
}
