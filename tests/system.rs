use streamlog::consumer_type::ConsumerType;
use streamlog::error::Error;
use streamlog::get_offset::GetOffset;
use streamlog::message::decode_poll_response;
use streamlog::store_offset::StoreOffset;
use streamlog::partition::AppendMessage;
use streamlog::poll::{PollMessages, PollingKind};
use streamlog::system::System;
use streamlog::topic::{KeyKind, Topic};

fn one(payload: &str) -> Vec<AppendMessage> {
    vec![AppendMessage { id: 0, payload: payload.as_bytes().to_vec() }]
}

fn poll(kind: PollingKind, value: u64, count: u32) -> PollMessages {
    PollMessages { stream_id: 1, topic_id: 1, partition_id: 1, kind, value, count }
}

fn texts(body: &[u8]) -> Vec<(u64, String)> {
    decode_poll_response(body)
        .unwrap()
        .iter()
        .map(|m| (m.offset, String::from_utf8(m.payload.clone()).unwrap()))
        .collect()
}

#[test]
fn append_and_replay() {
    let mut system = System::new(1_000_000);
    assert_eq!(system.create_stream(1, "orders".to_string()), Ok(()));
    assert_eq!(system.create_topic(1, 1, "events".to_string(), 1), Ok(()));
    for (key, payload) in [(1u32, "a"), (2, "b"), (3, "c")] {
        assert_eq!(system.send_messages(1, 1, KeyKind::EntityId, key, &one(payload), 5), Ok(()));
    }
    let body = system
        .poll_messages(&poll(PollingKind::First, 0, 10), ConsumerType::Consumer, 1, 1, false)
        .unwrap();
    assert_eq!(
        texts(&body),
        vec![(0, "a".to_string()), (1, "b".to_string()), (2, "c".to_string())]
    );
}

#[test]
fn timestamp_seek() {
    let mut system = System::new(1_000_000);
    system.create_stream(1, "s".to_string()).unwrap();
    system.create_topic(1, 1, "t".to_string(), 1).unwrap();
    for i in 1..=5u64 {
        let text = format!("{}", i);
        system.send_messages(1, 1, KeyKind::PartitionId, 1, &one(&text), i * 10).unwrap();
    }
    let body = system
        .poll_messages(&poll(PollingKind::Timestamp, 30, 10), ConsumerType::Consumer, 1, 1, false)
        .unwrap();
    let got: Vec<String> = texts(&body).into_iter().map(|(_, p)| p).collect();
    assert_eq!(got, vec!["3", "4", "5"]);
}

#[test]
fn stream_and_topic_validation() {
    let mut system = System::new(1_000_000);
    assert_eq!(system.create_stream(0, "s".to_string()), Err(Error::InvalidStreamId));
    assert_eq!(system.create_stream(1, "".to_string()), Err(Error::InvalidStreamName));
    assert_eq!(system.create_stream(1, "x".repeat(256)), Err(Error::InvalidStreamName));
    assert_eq!(system.create_stream(1, "x".repeat(255)), Ok(()));
    assert_eq!(system.create_stream(1, "other".to_string()), Err(Error::StreamAlreadyExists(1)));
    assert_eq!(system.create_stream(1, "".to_string()), Err(Error::StreamAlreadyExists(1)));
    assert_eq!(system.create_stream(2, "x".repeat(255)), Err(Error::InvalidStreamName));
    assert_eq!(system.create_topic(2, 1, "t".to_string(), 1), Err(Error::StreamNotFound(2)));
    assert_eq!(system.create_topic(1, 1, "t".to_string(), 0), Err(Error::InvalidTopicPartitions));
    assert_eq!(system.create_topic(1, 0, "t".to_string(), 1), Err(Error::InvalidTopicId));
    assert_eq!(system.create_topic(1, 1, "".to_string(), 1), Err(Error::InvalidTopicName));
    assert_eq!(system.create_topic(1, 1, "t".to_string(), 2), Ok(()));
    assert_eq!(system.create_topic(1, 1, "u".to_string(), 2), Err(Error::TopicAlreadyExists(1, 1)));
    assert_eq!(
        system.send_messages(1, 9, KeyKind::Balanced, 0, &one("a"), 1),
        Err(Error::TopicNotFound(9, 1))
    );
    assert_eq!(
        system.send_messages(1, 1, KeyKind::PartitionId, 3, &one("a"), 1),
        Err(Error::PartitionNotFound(3))
    );
    assert_eq!(
        system.poll_messages(&poll(PollingKind::First, 0, 0), ConsumerType::Consumer, 1, 1, false),
        Err(Error::InvalidMessagesCount)
    );
    let missing = PollMessages { stream_id: 7, ..poll(PollingKind::First, 0, 1) };
    assert_eq!(
        system.poll_messages(&missing, ConsumerType::Consumer, 1, 1, false),
        Err(Error::StreamNotFound(7))
    );
}

#[test]
fn keys_route_to_partitions() {
    let mut topic = Topic::create(1, 1, "t".to_string(), 3, 1_000_000).unwrap();
    for key in 1..=7u32 {
        topic.append_messages(KeyKind::EntityId, key, &one("e"), 1).unwrap();
    }
    let counts: Vec<u64> = topic.partitions.iter().map(|p| p.current_offset).collect();
    assert_eq!(counts, vec![3, 2, 2]);
    topic.append_messages(KeyKind::EntityId, 0, &one("z"), 1).unwrap();
    assert_eq!(topic.partitions[2].current_offset, 3);
    for _ in 0..4 {
        topic.append_messages(KeyKind::Balanced, 0, &one("r"), 1).unwrap();
    }
    let counts: Vec<u64> = topic.partitions.iter().map(|p| p.current_offset).collect();
    assert_eq!(counts, vec![5, 3, 4]);
    assert_eq!(topic.cursor, 1);
}

#[test]
fn group_polls_round_robin_over_partitions() {
    let mut topic = Topic::create(1, 1, "t".to_string(), 3, 1_000_000).unwrap();
    assert_eq!(topic.create_consumer_group(0), Err(Error::InvalidConsumerGroupId));
    assert_eq!(topic.create_consumer_group(1), Ok(()));
    assert_eq!(topic.create_consumer_group(1), Err(Error::ConsumerGroupAlreadyExists(1, 1)));
    assert_eq!(topic.join_consumer_group(2, 10), Err(Error::ConsumerGroupNotFound(2, 1)));
    assert_eq!(topic.join_consumer_group(1, 10), Ok(()));
    for key in 1..=9u32 {
        let text = format!("{}", key);
        topic.append_messages(KeyKind::EntityId, key, &one(&text), 1).unwrap();
    }
    let mut got = Vec::new();
    for _ in 0..9 {
        let polled = topic
            .poll_messages(ConsumerType::ConsumerGroup, 1, 10, 0, PollingKind::Next, 0, 1, true)
            .unwrap();
        assert_eq!(polled.len(), 1);
        got.push(String::from_utf8(polled[0].payload.clone()).unwrap());
    }
    assert_eq!(got, vec!["1", "2", "3", "4", "5", "6", "7", "8", "9"]);
    assert_eq!(
        topic
            .poll_messages(ConsumerType::ConsumerGroup, 1, 11, 0, PollingKind::Next, 0, 1, true)
            .err(),
        Some(Error::ConsumerGroupMemberNotFound(11, 1, 1))
    );
    assert_eq!(topic.leave_consumer_group(1, 10), Ok(()));
    assert_eq!(topic.leave_consumer_group(1, 10), Err(Error::ConsumerGroupMemberNotFound(10, 1, 1)));
}

#[test]
fn idle_group_member_polls_nothing() {
    let mut topic = Topic::create(1, 1, "t".to_string(), 1, 1_000_000).unwrap();
    topic.create_consumer_group(4).unwrap();
    topic.join_consumer_group(4, 1).unwrap();
    topic.join_consumer_group(4, 2).unwrap();
    topic.append_messages(KeyKind::Balanced, 0, &one("x"), 1).unwrap();
    let polled = topic
        .poll_messages(ConsumerType::ConsumerGroup, 4, 2, 0, PollingKind::First, 0, 5, false)
        .unwrap();
    assert!(polled.is_empty());
    let explicit = topic
        .poll_messages(ConsumerType::ConsumerGroup, 4, 2, 1, PollingKind::First, 0, 5, false)
        .unwrap();
    assert_eq!(explicit.len(), 1);
}

#[test]
fn offsets_are_stored_and_read_through_the_engine() {
    let mut system = System::new(1_000_000);
    system.create_stream(1, "s".to_string()).unwrap();
    system.create_topic(1, 1, "t".to_string(), 2).unwrap();
    system.send_messages(1, 1, KeyKind::PartitionId, 2, &one("a"), 1).unwrap();
    system.send_messages(1, 1, KeyKind::PartitionId, 2, &one("b"), 1).unwrap();
    let store = StoreOffset {
        consumer_type: ConsumerType::Consumer,
        consumer_id: 4,
        stream_id: 1,
        topic_id: 1,
        partition_id: 2,
        offset: 1,
    };
    let get = GetOffset {
        consumer_type: ConsumerType::Consumer,
        consumer_id: 4,
        stream_id: 1,
        topic_id: 1,
        partition_id: 2,
    };
    assert_eq!(system.get_offset(&get), Ok(None));
    assert_eq!(system.store_offset(&store), Ok(()));
    assert_eq!(system.get_offset(&get), Ok(Some(1)));
    assert_eq!(
        system.store_offset(&StoreOffset { offset: 2, ..store }),
        Err(Error::InvalidOffset(2))
    );
    assert_eq!(
        system.store_offset(&StoreOffset { partition_id: 3, ..store }),
        Err(Error::PartitionNotFound(3))
    );
    assert_eq!(
        system.get_offset(&GetOffset { topic_id: 5, ..get }),
        Err(Error::TopicNotFound(5, 1))
    );
}

#[test]
fn deleted_streams_and_topics_are_gone() {
    let mut system = System::new(1_000_000);
    system.create_stream(1, "s".to_string()).unwrap();
    system.create_stream(2, "u".to_string()).unwrap();
    system.create_topic(1, 1, "t".to_string(), 1).unwrap();
    system.create_topic(1, 2, "v".to_string(), 1).unwrap();
    assert_eq!(system.delete_topic(1, 1), Ok(()));
    assert_eq!(system.delete_topic(1, 1), Err(Error::TopicNotFound(1, 1)));
    assert_eq!(system.streams[0].topics.len(), 1);
    assert_eq!(system.delete_stream(1), Ok(()));
    assert_eq!(system.delete_stream(1), Err(Error::StreamNotFound(1)));
    assert_eq!(system.streams.len(), 1);
    assert_eq!(system.streams[0].id, 2);
    assert_eq!(
        system.send_messages(1, 2, KeyKind::Balanced, 0, &one("a"), 1),
        Err(Error::StreamNotFound(1))
    );
}

#[test]
fn consumer_group_with_single_client_polling_messages() {
    let mut system = System::new(1_000_000);
    system.create_stream(1, "s".to_string()).unwrap();
    system.create_topic(1, 1, "t".to_string(), 3).unwrap();
    system.create_consumer_group(1, 1, 1).unwrap();
    let client = system.connect("127.0.0.1:1".to_string()).unwrap();
    system.join_consumer_group(1, 1, 1, client).unwrap();
    for e in 1..=30u32 {
        let p = if e % 3 == 0 { 3 } else { e % 3 };
        let text = format!("message-{}-{}", p, e);
        system.send_messages(1, 1, KeyKind::EntityId, e, &one(&text), 1).unwrap();
    }
    let command = PollMessages {
        stream_id: 1,
        topic_id: 1,
        partition_id: 0,
        kind: PollingKind::Next,
        value: 0,
        count: 1,
    };
    for i in 1..=30u32 {
        let body = system
            .poll_messages(&command, ConsumerType::ConsumerGroup, 1, client, true)
            .unwrap();
        let got = texts(&body);
        assert_eq!(got.len(), 1);
        assert_eq!(got[0].0, ((i - 1) / 3) as u64);
        assert_eq!(got[0].1, format!("message-{}-{}", (i - 1) % 3 + 1, i));
    }
    for _ in 31..=33 {
        let body = system
            .poll_messages(&command, ConsumerType::ConsumerGroup, 1, client, true)
            .unwrap();
        assert!(texts(&body).is_empty());
    }
    let group = &system.streams[0].topics[0].consumer_groups[0];
    assert_eq!(group.members[0].partitions, vec![1, 2, 3]);
}

#[test]
fn polls_leave_messages_alone() {
    let mut system = System::new(1_000_000);
    system.create_stream(1, "s".to_string()).unwrap();
    system.create_topic(1, 1, "t".to_string(), 1).unwrap();
    system.send_messages(1, 1, KeyKind::Balanced, 0, &one("a"), 50).unwrap();
    system.send_messages(1, 1, KeyKind::Balanced, 0, &one("b"), 10).unwrap();
    system.send_messages(1, 1, KeyKind::Balanced, 0, &one("c"), 60).unwrap();
    assert_eq!(
        system.poll_messages(&poll(PollingKind::Next, 0, 0), ConsumerType::Consumer, 1, 1, true),
        Err(Error::InvalidMessagesCount)
    );
    let body = system
        .poll_messages(&poll(PollingKind::Timestamp, 20, 10), ConsumerType::Consumer, 1, 1, false)
        .unwrap();
    let got: Vec<u64> = texts(&body).into_iter().map(|(o, _)| o).collect();
    assert_eq!(got, vec![0, 1, 2]);
    let first = system
        .poll_messages(&poll(PollingKind::Next, 0, 2), ConsumerType::Consumer, 1, 1, false)
        .unwrap();
    let second = system
        .poll_messages(&poll(PollingKind::Next, 0, 2), ConsumerType::Consumer, 1, 1, false)
        .unwrap();
    assert_eq!(first, second);
    let committed = system
        .poll_messages(&poll(PollingKind::Next, 0, 2), ConsumerType::Consumer, 1, 1, true)
        .unwrap();
    assert_eq!(committed, first);
    let later = system
        .poll_messages(&poll(PollingKind::Next, 0, 2), ConsumerType::Consumer, 1, 1, true)
        .unwrap();
    assert_eq!(texts(&later), vec![(2, "c".to_string())]);
    assert_eq!(system.streams[0].topics[0].partitions[0].current_offset, 3);
}
