use streamlog::consumer_type::ConsumerType;
use streamlog::error::Error;
use streamlog::partition::{AppendMessage, Partition};
use streamlog::index::{build_indexes, lookup, read_by_offset, time_lookup, IndexEntry};
use streamlog::poll::PollingKind;

fn batch(payloads: &[&str]) -> Vec<AppendMessage> {
    payloads
        .iter()
        .enumerate()
        .map(|(i, p)| AppendMessage { id: i as u128 + 1, payload: p.as_bytes().to_vec() })
        .collect()
}

fn payloads(messages: &[streamlog::message::Message]) -> Vec<String> {
    messages.iter().map(|m| String::from_utf8(m.payload.clone()).unwrap()).collect()
}

#[test]
fn appended_messages_get_offsets_timestamps_and_checksums() {
    let mut p = Partition::create(1, 1_000_000);
    assert_eq!(p.append_messages(&batch(&["a", "b", "c"]), 77), Ok(()));
    assert_eq!(p.current_offset, 3);
    let all = p.get_messages_by_offset(0, 10);
    assert_eq!(all.iter().map(|m| m.offset).collect::<Vec<_>>(), vec![0, 1, 2]);
    assert!(all.iter().all(|m| m.timestamp == 77));
    assert_eq!(all[0].checksum, 0xe8b7be43);
    assert_eq!(all[1].checksum, crc32fast::hash(b"b"));
    assert_eq!(payloads(&all), vec!["a", "b", "c"]);
}

#[test]
fn append_rejects_bad_batches_whole() {
    let mut p = Partition::create(1, 1_000_000);
    assert_eq!(p.append_messages(&batch(&[]), 1), Err(Error::InvalidMessagesCount));
    assert_eq!(p.append_messages(&batch(&["a", ""]), 1), Err(Error::EmptyMessagePayload));
    let big = vec![AppendMessage { id: 0, payload: vec![1u8; 1_000_001] }];
    assert_eq!(p.append_messages(&big, 1), Err(Error::TooBigMessagePayload));
    let many: Vec<AppendMessage> =
        (0..1001).map(|_| AppendMessage { id: 0, payload: vec![1u8] }).collect();
    assert_eq!(p.append_messages(&many, 1), Err(Error::TooManyMessages));
    assert_eq!(p.current_offset, 0);
    let largest = vec![AppendMessage { id: 0, payload: vec![1u8; 1_000_000] }];
    assert_eq!(p.append_messages(&largest, 1), Ok(()));
}

#[test]
fn segments_roll_when_full() {
    let mut p = Partition::create(1, 256);
    let payload = "x".repeat(40);
    let items: Vec<&str> = (0..10).map(|_| payload.as_str()).collect();
    assert_eq!(p.append_messages(&batch(&items), 5), Ok(()));
    let all = p.poll_messages(ConsumerType::Consumer, 1, PollingKind::Offset, 0, 10, false);
    assert_eq!(all.iter().map(|m| m.offset).collect::<Vec<_>>(), (0..10).collect::<Vec<u64>>());
    assert!(p.segments.len() >= 2);
    assert_eq!(p.segments[0].start_offset, 0);
    let mut next = 0;
    for segment in &p.segments {
        assert_eq!(segment.start_offset, next);
        assert!(segment.size_bytes <= 256);
        next += segment.messages.len() as u64;
    }
    assert_eq!(next, p.current_offset);
    assert_eq!(p.segments[0].messages.len(), 3);
}

#[test]
fn polls_by_kind() {
    let mut p = Partition::create(1, 1_000_000);
    for (i, t) in [10u64, 20, 30, 40, 50].iter().enumerate() {
        let text = format!("m{}", i + 1);
        assert_eq!(p.append_messages(&batch(&[text.as_str()]), *t), Ok(()));
    }
    let c = ConsumerType::Consumer;
    assert_eq!(payloads(&p.poll_messages(c, 1, PollingKind::First, 0, 2, false)), vec!["m1", "m2"]);
    assert_eq!(payloads(&p.poll_messages(c, 1, PollingKind::Last, 0, 2, false)), vec!["m4", "m5"]);
    assert_eq!(p.poll_messages(c, 1, PollingKind::Last, 0, 9, false).len(), 5);
    assert_eq!(payloads(&p.poll_messages(c, 1, PollingKind::Offset, 3, 10, false)), vec!["m4", "m5"]);
    assert_eq!(p.poll_messages(c, 1, PollingKind::Offset, 5, 10, false).len(), 0);
    let since = p.poll_messages(c, 1, PollingKind::Timestamp, 30, 10, false);
    assert_eq!(payloads(&since), vec!["m3", "m4", "m5"]);
    assert_eq!(p.poll_messages(c, 1, PollingKind::Timestamp, 31, 1, false).len(), 1);
    assert_eq!(p.poll_messages(c, 1, PollingKind::First, 0, 0, false).len(), 0);
}

#[test]
fn next_poll_repeats_without_commit_and_advances_with_it() {
    let mut p = Partition::create(1, 1_000_000);
    assert_eq!(p.append_messages(&batch(&["a", "b", "c", "d", "e"]), 1), Ok(()));
    let c = ConsumerType::Consumer;
    let first = p.poll_messages(c, 9, PollingKind::Next, 0, 2, false);
    let second = p.poll_messages(c, 9, PollingKind::Next, 0, 2, false);
    assert_eq!(payloads(&first), payloads(&second));
    assert_eq!(p.get_offset(c, 9), None);
    let third = p.poll_messages(c, 9, PollingKind::Next, 0, 2, true);
    assert_eq!(payloads(&third), vec!["a", "b"]);
    assert_eq!(p.get_offset(c, 9), Some(1));
    let fourth = p.poll_messages(c, 9, PollingKind::Next, 0, 2, true);
    assert_eq!(payloads(&fourth), vec!["c", "d"]);
    assert_eq!(p.get_offset(ConsumerType::ConsumerGroup, 9), None);
}

#[test]
fn stored_offsets_must_name_a_message() {
    let mut p = Partition::create(1, 1_000_000);
    assert_eq!(p.append_messages(&batch(&["a", "b"]), 1), Ok(()));
    assert_eq!(p.store_offset(ConsumerType::Consumer, 1, 2), Err(Error::InvalidOffset(2)));
    assert_eq!(p.store_offset(ConsumerType::Consumer, 1, 0), Ok(()));
    assert_eq!(p.get_offset(ConsumerType::Consumer, 1), Some(0));
    let next = p.poll_messages(ConsumerType::Consumer, 1, PollingKind::Next, 0, 5, false);
    assert_eq!(payloads(&next), vec!["b"]);
}

#[test]
fn recovery_truncates_at_a_corrupted_message() {
    let mut p = Partition::create(1, 1_000_000);
    assert_eq!(p.append_messages(&batch(&["aa", "bb", "cc", "dd", "ee"]), 3), Ok(()));
    let mut log = p.log_bytes();
    let recovered = Partition::recover(1, 1_000_000, &log);
    assert_eq!(recovered.current_offset, 5);
    let size = 40 + 2;
    log[3 * size + 32] ^= 0xff;
    let recovered = Partition::recover(1, 1_000_000, &log);
    assert_eq!(recovered.current_offset, 3);
    let mut r = recovered;
    let all = r.poll_messages(ConsumerType::Consumer, 1, PollingKind::First, 0, 10, false);
    assert_eq!(payloads(&all), vec!["aa", "bb", "cc"]);
}

#[test]
fn sparse_index_points_into_the_log() {
    let mut p = Partition::create(1, 1_000_000);
    let items: Vec<String> = (0..20).map(|i| format!("message-{:02}", i)).collect();
    let refs: Vec<&str> = items.iter().map(|s| s.as_str()).collect();
    assert_eq!(p.append_messages(&batch(&refs), 100), Ok(()));
    let log = p.log_bytes();
    let (index, times) = build_indexes(&p.segments[0].messages, 200);
    let size = 40 + 10;
    assert_eq!(index.len(), 5);
    assert_eq!(index[0], IndexEntry { relative_offset: 3, position: 3 * size });
    assert_eq!(index[1].relative_offset, 7);
    assert_eq!(times[0].relative_offset, 3);
    assert_eq!(times[0].timestamp, 100);
    assert_eq!(lookup(&index, 2), None);
    assert_eq!(lookup(&index, 9), Some(1));
    assert_eq!(lookup(&index, 100), Some(4));
    assert_eq!(time_lookup(&times, 99), None);
    assert_eq!(time_lookup(&times, 100), Some(4));
    let read = read_by_offset(&log, &index, 0, 9, 3);
    assert_eq!(payloads(&read), vec!["message-09", "message-10", "message-11"]);
    assert_eq!(read_by_offset(&log, &index, 0, 19, 5).len(), 1);
    assert_eq!(read_by_offset(&log, &index, 0, 20, 5).len(), 0);
}
