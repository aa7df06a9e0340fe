use crate::checksum::{checksum, crc32_of};
use crate::consumer_type::ConsumerType;
use crate::poll::PollingKind;
use crate::error::Error;
use crate::message::{
    decode_message, decode_one, encode_all, lemma_decode_one, lemma_encode_all_push, views, Message, MessageView, MAX_PAYLOAD_SIZE, MESSAGE_HEADER_SIZE,
};
use std::collections::HashMap;
use vstd::prelude::*;

verus! {

broadcast use vstd::std_specs::hash::group_hash_axioms;

/// The most messages one append may carry.
pub const MAX_BATCH_SIZE: usize = 1000;

/// A message handed to a partition by a producer: its id and payload.
#[derive(Debug)]
pub struct AppendMessage {
    pub id: u128,
    pub payload: Vec<u8>,
}

/// A contiguous run of a partition's messages, stored together.
pub struct Segment {
    pub start_offset: u64,
    pub size_bytes: u64,
    pub messages: Vec<Message>,
}

impl Segment {
    pub open spec fn msgs(self) -> Seq<MessageView> {
        views(self.messages@)
    }

    /// The byte size is that of the messages, and it stays within the limit
    /// unless one message alone exceeds it.
    pub open spec fn fits(self, max_size: u64) -> bool {
        &&& self.size_bytes == bytes_of(self.msgs())
        &&& (self.size_bytes <= max_size || self.messages@.len() == 1)
    }
}

/// The bytes that messages take in a segment.
pub open spec fn bytes_of(ms: Seq<MessageView>) -> nat
    decreases ms.len(),
{
    if ms.len() == 0 {
        0
    } else {
        bytes_of(ms.drop_last()) + ms.last().size()
    }
}

/// The messages of the segments, in order.
pub open spec fn flat(segs: Seq<Segment>) -> Seq<MessageView>
    decreases segs.len(),
{
    if segs.len() == 0 {
        Seq::empty()
    } else {
        flat(segs.drop_last()) + segs.last().msgs()
    }
}

/// The number of messages of the segments, added up.
pub open spec fn total_count(segs: Seq<Segment>) -> nat
    decreases segs.len(),
{
    if segs.len() == 0 {
        0
    } else {
        total_count(segs.drop_last()) + segs.last().messages@.len()
    }
}

/// A message as the partition keeps it at position `k`.
pub open spec fn stored_at(m: MessageView, k: int) -> bool {
    &&& m.offset == k
    &&& m.checksum == crc32_of(m.payload)
    &&& m.consistent()
    &&& 1 <= m.payload.len() <= MAX_PAYLOAD_SIZE
}

/// What a payload is rejected for, if anything.
pub open spec fn payload_error(m: AppendMessage) -> Option<Error> {
    if m.payload@.len() == 0 {
        Some(Error::EmptyMessagePayload)
    } else if m.payload@.len() > MAX_PAYLOAD_SIZE {
        Some(Error::TooBigMessagePayload)
    } else {
        None
    }
}

/// The error of the first rejected payload of a batch.
pub open spec fn batch_error(batch: Seq<AppendMessage>) -> Option<Error>
    decreases batch.len(),
{
    if batch.len() == 0 {
        None
    } else {
        match batch_error(batch.drop_last()) {
            Some(e) => Some(e),
            None => payload_error(batch.last()),
        }
    }
}

/// What an append fails with, if it fails.
pub open spec fn append_error(batch: Seq<AppendMessage>) -> Option<Error> {
    if batch.len() == 0 {
        Some(Error::InvalidMessagesCount)
    } else if batch.len() > MAX_BATCH_SIZE {
        Some(Error::TooManyMessages)
    } else {
        batch_error(batch)
    }
}

/// The messages a batch becomes when appended from offset `start` at time `timestamp`.
pub open spec fn appended(batch: Seq<AppendMessage>, start: nat, timestamp: u64) -> Seq<
    MessageView,
> {
    Seq::new(
        batch.len(),
        |k: int|
            MessageView {
                offset: (start + k) as u64,
                timestamp,
                id: batch[k].id,
                checksum: crc32_of(batch[k].payload@),
                length: batch[k].payload@.len() as u32,
                payload: batch[k].payload@,
            },
    )
}

/// The messages a run of batches becomes when appended one after another to an empty
/// partition, each batch with its own timestamp.
pub open spec fn appended_all(batches: Seq<(Seq<AppendMessage>, u64)>) -> Seq<MessageView>
    decreases batches.len(),
{
    if batches.len() == 0 {
        Seq::empty()
    } else {
        let prev = appended_all(batches.drop_last());
        prev + appended(batches.last().0, prev.len(), batches.last().1)
    }
}

/// The messages of a run of batches, in the order they were sent.
pub open spec fn sent(batches: Seq<(Seq<AppendMessage>, u64)>) -> Seq<AppendMessage>
    decreases batches.len(),
{
    if batches.len() == 0 {
        Seq::empty()
    } else {
        sent(batches.drop_last()) + batches.last().0
    }
}

/// The key under which a consumer's offset is stored.
pub open spec fn consumer_key(kind: ConsumerType, consumer_id: u32) -> u64 {
    ((kind.code() as u64) << 32u64) | (consumer_id as u64)
}

pub fn consumer_key_of(kind: ConsumerType, consumer_id: u32) -> (r: u64)
    ensures
        r == consumer_key(kind, consumer_id),
{
    ((kind.as_code() as u64) << 32u64) | (consumer_id as u64)
}

/// Up to `count` messages from offset `start` on; none when `start` is past the end.
pub open spec fn range(ms: Seq<MessageView>, start: nat, count: nat) -> Seq<MessageView> {
    if start >= ms.len() {
        Seq::empty()
    } else if start + count <= ms.len() {
        ms.subrange(start as int, (start + count) as int)
    } else {
        ms.subrange(start as int, ms.len() as int)
    }
}

/// The position of the first message stamped at or after `t`; the length when there is none.
pub open spec fn first_since(ms: Seq<MessageView>, t: u64) -> nat
    decreases ms.len(),
{
    if ms.len() == 0 {
        0
    } else if ms[0].timestamp >= t {
        0
    } else {
        1 + first_since(ms.drop_first(), t)
    }
}

/// The smaller of two numbers.
pub open spec fn min_nat(a: nat, b: nat) -> nat {
    if a <= b {
        a
    } else {
        b
    }
}

/// What a poll of `count` messages returns, given the partition's messages and stored offsets.
pub open spec fn poll_result(
    ms: Seq<MessageView>,
    stored: Map<u64, u64>,
    key: u64,
    kind: PollingKind,
    value: u64,
    count: nat,
) -> Seq<MessageView> {
    match kind {
        PollingKind::First => range(ms, 0, count),
        PollingKind::Last => range(ms, (ms.len() - min_nat(count, ms.len())) as nat, count),
        PollingKind::Next => if stored.contains_key(key) {
            range(ms, (stored[key] + 1) as nat, count)
        } else {
            range(ms, 0, count)
        },
        PollingKind::Offset => range(ms, value as nat, count),
        PollingKind::Timestamp => range(ms, first_since(ms, value), count),
    }
}

/// The stored offsets after a poll returned `r`: with auto-commit, a non-empty result
/// stores the offset of its last message.
pub open spec fn after_poll(stored: Map<u64, u64>, key: u64, r: Seq<MessageView>, auto_commit: bool) -> Map<
    u64,
    u64,
> {
    if auto_commit && r.len() > 0 {
        stored.insert(key, r.last().offset)
    } else {
        stored
    }
}

/// The messages of a log that hold up, read from its start: each must decode, carry the
/// next offset and a payload of 1 to 1,000,000 bytes whose CRC-32 is its checksum. The
/// first one that does not ends the log, with everything after it.
pub open spec fn recovered(b: Seq<u8>, next: nat) -> Seq<MessageView>
    decreases b.len(),
{
    match decode_one(b) {
        None => Seq::empty(),
        Some((m, used)) => if 0 < used <= b.len() && next < u64::MAX && stored_at(m, next as int) {
            seq![m] + recovered(b.skip(used as int), next + 1)
        } else {
            Seq::empty()
        },
    }
}

/// An ordered log of messages split into segments; the last segment takes appends.
pub struct Partition {
    pub id: u32,
    pub max_segment_size: u64,
    pub current_offset: u64,
    pub segments: Vec<Segment>,
    pub offsets: HashMap<u64, u64>,
}

impl Partition {
    /// All messages of the partition, in offset order.
    pub open spec fn messages(&self) -> Seq<MessageView> {
        flat(self.segments@)
    }

    /// The stored consumer offsets.
    pub open spec fn stored(&self) -> Map<u64, u64> {
        self.offsets@
    }

    pub open spec fn wf(&self) -> bool {
        &&& self.segments@.len() >= 1
        &&& forall|i: int|
            0 <= i < self.segments@.len() ==> (#[trigger] self.segments@[i]).start_offset == flat(
                self.segments@.take(i),
            ).len()
        &&& forall|i: int|
            0 <= i < self.segments@.len() ==> (#[trigger] self.segments@[i]).fits(
                self.max_segment_size,
            )
        &&& forall|i: int|
            0 <= i < self.segments@.len() - 1 ==> (#[trigger] self.segments@[i]).messages@.len()
                > 0
        &&& self.current_offset == self.messages().len()
        &&& forall|k: int| 0 <= k < self.messages().len() ==> stored_at(#[trigger] self.messages()[k], k)
        &&& forall|key: u64| #[trigger]
            self.offsets@.contains_key(key) ==> self.offsets@[key] < self.current_offset
    }

    /// An empty partition with one empty segment starting at offset 0.
    pub fn create(id: u32, max_segment_size: u64) -> (r: Partition)
        ensures
            r.wf(),
            r.id == id,
            r.max_segment_size == max_segment_size,
            r.messages() == Seq::<MessageView>::empty(),
            r.stored() == Map::<u64, u64>::empty(),
    {
        let mut segments: Vec<Segment> = Vec::new();
        segments.push(Segment { start_offset: 0, size_bytes: 0, messages: Vec::new() });
        let r = Partition {
            id,
            max_segment_size,
            current_offset: 0,
            segments,
            offsets: HashMap::new(),
        };
        proof {
            assert(r.segments@.drop_last() =~= Seq::<Segment>::empty());
            assert(r.segments@.take(0) =~= Seq::<Segment>::empty());
            assert(r.segments@[0].msgs() =~= Seq::<MessageView>::empty());
            assert(flat(r.segments@.drop_last()) == Seq::<MessageView>::empty());
            assert(r.messages() =~= Seq::<MessageView>::empty());
        }
        r
    }

    /// Rebuilds a partition from its log, keeping the messages before the first one that
    /// is damaged or out of sequence.
    pub fn recover(id: u32, max_segment_size: u64, log: &[u8]) -> (r: Partition)
        ensures
            r.wf(),
            r.id == id,
            r.max_segment_size == max_segment_size,
            r.messages() == recovered(log@, 0),
            r.stored() == Map::<u64, u64>::empty(),
    {
        let mut p = Partition::create(id, max_segment_size);
        let mut at: usize = 0;
        let n = log.len();
        assert(log@.skip(0) =~= log@);
        assert(p.messages() + recovered(log@, 0) =~= recovered(log@, 0));
        while at < n
            invariant
                p.wf(),
                p.id == id,
                p.max_segment_size == max_segment_size,
                p.stored() == Map::<u64, u64>::empty(),
                n == log@.len(),
                at <= n,
                p.segments@.len() <= p.messages().len() + 1,
                p.messages().len() * 40 <= at,
                recovered(log@, 0) == p.messages() + recovered(
                    log@.skip(at as int),
                    p.current_offset as nat,
                ),
            decreases n - at,
        {
            let ghost rest = log@.skip(at as int);
            let ghost before = p.messages();
            match decode_message(log, at) {
                None => {
                    assert(recovered(rest, p.current_offset as nat) =~= Seq::<MessageView>::empty());
                    assert(before + Seq::<MessageView>::empty() =~= before);
                    return p;
                },
                Some((m, next)) => {
                    let sum = checksum(m.payload.as_slice());
                    let len = m.payload.len();
                    if m.offset != p.current_offset || p.current_offset == u64::MAX || sum != m.checksum
                        || len == 0 || len > MAX_PAYLOAD_SIZE as usize || m.length as usize != len {
                        assert(recovered(rest, p.current_offset as nat) =~= Seq::<
                            MessageView,
                        >::empty());
                        assert(before + Seq::<MessageView>::empty() =~= before);
                        return p;
                    }
                    proof {
                        assert(rest.skip((next - at) as int) =~= log@.skip(next as int));
                        assert(before + (seq![m@] + recovered(
                            log@.skip(next as int),
                            (p.current_offset + 1) as nat,
                        )) =~= before.push(m@) + recovered(
                            log@.skip(next as int),
                            (p.current_offset + 1) as nat,
                        ));
                        assert(next - at >= 40) by {
                            reveal(decode_one);
                        }
                    }
                    p.add_message(m);
                    at = next;
                },
            }
        }
        proof {
            reveal(decode_one);
            assert(recovered(log@.skip(at as int), p.current_offset as nat) =~= Seq::<
                MessageView,
            >::empty());
            assert(p.messages() + Seq::<MessageView>::empty() =~= p.messages());
        }
        p
    }

    /// The log of the partition: its messages one after another, as segments store them.
    pub fn log_bytes(&self) -> (r: Vec<u8>)
        requires
            self.wf(),
        ensures
            r@ == encode_all(self.messages()),
    {
        let mut out: Vec<u8> = Vec::new();
        let mut o: u64 = 0;
        while o < self.current_offset
            invariant
                self.wf(),
                o <= self.current_offset,
                out@ == encode_all(self.messages().take(o as int)),
            decreases self.current_offset - o,
        {
            let m = self.message_at(o);
            m.extend(&mut out);
            proof {
                let ms = self.messages();
                lemma_encode_all_push(ms.take(o as int), ms[o as int]);
                assert(ms.take(o + 1) =~= ms.take(o as int).push(ms[o as int]));
            }
            o = o + 1;
        }
        assert(self.messages().take(o as int) =~= self.messages());
        out
    }

    /// Closes the tail segment and opens an empty one after it.
    fn roll(&mut self)
        requires
            old(self).wf(),
            old(self).segments@.last().messages@.len() > 0,
            old(self).segments@.len() < usize::MAX,
        ensures
            final(self).wf(),
            final(self).messages() == old(self).messages(),
            final(self).segments@.last().messages@.len() == 0,
            final(self).segments@.len() == old(self).segments@.len() + 1,
            final(self).id == old(self).id,
            final(self).max_segment_size == old(self).max_segment_size,
            final(self).current_offset == old(self).current_offset,
            final(self).offsets == old(self).offsets,
    {
        let ghost segs = self.segments@;
        let tail = Segment {
            start_offset: self.current_offset,
            size_bytes: 0,
            messages: Vec::new(),
        };
        self.segments.push(tail);
        proof {
            let n = segs.len();
            let s2 = self.segments@;
            assert(s2.drop_last() =~= segs);
            assert(s2.last().msgs() =~= Seq::<MessageView>::empty());
            assert(flat(s2) =~= flat(segs));
            assert forall|i: int| 0 <= i < s2.len() implies (#[trigger] s2[i]).start_offset == flat(
                s2.take(i),
            ).len() by {
                if i < n {
                    assert(s2.take(i) =~= segs.take(i));
                    assert(s2[i] == segs[i]);
                } else {
                    assert(s2.take(i) =~= segs);
                }
            }
            assert forall|i: int| 0 <= i < s2.len() implies (#[trigger] s2[i]).fits(
                self.max_segment_size,
            ) by {
                if i < n {
                    assert(s2[i] == segs[i]);
                } else {
                    assert(bytes_of(s2[i].msgs()) == 0);
                }
            }
            assert forall|i: int| 0 <= i < s2.len() - 1 implies (#[trigger] s2[i]).messages@.len()
                > 0 by {
                assert(s2[i] == segs[i]);
            }
        }
    }

    /// Adds a message at the end of the tail segment.
    fn push_to_tail(&mut self, m: Message)
        requires
            old(self).wf(),
            stored_at(m@, old(self).current_offset as int),
            old(self).current_offset < u64::MAX,
            old(self).segments@.last().messages@.len() == 0 || old(self).segments@.last().size_bytes
                + m@.size() <= old(self).max_segment_size,
        ensures
            final(self).wf(),
            final(self).messages() == old(self).messages().push(m@),
            final(self).current_offset == old(self).current_offset + 1,
            final(self).segments@.len() == old(self).segments@.len(),
            final(self).id == old(self).id,
            final(self).max_segment_size == old(self).max_segment_size,
            final(self).offsets == old(self).offsets,
    {
        let ghost segs = self.segments@;
        let ghost mv = m@;
        let mut tail = self.segments.pop().unwrap();
        let ghost old_tail_msgs = tail.msgs();
        proof {
            assert(segs.drop_last() =~= self.segments@);
            assert(segs.last().fits(self.max_segment_size));
            assert(m@.size() <= MESSAGE_HEADER_SIZE + MAX_PAYLOAD_SIZE);
        }
        tail.size_bytes = tail.size_bytes + 40 + m.payload.len() as u64;
        tail.messages.push(m);
        proof {
            assert(tail.msgs() =~= old_tail_msgs.push(mv));
            assert(tail.msgs().drop_last() =~= old_tail_msgs);
        }
        self.segments.push(tail);
        self.current_offset = self.current_offset + 1;
        proof {
            let n = segs.len();
            let s2 = self.segments@;
            assert(s2.drop_last() =~= segs.drop_last());
            assert(flat(s2) =~= flat(segs).push(mv));
            assert forall|i: int| 0 <= i < s2.len() implies (#[trigger] s2[i]).start_offset == flat(
                s2.take(i),
            ).len() by {
                assert(s2.take(i) =~= segs.take(i));
                if i < n - 1 {
                    assert(s2[i] == segs[i]);
                } else {
                    assert(segs[i].start_offset == flat(segs.take(i)).len());
                }
            }
            assert forall|i: int| 0 <= i < s2.len() implies (#[trigger] s2[i]).fits(
                self.max_segment_size,
            ) by {
                if i < n - 1 {
                    assert(s2[i] == segs[i]);
                }
            }
            assert forall|i: int| 0 <= i < s2.len() - 1 implies (#[trigger] s2[i]).messages@.len()
                > 0 by {
                assert(s2[i] == segs[i]);
            }
            let all = flat(s2);
            assert forall|k: int| 0 <= k < all.len() implies stored_at(#[trigger] all[k], k) by {
                if k < all.len() - 1 {
                    assert(all[k] == flat(segs)[k]);
                }
            }
        }
    }

    /// Adds a message at the end of the partition, opening a new segment when the tail
    /// segment holds messages and this one would take it past the size limit.
    fn add_message(&mut self, m: Message)
        requires
            old(self).wf(),
            stored_at(m@, old(self).current_offset as int),
            old(self).current_offset < u64::MAX,
            old(self).segments@.len() < usize::MAX,
        ensures
            final(self).wf(),
            final(self).messages() == old(self).messages().push(m@),
            final(self).current_offset == old(self).current_offset + 1,
            final(self).segments@.len() <= old(self).segments@.len() + 1,
            final(self).id == old(self).id,
            final(self).max_segment_size == old(self).max_segment_size,
            final(self).offsets == old(self).offsets,
    {
        let size: u64 = 40 + m.payload.len() as u64;
        let last = self.segments.len() - 1;
        let tail_len = self.segments[last].messages.len();
        let tail_size = self.segments[last].size_bytes;
        if tail_len > 0 && (tail_size > self.max_segment_size || size > self.max_segment_size
            - tail_size) {
            self.roll();
        }
        self.push_to_tail(m);
    }

    /// Appends a batch of messages stamped with `timestamp`, assigning the next offsets.
    /// The whole batch is rejected if it is empty, holds more than 1000 messages, or a
    /// payload is empty or over 1,000,000 bytes.
    pub fn append_messages(&mut self, batch: &Vec<AppendMessage>, timestamp: u64) -> (r: Result<
        (),
        Error,
    >)
        requires
            old(self).wf(),
            old(self).current_offset + batch@.len() <= u64::MAX,
            old(self).segments@.len() + batch@.len() <= usize::MAX,
        ensures
            final(self).wf(),
            final(self).id == old(self).id,
            final(self).max_segment_size == old(self).max_segment_size,
            final(self).stored() == old(self).stored(),
            match append_error(batch@) {
                Some(e) => r == Err::<(), Error>(e) && final(self).messages() == old(
                    self,
                ).messages(),
                None => r.is_ok() && final(self).messages() == old(self).messages() + appended(
                    batch@,
                    old(self).current_offset as nat,
                    timestamp,
                ),
            },
    {
        if batch.len() == 0 {
            return Err(Error::InvalidMessagesCount);
        }
        if batch.len() > MAX_BATCH_SIZE {
            return Err(Error::TooManyMessages);
        }
        match check_batch(batch) {
            Some(e) => {
                return Err(e);
            },
            None => {},
        }
        let ghost before = self.messages();
        let ghost start = self.current_offset as nat;
        let mut i: usize = 0;
        while i < batch.len()
            invariant
                self.wf(),
                i <= batch@.len(),
                batch_error(batch@).is_none(),
                start + batch@.len() <= u64::MAX,
                self.current_offset == start + i,
                self.segments@.len() <= old(self).segments@.len() + i,
                old(self).segments@.len() + batch@.len() <= usize::MAX,
                self.messages() == before + appended(batch@, start, timestamp).take(i as int),
                self.id == old(self).id,
                self.max_segment_size == old(self).max_segment_size,
                self.offsets == old(self).offsets,
            decreases batch@.len() - i,
        {
            proof {
                lemma_batch_ok_at(batch@, i as int);
            }
            let payload = batch[i].payload.clone();
            assert(payload@ =~= batch@[i as int].payload@);
            let sum = checksum(payload.as_slice());
            let m = Message::new(self.current_offset, timestamp, batch[i].id, sum, payload);
            self.add_message(m);
            proof {
                let a = appended(batch@, start, timestamp);
                assert(a.take(i + 1) =~= a.take(i as int).push(a[i as int]));
            }
            i = i + 1;
        }
        assert(appended(batch@, start, timestamp).take(i as int) =~= appended(
            batch@,
            start,
            timestamp,
        ));
        Ok(())
    }

    /// The index of the segment whose offset range holds `o`.
    fn find_segment(&self, o: u64) -> (i: usize)
        requires
            self.wf(),
            o < self.current_offset,
        ensures
            i < self.segments@.len(),
            self.segments@[i as int].start_offset <= o,
            o < self.segments@[i as int].start_offset + self.segments@[i as int].messages@.len(),
    {
        let ghost segs = self.segments@;
        proof {
            lemma_segment_starts(segs);
            assert(segs.take(0) =~= Seq::<Segment>::empty());
            assert(segs[0].start_offset == 0);
            let n = segs.len();
            assert(segs =~= segs.take(n - 1).push(segs[n - 1]));
            assert(segs.take(n - 1).push(segs[n - 1]).drop_last() =~= segs.take(n - 1));
            assert(segs[n - 1].start_offset + segs[n - 1].messages@.len() == self.current_offset);
        }
        let mut i: usize = self.segments.len() - 1;
        while self.segments[i].start_offset > o
            invariant
                segs == self.segments@,
                i < segs.len(),
                segs[0].start_offset == 0,
                forall|j: int| i < j < segs.len() ==> (#[trigger] segs[j]).start_offset > o,
            decreases i,
        {
            i = i - 1;
        }
        proof {
            if i < segs.len() - 1 {
                assert(segs[i + 1].start_offset > o);
            }
        }
        i
    }

    /// The message at offset `o`, found in the segment whose range holds it.
    pub fn message_at(&self, o: u64) -> (r: &Message)
        requires
            self.wf(),
            o < self.current_offset,
        ensures
            r@ == self.messages()[o as int],
    {
        let i = self.find_segment(o);
        let len = self.segments[i].messages.len();
        assert(o - self.segments@[i as int].start_offset < len);
        let k = (o - self.segments[i].start_offset) as usize;
        proof {
            let segs = self.segments@;
            assert(segs[i as int].start_offset == flat(segs.take(i as int)).len());
            lemma_flat_index(segs, i as int, k as int);
            assert(segs[i as int].msgs()[k as int] == segs[i as int].messages@[k as int]@);
        }
        &self.segments[i].messages[k]
    }

    /// Up to `count` messages from offset `start` on.
    pub fn get_messages_by_offset(&self, start: u64, count: u32) -> (r: Vec<Message>)
        requires
            self.wf(),
        ensures
            views(r@) == range(self.messages(), start as nat, count as nat),
    {
        let mut out: Vec<Message> = Vec::new();
        if start >= self.current_offset {
            return out;
        }
        let end: u64 = if (count as u64) <= self.current_offset - start {
            start + count as u64
        } else {
            self.current_offset
        };
        let mut o: u64 = start;
        while o < end
            invariant
                self.wf(),
                start <= o <= end,
                end <= self.current_offset,
                views(out@) == self.messages().subrange(start as int, o as int),
            decreases end - o,
        {
            let m = self.message_at(o).copy();
            let ghost before = views(out@);
            out.push(m);
            assert(views(out@) =~= before.push(m@));
            o = o + 1;
            assert(views(out@) =~= self.messages().subrange(start as int, o as int));
        }
        out
    }

    /// Up to `count` messages from the first one stamped at or after `t`.
    pub fn get_messages_by_timestamp(&self, t: u64, count: u32) -> (r: Vec<Message>)
        requires
            self.wf(),
        ensures
            views(r@) == range(self.messages(), first_since(self.messages(), t), count as nat),
    {
        let mut o: u64 = 0;
        while o < self.current_offset && self.message_at(o).timestamp < t
            invariant
                self.wf(),
                o <= self.current_offset,
                forall|k: int| 0 <= k < o ==> (#[trigger] self.messages()[k]).timestamp < t,
            decreases self.current_offset - o,
        {
            o = o + 1;
        }
        proof {
            lemma_first_since(self.messages(), t, o as int);
        }
        self.get_messages_by_offset(o, count)
    }

    /// The offset stored for a consumer, if any.
    pub fn get_offset(&self, consumer_type: ConsumerType, consumer_id: u32) -> (r: Option<u64>)
        requires
            self.wf(),
        ensures
            r == if self.stored().contains_key(consumer_key(consumer_type, consumer_id)) {
                Some(self.stored()[consumer_key(consumer_type, consumer_id)])
            } else {
                None::<u64>
            },
    {
        let key = consumer_key_of(consumer_type, consumer_id);
        match self.offsets.get(&key) {
            Some(v) => Some(*v),
            None => None,
        }
    }

    /// Stores a consumer's offset; it must name a message of the partition.
    pub fn store_offset(&mut self, consumer_type: ConsumerType, consumer_id: u32, offset: u64) -> (r:
        Result<(), Error>)
        requires
            old(self).wf(),
        ensures
            final(self).wf(),
            final(self).messages() == old(self).messages(),
            final(self).id == old(self).id,
            if offset >= old(self).current_offset {
                r == Err::<(), Error>(Error::InvalidOffset(offset)) && final(self).stored() == old(
                    self,
                ).stored()
            } else {
                r.is_ok() && final(self).stored() == old(self).stored().insert(
                    consumer_key(consumer_type, consumer_id),
                    offset,
                )
            },
    {
        if offset >= self.current_offset {
            return Err(Error::InvalidOffset(offset));
        }
        let key = consumer_key_of(consumer_type, consumer_id);
        self.offsets.insert(key, offset);
        Ok(())
    }

    /// Polls up to `count` messages; with `auto_commit`, a non-empty result stores the
    /// offset of its last message for the consumer.
    pub fn poll_messages(
        &mut self,
        consumer_type: ConsumerType,
        consumer_id: u32,
        kind: PollingKind,
        value: u64,
        count: u32,
        auto_commit: bool,
    ) -> (r: Vec<Message>)
        requires
            old(self).wf(),
        ensures
            final(self).wf(),
            final(self).messages() == old(self).messages(),
            final(self).id == old(self).id,
            final(self).max_segment_size == old(self).max_segment_size,
            final(self).current_offset == old(self).current_offset,
            final(self).segments == old(self).segments,
            views(r@) == poll_result(
                old(self).messages(),
                old(self).stored(),
                consumer_key(consumer_type, consumer_id),
                kind,
                value,
                count as nat,
            ),
            final(self).stored() == after_poll(
                old(self).stored(),
                consumer_key(consumer_type, consumer_id),
                views(r@),
                auto_commit,
            ),
    {
        let r = match kind {
            PollingKind::First => self.get_messages_by_offset(0, count),
            PollingKind::Last => {
                let n = if (count as u64) < self.current_offset {
                    count as u64
                } else {
                    self.current_offset
                };
                self.get_messages_by_offset(self.current_offset - n, count)
            },
            PollingKind::Next => match self.get_offset(consumer_type, consumer_id) {
                Some(v) => self.get_messages_by_offset(v + 1, count),
                None => self.get_messages_by_offset(0, count),
            },
            PollingKind::Offset => self.get_messages_by_offset(value, count),
            PollingKind::Timestamp => self.get_messages_by_timestamp(value, count),
        };
        if auto_commit && r.len() > 0 {
            let last = r[r.len() - 1].offset;
            proof {
                let ms = self.messages();
                let rv = views(r@);
                assert(rv.last() == r@[r@.len() - 1]@);
                assert(rv == poll_result(
                    ms,
                    self.stored(),
                    consumer_key(consumer_type, consumer_id),
                    kind,
                    value,
                    count as nat,
                ));
                lemma_poll_result_members(ms, self.stored(), consumer_key(consumer_type, consumer_id), kind, value, count as nat);
                assert(rv.contains(rv.last()));
                assert(ms.contains(rv.last()));
                let idx = choose|idx: int| 0 <= idx < ms.len() && ms[idx] == rv.last();
                assert(stored_at(ms[idx], idx));
                assert(last < self.current_offset);
            }
            let key = consumer_key_of(consumer_type, consumer_id);
            self.offsets.insert(key, last);
        }
        r
    }
}

/// The error of the first rejected payload, if any.
fn check_batch(batch: &Vec<AppendMessage>) -> (r: Option<Error>)
    ensures
        r == batch_error(batch@),
{
    let mut j: usize = 0;
    while j < batch.len()
        invariant
            j <= batch@.len(),
            batch_error(batch@.take(j as int)).is_none(),
        decreases batch@.len() - j,
    {
        assert(batch@.take(j + 1).drop_last() =~= batch@.take(j as int));
        let len = batch[j].payload.len();
        if len == 0 {
            proof {
                lemma_batch_error_prefix(batch@, j as int + 1);
            }
            return Some(Error::EmptyMessagePayload);
        }
        if len > MAX_PAYLOAD_SIZE as usize {
            proof {
                lemma_batch_error_prefix(batch@, j as int + 1);
            }
            return Some(Error::TooBigMessagePayload);
        }
        j = j + 1;
    }
    assert(batch@.take(batch@.len() as int) =~= batch@);
    None
}

/// The messages of a concatenation of segment runs are those of each run.
pub proof fn lemma_flat_concat(a: Seq<Segment>, b: Seq<Segment>)
    ensures
        flat(a + b) == flat(a) + flat(b),
    decreases b.len(),
{
    if b.len() == 0 {
        assert(a + b =~= a);
        assert(flat(a) + flat(b) =~= flat(a));
    } else {
        lemma_flat_concat(a, b.drop_last());
        assert((a + b).drop_last() =~= a + b.drop_last());
        assert(flat(a + b) =~= flat(a) + flat(b));
    }
}

/// The `k`-th message of segment `i` is the partition's message at the segment's start plus `k`.
pub proof fn lemma_flat_index(segs: Seq<Segment>, i: int, k: int)
    requires
        0 <= i < segs.len(),
        0 <= k < segs[i].messages@.len(),
    ensures
        flat(segs)[flat(segs.take(i)).len() + k] == segs[i].msgs()[k],
        flat(segs.take(i)).len() + segs[i].messages@.len() <= flat(segs).len(),
{
    let head = segs.take(i + 1);
    let rest = segs.skip(i + 1);
    assert(segs =~= head + rest);
    lemma_flat_concat(head, rest);
    assert(head.drop_last() =~= segs.take(i));
    assert(head.last() == segs[i]);
}

/// Each segment starts where the one before it ends.
pub proof fn lemma_segment_starts(segs: Seq<Segment>)
    requires
        forall|i: int|
            0 <= i < segs.len() ==> (#[trigger] segs[i]).start_offset == flat(segs.take(i)).len(),
    ensures
        forall|j: int|
            0 <= j < segs.len() - 1 ==> (#[trigger] segs[j + 1]).start_offset == segs[j].start_offset
                + segs[j].messages@.len(),
{
    assert forall|j: int| 0 <= j < segs.len() - 1 implies (#[trigger] segs[j + 1]).start_offset
        == segs[j].start_offset + segs[j].messages@.len() by {
        assert(segs.take(j + 1).drop_last() =~= segs.take(j));
        assert(segs.take(j + 1).last() == segs[j]);
        assert(segs[j + 1].start_offset == flat(segs.take(j + 1)).len());
    }
}

/// At most as many messages as were asked for.
pub proof fn lemma_poll_result_len(
    ms: Seq<MessageView>,
    stored: Map<u64, u64>,
    key: u64,
    kind: PollingKind,
    value: u64,
    count: nat,
)
    ensures
        poll_result(ms, stored, key, kind, value, count).len() <= count,
{
}

/// Every message a poll returns is a message of the partition.
pub proof fn lemma_poll_result_members(
    ms: Seq<MessageView>,
    stored: Map<u64, u64>,
    key: u64,
    kind: PollingKind,
    value: u64,
    count: nat,
)
    ensures
        forall|x: MessageView| #[trigger]
            poll_result(ms, stored, key, kind, value, count).contains(x) ==> ms.contains(x),
{
    let r = poll_result(ms, stored, key, kind, value, count);
    assert forall|x: MessageView| #[trigger] r.contains(x) implies ms.contains(x) by {
        let j = choose|j: int| 0 <= j < r.len() && r[j] == x;
        {
            let start: int = match kind {
                PollingKind::First => 0,
                PollingKind::Last => ms.len() - min_nat(count, ms.len()),
                PollingKind::Next => if stored.contains_key(key) {
                    stored[key] + 1
                } else {
                    0
                },
                PollingKind::Timestamp => first_since(ms, value) as int,
                _ => value as int,
            };
            assert(r[j] == ms[start + j]);
        }
    }
}

/// The first message stamped at or after `t` sits at `o` when every message before `o` is
/// stamped earlier and the one at `o`, if any, is not.
pub proof fn lemma_first_since(ms: Seq<MessageView>, t: u64, o: int)
    requires
        0 <= o <= ms.len(),
        forall|k: int| 0 <= k < o ==> (#[trigger] ms[k]).timestamp < t,
        o < ms.len() ==> ms[o].timestamp >= t,
    ensures
        first_since(ms, t) == o,
    decreases ms.len(),
{
    if ms.len() > 0 && o > 0 {
        let rest = ms.drop_first();
        assert(ms[0].timestamp < t);
        assert forall|k: int| 0 <= k < o - 1 implies (#[trigger] rest[k]).timestamp < t by {
            assert(rest[k] == ms[k + 1]);
        }
        if o - 1 < rest.len() {
            assert(rest[o - 1] == ms[o]);
        }
        lemma_first_since(rest, t, o - 1);
    }
}

/// The messages of segments number as many as the segments' counts add up to.
pub proof fn lemma_flat_len(segs: Seq<Segment>)
    ensures
        flat(segs).len() == total_count(segs),
    decreases segs.len(),
{
    if segs.len() > 0 {
        lemma_flat_len(segs.drop_last());
    }
}

/// At every moment a partition's next offset equals the total count of its segments,
/// and its messages carry the offsets 0, 1, 2, ... in order.
pub proof fn lemma_offsets_contiguous(p: Partition)
    requires
        p.wf(),
    ensures
        p.current_offset == total_count(p.segments@),
        forall|k: int| 0 <= k < p.current_offset ==> (#[trigger] p.messages()[k]).offset == k,
{
    lemma_flat_len(p.segments@);
    assert forall|k: int| 0 <= k < p.current_offset implies (#[trigger] p.messages()[k]).offset
        == k by {
        assert(stored_at(p.messages()[k], k));
    }
}

/// No message straddles segments: each segment holds exactly the offsets from its start
/// to its start plus its count, the next segment starts where it ends, and the tail
/// segment ends at the partition's next offset.
pub proof fn lemma_segments_tile_offsets(p: Partition)
    requires
        p.wf(),
    ensures
        forall|i: int, k: int|
            0 <= i < p.segments@.len() && 0 <= k < p.segments@[i].messages@.len() ==> (
            #[trigger] p.segments@[i].msgs()[k]).offset == p.segments@[i].start_offset + k,
        forall|j: int|
            0 <= j < p.segments@.len() - 1 ==> (#[trigger] p.segments@[j + 1]).start_offset
                == p.segments@[j].start_offset + p.segments@[j].messages@.len(),
        p.segments@.last().start_offset + p.segments@.last().messages@.len() == p.current_offset,
{
    let segs = p.segments@;
    lemma_segment_starts(segs);
    assert forall|i: int, k: int|
        0 <= i < segs.len() && 0 <= k < segs[i].messages@.len() implies (
        #[trigger] segs[i].msgs()[k]).offset == segs[i].start_offset + k by {
        lemma_flat_index(segs, i, k);
        assert(stored_at(p.messages()[segs[i].start_offset + k], segs[i].start_offset + k));
    }
    let n = segs.len();
    assert(segs.take(n - 1).push(segs[n - 1]) =~= segs);
    assert(segs.drop_last() =~= segs.take(n - 1));
}

/// Every message a poll reads back carries the CRC-32 of its payload and is the
/// message appended at its offset.
pub proof fn lemma_polled_messages_intact(
    p: Partition,
    key: u64,
    kind: PollingKind,
    value: u64,
    count: nat,
)
    requires
        p.wf(),
    ensures
        forall|x: MessageView| #[trigger]
            poll_result(p.messages(), p.stored(), key, kind, value, count).contains(x) ==> {
                &&& x.checksum == crc32_of(x.payload)
                &&& x.offset < p.messages().len()
                &&& p.messages()[x.offset as int] == x
            },
{
    let ms = p.messages();
    lemma_poll_result_members(ms, p.stored(), key, kind, value, count);
    assert forall|x: MessageView| #[trigger]
        poll_result(ms, p.stored(), key, kind, value, count).contains(x) implies {
        &&& x.checksum == crc32_of(x.payload)
        &&& x.offset < ms.len()
        &&& ms[x.offset as int] == x
    } by {
        assert(ms.contains(x));
        let idx = choose|idx: int| 0 <= idx < ms.len() && ms[idx] == x;
        assert(stored_at(ms[idx], idx));
    }
}

/// Without auto-commit a poll leaves the stored offsets alone, so a second `Next` poll
/// returns the same messages as the first.
pub proof fn lemma_next_poll_repeats(ms: Seq<MessageView>, stored: Map<u64, u64>, key: u64, count: nat)
    ensures
        ({
            let first = poll_result(ms, stored, key, PollingKind::Next, 0, count);
            let second = poll_result(
                ms,
                after_poll(stored, key, first, false),
                key,
                PollingKind::Next,
                0,
                count,
            );
            first == second
        }),
{
}

/// With auto-commit, a `Next` poll after one that returned messages returns only
/// messages strictly after all of them.
pub proof fn lemma_next_poll_advances(p: Partition, key: u64, count: nat)
    requires
        p.wf(),
        poll_result(p.messages(), p.stored(), key, PollingKind::Next, 0, count).len() > 0,
    ensures
        ({
            let first = poll_result(p.messages(), p.stored(), key, PollingKind::Next, 0, count);
            let second = poll_result(
                p.messages(),
                after_poll(p.stored(), key, first, true),
                key,
                PollingKind::Next,
                0,
                count,
            );
            forall|a: int, b: int|
                0 <= a < first.len() && 0 <= b < second.len() ==> first[a].offset
                    < second[b].offset
        }),
{
    let ms = p.messages();
    let stored = p.stored();
    let first = poll_result(ms, stored, key, PollingKind::Next, 0, count);
    let start: int = if stored.contains_key(key) {
        stored[key] + 1
    } else {
        0
    };
    let last = first.len() - 1;
    assert(first[last] == ms[start + last]);
    assert(stored_at(ms[start + last], start + last));
    let stored2 = after_poll(stored, key, first, true);
    assert(stored2[key] == start + last);
    let second = poll_result(ms, stored2, key, PollingKind::Next, 0, count);
    assert forall|a: int, b: int|
        0 <= a < first.len() && 0 <= b < second.len() implies first[a].offset
        < second[b].offset by {
        assert(first[a] == ms[start + a]);
        assert(stored_at(ms[start + a], start + a));
        assert(second[b] == ms[start + last + 1 + b]);
        assert(stored_at(ms[start + last + 1 + b], start + last + 1 + b));
    }
}

/// A log written from a partition's messages is recovered whole.
pub proof fn lemma_recover_log(ms: Seq<MessageView>, next: nat)
    requires
        next + ms.len() < u64::MAX,
        forall|k: int| 0 <= k < ms.len() ==> stored_at(#[trigger] ms[k], next + k),
    ensures
        recovered(encode_all(ms), next) == ms,
    decreases ms.len(),
{
    let b = encode_all(ms);
    if ms.len() == 0 {
        reveal(decode_one);
        assert(b.len() == 0);
    } else {
        let tail = ms.drop_first();
        assert forall|k: int| 0 <= k < tail.len() implies stored_at(
            #[trigger] tail[k],
            (next + 1) + k,
        ) by {
            assert(tail[k] == ms[k + 1]);
            assert(stored_at(ms[k + 1], next + (k + 1)));
        }
        lemma_recover_log(tail, next + 1);
        assert(stored_at(ms[0], next as int));
        lemma_decode_one(ms[0], encode_all(tail));
        assert(b == ms[0].encoded() + encode_all(tail));
        assert(seq![ms[0]] + tail =~= ms);
    }
}

/// A partition rebuilt from its own log holds the same messages.
pub proof fn lemma_partition_log_round_trip(p: Partition)
    requires
        p.wf(),
        p.current_offset < u64::MAX,
    ensures
        recovered(encode_all(p.messages()), 0) == p.messages(),
{
    let ms = p.messages();
    assert forall|k: int| 0 <= k < ms.len() implies stored_at(#[trigger] ms[k], 0 + k) by {
        assert(stored_at(ms[k], k));
    }
    lemma_recover_log(ms, 0);
}

/// Appending a batch to a partition that holds what a run of batches became leaves it
/// holding what the longer run becomes.
pub proof fn lemma_append_extends_history(
    before: Partition,
    after: Partition,
    batches: Seq<(Seq<AppendMessage>, u64)>,
    batch: Seq<AppendMessage>,
    timestamp: u64,
)
    requires
        before.wf(),
        before.messages() == appended_all(batches),
        after.messages() == before.messages() + appended(
            batch,
            before.current_offset as nat,
            timestamp,
        ),
    ensures
        after.messages() == appended_all(batches.push((batch, timestamp))),
{
    assert(batches.push((batch, timestamp)).drop_last() =~= batches);
}

/// Message `k` of a run of appends carries offset `k` and the id and payload of the `k`-th
/// message sent, with that payload's CRC-32.
pub proof fn lemma_appended_all(batches: Seq<(Seq<AppendMessage>, u64)>)
    requires
        sent(batches).len() <= u64::MAX,
    ensures
        appended_all(batches).len() == sent(batches).len(),
        forall|k: int|
            0 <= k < appended_all(batches).len() ==> {
                let m = #[trigger] appended_all(batches)[k];
                &&& m.offset == k
                &&& m.id == sent(batches)[k].id
                &&& m.payload == sent(batches)[k].payload@
                &&& m.checksum == crc32_of(m.payload)
            },
    decreases batches.len(),
{
    if batches.len() > 0 {
        let init = batches.drop_last();
        lemma_appended_all(init);
        let prev = appended_all(init);
        let last = batches.last();
        let all = appended_all(batches);
        assert forall|k: int| 0 <= k < all.len() implies {
            let m = #[trigger] all[k];
            &&& m.offset == k
            &&& m.id == sent(batches)[k].id
            &&& m.payload == sent(batches)[k].payload@
            &&& m.checksum == crc32_of(m.payload)
        } by {
            if k < prev.len() {
                assert(all[k] == prev[k]);
                assert(sent(batches)[k] == sent(init)[k]);
            } else {
                assert(all[k] == appended(last.0, prev.len(), last.1)[k - prev.len()]);
                assert(sent(batches)[k] == last.0[k - prev.len()]);
            }
        }
    }
}

/// Every message a poll reads back from a partition that took a run of appends from empty
/// is the message sent with that sequence number: its id and payload, with their CRC-32.
pub proof fn lemma_read_back_matches_appends(
    p: Partition,
    batches: Seq<(Seq<AppendMessage>, u64)>,
    key: u64,
    kind: PollingKind,
    value: u64,
    count: nat,
)
    requires
        p.wf(),
        p.messages() == appended_all(batches),
        sent(batches).len() <= u64::MAX,
    ensures
        forall|x: MessageView| #[trigger]
            poll_result(p.messages(), p.stored(), key, kind, value, count).contains(x) ==> {
                &&& x.offset < sent(batches).len()
                &&& x.id == sent(batches)[x.offset as int].id
                &&& x.payload == sent(batches)[x.offset as int].payload@
                &&& x.checksum == crc32_of(x.payload)
            },
{
    lemma_appended_all(batches);
    lemma_polled_messages_intact(p, key, kind, value, count);
    assert forall|x: MessageView| #[trigger]
        poll_result(p.messages(), p.stored(), key, kind, value, count).contains(x) implies {
        &&& x.offset < sent(batches).len()
        &&& x.id == sent(batches)[x.offset as int].id
        &&& x.payload == sent(batches)[x.offset as int].payload@
        &&& x.checksum == crc32_of(x.payload)
    } by {
        assert(p.messages()[x.offset as int] == x);
        assert(appended_all(batches)[x.offset as int] == x);
    }
}

/// Once a prefix of a batch holds a rejected payload, the batch fails with the same error.
proof fn lemma_batch_error_prefix(batch: Seq<AppendMessage>, k: int)
    requires
        0 <= k <= batch.len(),
        batch_error(batch.take(k)).is_some(),
    ensures
        batch_error(batch) == batch_error(batch.take(k)),
    decreases batch.len() - k,
{
    if k < batch.len() {
        assert(batch.take(k + 1).drop_last() =~= batch.take(k));
        lemma_batch_error_prefix(batch, k + 1);
    } else {
        assert(batch.take(k) =~= batch);
    }
}

/// In a batch without a rejected payload, every payload is accepted.
proof fn lemma_batch_ok_at(batch: Seq<AppendMessage>, i: int)
    requires
        0 <= i < batch.len(),
        batch_error(batch).is_none(),
    ensures
        payload_error(batch[i]).is_none(),
    decreases batch.len(),
{
    if i < batch.len() - 1 {
        lemma_batch_ok_at(batch.drop_last(), i);
    }
}

} // verus!
