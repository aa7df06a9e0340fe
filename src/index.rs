use crate::message::{
    decode_message, decode_one, encode_all, lemma_decode_one, views, Message, MessageView,
};
use crate::partition::{bytes_of, range};
use vstd::prelude::*;

verus! {

/// A sparse index entry: a message's offset relative to its segment, and where it
/// starts in the segment's log.
#[derive(Debug, Clone, Copy, PartialEq, Eq, Structural)]
pub struct IndexEntry {
    pub relative_offset: u32,
    pub position: u32,
}

/// A sparse time index entry: a message's relative offset and its timestamp.
#[derive(Debug, Clone, Copy, PartialEq, Eq, Structural)]
pub struct TimeIndexEntry {
    pub relative_offset: u32,
    pub timestamp: u64,
}

/// The entries of the two indexes for a segment's messages, and the log bytes written
/// since the last entry. After each message, once at least `interval` bytes were written
/// since the last entry, both indexes take an entry for that message.
pub open spec fn indexes(ms: Seq<MessageView>, interval: nat) -> (Seq<IndexEntry>, Seq<TimeIndexEntry>, nat)
    decreases ms.len(),
{
    if ms.len() == 0 {
        (Seq::empty(), Seq::empty(), 0)
    } else {
        let (idx, times, pending) = indexes(ms.drop_last(), interval);
        let written = pending + ms.last().size();
        if written >= interval {
            (
                idx.push(
                    IndexEntry {
                        relative_offset: (ms.len() - 1) as u32,
                        position: bytes_of(ms.drop_last()) as u32,
                    },
                ),
                times.push(
                    TimeIndexEntry {
                        relative_offset: (ms.len() - 1) as u32,
                        timestamp: ms.last().timestamp,
                    },
                ),
                0,
            )
        } else {
            (idx, times, written)
        }
    }
}

/// Entries name messages in ascending order.
pub open spec fn ascending(idx: Seq<IndexEntry>) -> bool {
    forall|i: int, j: int| 0 <= i < j < idx.len() ==> idx[i].relative_offset < idx[j].relative_offset
}

/// Every entry names a message of the segment and where it starts.
pub open spec fn entries_point_at_messages(idx: Seq<IndexEntry>, ms: Seq<MessageView>) -> bool {
    forall|i: int|
        0 <= i < idx.len() ==> {
            &&& (#[trigger] idx[i]).relative_offset < ms.len()
            &&& idx[i].position == bytes_of(ms.take(idx[i].relative_offset as int))
        }
}

pub proof fn lemma_bytes_of_prefix(ms: Seq<MessageView>, k: int)
    requires
        0 <= k <= ms.len(),
    ensures
        bytes_of(ms.take(k)) <= bytes_of(ms),
    decreases ms.len() - k,
{
    if k < ms.len() {
        lemma_bytes_of_prefix(ms, k + 1);
        assert(ms.take(k + 1).drop_last() =~= ms.take(k));
    } else {
        assert(ms.take(k) =~= ms);
    }
}

/// The indexes built for a segment are ascending and point at its messages.
pub proof fn lemma_indexes_sound(ms: Seq<MessageView>, interval: nat)
    requires
        ms.len() <= u32::MAX,
        bytes_of(ms) <= u32::MAX,
    ensures
        ascending(indexes(ms, interval).0),
        entries_point_at_messages(indexes(ms, interval).0, ms),
        indexes(ms, interval).0.len() == indexes(ms, interval).1.len(),
        forall|i: int|
            0 <= i < indexes(ms, interval).1.len() ==> {
                let e = #[trigger] indexes(ms, interval).1[i];
                &&& e.relative_offset == indexes(ms, interval).0[i].relative_offset
                &&& e.timestamp == ms[e.relative_offset as int].timestamp
            },
    decreases ms.len(),
{
    if ms.len() > 0 {
        let init = ms.drop_last();
        lemma_bytes_of_prefix(ms, ms.len() - 1);
        assert(ms.take(ms.len() - 1) =~= init);
        lemma_indexes_sound(init, interval);
        let (idx, times, pending) = indexes(init, interval);
        assert forall|i: int| 0 <= i < idx.len() implies (#[trigger] idx[i]).position == bytes_of(
            ms.take(idx[i].relative_offset as int),
        ) by {
            assert(ms.take(idx[i].relative_offset as int) =~= init.take(
                idx[i].relative_offset as int,
            ));
        }
        assert forall|i: int| 0 <= i < times.len() implies (#[trigger] times[i]).timestamp
            == ms[times[i].relative_offset as int].timestamp by {
            assert(times[i].relative_offset == idx[i].relative_offset);
        }
    }
}

/// The position of the last entry at or before `relative`, if there is one: a scan of
/// the log from there meets the message sooner than one from the start.
pub fn lookup(index: &Vec<IndexEntry>, relative: u32) -> (r: Option<usize>)
    requires
        ascending(index@),
    ensures
        match r {
            None => index@.len() == 0 || index@[0].relative_offset > relative,
            Some(i) => {
                &&& i < index@.len()
                &&& index@[i as int].relative_offset <= relative
                &&& (i + 1 == index@.len() || index@[i + 1].relative_offset > relative)
            },
        },
{
    if index.len() == 0 || index[0].relative_offset > relative {
        return None;
    }
    let mut lo: usize = 0;
    let mut hi: usize = index.len();
    while lo + 1 < hi
        invariant
            lo < hi <= index@.len(),
            ascending(index@),
            index@[lo as int].relative_offset <= relative,
            hi == index@.len() || index@[hi as int].relative_offset > relative,
        decreases hi - lo,
    {
        let mid = lo + (hi - lo) / 2;
        if index[mid].relative_offset <= relative {
            lo = mid;
        } else {
            hi = mid;
        }
    }
    proof {
        if lo + 1 < index@.len() {
            assert(hi == lo + 1);
        }
    }
    Some(lo)
}

/// The last time index entry stamped at or before `timestamp`, if there is one.
pub fn time_lookup(index: &Vec<TimeIndexEntry>, timestamp: u64) -> (r: Option<usize>)
    requires
        forall|i: int, j: int|
            0 <= i < j < index@.len() ==> index@[i].timestamp <= index@[j].timestamp,
    ensures
        match r {
            None => index@.len() == 0 || index@[0].timestamp > timestamp,
            Some(i) => {
                &&& i < index@.len()
                &&& index@[i as int].timestamp <= timestamp
                &&& (i + 1 == index@.len() || index@[i + 1].timestamp > timestamp)
            },
        },
{
    if index.len() == 0 || index[0].timestamp > timestamp {
        return None;
    }
    let mut lo: usize = 0;
    let mut hi: usize = index.len();
    while lo + 1 < hi
        invariant
            lo < hi <= index@.len(),
            forall|i: int, j: int|
                0 <= i < j < index@.len() ==> index@[i].timestamp <= index@[j].timestamp,
            index@[lo as int].timestamp <= timestamp,
            hi == index@.len() || index@[hi as int].timestamp > timestamp,
        decreases hi - lo,
    {
        let mid = lo + (hi - lo) / 2;
        if index[mid].timestamp <= timestamp {
            lo = mid;
        } else {
            hi = mid;
        }
    }
    proof {
        if lo + 1 < index@.len() {
            assert(hi == lo + 1);
        }
    }
    Some(lo)
}

/// Builds the offset index and time index of a segment's messages, with an entry every
/// `interval` log bytes.
pub fn build_indexes(messages: &Vec<Message>, interval: u32) -> (r: (Vec<IndexEntry>, Vec<TimeIndexEntry>))
    requires
        messages@.len() <= u32::MAX,
        bytes_of(views(messages@)) <= u32::MAX,
    ensures
        r.0@ == indexes(views(messages@), interval as nat).0,
        r.1@ == indexes(views(messages@), interval as nat).1,
{
    let ghost ms = views(messages@);
    let mut index: Vec<IndexEntry> = Vec::new();
    let mut times: Vec<TimeIndexEntry> = Vec::new();
    let mut pending: u64 = 0;
    let mut position: u64 = 0;
    let mut k: usize = 0;
    while k < messages.len()
        invariant
            ms == views(messages@),
            messages@.len() <= u32::MAX,
            bytes_of(ms) <= u32::MAX,
            k <= messages@.len(),
            (index@, times@, pending as nat) == indexes(ms.take(k as int), interval as nat),
            position == bytes_of(ms.take(k as int)),
            pending <= position,
        decreases messages@.len() - k,
    {
        let ghost prefix = ms.take(k + 1);
        proof {
            assert(prefix.drop_last() =~= ms.take(k as int));
            assert(prefix.last() == messages@[k as int]@);
            crate::index::lemma_bytes_of_prefix(ms, k + 1);
        }
        let size: u64 = 40 + messages[k].payload.len() as u64;
        let written = pending + size;
        if written >= interval as u64 {
            index.push(IndexEntry { relative_offset: k as u32, position: position as u32 });
            times.push(TimeIndexEntry { relative_offset: k as u32, timestamp: messages[k].timestamp });
            pending = 0;
        } else {
            pending = written;
        }
        position = position + size;
        k = k + 1;
    }
    assert(ms.take(k as int) =~= ms);
    (index, times)
}

/// The messages a log holds, read one after another from its start until one does not
/// decode.
pub open spec fn log_messages(b: Seq<u8>) -> Seq<MessageView>
    decreases b.len(),
{
    match decode_one(b) {
        None => Seq::empty(),
        Some((m, used)) => if 0 < used <= b.len() {
            seq![m] + log_messages(b.skip(used as int))
        } else {
            Seq::empty()
        },
    }
}

proof fn lemma_log_messages_empty(b: Seq<u8>)
    requires
        b.len() == 0,
    ensures
        log_messages(b).len() == 0,
{
    reveal(decode_one);
}

proof fn lemma_decode_one_size(b: Seq<u8>)
    ensures
        match decode_one(b) {
            None => true,
            Some((m, used)) => used == m.size() && 0 < used <= b.len(),
        },
{
    reveal(decode_one);
}

/// Skipping the bytes of the first `k` messages of a log leaves a log of the rest.
proof fn lemma_log_skip(b: Seq<u8>, k: int)
    requires
        0 <= k <= log_messages(b).len(),
    ensures
        bytes_of(log_messages(b).take(k)) <= b.len(),
        log_messages(b.skip(bytes_of(log_messages(b).take(k)) as int)) == log_messages(b).skip(k),
    decreases k,
{
    let ms = log_messages(b);
    if k == 0 {
        assert(ms.take(0) =~= Seq::<MessageView>::empty());
        assert(b.skip(0) =~= b);
        assert(ms.skip(0) =~= ms);
    } else {
        lemma_log_skip(b, k - 1);
        let p = bytes_of(ms.take(k - 1));
        let c = b.skip(p as int);
        assert(log_messages(c) == ms.skip(k - 1));
        assert(ms.skip(k - 1).len() > 0);
        lemma_decode_one_size(c);
        let (m, used) = decode_one(c).unwrap();
        assert(log_messages(c) == seq![m] + log_messages(c.skip(used as int)));
        assert(m == ms.skip(k - 1)[0]);
        assert(m == ms[k - 1]);
        assert(ms.take(k).drop_last() =~= ms.take(k - 1));
        assert(bytes_of(ms.take(k)) == p + m.size());
        assert(c.skip(used as int) =~= b.skip((p + used) as int));
        assert(ms.skip(k - 1).skip(1) =~= ms.skip(k));
        assert((seq![m] + log_messages(c.skip(used as int))).skip(1) =~= log_messages(
            c.skip(used as int),
        ));
    }
}

/// A log written from consistent messages reads back as those messages.
pub proof fn lemma_log_messages_of_encoding(ms: Seq<MessageView>)
    requires
        forall|i: int| 0 <= i < ms.len() ==> (#[trigger] ms[i]).consistent(),
    ensures
        log_messages(encode_all(ms)) == ms,
    decreases ms.len(),
{
    if ms.len() == 0 {
        lemma_log_messages_empty(encode_all(ms));
        assert(ms =~= Seq::<MessageView>::empty());
    } else {
        let tail = ms.drop_first();
        assert forall|i: int| 0 <= i < tail.len() implies (#[trigger] tail[i]).consistent() by {
            assert(tail[i] == ms[i + 1]);
        }
        lemma_log_messages_of_encoding(tail);
        assert(ms[0].consistent());
        lemma_decode_one(ms[0], encode_all(tail));
        lemma_decode_one_size(encode_all(ms));
        assert(encode_all(ms) == ms[0].encoded() + encode_all(tail));
        assert(seq![ms[0]] + tail =~= ms);
    }
}

/// A segment's log and the index built for its messages meet what an index-assisted
/// read asks, and the log reads back as the messages: such a read returns what a read
/// straight through the messages does.
pub proof fn lemma_indexed_read_agrees(ms: Seq<MessageView>, start_offset: u64, interval: nat)
    requires
        ms.len() <= u32::MAX,
        bytes_of(ms) <= u32::MAX,
        forall|k: int|
            0 <= k < ms.len() ==> (#[trigger] ms[k]).consistent() && ms[k].offset == start_offset
                + k,
    ensures
        log_messages(encode_all(ms)) == ms,
        ascending(indexes(ms, interval).0),
        entries_point_at_messages(indexes(ms, interval).0, log_messages(encode_all(ms))),
{
    lemma_log_messages_of_encoding(ms);
    lemma_indexes_sound(ms, interval);
}

/// Reads up to `count` messages with offsets from `target` on out of a segment log whose
/// messages carry the offsets `start_offset`, `start_offset + 1`, ...; the scan starts at
/// the last index entry at or before the target instead of at the start of the log.
pub fn read_by_offset(
    log: &[u8],
    index: &Vec<IndexEntry>,
    start_offset: u64,
    target: u64,
    count: u32,
) -> (r: Vec<Message>)
    requires
        ascending(index@),
        entries_point_at_messages(index@, log_messages(log@)),
        forall|k: int|
            0 <= k < log_messages(log@).len() ==> (#[trigger] log_messages(log@)[k]).offset
                == start_offset + k,
    ensures
        views(r@) == range(
            log_messages(log@),
            if target >= start_offset {
                (target - start_offset) as nat
            } else {
                0
            },
            count as nat,
        ),
{
    let ghost ms = log_messages(log@);
    let ghost tk: nat = if target >= start_offset {
        (target - start_offset) as nat
    } else {
        0
    };
    let relative: u32 = if target < start_offset {
        0
    } else if target - start_offset > u32::MAX as u64 {
        u32::MAX
    } else {
        (target - start_offset) as u32
    };
    let ghost mut j: int = 0;
    let mut at: usize = match lookup(index, relative) {
        Some(i) => {
            proof {
                j = index@[i as int].relative_offset as int;
            }
            index[i].position as usize
        },
        None => 0,
    };
    proof {
        if j == 0 {
            assert(ms.take(0) =~= Seq::<MessageView>::empty());
        }
        lemma_log_skip(log@, j);
        if at >= log@.len() {
            lemma_log_messages_empty(log@.skip(at as int));
        }
    }
    let mut out: Vec<Message> = Vec::new();
    while at < log.len() && out.len() < count as usize
        invariant
            ms == log_messages(log@),
            tk == if target >= start_offset {
                (target - start_offset) as nat
            } else {
                0
            },
            forall|k: int| 0 <= k < ms.len() ==> (#[trigger] ms[k]).offset == start_offset + k,
            0 <= j <= ms.len(),
            j <= tk || views(out@).len() > 0,
            at == bytes_of(ms.take(j)),
            at <= log@.len(),
            log_messages(log@.skip(at as int)) == ms.skip(j),
            views(out@) == if j <= tk {
                Seq::<MessageView>::empty()
            } else {
                ms.subrange(tk as int, j)
            },
            out@.len() <= count,
            at >= log@.len() ==> j == ms.len(),
        ensures
            j == ms.len() || out@.len() == count,
        decreases log@.len() - at,
    {
        let ghost rest = log@.skip(at as int);
        proof {
            lemma_decode_one_size(rest);
        }
        match decode_message(log, at) {
            None => {
                proof {
                    assert(ms.skip(j).len() == 0);
                    assert(j == ms.len());
                }
                break;
            },
            Some((m, next)) => {
                proof {
                    assert(decode_one(rest).is_some());
                    let (mv, used) = decode_one(rest).unwrap();
                    assert(mv == m@);
                    assert(0 < used <= rest.len());
                    assert(log_messages(rest) == seq![mv] + log_messages(rest.skip(used as int)));
                    assert(ms.skip(j) == seq![mv] + log_messages(rest.skip(used as int)));
                    assert(ms.skip(j).len() > 0);
                    assert(j < ms.len());
                    assert(ms[j] == ms.skip(j)[0]);
                    assert(m@ == ms[j]);
                    assert(m.offset == start_offset + j);
                    lemma_log_skip(log@, j + 1);
                    assert(rest.skip(used as int) =~= log@.skip(next as int));
                    assert(ms.take(j + 1).drop_last() =~= ms.take(j));
                }
                if m.offset >= target {
                    let ghost before = views(out@);
                    out.push(m);
                    proof {
                        assert(views(out@) =~= before.push(ms[j]));
                        if j <= tk {
                            assert(j == tk);
                            assert(ms.subrange(tk as int, j + 1) =~= seq![ms[j]]);
                        } else {
                            assert(ms.subrange(tk as int, j + 1) =~= ms.subrange(tk as int, j).push(
                                ms[j],
                            ));
                        }
                    }
                }
                at = next;
                proof {
                    j = j + 1;
                    if at >= log@.len() {
                        lemma_log_messages_empty(log@.skip(at as int));
                    }
                }
            },
        }
    }
    out
}

} // verus!
