use crate::bytes::{
    le_u128, le_u32, le_u64, push_u128, push_u32, push_u64, read_u128, read_u32, read_u64,
    u128_at, u32_at, u64_at,
};
use crate::error::Error;
use vstd::prelude::*;

verus! {

/// The largest payload a message may carry, in bytes.
pub const MAX_PAYLOAD_SIZE: u32 = 1_000_000;

/// Bytes of a message besides its payload: offset, timestamp, id, checksum, length.
pub const MESSAGE_HEADER_SIZE: u32 = 40;

/// What a message holds, as a mathematical value.
pub struct MessageView {
    pub offset: u64,
    pub timestamp: u64,
    pub id: u128,
    pub checksum: u32,
    pub length: u32,
    pub payload: Seq<u8>,
}

impl MessageView {
    /// The length field agrees with the payload.
    pub open spec fn consistent(self) -> bool {
        self.length == self.payload.len()
    }

    /// The bytes of the message in a poll response and in a segment's log:
    /// `offset | timestamp | id | checksum | length | payload`, little-endian.
    pub open spec fn encoded(self) -> Seq<u8> {
        le_u64(self.offset) + le_u64(self.timestamp) + le_u128(self.id) + le_u32(self.checksum)
            + le_u32(self.length) + self.payload
    }

    pub open spec fn size(self) -> nat {
        (MESSAGE_HEADER_SIZE + self.payload.len()) as nat
    }
}

/// A message as stored in a partition and returned by a poll.
#[derive(Debug)]
pub struct Message {
    pub offset: u64,
    pub timestamp: u64,
    pub id: u128,
    pub checksum: u32,
    pub length: u32,
    pub payload: Vec<u8>,
}

impl View for Message {
    type V = MessageView;

    open spec fn view(&self) -> MessageView {
        MessageView {
            offset: self.offset,
            timestamp: self.timestamp,
            id: self.id,
            checksum: self.checksum,
            length: self.length,
            payload: self.payload@,
        }
    }
}

/// The views of a run of messages.
pub open spec fn views(ms: Seq<Message>) -> Seq<MessageView> {
    ms.map_values(|m: Message| m@)
}

/// All messages written one after another.
pub open spec fn encode_all(ms: Seq<MessageView>) -> Seq<u8>
    decreases ms.len(),
{
    if ms.len() == 0 {
        Seq::empty()
    } else {
        ms[0].encoded() + encode_all(ms.drop_first())
    }
}

/// The first message of `b`, with the number of bytes it takes.
#[verifier::opaque]
pub open spec fn decode_one(b: Seq<u8>) -> Option<(MessageView, nat)> {
    if b.len() < MESSAGE_HEADER_SIZE {
        None
    } else {
        let length = u32_at(b, 36);
        if b.len() < MESSAGE_HEADER_SIZE + length {
            None
        } else {
            Some(
                (
                    MessageView {
                        offset: u64_at(b, 0),
                        timestamp: u64_at(b, 8),
                        id: u128_at(b, 16),
                        checksum: u32_at(b, 32),
                        length,
                        payload: b.subrange(
                            MESSAGE_HEADER_SIZE as int,
                            MESSAGE_HEADER_SIZE + length,
                        ),
                    },
                    (MESSAGE_HEADER_SIZE + length) as nat,
                ),
            )
        }
    }
}

/// Exactly `n` messages and nothing after them.
pub open spec fn decode_all(b: Seq<u8>, n: nat) -> Option<Seq<MessageView>>
    decreases n,
{
    if n == 0 {
        if b.len() == 0 {
            Some(Seq::empty())
        } else {
            None
        }
    } else {
        match decode_one(b) {
            None => None,
            Some((m, used)) => match decode_all(b.skip(used as int), (n - 1) as nat) {
                None => None,
                Some(rest) => Some(seq![m] + rest),
            },
        }
    }
}

/// The body of a poll response: `messages_count:u32` and the messages.
pub open spec fn poll_response_body(ms: Seq<MessageView>) -> Seq<u8> {
    le_u32(ms.len() as u32) + encode_all(ms)
}

/// The messages a poll response body carries.
pub open spec fn parse_poll_response_body(b: Seq<u8>) -> Result<Seq<MessageView>, Error> {
    if b.len() < 4 {
        Err(Error::InvalidFormat)
    } else {
        match decode_all(b.skip(4), u32_at(b, 0) as nat) {
            Some(ms) => Ok(ms),
            None => Err(Error::InvalidFormat),
        }
    }
}

impl Message {
    /// A message as the partition stores it; the checksum is that of the payload.
    pub fn new(offset: u64, timestamp: u64, id: u128, checksum: u32, payload: Vec<u8>) -> (r:
        Message)
        requires
            payload@.len() <= u32::MAX,
        ensures
            r@ == (MessageView {
                offset,
                timestamp,
                id,
                checksum,
                length: payload@.len() as u32,
                payload: payload@,
            }),
    {
        let length = payload.len() as u32;
        Message { offset, timestamp, id, checksum, length, payload }
    }

    /// Size of the message on disk and on the wire.
    pub fn get_size_bytes(&self) -> (r: u32)
        requires
            self.payload@.len() <= u32::MAX - MESSAGE_HEADER_SIZE,
        ensures
            r == self@.size(),
    {
        8 + 8 + 16 + 4 + 4 + self.payload.len() as u32
    }

    pub fn copy(&self) -> (r: Message)
        ensures
            r@ == self@,
    {
        let payload = self.payload.clone();
        assert(payload@ =~= self.payload@);
        Message {
            offset: self.offset,
            timestamp: self.timestamp,
            id: self.id,
            checksum: self.checksum,
            length: self.length,
            payload,
        }
    }

    /// Appends the encoded message.
    pub fn extend(&self, out: &mut Vec<u8>)
        ensures
            final(out)@ == old(out)@ + self@.encoded(),
    {
        push_u64(out, self.offset);
        push_u64(out, self.timestamp);
        push_u128(out, self.id);
        push_u32(out, self.checksum);
        push_u32(out, self.length);
        let mut i: usize = 0;
        let ghost start = out@;
        while i < self.payload.len()
            invariant
                i <= self.payload@.len(),
                out@ == start + self.payload@.take(i as int),
            decreases self.payload@.len() - i,
        {
            out.push(self.payload[i]);
            i = i + 1;
            assert(out@ =~= start + self.payload@.take(i as int));
        }
        assert(self.payload@.take(i as int) =~= self.payload@);
        assert(final(out)@ =~= old(out)@ + self@.encoded());
    }
}

pub proof fn lemma_encode_all_push(ms: Seq<MessageView>, m: MessageView)
    ensures
        encode_all(ms.push(m)) == encode_all(ms) + m.encoded(),
    decreases ms.len(),
{
    if ms.len() == 0 {
        assert(ms.push(m).drop_first() =~= Seq::<MessageView>::empty());
        assert(encode_all(Seq::<MessageView>::empty()) == Seq::<u8>::empty());
        assert(ms.push(m)[0] == m);
        assert(encode_all(ms.push(m)) =~= encode_all(ms) + m.encoded());
    } else {
        lemma_encode_all_push(ms.drop_first(), m);
        assert(ms.push(m).drop_first() =~= ms.drop_first().push(m));
        assert(encode_all(ms.push(m)) =~= encode_all(ms) + m.encoded());
    }
}

/// A consistent message is read back from its bytes, whatever follows them.
pub proof fn lemma_decode_one(m: MessageView, rest: Seq<u8>)
    requires
        m.consistent(),
    ensures
        decode_one(m.encoded() + rest) == Some((m, m.size())),
        (m.encoded() + rest).skip(m.size() as int) == rest,
{
    reveal(decode_one);
    let e = m.encoded();
    let b = e + rest;
    let upto_offset = le_u64(m.offset);
    let upto_timestamp = upto_offset + le_u64(m.timestamp);
    let upto_id = upto_timestamp + le_u128(m.id);
    let upto_checksum = upto_id + le_u32(m.checksum);
    let upto_length = upto_checksum + le_u32(m.length);
    assert(e == upto_length + m.payload);
    assert(b.subrange(0, 8) =~= le_u64(m.offset)) by {
        assert(b.subrange(0, 8) =~= upto_offset);
    }
    assert(b.subrange(8, 16) =~= le_u64(m.timestamp)) by {
        assert(b.subrange(8, 16) =~= upto_timestamp.subrange(8, 16));
    }
    assert(b.subrange(16, 32) =~= le_u128(m.id)) by {
        assert(b.subrange(16, 32) =~= upto_id.subrange(16, 32));
    }
    assert(b.subrange(32, 36) =~= le_u32(m.checksum)) by {
        assert(b.subrange(32, 36) =~= upto_checksum.subrange(32, 36));
    }
    assert(b.subrange(36, 40) =~= le_u32(m.length)) by {
        assert(b.subrange(36, 40) =~= upto_length.subrange(36, 40));
    }
    crate::bytes::lemma_u64_round_trip(b, 0, m.offset);
    crate::bytes::lemma_u64_round_trip(b, 8, m.timestamp);
    crate::bytes::lemma_u128_round_trip(b, 16, m.id);
    crate::bytes::lemma_u32_round_trip(b, 32, m.checksum);
    crate::bytes::lemma_u32_round_trip(b, 36, m.length);
    assert(b.subrange(40, 40 + m.length) =~= m.payload);
    assert(b.skip(m.size() as int) =~= rest);
}

/// Consistent messages are read back from their encoding.
#[verifier::rlimit(40)]
pub proof fn lemma_decode_all(ms: Seq<MessageView>)
    requires
        forall|i: int| 0 <= i < ms.len() ==> (#[trigger] ms[i]).consistent(),
    ensures
        decode_all(encode_all(ms), ms.len()) == Some(ms),
    decreases ms.len(),
{
    if ms.len() > 0 {
        let tail = ms.drop_first();
        assert forall|i: int| 0 <= i < tail.len() implies (#[trigger] tail[i]).consistent() by {
            assert(tail[i] == ms[i + 1]);
        }
        lemma_decode_all(tail);
        assert(ms[0].consistent());
        lemma_decode_one(ms[0], encode_all(tail));
        assert(encode_all(ms) == ms[0].encoded() + encode_all(tail));
        assert(seq![ms[0]] + tail =~= ms);
    }
}

/// A poll response body read back gives the messages that were written into it.
pub proof fn lemma_poll_response_round_trip(ms: Seq<MessageView>)
    requires
        ms.len() <= u32::MAX,
        forall|i: int| 0 <= i < ms.len() ==> (#[trigger] ms[i]).consistent(),
    ensures
        parse_poll_response_body(poll_response_body(ms)) == Ok::<Seq<MessageView>, Error>(ms),
{
    let b = poll_response_body(ms);
    assert(b.subrange(0, 4) =~= le_u32(ms.len() as u32));
    crate::bytes::lemma_u32_round_trip(b, 0, ms.len() as u32);
    assert(b.skip(4) =~= encode_all(ms));
    lemma_decode_all(ms);
}

/// Writes the body of a poll response.
pub fn encode_poll_response(messages: &Vec<Message>) -> (r: Vec<u8>)
    requires
        messages@.len() <= u32::MAX,
    ensures
        r@ == poll_response_body(views(messages@)),
{
    let mut bytes: Vec<u8> = Vec::new();
    push_u32(&mut bytes, messages.len() as u32);
    let mut i: usize = 0;
    while i < messages.len()
        invariant
            i <= messages@.len(),
            messages@.len() <= u32::MAX,
            bytes@ == le_u32(messages@.len() as u32) + encode_all(views(messages@.take(i as int))),
        decreases messages@.len() - i,
    {
        let ghost before = views(messages@.take(i as int));
        messages[i].extend(&mut bytes);
        proof {
            lemma_encode_all_push(before, messages@[i as int]@);
            assert(views(messages@.take(i + 1)) =~= before.push(messages@[i as int]@));
        }
        i = i + 1;
    }
    assert(messages@.take(i as int) =~= messages@);
    bytes
}

/// Reads one message that starts at `at`.
pub fn decode_message(b: &[u8], at: usize) -> (r: Option<(Message, usize)>)
    requires
        at <= b@.len(),
    ensures
        match decode_one(b@.skip(at as int)) {
            None => r.is_none(),
            Some((m, used)) => r.is_some() && r.unwrap().0@ == m && r.unwrap().1 == at + used,
        },
        r.is_some() ==> at < r.unwrap().1 <= b@.len(),
{
    proof {
        reveal(decode_one);
    }
    let n = b.len();
    let ghost s = b@.skip(at as int);
    if n - at < 40 {
        return None;
    }
    let length = read_u32(b, at + 36);
    assert(u32_at(b@, at + 36) == u32_at(s, 36));
    if ((n - at) as u64) < 40 + length as u64 {
        return None;
    }
    let offset = read_u64(b, at);
    let timestamp = read_u64(b, at + 8);
    let id = read_u128(b, at + 16);
    let checksum = read_u32(b, at + 32);
    assert(u64_at(b@, at as int) == u64_at(s, 0));
    assert(u64_at(b@, at + 8) == u64_at(s, 8));
    assert(u128_at(b@, at + 16) == u128_at(s, 16));
    assert(u32_at(b@, at + 32) == u32_at(s, 32));
    let end = at + 40 + length as usize;
    let mut payload: Vec<u8> = Vec::with_capacity(length as usize);
    let mut i: usize = at + 40;
    while i < end
        invariant
            at + 40 <= i <= end,
            end <= b@.len(),
            payload@ == b@.subrange(at + 40, i as int),
        decreases end - i,
    {
        payload.push(b[i]);
        i = i + 1;
        assert(payload@ =~= b@.subrange(at + 40, i as int));
    }
    assert(payload@ =~= s.subrange(40, 40 + length));
    Some((Message { offset, timestamp, id, checksum, length, payload }, end))
}

/// Reads the messages of a poll response body.
pub fn decode_poll_response(b: &[u8]) -> (r: Result<Vec<Message>, Error>)
    ensures
        match parse_poll_response_body(b@) {
            Ok(ms) => r.is_ok() && views(r.unwrap()@) == ms,
            Err(e) => r == Err::<Vec<Message>, Error>(e),
        },
{
    if b.len() < 4 {
        return Err(Error::InvalidFormat);
    }
    let count = read_u32(b, 0);
    let mut messages: Vec<Message> = Vec::new();
    let mut at: usize = 4;
    let mut i: u32 = 0;
    while i < count
        invariant
            4 <= at <= b@.len(),
            i <= count,
            count == u32_at(b@, 0),
            decode_all(b@.skip(4), count as nat) == match decode_all(
                b@.skip(at as int),
                (count - i) as nat,
            ) {
                None => None,
                Some(rest) => Some(views(messages@) + rest),
            },
        decreases count - i,
    {
        match decode_message(b, at) {
            None => {
                assert(decode_all(b@.skip(at as int), (count - i) as nat).is_none());
                return Err(Error::InvalidFormat);
            },
            Some((m, next)) => {
                let ghost used = (next - at) as nat;
                assert(b@.skip(at as int).skip(used as int) =~= b@.skip(next as int));
                let ghost before = views(messages@);
                messages.push(m);
                assert(views(messages@) =~= before.push(m@));
                assert forall|rest: Seq<MessageView>| true implies before + (seq![m@] + rest)
                    =~= views(messages@) + rest by {}
                at = next;
                i = i + 1;
            },
        }
    }
    if at != b.len() {
        assert(b@.skip(at as int).len() != 0);
        return Err(Error::InvalidFormat);
    }
    assert(views(messages@) + Seq::<MessageView>::empty() =~= views(messages@));
    Ok(messages)
}

/// The status byte of a successful response.
pub const STATUS_OK: u8 = 0;

/// What a poll response says: an error, no messages, or the messages of its body.
pub open spec fn parse_poll_response(b: Seq<u8>) -> Result<Seq<MessageView>, Error> {
    if b.len() == 0 {
        Err(Error::EmptyResponse)
    } else if b[0] != STATUS_OK {
        Err(Error::InvalidResponse(b[0]))
    } else if b.len() == 1 {
        Ok(Seq::empty())
    } else {
        parse_poll_response_body(b.skip(1))
    }
}

/// What the status byte of a response says.
pub open spec fn response_status(b: Seq<u8>) -> Result<(), Error> {
    if b.len() == 0 {
        Err(Error::EmptyResponse)
    } else if b[0] != STATUS_OK {
        Err(Error::InvalidResponse(b[0]))
    } else {
        Ok(())
    }
}

/// Checks the status byte of a response.
pub fn check_status(response: &[u8]) -> (r: Result<(), Error>)
    ensures
        r == response_status(response@),
{
    if response.len() == 0 {
        return Err(Error::EmptyResponse);
    }
    if response[0] != STATUS_OK {
        return Err(Error::InvalidResponse(response[0]));
    }
    Ok(())
}

/// A successful response carrying `body`.
pub fn ok_response(body: &Vec<u8>) -> (r: Vec<u8>)
    ensures
        r@ == seq![STATUS_OK] + body@,
{
    let mut out: Vec<u8> = Vec::new();
    out.push(STATUS_OK);
    let mut i: usize = 0;
    while i < body.len()
        invariant
            i <= body@.len(),
            out@ == seq![STATUS_OK] + body@.take(i as int),
        decreases body@.len() - i,
    {
        out.push(body[i]);
        i = i + 1;
        assert(out@ =~= seq![STATUS_OK] + body@.take(i as int));
    }
    assert(body@.take(i as int) =~= body@);
    out
}

/// A failed response: the error's code alone.
pub fn error_response(error: &Error) -> (r: Vec<u8>)
    ensures
        r@ == seq![error.code()],
{
    let mut out: Vec<u8> = Vec::new();
    out.push(error.as_code());
    assert(out@ =~= seq![error.code()]);
    out
}

/// Reads the messages of a poll response as a client receives it.
pub fn read_poll_response(response: &[u8]) -> (r: Result<Vec<Message>, Error>)
    ensures
        match parse_poll_response(response@) {
            Ok(ms) => r.is_ok() && views(r.unwrap()@) == ms,
            Err(e) => r == Err::<Vec<Message>, Error>(e),
        },
{
    if response.len() == 0 {
        return Err(Error::EmptyResponse);
    }
    if response[0] != STATUS_OK {
        return Err(Error::InvalidResponse(response[0]));
    }
    if response.len() == 1 {
        let empty: Vec<Message> = Vec::new();
        assert(views(empty@) =~= Seq::<MessageView>::empty());
        return Ok(empty);
    }
    let mut body: Vec<u8> = Vec::with_capacity(response.len() - 1);
    let mut i: usize = 1;
    while i < response.len()
        invariant
            1 <= i <= response@.len(),
            body@ == response@.subrange(1, i as int),
        decreases response@.len() - i,
    {
        body.push(response[i]);
        i = i + 1;
        assert(body@ =~= response@.subrange(1, i as int));
    }
    assert(body@ =~= response@.skip(1));
    decode_poll_response(body.as_slice())
}

/// A client reads back exactly the messages a server put in a successful poll response.
pub proof fn lemma_poll_exchange(ms: Seq<MessageView>)
    requires
        ms.len() <= u32::MAX,
        forall|i: int| 0 <= i < ms.len() ==> (#[trigger] ms[i]).consistent(),
    ensures
        parse_poll_response(seq![STATUS_OK] + poll_response_body(ms)) == Ok::<
            Seq<MessageView>,
            Error,
        >(ms),
{
    lemma_poll_response_round_trip(ms);
    assert((seq![STATUS_OK] + poll_response_body(ms)).skip(1) =~= poll_response_body(ms));
}

} // verus!
