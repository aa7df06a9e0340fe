use crate::bytes::{le_u128, le_u32, push_u128, push_u32, read_u128, read_u32, u128_at, u32_at};
use crate::error::Error;
use crate::partition::AppendMessage;
use crate::topic::KeyKind;
use vstd::prelude::*;

verus! {

/// Bytes before the messages: stream, topic, key kind, key value, messages count.
pub const SEND_HEADER_SIZE: usize = 17;

/// Bytes before a message's payload: its id and length.
pub const SEND_MESSAGE_HEADER_SIZE: usize = 20;

/// A message to send, as a mathematical value.
pub struct OutgoingView {
    pub id: u128,
    pub payload: Seq<u8>,
}

pub open spec fn outgoing(ms: Seq<AppendMessage>) -> Seq<OutgoingView> {
    ms.map_values(|m: AppendMessage| OutgoingView { id: m.id, payload: m.payload@ })
}

/// `id:u128 | length:u32 | payload`.
pub open spec fn encode_outgoing(m: OutgoingView) -> Seq<u8> {
    le_u128(m.id) + le_u32(m.payload.len() as u32) + m.payload
}

pub open spec fn encode_all_outgoing(ms: Seq<OutgoingView>) -> Seq<u8>
    decreases ms.len(),
{
    if ms.len() == 0 {
        Seq::empty()
    } else {
        encode_outgoing(ms[0]) + encode_all_outgoing(ms.drop_first())
    }
}

/// The first message of `b`, with the number of bytes it takes.
#[verifier::opaque]
pub open spec fn decode_outgoing(b: Seq<u8>) -> Option<(OutgoingView, nat)> {
    if b.len() < SEND_MESSAGE_HEADER_SIZE {
        None
    } else {
        let length = u32_at(b, 16);
        if b.len() < SEND_MESSAGE_HEADER_SIZE + length {
            None
        } else {
            Some(
                (
                    OutgoingView {
                        id: u128_at(b, 0),
                        payload: b.subrange(
                            SEND_MESSAGE_HEADER_SIZE as int,
                            SEND_MESSAGE_HEADER_SIZE + length,
                        ),
                    },
                    (SEND_MESSAGE_HEADER_SIZE + length) as nat,
                ),
            )
        }
    }
}

/// Exactly `n` messages and nothing after them.
pub open spec fn decode_all_outgoing(b: Seq<u8>, n: nat) -> Option<Seq<OutgoingView>>
    decreases n,
{
    if n == 0 {
        if b.len() == 0 {
            Some(Seq::empty())
        } else {
            None
        }
    } else {
        match decode_outgoing(b) {
            None => None,
            Some((m, used)) => match decode_all_outgoing(b.skip(used as int), (n - 1) as nat) {
                None => None,
                Some(rest) => Some(seq![m] + rest),
            },
        }
    }
}

/// Appends a batch to a topic; the key picks the partition.
#[derive(Debug)]
pub struct SendMessages {
    pub stream_id: u32,
    pub topic_id: u32,
    pub key_kind: KeyKind,
    pub key_value: u32,
    pub messages: Vec<AppendMessage>,
}

/// What a send request says, as a mathematical value.
pub struct SendView {
    pub stream_id: u32,
    pub topic_id: u32,
    pub key_kind: KeyKind,
    pub key_value: u32,
    pub messages: Seq<OutgoingView>,
}

impl View for SendMessages {
    type V = SendView;

    open spec fn view(&self) -> SendView {
        SendView {
            stream_id: self.stream_id,
            topic_id: self.topic_id,
            key_kind: self.key_kind,
            key_value: self.key_value,
            messages: outgoing(self.messages@),
        }
    }
}

impl SendView {
    /// Stream and topic ids are 1-based.
    pub open spec fn checked(self) -> Result<SendView, Error> {
        if self.stream_id == 0 {
            Err(Error::InvalidStreamId)
        } else if self.topic_id == 0 {
            Err(Error::InvalidTopicId)
        } else {
            Ok(self)
        }
    }

    /// `stream_id:u32 | topic_id:u32 | key_kind:u8 | key_value:u32 | messages_count:u32 | messages`.
    pub open spec fn encoded(self) -> Seq<u8> {
        le_u32(self.stream_id) + le_u32(self.topic_id) + seq![self.key_kind.code()] + le_u32(
            self.key_value,
        ) + le_u32(self.messages.len() as u32) + encode_all_outgoing(self.messages)
    }

    /// Lengths that fit their fields.
    pub open spec fn fits(self) -> bool {
        &&& self.messages.len() <= u32::MAX
        &&& forall|i: int| 0 <= i < self.messages.len() ==> (#[trigger] self.messages[i]).payload.len() <= u32::MAX
    }
}

pub open spec fn decoded_send(b: Seq<u8>) -> Result<SendView, Error> {
    if b.len() < SEND_HEADER_SIZE {
        Err(Error::InvalidCommand)
    } else {
        match KeyKind::of_code(b[8]) {
            None => Err(Error::InvalidCommand),
            Some(k) => match decode_all_outgoing(b.skip(SEND_HEADER_SIZE as int), u32_at(b, 13) as nat) {
                None => Err(Error::InvalidFormat),
                Some(ms) => SendView {
                    stream_id: u32_at(b, 0),
                    topic_id: u32_at(b, 4),
                    key_kind: k,
                    key_value: u32_at(b, 9),
                    messages: ms,
                }.checked(),
            },
        }
    }
}

/// Reads one message that starts at `at`.
fn read_outgoing(b: &[u8], at: usize) -> (r: Option<(AppendMessage, usize)>)
    requires
        at <= b@.len(),
    ensures
        match decode_outgoing(b@.skip(at as int)) {
            None => r.is_none(),
            Some((m, used)) => r.is_some() && r.unwrap().0.id == m.id && r.unwrap().0.payload@
                == m.payload && r.unwrap().1 == at + used,
        },
        r.is_some() ==> at < r.unwrap().1 <= b@.len(),
{
    proof {
        reveal(decode_outgoing);
    }
    let n = b.len();
    let ghost s = b@.skip(at as int);
    if n - at < 20 {
        return None;
    }
    let length = read_u32(b, at + 16);
    assert(u32_at(b@, at + 16) == u32_at(s, 16));
    if ((n - at) as u64) < 20 + length as u64 {
        return None;
    }
    let id = read_u128(b, at);
    assert(u128_at(b@, at as int) == u128_at(s, 0));
    let end = at + 20 + length as usize;
    let mut payload: Vec<u8> = Vec::new();
    let mut i: usize = at + 20;
    while i < end
        invariant
            at + 20 <= i <= end,
            end <= b@.len(),
            payload@ == b@.subrange(at + 20, i as int),
        decreases end - i,
    {
        payload.push(b[i]);
        i = i + 1;
        assert(payload@ =~= b@.subrange(at + 20, i as int));
    }
    assert(payload@ =~= s.subrange(20, 20 + length));
    Some((AppendMessage { id, payload }, end))
}

impl SendMessages {
    /// Reads the payload of a send request.
    pub fn from_bytes(b: &[u8]) -> (r: Result<SendMessages, Error>)
        ensures
            match decoded_send(b@) {
                Ok(v) => r.is_ok() && r.unwrap()@ == v,
                Err(e) => r == Err::<SendMessages, Error>(e),
            },
    {
        if b.len() < SEND_HEADER_SIZE {
            return Err(Error::InvalidCommand);
        }
        let key_kind = KeyKind::from_code(b[8])?;
        let stream_id = read_u32(b, 0);
        let topic_id = read_u32(b, 4);
        let key_value = read_u32(b, 9);
        let count = read_u32(b, 13);
        let ghost body = b@.skip(SEND_HEADER_SIZE as int);
        let mut messages: Vec<AppendMessage> = Vec::new();
        let mut at: usize = SEND_HEADER_SIZE;
        let mut i: u32 = 0;
        while i < count
            invariant
                SEND_HEADER_SIZE <= at <= b@.len(),
                i <= count,
                count == u32_at(b@, 13),
                KeyKind::of_code(b@[8]) == Some(key_kind),
                body == b@.skip(SEND_HEADER_SIZE as int),
                decode_all_outgoing(body, count as nat) == match decode_all_outgoing(
                    b@.skip(at as int),
                    (count - i) as nat,
                ) {
                    None => None,
                    Some(rest) => Some(outgoing(messages@) + rest),
                },
            decreases count - i,
        {
            match read_outgoing(b, at) {
                None => {
                    assert(decode_all_outgoing(b@.skip(at as int), (count - i) as nat).is_none());
                    return Err(Error::InvalidFormat);
                },
                Some((m, next)) => {
                    let ghost used = (next - at) as nat;
                    let ghost mv = OutgoingView { id: m.id, payload: m.payload@ };
                    assert(b@.skip(at as int).skip(used as int) =~= b@.skip(next as int));
                    let ghost before = outgoing(messages@);
                    messages.push(m);
                    assert(outgoing(messages@) =~= before.push(mv));
                    assert forall|rest: Seq<OutgoingView>| true implies before + (seq![mv] + rest)
                        =~= outgoing(messages@) + rest by {}
                    at = next;
                    i = i + 1;
                },
            }
        }
        if at != b.len() {
            assert(b@.skip(at as int).len() != 0);
            return Err(Error::InvalidFormat);
        }
        assert(outgoing(messages@) + Seq::<OutgoingView>::empty() =~= outgoing(messages@));
        if stream_id == 0 {
            return Err(Error::InvalidStreamId);
        }
        if topic_id == 0 {
            return Err(Error::InvalidTopicId);
        }
        Ok(SendMessages { stream_id, topic_id, key_kind, key_value, messages })
    }

    /// Writes the payload of a send request.
    pub fn as_bytes(&self) -> (r: Vec<u8>)
        requires
            self@.fits(),
        ensures
            r@ == self@.encoded(),
    {
        let mut out: Vec<u8> = Vec::new();
        push_u32(&mut out, self.stream_id);
        push_u32(&mut out, self.topic_id);
        out.push(self.key_kind.as_code());
        push_u32(&mut out, self.key_value);
        push_u32(&mut out, self.messages.len() as u32);
        let ghost header = out@;
        let ghost ms = outgoing(self.messages@);
        let mut i: usize = 0;
        while i < self.messages.len()
            invariant
                i <= self.messages@.len(),
                ms == outgoing(self.messages@),
                self@.fits(),
                out@ == header + encode_all_outgoing(ms.take(i as int)),
            decreases self.messages@.len() - i,
        {
            let m = &self.messages[i];
            assert(ms[i as int].payload.len() <= u32::MAX);
            push_u128(&mut out, m.id);
            push_u32(&mut out, m.payload.len() as u32);
            let mut k: usize = 0;
            let ghost mid = out@;
            while k < m.payload.len()
                invariant
                    k <= m.payload@.len(),
                    out@ == mid + m.payload@.take(k as int),
                decreases m.payload@.len() - k,
            {
                out.push(m.payload[k]);
                k = k + 1;
                assert(out@ =~= mid + m.payload@.take(k as int));
            }
            proof {
                assert(m.payload@.take(k as int) =~= m.payload@);
                lemma_encode_outgoing_push(ms.take(i as int), ms[i as int]);
                assert(ms.take(i + 1) =~= ms.take(i as int).push(ms[i as int]));
                assert(out@ =~= header + encode_all_outgoing(ms.take(i + 1)));
            }
            i = i + 1;
        }
        assert(ms.take(i as int) =~= ms);
        assert(out@ =~= self@.encoded());
        out
    }
}

pub proof fn lemma_encode_outgoing_push(ms: Seq<OutgoingView>, m: OutgoingView)
    ensures
        encode_all_outgoing(ms.push(m)) == encode_all_outgoing(ms) + encode_outgoing(m),
    decreases ms.len(),
{
    if ms.len() == 0 {
        assert(ms.push(m).drop_first() =~= Seq::<OutgoingView>::empty());
        assert(encode_all_outgoing(Seq::<OutgoingView>::empty()) == Seq::<u8>::empty());
        assert(ms.push(m)[0] == m);
        assert(encode_all_outgoing(ms.push(m)) =~= encode_all_outgoing(ms) + encode_outgoing(m));
    } else {
        lemma_encode_outgoing_push(ms.drop_first(), m);
        assert(ms.push(m).drop_first() =~= ms.drop_first().push(m));
        assert(encode_all_outgoing(ms.push(m)) =~= encode_all_outgoing(ms) + encode_outgoing(m));
    }
}

proof fn lemma_decode_outgoing(m: OutgoingView, rest: Seq<u8>)
    requires
        m.payload.len() <= u32::MAX,
    ensures
        decode_outgoing(encode_outgoing(m) + rest) == Some(
            (m, (SEND_MESSAGE_HEADER_SIZE + m.payload.len()) as nat),
        ),
        (encode_outgoing(m) + rest).skip(SEND_MESSAGE_HEADER_SIZE + m.payload.len()) == rest,
{
    reveal(decode_outgoing);
    let upto_id = le_u128(m.id);
    let upto_length = upto_id + le_u32(m.payload.len() as u32);
    let b = upto_length + m.payload + rest;
    assert(encode_outgoing(m) + rest == b);
    assert(b.subrange(0, 16) =~= le_u128(m.id)) by {
        assert(b.subrange(0, 16) =~= upto_id);
    }
    assert(b.subrange(16, 20) =~= le_u32(m.payload.len() as u32)) by {
        assert(b.subrange(16, 20) =~= upto_length.subrange(16, 20));
    }
    crate::bytes::lemma_u128_round_trip(b, 0, m.id);
    crate::bytes::lemma_u32_round_trip(b, 16, m.payload.len() as u32);
    assert(b.subrange(20, 20 + m.payload.len() as int) =~= m.payload);
    assert(b.skip(20 + m.payload.len() as int) =~= rest);
}

#[verifier::rlimit(40)]
proof fn lemma_decode_all_outgoing(ms: Seq<OutgoingView>)
    requires
        forall|i: int| 0 <= i < ms.len() ==> (#[trigger] ms[i]).payload.len() <= u32::MAX,
    ensures
        decode_all_outgoing(encode_all_outgoing(ms), ms.len()) == Some(ms),
    decreases ms.len(),
{
    if ms.len() > 0 {
        let tail = ms.drop_first();
        assert forall|i: int| 0 <= i < tail.len() implies (#[trigger] tail[i]).payload.len()
            <= u32::MAX by {
            assert(tail[i] == ms[i + 1]);
        }
        lemma_decode_all_outgoing(tail);
        assert(ms[0].payload.len() <= u32::MAX);
        lemma_decode_outgoing(ms[0], encode_all_outgoing(tail));
        assert(encode_all_outgoing(ms) == encode_outgoing(ms[0]) + encode_all_outgoing(tail));
        assert(seq![ms[0]] + tail =~= ms);
    }
}

/// A valid send request read back from its binary form is the request itself.
pub proof fn lemma_send_round_trip(v: SendView)
    requires
        v.fits(),
        v.stream_id != 0,
        v.topic_id != 0,
    ensures
        decoded_send(v.encoded()) == Ok::<SendView, Error>(v),
{
    let b = v.encoded();
    let h1 = le_u32(v.stream_id);
    let h2 = h1 + le_u32(v.topic_id);
    let h3 = h2 + seq![v.key_kind.code()];
    let h4 = h3 + le_u32(v.key_value);
    let h5 = h4 + le_u32(v.messages.len() as u32);
    assert(b == h5 + encode_all_outgoing(v.messages));
    assert(b.subrange(0, 4) =~= le_u32(v.stream_id)) by {
        assert(b.subrange(0, 4) =~= h1);
    }
    assert(b.subrange(4, 8) =~= le_u32(v.topic_id)) by {
        assert(b.subrange(4, 8) =~= h2.subrange(4, 8));
    }
    assert(b[8] == v.key_kind.code()) by {
        assert(b[8] == h3[8]);
    }
    assert(b.subrange(9, 13) =~= le_u32(v.key_value)) by {
        assert(b.subrange(9, 13) =~= h4.subrange(9, 13));
    }
    assert(b.subrange(13, 17) =~= le_u32(v.messages.len() as u32)) by {
        assert(b.subrange(13, 17) =~= h5.subrange(13, 17));
    }
    crate::bytes::lemma_u32_round_trip(b, 0, v.stream_id);
    crate::bytes::lemma_u32_round_trip(b, 4, v.topic_id);
    crate::bytes::lemma_u32_round_trip(b, 9, v.key_value);
    crate::bytes::lemma_u32_round_trip(b, 13, v.messages.len() as u32);
    assert(b.skip(17) =~= encode_all_outgoing(v.messages));
    lemma_decode_all_outgoing(v.messages);
    assert(KeyKind::of_code(v.key_kind.code()) == Some(v.key_kind));
}

} // verus!
