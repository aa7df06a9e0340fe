use crate::bytes::{le_u32, le_u64, push_u32, push_u64, read_u32, read_u64, u32_at, u64_at};
use crate::error::Error;
use crate::text::{
    chars_of, decimal, field_is, join_fields, parse_u32_field, parse_u64_field, push_decimal,
    push_separator, split_fields, split_text, u32_field, u64_field,
};
use vstd::prelude::*;

verus! {

/// Where a poll starts reading.
#[derive(Debug, Clone, Copy, PartialEq, Eq, Structural)]
pub enum PollingKind {
    /// From the first message of the partition.
    First,
    /// The last messages of the partition.
    Last,
    /// After the offset stored for the consumer.
    Next,
    /// From the offset given as the value.
    Offset,
    /// From the first message stamped at or after the value.
    Timestamp,
}

impl PollingKind {
    pub open spec fn code(self) -> u8 {
        match self {
            PollingKind::First => 0,
            PollingKind::Last => 1,
            PollingKind::Next => 2,
            PollingKind::Offset => 3,
            PollingKind::Timestamp => 4,
        }
    }

    pub open spec fn of_code(code: u8) -> Option<PollingKind> {
        if code == 0 {
            Some(PollingKind::First)
        } else if code == 1 {
            Some(PollingKind::Last)
        } else if code == 2 {
            Some(PollingKind::Next)
        } else if code == 3 {
            Some(PollingKind::Offset)
        } else if code == 4 {
            Some(PollingKind::Timestamp)
        } else {
            None
        }
    }

    /// The lowercase name of this kind in the text form.
    pub open spec fn name(self) -> Seq<char> {
        match self {
            PollingKind::First => "first"@,
            PollingKind::Last => "last"@,
            PollingKind::Next => "next"@,
            PollingKind::Offset => "offset"@,
            PollingKind::Timestamp => "timestamp"@,
        }
    }

    pub open spec fn of_name(s: Seq<char>) -> Option<PollingKind> {
        if s == "first"@ {
            Some(PollingKind::First)
        } else if s == "last"@ {
            Some(PollingKind::Last)
        } else if s == "next"@ {
            Some(PollingKind::Next)
        } else if s == "offset"@ {
            Some(PollingKind::Offset)
        } else if s == "timestamp"@ {
            Some(PollingKind::Timestamp)
        } else {
            None
        }
    }

    pub fn as_str(&self) -> (r: &'static str)
        ensures
            r@ == self.name(),
    {
        match self {
            PollingKind::First => "first",
            PollingKind::Last => "last",
            PollingKind::Next => "next",
            PollingKind::Offset => "offset",
            PollingKind::Timestamp => "timestamp",
        }
    }

    /// Reads a kind from one field of a text command.
    pub fn from_field(field: &Vec<char>) -> (r: Result<PollingKind, Error>)
        ensures
            r == match PollingKind::of_name(field@) {
                Some(k) => Ok(k),
                None => Err::<PollingKind, Error>(Error::InvalidCommand),
            },
    {
        if field_is(field, "first") {
            Ok(PollingKind::First)
        } else if field_is(field, "last") {
            Ok(PollingKind::Last)
        } else if field_is(field, "next") {
            Ok(PollingKind::Next)
        } else if field_is(field, "offset") {
            Ok(PollingKind::Offset)
        } else if field_is(field, "timestamp") {
            Ok(PollingKind::Timestamp)
        } else {
            Err(Error::InvalidCommand)
        }
    }

    pub fn as_code(&self) -> (r: u8)
        ensures
            r == self.code(),
    {
        match self {
            PollingKind::First => 0,
            PollingKind::Last => 1,
            PollingKind::Next => 2,
            PollingKind::Offset => 3,
            PollingKind::Timestamp => 4,
        }
    }

    /// Unknown bytes are rejected as an invalid command.
    pub fn from_code(code: u8) -> (r: Result<PollingKind, Error>)
        ensures
            r == match PollingKind::of_code(code) {
                Some(k) => Ok(k),
                None => Err::<PollingKind, Error>(Error::InvalidCommand),
            },
    {
        if code == 0 {
            Ok(PollingKind::First)
        } else if code == 1 {
            Ok(PollingKind::Last)
        } else if code == 2 {
            Ok(PollingKind::Next)
        } else if code == 3 {
            Ok(PollingKind::Offset)
        } else if code == 4 {
            Ok(PollingKind::Timestamp)
        } else {
            Err(Error::InvalidCommand)
        }
    }
}

/// A kind read back from its wire byte, or from its name, is the kind itself.
pub proof fn lemma_polling_kind_round_trip(k: PollingKind)
    ensures
        PollingKind::of_code(k.code()) == Some(k),
        PollingKind::of_name(k.name()) == Some(k),
        crate::text::free_of_separator(k.name()),
{
    reveal_strlit("first");
    reveal_strlit("last");
    reveal_strlit("next");
    reveal_strlit("offset");
    reveal_strlit("timestamp");
    assert("first"@ != "last"@ && "first"@ != "next"@ && "first"@ != "offset"@ && "first"@
        != "timestamp"@) by {
        assert("first"@[0] != "last"@[0]);
        assert("first"@[0] != "next"@[0]);
        assert("first"@[0] != "offset"@[0]);
        assert("first"@[0] != "timestamp"@[0]);
    }
    assert("last"@ != "next"@ && "last"@ != "offset"@ && "last"@ != "timestamp"@) by {
        assert("last"@[0] != "next"@[0]);
        assert("last"@[0] != "offset"@[0]);
        assert("last"@[0] != "timestamp"@[0]);
    }
    assert("next"@ != "offset"@ && "next"@ != "timestamp"@) by {
        assert("next"@[0] != "offset"@[0]);
        assert("next"@[0] != "timestamp"@[0]);
    }
    assert("offset"@ != "timestamp"@) by {
        assert("offset"@[0] != "timestamp"@[0]);
    }
}

/// The size of the binary form of a poll request's payload.
pub const POLL_MESSAGES_SIZE: usize = 25;

/// The number of fields of the text form.
pub const POLL_MESSAGES_FIELDS: usize = 6;

/// Asks for up to `count` messages of one partition, starting where `kind` and `value` say.
#[derive(Debug, Clone, Copy, PartialEq, Eq, Structural)]
pub struct PollMessages {
    pub stream_id: u32,
    pub topic_id: u32,
    pub partition_id: u32,
    pub kind: PollingKind,
    pub value: u64,
    pub count: u32,
}

impl PollMessages {
    /// Stream and topic ids are 1-based.
    pub open spec fn checked(self) -> Result<PollMessages, Error> {
        if self.stream_id == 0 {
            Err(Error::InvalidStreamId)
        } else if self.topic_id == 0 {
            Err(Error::InvalidTopicId)
        } else {
            Ok(self)
        }
    }

    /// `stream_id:u32 | topic_id:u32 | partition_id:u32 | kind:u8 | value:u64 | count:u32`.
    pub open spec fn encoded(self) -> Seq<u8> {
        le_u32(self.stream_id) + le_u32(self.topic_id) + le_u32(self.partition_id) + seq![
            self.kind.code(),
        ] + le_u64(self.value) + le_u32(self.count)
    }

    pub open spec fn decoded(b: Seq<u8>) -> Result<PollMessages, Error> {
        if b.len() != POLL_MESSAGES_SIZE {
            Err(Error::InvalidCommand)
        } else {
            match PollingKind::of_code(b[12]) {
                None => Err(Error::InvalidCommand),
                Some(k) => PollMessages {
                    stream_id: u32_at(b, 0),
                    topic_id: u32_at(b, 4),
                    partition_id: u32_at(b, 8),
                    kind: k,
                    value: u64_at(b, 13),
                    count: u32_at(b, 21),
                }.checked(),
            }
        }
    }

    pub open spec fn fields(self) -> Seq<Seq<char>> {
        seq![
            decimal(self.stream_id as nat),
            decimal(self.topic_id as nat),
            decimal(self.partition_id as nat),
            self.kind.name(),
            decimal(self.value as nat),
            decimal(self.count as nat),
        ]
    }

    pub open spec fn text(self) -> Seq<char> {
        join_fields(self.fields())
    }

    pub open spec fn parsed(s: Seq<char>) -> Result<PollMessages, Error> {
        let f = split_fields(s);
        if f.len() != POLL_MESSAGES_FIELDS {
            Err(Error::InvalidCommand)
        } else {
            match (u32_field(f[0]), u32_field(f[1]), u32_field(f[2])) {
                (Ok(st), Ok(tp), Ok(pt)) => match PollingKind::of_name(f[3]) {
                    None => Err(Error::InvalidCommand),
                    Some(k) => match (u64_field(f[4]), u32_field(f[5])) {
                        (Ok(v), Ok(c)) => PollMessages {
                            stream_id: st,
                            topic_id: tp,
                            partition_id: pt,
                            kind: k,
                            value: v,
                            count: c,
                        }.checked(),
                        _ => Err(Error::CannotParseInt),
                    },
                },
                _ => Err(Error::CannotParseInt),
            }
        }
    }

    pub fn validate(&self) -> (r: Result<(), Error>)
        ensures
            r == match self.checked() {
                Ok(_) => Ok(()),
                Err(e) => Err::<(), Error>(e),
            },
    {
        if self.stream_id == 0 {
            return Err(Error::InvalidStreamId);
        }
        if self.topic_id == 0 {
            return Err(Error::InvalidTopicId);
        }
        Ok(())
    }

    /// Reads the text form `stream_id|topic_id|partition_id|kind|value|count`.
    pub fn from_str(input: &str) -> (r: Result<PollMessages, Error>)
        ensures
            r == PollMessages::parsed(input@),
    {
        let chars = chars_of(input);
        let parts = split_text(&chars);
        if parts.len() != POLL_MESSAGES_FIELDS {
            return Err(Error::InvalidCommand);
        }
        let stream_id = match parse_u32_field(&parts[0]) {
            Ok(v) => v,
            Err(_) => return Err(Error::CannotParseInt),
        };
        let topic_id = match parse_u32_field(&parts[1]) {
            Ok(v) => v,
            Err(_) => return Err(Error::CannotParseInt),
        };
        let partition_id = match parse_u32_field(&parts[2]) {
            Ok(v) => v,
            Err(_) => return Err(Error::CannotParseInt),
        };
        let kind = PollingKind::from_field(&parts[3])?;
        let value = match parse_u64_field(&parts[4]) {
            Ok(v) => v,
            Err(_) => return Err(Error::CannotParseInt),
        };
        let count = match parse_u32_field(&parts[5]) {
            Ok(v) => v,
            Err(_) => return Err(Error::CannotParseInt),
        };
        let command = PollMessages { stream_id, topic_id, partition_id, kind, value, count };
        match command.validate() {
            Ok(()) => Ok(command),
            Err(e) => Err(e),
        }
    }

    pub fn as_bytes(&self) -> (r: Vec<u8>)
        ensures
            r@ == self.encoded(),
    {
        let mut bytes: Vec<u8> = Vec::with_capacity(POLL_MESSAGES_SIZE);
        push_u32(&mut bytes, self.stream_id);
        push_u32(&mut bytes, self.topic_id);
        push_u32(&mut bytes, self.partition_id);
        bytes.push(self.kind.as_code());
        push_u64(&mut bytes, self.value);
        push_u32(&mut bytes, self.count);
        assert(bytes@ =~= self.encoded());
        bytes
    }

    pub fn from_bytes(bytes: &[u8]) -> (r: Result<PollMessages, Error>)
        ensures
            r == PollMessages::decoded(bytes@),
    {
        if bytes.len() != POLL_MESSAGES_SIZE {
            return Err(Error::InvalidCommand);
        }
        let kind = PollingKind::from_code(bytes[12])?;
        let command = PollMessages {
            stream_id: read_u32(bytes, 0),
            topic_id: read_u32(bytes, 4),
            partition_id: read_u32(bytes, 8),
            kind,
            value: read_u64(bytes, 13),
            count: read_u32(bytes, 21),
        };
        match command.validate() {
            Ok(()) => Ok(command),
            Err(e) => Err(e),
        }
    }

    /// The request as sent: the command byte, then the payload.
    pub fn as_request(&self) -> (r: Vec<u8>)
        ensures
            r@ == seq![crate::command::POLL] + self.encoded(),
    {
        let mut bytes: Vec<u8> = Vec::with_capacity(1 + POLL_MESSAGES_SIZE);
        bytes.push(crate::command::POLL);
        push_u32(&mut bytes, self.stream_id);
        push_u32(&mut bytes, self.topic_id);
        push_u32(&mut bytes, self.partition_id);
        bytes.push(self.kind.as_code());
        push_u64(&mut bytes, self.value);
        push_u32(&mut bytes, self.count);
        assert(bytes@ =~= seq![crate::command::POLL] + self.encoded());
        bytes
    }

    /// The text form, as `from_str` reads it.
    pub fn to_string(&self) -> (r: String)
        ensures
            r@ == self.text(),
    {
        let mut out = String::new();
        push_decimal(&mut out, self.stream_id as u64);
        push_separator(&mut out);
        push_decimal(&mut out, self.topic_id as u64);
        push_separator(&mut out);
        push_decimal(&mut out, self.partition_id as u64);
        push_separator(&mut out);
        out.append(self.kind.as_str());
        push_separator(&mut out);
        push_decimal(&mut out, self.value);
        push_separator(&mut out);
        push_decimal(&mut out, self.count as u64);
        proof {
            let f = self.fields();
            let f1 = f.drop_last();
            let f2 = f1.drop_last();
            let f3 = f2.drop_last();
            let f4 = f3.drop_last();
            let f5 = f4.drop_last();
            assert(f5 =~= seq![f[0]]);
            assert(join_fields(f5) == f[0]);
            assert(join_fields(f4) == join_fields(f5).push('|') + f[1]);
            assert(join_fields(f3) == join_fields(f4).push('|') + f[2]);
            assert(join_fields(f2) == join_fields(f3).push('|') + f[3]);
            assert(join_fields(f1) == join_fields(f2).push('|') + f[4]);
            assert(join_fields(f) == join_fields(f1).push('|') + f[5]);
        }
        assert(out@ =~= self.text());
        out
    }
}

/// A valid poll request read back from its binary form is the request itself.
pub proof fn lemma_poll_messages_bytes_round_trip(c: PollMessages)
    requires
        c.stream_id != 0,
        c.topic_id != 0,
    ensures
        PollMessages::decoded(c.encoded()) == Ok::<PollMessages, Error>(c),
{
    let b = c.encoded();
    lemma_polling_kind_round_trip(c.kind);
    assert(b.subrange(0, 4) =~= le_u32(c.stream_id));
    assert(b.subrange(4, 8) =~= le_u32(c.topic_id));
    assert(b.subrange(8, 12) =~= le_u32(c.partition_id));
    assert(b[12] == c.kind.code());
    assert(b.subrange(13, 21) =~= le_u64(c.value));
    assert(b.subrange(21, 25) =~= le_u32(c.count));
    crate::bytes::lemma_u32_round_trip(b, 0, c.stream_id);
    crate::bytes::lemma_u32_round_trip(b, 4, c.topic_id);
    crate::bytes::lemma_u32_round_trip(b, 8, c.partition_id);
    crate::bytes::lemma_u64_round_trip(b, 13, c.value);
    crate::bytes::lemma_u32_round_trip(b, 21, c.count);
}

/// A valid poll request read back from its text form is the request itself.
pub proof fn lemma_poll_messages_text_round_trip(c: PollMessages)
    requires
        c.stream_id != 0,
        c.topic_id != 0,
    ensures
        PollMessages::parsed(c.text()) == Ok::<PollMessages, Error>(c),
{
    let f = c.fields();
    lemma_polling_kind_round_trip(c.kind);
    crate::text::lemma_field_round_trip(c.stream_id as u64);
    crate::text::lemma_field_round_trip(c.topic_id as u64);
    crate::text::lemma_field_round_trip(c.partition_id as u64);
    crate::text::lemma_field_round_trip(c.value);
    crate::text::lemma_field_round_trip(c.count as u64);
    assert forall|i: int| 0 <= i < f.len() implies crate::text::free_of_separator(
        #[trigger] f[i],
    ) by {}
    crate::text::lemma_split_join(f);
}

} // verus!
