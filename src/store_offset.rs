use crate::bytes::{le_u32, le_u64, push_u32, push_u64, read_u32, read_u64, u32_at, u64_at};
use crate::consumer_type::ConsumerType;
use crate::error::Error;
use crate::text::{
    chars_of, decimal, join_fields, parse_u32_field, push_decimal, push_separator, split_fields,
    split_text, u32_field, parse_u64_field, u64_field,
};
use vstd::prelude::*;

verus! {

/// Stores the offset of a consumer (or consumer group) on one partition.
#[derive(Debug, Clone, Copy, PartialEq, Eq, Structural)]
pub struct StoreOffset {
    pub consumer_type: ConsumerType,
    pub consumer_id: u32,
    pub stream_id: u32,
    pub topic_id: u32,
    pub partition_id: u32,
    pub offset: u64,
}

pub fn default_consumer_type() -> (r: ConsumerType)
    ensures
        r == ConsumerType::Consumer,
{
    ConsumerType::Consumer
}

pub fn default_consumer_id() -> (r: u32)
    ensures
        r == 0,
{
    0
}

impl Default for StoreOffset {
    fn default() -> (r: Self)
        ensures
            r == (StoreOffset {
                consumer_type: ConsumerType::Consumer,
                consumer_id: 0,
                stream_id: 1,
                topic_id: 1,
                partition_id: 1,
                offset: 0,
            }),
    {
        StoreOffset {
            consumer_type: default_consumer_type(),
            consumer_id: default_consumer_id(),
            stream_id: 1,
            topic_id: 1,
            partition_id: 1,
            offset: 0,
        }
    }
}

/// The size of the binary form.
pub const STORE_OFFSET_SIZE: usize = 25;

/// The number of fields of the text form.
pub const STORE_OFFSET_FIELDS: usize = 6;

impl StoreOffset {
    /// Stream and topic ids are 1-based.
    pub open spec fn checked(self) -> Result<StoreOffset, Error> {
        if self.stream_id == 0 {
            Err(Error::InvalidStreamId)
        } else if self.topic_id == 0 {
            Err(Error::InvalidTopicId)
        } else {
            Ok(self)
        }
    }

    pub open spec fn encoded(self) -> Seq<u8> {
        seq![self.consumer_type.code()] + le_u32(self.consumer_id) + le_u32(self.stream_id)
            + le_u32(self.topic_id) + le_u32(self.partition_id) + le_u64(self.offset)
    }

    pub open spec fn decoded(b: Seq<u8>) -> Result<StoreOffset, Error> {
        if b.len() != STORE_OFFSET_SIZE {
            Err(Error::InvalidCommand)
        } else {
            match ConsumerType::of_code(b[0]) {
                None => Err(Error::InvalidCommand),
                Some(t) => StoreOffset {
                    consumer_type: t,
                    consumer_id: u32_at(b, 1),
                    stream_id: u32_at(b, 5),
                    topic_id: u32_at(b, 9),
                    partition_id: u32_at(b, 13),
                    offset: u64_at(b, 17),
                }.checked(),
            }
        }
    }

    pub open spec fn fields(self) -> Seq<Seq<char>> {
        seq![
            self.consumer_type.name(),
            decimal(self.consumer_id as nat),
            decimal(self.stream_id as nat),
            decimal(self.topic_id as nat),
            decimal(self.partition_id as nat),
            decimal(self.offset as nat),
        ]
    }

    pub open spec fn text(self) -> Seq<char> {
        join_fields(self.fields())
    }

    pub open spec fn parsed(s: Seq<char>) -> Result<StoreOffset, Error> {
        let f = split_fields(s);
        if f.len() != STORE_OFFSET_FIELDS {
            Err(Error::InvalidCommand)
        } else {
            match ConsumerType::of_name(f[0]) {
                None => Err(Error::InvalidCommand),
                Some(t) => match (
                    u32_field(f[1]),
                    u32_field(f[2]),
                    u32_field(f[3]),
                    u32_field(f[4]),
                    u64_field(f[5]),
                ) {
                    (Ok(c), Ok(s), Ok(tp), Ok(p), Ok(o)) => StoreOffset {
                        consumer_type: t,
                        consumer_id: c,
                        stream_id: s,
                        topic_id: tp,
                        partition_id: p,
                        offset: o,
                    }.checked(),
                    _ => Err(Error::CannotParseInt),
                },
            }
        }
    }

    pub fn validate(&self) -> (r: Result<(), Error>)
        ensures
            r == match self.checked() {
                Ok(_) => Ok(()),
                Err(e) => Err::<(), Error>(e),
            },
    {
        if self.stream_id == 0 {
            return Err(Error::InvalidStreamId);
        }
        if self.topic_id == 0 {
            return Err(Error::InvalidTopicId);
        }
        Ok(())
    }

    /// Reads the text form `kind|consumer_id|stream_id|topic_id|partition_id|offset`.
    pub fn from_str(input: &str) -> (r: Result<StoreOffset, Error>)
        ensures
            r == StoreOffset::parsed(input@),
    {
        let chars = chars_of(input);
        let parts = split_text(&chars);
        if parts.len() != STORE_OFFSET_FIELDS {
            return Err(Error::InvalidCommand);
        }
        let consumer_type = ConsumerType::from_field(&parts[0])?;
        let consumer_id = match parse_u32_field(&parts[1]) {
            Ok(v) => v,
            Err(_) => return Err(Error::CannotParseInt),
        };
        let stream_id = match parse_u32_field(&parts[2]) {
            Ok(v) => v,
            Err(_) => return Err(Error::CannotParseInt),
        };
        let topic_id = match parse_u32_field(&parts[3]) {
            Ok(v) => v,
            Err(_) => return Err(Error::CannotParseInt),
        };
        let partition_id = match parse_u32_field(&parts[4]) {
            Ok(v) => v,
            Err(_) => return Err(Error::CannotParseInt),
        };
        let offset = match parse_u64_field(&parts[5]) {
            Ok(v) => v,
            Err(_) => return Err(Error::CannotParseInt),
        };
        let command = StoreOffset {
            consumer_type,
            consumer_id,
            stream_id,
            topic_id,
            partition_id,
            offset,
        };
        match command.validate() {
            Ok(()) => Ok(command),
            Err(e) => Err(e),
        }
    }

    pub fn as_bytes(&self) -> (r: Vec<u8>)
        ensures
            r@ == self.encoded(),
    {
        let mut bytes: Vec<u8> = Vec::with_capacity(STORE_OFFSET_SIZE);
        bytes.push(self.consumer_type.as_code());
        push_u32(&mut bytes, self.consumer_id);
        push_u32(&mut bytes, self.stream_id);
        push_u32(&mut bytes, self.topic_id);
        push_u32(&mut bytes, self.partition_id);
        push_u64(&mut bytes, self.offset);
        assert(bytes@ =~= self.encoded());
        bytes
    }

    pub fn from_bytes(bytes: &[u8]) -> (r: Result<StoreOffset, Error>)
        ensures
            r == StoreOffset::decoded(bytes@),
    {
        if bytes.len() != STORE_OFFSET_SIZE {
            return Err(Error::InvalidCommand);
        }
        let consumer_type = ConsumerType::from_code(bytes[0])?;
        let consumer_id = read_u32(bytes, 1);
        let stream_id = read_u32(bytes, 5);
        let topic_id = read_u32(bytes, 9);
        let partition_id = read_u32(bytes, 13);
        let offset = read_u64(bytes, 17);
        let command = StoreOffset {
            consumer_type,
            consumer_id,
            stream_id,
            topic_id,
            partition_id,
            offset,
        };
        match command.validate() {
            Ok(()) => Ok(command),
            Err(e) => Err(e),
        }
    }

    /// The text form, as `from_str` reads it.
    pub fn to_string(&self) -> (r: String)
        ensures
            r@ == self.text(),
    {
        let mut out = String::new();
        out.append(self.consumer_type.as_str());
        push_separator(&mut out);
        push_decimal(&mut out, self.consumer_id as u64);
        push_separator(&mut out);
        push_decimal(&mut out, self.stream_id as u64);
        push_separator(&mut out);
        push_decimal(&mut out, self.topic_id as u64);
        push_separator(&mut out);
        push_decimal(&mut out, self.partition_id as u64);
        push_separator(&mut out);
        push_decimal(&mut out, self.offset);
        proof {
            let f = self.fields();
            let f1 = f.drop_last();
            let f2 = f1.drop_last();
            let f3 = f2.drop_last();
            let f4 = f3.drop_last();
            let f5 = f4.drop_last();
            assert(f5 =~= seq![f[0]]);
            assert(join_fields(f5) == f[0]);
            assert(join_fields(f4) == join_fields(f5).push('|') + f[1]);
            assert(join_fields(f3) == join_fields(f4).push('|') + f[2]);
            assert(join_fields(f2) == join_fields(f3).push('|') + f[3]);
            assert(join_fields(f1) == join_fields(f2).push('|') + f[4]);
            assert(join_fields(f) == join_fields(f1).push('|') + f[5]);
        }
        assert(out@ =~= self.text());
        out
    }
}

/// A valid command read back from its binary form is the command itself.
pub proof fn lemma_store_offset_bytes_round_trip(c: StoreOffset)
    requires
        c.stream_id != 0,
        c.topic_id != 0,
    ensures
        StoreOffset::decoded(c.encoded()) == Ok::<StoreOffset, Error>(c),
{
    let b = c.encoded();
    crate::consumer_type::lemma_consumer_type_round_trip(c.consumer_type);
    assert(b.subrange(1, 5) =~= le_u32(c.consumer_id));
    assert(b.subrange(5, 9) =~= le_u32(c.stream_id));
    assert(b.subrange(9, 13) =~= le_u32(c.topic_id));
    assert(b.subrange(13, 17) =~= le_u32(c.partition_id));
    crate::bytes::lemma_u32_round_trip(b, 1, c.consumer_id);
    crate::bytes::lemma_u32_round_trip(b, 5, c.stream_id);
    crate::bytes::lemma_u32_round_trip(b, 9, c.topic_id);
    crate::bytes::lemma_u32_round_trip(b, 13, c.partition_id);
    assert(b.subrange(17, 25) =~= le_u64(c.offset));
    crate::bytes::lemma_u64_round_trip(b, 17, c.offset);
}

/// A valid command read back from its text form is the command itself.
pub proof fn lemma_store_offset_text_round_trip(c: StoreOffset)
    requires
        c.stream_id != 0,
        c.topic_id != 0,
    ensures
        StoreOffset::parsed(c.text()) == Ok::<StoreOffset, Error>(c),
{
    let f = c.fields();
    crate::consumer_type::lemma_consumer_type_round_trip(c.consumer_type);
    crate::text::lemma_field_round_trip(c.consumer_id as u64);
    crate::text::lemma_field_round_trip(c.stream_id as u64);
    crate::text::lemma_field_round_trip(c.topic_id as u64);
    crate::text::lemma_field_round_trip(c.partition_id as u64);
    crate::text::lemma_field_round_trip(c.offset);
    assert forall|i: int| 0 <= i < f.len() implies crate::text::free_of_separator(
        #[trigger] f[i],
    ) by {}
    crate::text::lemma_split_join(f);
}

} // verus!
