use crate::error::Error;
use crate::text::field_is;
use vstd::prelude::*;

verus! {

/// Who an offset belongs to: a single consumer or a consumer group.
#[derive(Debug, Clone, Copy, PartialEq, Eq, Structural)]
pub enum ConsumerType {
    Consumer,
    ConsumerGroup,
}

impl ConsumerType {
    /// The byte that stands for this kind on the wire.
    pub open spec fn code(self) -> u8 {
        match self {
            ConsumerType::Consumer => 1,
            ConsumerType::ConsumerGroup => 2,
        }
    }

    /// The kind a wire byte stands for, if any.
    pub open spec fn of_code(code: u8) -> Option<ConsumerType> {
        if code == 1 {
            Some(ConsumerType::Consumer)
        } else if code == 2 {
            Some(ConsumerType::ConsumerGroup)
        } else {
            None
        }
    }

    /// The lowercase name of this kind in the text form.
    pub open spec fn name(self) -> Seq<char> {
        match self {
            ConsumerType::Consumer => "consumer"@,
            ConsumerType::ConsumerGroup => "consumer_group"@,
        }
    }

    /// The kind a text name stands for, if any.
    pub open spec fn of_name(s: Seq<char>) -> Option<ConsumerType> {
        if s == "consumer"@ {
            Some(ConsumerType::Consumer)
        } else if s == "consumer_group"@ {
            Some(ConsumerType::ConsumerGroup)
        } else {
            None
        }
    }

    pub fn as_code(&self) -> (r: u8)
        ensures
            r == self.code(),
    {
        match self {
            ConsumerType::Consumer => 1,
            ConsumerType::ConsumerGroup => 2,
        }
    }

    /// Unknown bytes are rejected as an invalid command.
    pub fn from_code(code: u8) -> (r: Result<ConsumerType, Error>)
        ensures
            r == match ConsumerType::of_code(code) {
                Some(t) => Ok(t),
                None => Err::<ConsumerType, Error>(Error::InvalidCommand),
            },
    {
        if code == 1 {
            Ok(ConsumerType::Consumer)
        } else if code == 2 {
            Ok(ConsumerType::ConsumerGroup)
        } else {
            Err(Error::InvalidCommand)
        }
    }

    pub fn as_str(&self) -> (r: &'static str)
        ensures
            r@ == self.name(),
    {
        match self {
            ConsumerType::Consumer => "consumer",
            ConsumerType::ConsumerGroup => "consumer_group",
        }
    }

    /// Reads a kind from one field of a text command.
    pub fn from_field(field: &Vec<char>) -> (r: Result<ConsumerType, Error>)
        ensures
            r == match ConsumerType::of_name(field@) {
                Some(t) => Ok(t),
                None => Err::<ConsumerType, Error>(Error::InvalidCommand),
            },
    {
        if field_is(field, "consumer") {
            Ok(ConsumerType::Consumer)
        } else if field_is(field, "consumer_group") {
            Ok(ConsumerType::ConsumerGroup)
        } else {
            Err(Error::InvalidCommand)
        }
    }

    /// Reads a kind from its lowercase name.
    pub fn from_str(s: &str) -> (r: Result<ConsumerType, Error>)
        ensures
            r == match ConsumerType::of_name(s@) {
                Some(t) => Ok(t),
                None => Err::<ConsumerType, Error>(Error::InvalidCommand),
            },
    {
        let field = crate::text::chars_of(s);
        ConsumerType::from_field(&field)
    }
}

/// A kind read back from its wire byte, or from its name, is the kind itself.
pub proof fn lemma_consumer_type_round_trip(t: ConsumerType)
    ensures
        ConsumerType::of_code(t.code()) == Some(t),
        ConsumerType::of_name(t.name()) == Some(t),
        crate::text::free_of_separator(t.name()),
{
    reveal_strlit("consumer");
    reveal_strlit("consumer_group");
    assert("consumer"@ != "consumer_group"@) by {
        assert("consumer"@.len() != "consumer_group"@.len());
    }
}

} // verus!
