use crate::bytes::{le_u32, push_u32, read_u32, u32_at};
use crate::error::Error;
use vstd::prelude::*;
use vstd::utf8::{decode_utf8, encode_utf8, valid_utf8};

verus! {

/// Relies on `std::str::from_utf8`: it accepts exactly the well-formed UTF-8 byte
/// sequences, and the text it gives back holds the characters they encode.
#[verifier::external_body]
fn utf8_text(bytes: &[u8]) -> (r: Option<String>)
    ensures
        match r {
            Some(s) => valid_utf8(bytes@) && s@ == decode_utf8(bytes@),
            None => !valid_utf8(bytes@),
        },
{
    match std::str::from_utf8(bytes) {
        Ok(s) => Some(s.to_string()),
        Err(_) => None,
    }
}

/// The UTF-8 bytes of a name.
fn name_bytes(name: &String) -> (r: Vec<u8>)
    ensures
        r@ == encode_utf8(name@),
{
    let bytes = name.as_str().as_bytes();
    let mut out: Vec<u8> = Vec::new();
    let mut i: usize = 0;
    while i < bytes.len()
        invariant
            i <= bytes@.len(),
            bytes@ == encode_utf8(name@),
            out@ == bytes@.take(i as int),
        decreases bytes@.len() - i,
    {
        out.push(bytes[i]);
        i = i + 1;
        assert(out@ =~= bytes@.take(i as int));
    }
    assert(bytes@.take(i as int) =~= bytes@);
    out
}

/// A stream's `info` file: `stream_id:u32 | name_length:u32 | name`.
pub open spec fn stream_info_bytes(id: u32, name: Seq<char>) -> Seq<u8> {
    le_u32(id) + le_u32(encode_utf8(name).len() as u32) + encode_utf8(name)
}

/// A topic's `info` file: `topic_id:u32 | partitions_count:u32 | name_length:u32 | name`.
pub open spec fn topic_info_bytes(id: u32, partitions_count: u32, name: Seq<char>) -> Seq<u8> {
    le_u32(id) + le_u32(partitions_count) + le_u32(encode_utf8(name).len() as u32) + encode_utf8(
        name,
    )
}

/// The name that ends an `info` file whose header takes `header` bytes.
pub open spec fn parsed_name(b: Seq<u8>, header: int) -> Result<Seq<char>, Error> {
    if b.len() < header {
        Err(Error::InvalidFormat)
    } else if b.len() != header + u32_at(b, header - 4) {
        Err(Error::InvalidFormat)
    } else if !valid_utf8(b.skip(header)) {
        Err(Error::CannotParseUtf8)
    } else {
        Ok(decode_utf8(b.skip(header)))
    }
}

pub open spec fn parsed_stream_info(b: Seq<u8>) -> Result<(u32, Seq<char>), Error> {
    match parsed_name(b, 8) {
        Err(e) => Err(e),
        Ok(name) => Ok((u32_at(b, 0), name)),
    }
}

pub open spec fn parsed_topic_info(b: Seq<u8>) -> Result<(u32, u32, Seq<char>), Error> {
    match parsed_name(b, 12) {
        Err(e) => Err(e),
        Ok(name) => Ok((u32_at(b, 0), u32_at(b, 4), name)),
    }
}

fn read_name(b: &[u8], header: usize) -> (r: Result<String, Error>)
    requires
        header >= 4,
    ensures
        match parsed_name(b@, header as int) {
            Ok(name) => r.is_ok() && r.unwrap()@ == name,
            Err(e) => r == Err::<String, Error>(e),
        },
{
    if b.len() < header {
        return Err(Error::InvalidFormat);
    }
    let length = read_u32(b, header - 4);
    if (b.len() - header) as u64 != length as u64 {
        return Err(Error::InvalidFormat);
    }
    let mut rest: Vec<u8> = Vec::new();
    let mut i: usize = header;
    while i < b.len()
        invariant
            header <= i <= b@.len(),
            rest@ == b@.subrange(header as int, i as int),
        decreases b@.len() - i,
    {
        rest.push(b[i]);
        i = i + 1;
        assert(rest@ =~= b@.subrange(header as int, i as int));
    }
    assert(rest@ =~= b@.skip(header as int));
    match utf8_text(rest.as_slice()) {
        Some(name) => Ok(name),
        None => Err(Error::CannotParseUtf8),
    }
}

/// Writes a stream's `info` file.
pub fn stream_info(id: u32, name: &String) -> (r: Vec<u8>)
    requires
        encode_utf8(name@).len() <= u32::MAX,
    ensures
        r@ == stream_info_bytes(id, name@),
{
    let bytes = name_bytes(name);
    let mut out: Vec<u8> = Vec::new();
    push_u32(&mut out, id);
    push_u32(&mut out, bytes.len() as u32);
    let ghost header = out@;
    let mut i: usize = 0;
    while i < bytes.len()
        invariant
            i <= bytes@.len(),
            out@ == header + bytes@.take(i as int),
        decreases bytes@.len() - i,
    {
        out.push(bytes[i]);
        i = i + 1;
        assert(out@ =~= header + bytes@.take(i as int));
    }
    assert(bytes@.take(i as int) =~= bytes@);
    assert(out@ =~= stream_info_bytes(id, name@));
    out
}

/// Reads a stream's `info` file: its id and name.
pub fn parse_stream_info(b: &[u8]) -> (r: Result<(u32, String), Error>)
    ensures
        match parsed_stream_info(b@) {
            Ok((id, name)) => r.is_ok() && r.unwrap().0 == id && r.unwrap().1@ == name,
            Err(e) => r == Err::<(u32, String), Error>(e),
        },
{
    let name = match read_name(b, 8) {
        Ok(name) => name,
        Err(e) => {
            return Err(e);
        },
    };
    Ok((read_u32(b, 0), name))
}

/// Writes a topic's `info` file.
pub fn topic_info(id: u32, partitions_count: u32, name: &String) -> (r: Vec<u8>)
    requires
        encode_utf8(name@).len() <= u32::MAX,
    ensures
        r@ == topic_info_bytes(id, partitions_count, name@),
{
    let bytes = name_bytes(name);
    let mut out: Vec<u8> = Vec::new();
    push_u32(&mut out, id);
    push_u32(&mut out, partitions_count);
    push_u32(&mut out, bytes.len() as u32);
    let ghost header = out@;
    let mut i: usize = 0;
    while i < bytes.len()
        invariant
            i <= bytes@.len(),
            out@ == header + bytes@.take(i as int),
        decreases bytes@.len() - i,
    {
        out.push(bytes[i]);
        i = i + 1;
        assert(out@ =~= header + bytes@.take(i as int));
    }
    assert(bytes@.take(i as int) =~= bytes@);
    assert(out@ =~= topic_info_bytes(id, partitions_count, name@));
    out
}

/// Reads a topic's `info` file: its id, partition count and name.
pub fn parse_topic_info(b: &[u8]) -> (r: Result<(u32, u32, String), Error>)
    ensures
        match parsed_topic_info(b@) {
            Ok((id, count, name)) => r.is_ok() && r.unwrap().0 == id && r.unwrap().1 == count
                && r.unwrap().2@ == name,
            Err(e) => r == Err::<(u32, u32, String), Error>(e),
        },
{
    let name = match read_name(b, 12) {
        Ok(name) => name,
        Err(e) => {
            return Err(e);
        },
    };
    Ok((read_u32(b, 0), read_u32(b, 4), name))
}

/// A stream's `info` file reads back as the id and name it was written from.
pub proof fn lemma_stream_info_round_trip(id: u32, name: Seq<char>)
    requires
        encode_utf8(name).len() <= u32::MAX,
    ensures
        parsed_stream_info(stream_info_bytes(id, name)) == Ok::<(u32, Seq<char>), Error>(
            (id, name),
        ),
{
    let text = encode_utf8(name);
    let b = stream_info_bytes(id, name);
    assert(b.subrange(0, 4) =~= le_u32(id));
    assert(b.subrange(4, 8) =~= le_u32(text.len() as u32));
    crate::bytes::lemma_u32_round_trip(b, 0, id);
    crate::bytes::lemma_u32_round_trip(b, 4, text.len() as u32);
    assert(b.skip(8) =~= text);
    vstd::utf8::encode_utf8_valid_utf8(name);
    vstd::utf8::encode_utf8_decode_utf8(name);
}

/// A topic's `info` file reads back as the id, partition count and name it was written from.
pub proof fn lemma_topic_info_round_trip(id: u32, partitions_count: u32, name: Seq<char>)
    requires
        encode_utf8(name).len() <= u32::MAX,
    ensures
        parsed_topic_info(topic_info_bytes(id, partitions_count, name)) == Ok::<
            (u32, u32, Seq<char>),
            Error,
        >((id, partitions_count, name)),
{
    let text = encode_utf8(name);
    let b = topic_info_bytes(id, partitions_count, name);
    assert(b.subrange(0, 4) =~= le_u32(id));
    assert(b.subrange(4, 8) =~= le_u32(partitions_count));
    assert(b.subrange(8, 12) =~= le_u32(text.len() as u32));
    crate::bytes::lemma_u32_round_trip(b, 0, id);
    crate::bytes::lemma_u32_round_trip(b, 4, partitions_count);
    crate::bytes::lemma_u32_round_trip(b, 8, text.len() as u32);
    assert(b.skip(12) =~= text);
    vstd::utf8::encode_utf8_valid_utf8(name);
    vstd::utf8::encode_utf8_decode_utf8(name);
}

} // verus!
