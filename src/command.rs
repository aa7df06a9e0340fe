use vstd::prelude::*;

verus! {

// The command byte that opens each request.
pub const PING: u8 = 0x01;

pub const POLL: u8 = 0x02;

pub const SEND: u8 = 0x03;

pub const CREATE_STREAM: u8 = 0x10;

pub const DELETE_STREAM: u8 = 0x11;

pub const GET_STREAM: u8 = 0x12;

pub const GET_STREAMS: u8 = 0x13;

pub const CREATE_TOPIC: u8 = 0x20;

pub const DELETE_TOPIC: u8 = 0x21;

pub const GET_TOPIC: u8 = 0x22;

pub const GET_TOPICS: u8 = 0x23;

pub const STORE_OFFSET: u8 = 0x30;

pub const GET_OFFSET: u8 = 0x31;

pub const CREATE_GROUP: u8 = 0x40;

pub const DELETE_GROUP: u8 = 0x41;

pub const GET_GROUP: u8 = 0x42;

pub const JOIN_GROUP: u8 = 0x43;

pub const LEAVE_GROUP: u8 = 0x44;

pub const GET_ME: u8 = 0x50;

pub const GET_CLIENT: u8 = 0x51;

pub const GET_CLIENTS: u8 = 0x52;

pub const KILL: u8 = 0xFF;

/// A request: the command byte, then the payload.
pub fn request(command: u8, payload: &Vec<u8>) -> (r: Vec<u8>)
    ensures
        r@ == seq![command] + payload@,
{
    let mut out: Vec<u8> = Vec::new();
    out.push(command);
    let mut i: usize = 0;
    while i < payload.len()
        invariant
            i <= payload@.len(),
            out@ == seq![command] + payload@.take(i as int),
        decreases payload@.len() - i,
    {
        out.push(payload[i]);
        i = i + 1;
        assert(out@ =~= seq![command] + payload@.take(i as int));
    }
    assert(payload@.take(i as int) =~= payload@);
    out
}

} // verus!
