//! The TCP control protocol shared by server and client.
//!
//! Every request a client sends, and every reply but one that a server sends,
//! is three bytes: a command byte followed by a big-endian `u16` (a UDP port,
//! a channel number or a channel count). The one exception is the invalid
//! channel reply, a single byte.

use vstd::prelude::*;

verus! {

/// Number of TV stations a server broadcasts.
pub const NUM_CHANNELS: u16 = 12;

/// First message of a client, carrying its UDP port.
pub const CMD_HELLO: u8 = 33;

/// A client's request to watch a channel.
pub const CMD_CHOOSE_CHANNEL: u8 = 34;

/// Server reply: the client is now subscribed to the channel it named.
pub const CMD_CONNECTED: u8 = 2;

/// Server reply: the channel a client named does not exist.
pub const INVALID_CHANNEL: u8 = 1;

/// Server reply to a hello, carrying the number of channels.
pub const CMD_CHANNEL_LIST: u8 = 0;

/// Length of every request and of every reply but the invalid channel reply.
pub const MESSAGE_LEN: usize = 3;

/// The value of two bytes read as a big-endian `u16`.
pub open spec fn be_value(hi: u8, lo: u8) -> int {
    hi as int * 256 + lo as int
}

/// The three bytes of a message with command `cmd` and value `value`.
pub open spec fn message_bytes(cmd: u8, value: u16) -> Seq<u8> {
    seq![cmd, (value / 256) as u8, (value % 256) as u8]
}

/// Reads two bytes as a big-endian `u16`.
pub fn u16_from_be(hi: u8, lo: u8) -> (value: u16)
    ensures
        value == be_value(hi, lo),
        value == hi as int * 256 + lo as int,
{
    (hi as u16) * 256 + (lo as u16)
}

/// Builds the three bytes of a message: the command, then `value` big-endian.
pub fn encode_message(cmd: u8, value: u16) -> (bytes: [u8; 3])
    ensures
        bytes@ == message_bytes(cmd, value),
        bytes@[0] == cmd,
        bytes@[1] as int * 256 + bytes@[2] as int == value,
{
    let bytes: [u8; 3] = [cmd, (value / 256) as u8, (value % 256) as u8];
    assert(bytes@ =~= message_bytes(cmd, value));
    bytes
}

/// The same three bytes as `encode_message`, in a vector.
pub fn message_vec(cmd: u8, value: u16) -> (bytes: Vec<u8>)
    ensures
        bytes@ == message_bytes(cmd, value),
        bytes@.len() == 3,
        bytes@[0] == cmd,
        bytes@[1] as int * 256 + bytes@[2] as int == value,
{
    let mut bytes: Vec<u8> = Vec::new();
    bytes.push(cmd);
    bytes.push((value / 256) as u8);
    bytes.push((value % 256) as u8);
    assert(bytes@ =~= message_bytes(cmd, value));
    bytes
}

/// Splits a three-byte message into its command and its big-endian value.
pub fn decode_message(bytes: [u8; 3]) -> (decoded: (u8, u16))
    ensures
        decoded.0 == bytes@[0],
        decoded.1 == be_value(bytes@[1], bytes@[2]),
        decoded.1 == bytes@[1] as int * 256 + bytes@[2] as int,
{
    (bytes[0], u16_from_be(bytes[1], bytes[2]))
}

/// Decoding what was encoded gives back the command and the value.
pub proof fn lemma_decode_encode(cmd: u8, value: u16)
    ensures
        message_bytes(cmd, value)[0] == cmd,
        be_value(message_bytes(cmd, value)[1], message_bytes(cmd, value)[2]) == value,
{
}

/// Encoding what was decoded gives back the same three bytes.
pub proof fn lemma_encode_decode(bytes: Seq<u8>)
    requires
        bytes.len() == 3,
    ensures
        message_bytes(bytes[0], be_value(bytes[1], bytes[2]) as u16) == bytes,
{
    assert(message_bytes(bytes[0], be_value(bytes[1], bytes[2]) as u16) =~= bytes);
}

/// Big-endian order: the value starts at 0, the low byte counts up by one,
/// and after a low byte of 255 the high byte counts up and the low byte
/// starts again at 0.
pub proof fn lemma_be_value_counts(hi: u8, lo: u8)
    ensures
        be_value(0, 0) == 0,
        lo < 255 ==> be_value(hi, (lo + 1) as u8) == be_value(hi, lo) + 1,
        hi < 255 ==> be_value((hi + 1) as u8, 0) == be_value(hi, 255) + 1,
        be_value(hi, lo) == hi as int * 256 + lo as int,
{
}

/// A message is three bytes: the command, then the high byte and the low
/// byte of the value, so that the high byte times 256 plus the low byte is
/// the value.
pub proof fn lemma_message_layout(cmd: u8, value: u16)
    ensures
        message_bytes(cmd, value).len() == 3,
        message_bytes(cmd, value)[0] == cmd,
        message_bytes(cmd, value)[1] as int * 256 + message_bytes(cmd, value)[2] as int == value,
        message_bytes(cmd, value)[1] == value / 256,
        message_bytes(cmd, value)[2] == value % 256,
{
}

} // verus!
