//! The client's decisions: what its keyboard input asks for, what the server's
//! replies mean, and which channel count it was given.

use vstd::prelude::*;
use vstd::utf8::{encode_utf8, is_ascii_chars_encode_utf8, encode_utf8_decode_utf8};
use crate::protocol::{be_value, message_bytes, message_vec, decode_message, CMD_HELLO, CMD_CHOOSE_CHANNEL, CMD_CONNECTED, CMD_CHANNEL_LIST, INVALID_CHANNEL};

verus! {

/// What a line of keyboard input asks the client to do.
#[derive(Clone, Copy, Debug, PartialEq, Eq, Structural)]
pub enum InputCommand {
    /// `q`: leave.
    Quit,
    /// `d`: connect to the server anew.
    Reconnect,
    /// A channel number below the channel count: watch that channel.
    Choose(u16),
    /// Anything else.
    Invalid,
}

/// What the server answered to a channel request.
#[derive(Clone, Copy, Debug, PartialEq, Eq, Structural)]
pub enum ServerReply {
    InvalidChannel,
    Connected,
    Unexpected(u8),
}

/// Whether `c` has the Unicode White_Space property.
pub open spec fn is_whitespace(c: char) -> bool {
    let v = c as u32;
    ||| 0x09 <= v <= 0x0d
    ||| v == 0x20
    ||| v == 0x85
    ||| v == 0xa0
    ||| v == 0x1680
    ||| 0x2000 <= v <= 0x200a
    ||| v == 0x2028
    ||| v == 0x2029
    ||| v == 0x202f
    ||| v == 0x205f
    ||| v == 0x3000
}

/// How many whitespace chars `s` starts with.
pub open spec fn leading_whitespace(s: Seq<char>) -> nat
    decreases s.len(),
{
    if s.len() > 0 && is_whitespace(s[0]) {
        1 + leading_whitespace(s.drop_first())
    } else {
        0
    }
}

/// How many whitespace chars `s` ends with.
pub open spec fn trailing_whitespace(s: Seq<char>) -> nat
    decreases s.len(),
{
    if s.len() > 0 && is_whitespace(s.last()) {
        1 + trailing_whitespace(s.drop_last())
    } else {
        0
    }
}

/// `s` without its leading and trailing whitespace.
pub open spec fn trimmed(s: Seq<char>) -> Seq<char> {
    let rest = s.skip(leading_whitespace(s) as int);
    rest.take(rest.len() - trailing_whitespace(rest))
}

/// `s` without its leading and trailing whitespace.
///
/// Calls `str::trim`, which removes the leading and trailing chars that have
/// the Unicode White_Space property; the contract states that set of chars.
#[verifier::external_body]
fn trim_whitespace(s: &str) -> (t: &str)
    ensures
        t@ == trimmed(s@),
{
    s.trim()
}

/// Whether `b` is an ASCII decimal digit.
pub open spec fn is_digit(b: u8) -> bool {
    48 <= b <= 57
}

/// The value of a string of decimal digits.
pub open spec fn digits_value(d: Seq<u8>) -> int
    decreases d.len(),
{
    if d.len() == 0 {
        0
    } else {
        digits_value(d.drop_last()) * 10 + (d.last() - 48)
    }
}

/// The bytes after an optional leading `+`.
pub open spec fn unsigned_digits(b: Seq<u8>) -> Seq<u8> {
    if b.len() > 0 && b[0] == 43 {
        b.drop_first()
    } else {
        b
    }
}

/// A `u16` written in decimal: an optional `+`, then one or more digits,
/// with a value that fits.
pub open spec fn decimal_u16(b: Seq<u8>) -> Option<u16> {
    let d = unsigned_digits(b);
    if d.len() > 0 && (forall|i: int| 0 <= i < d.len() ==> is_digit(#[trigger] d[i]))
        && digits_value(d) <= u16::MAX {
        Some(digits_value(d) as u16)
    } else {
        None
    }
}

/// The value of digits grows with each digit appended.
proof fn lemma_digits_prefix(d: Seq<u8>, k: int)
    requires
        0 <= k <= d.len(),
        forall|i: int| 0 <= i < d.len() ==> is_digit(#[trigger] d[i]),
    ensures
        0 <= digits_value(d.take(k)) <= digits_value(d),
    decreases d.len(),
{
    if d.len() > 0 {
        if k == d.len() {
            assert(d.take(k) =~= d);
            lemma_digits_prefix(d.drop_last(), k - 1);
        } else {
            assert(d.take(k) =~= d.drop_last().take(k));
            lemma_digits_prefix(d.drop_last(), k);
        }
    }
}

/// Reads a `u16` written in decimal, as `str::parse::<u16>` does.
pub fn parse_decimal_u16(s: &str) -> (value: Option<u16>)
    ensures
        value == decimal_u16(encode_utf8(s@)),
{
    let b = s.as_bytes();
    let ghost bs = b@;
    let ghost d = unsigned_digits(bs);
    let start: usize = if b.len() > 0 && b[0] == 43 { 1 } else { 0 };
    assert(d =~= bs.skip(start as int));
    if b.len() <= start {
        return None;
    }
    let mut value: u32 = 0;
    let mut i: usize = start;
    while i < b.len()
        invariant
            start <= i <= b@.len(),
            b@ == bs,
            bs == encode_utf8(s@),
            d == unsigned_digits(bs),
            d =~= bs.skip(start as int),
            forall|j: int| 0 <= j < i - start ==> is_digit(#[trigger] d[j]),
            value == digits_value(d.take(i - start)),
            value <= u16::MAX,
        decreases b@.len() - i,
    {
        let c = b[i];
        if c < 48 || c > 57 {
            assert(!is_digit(d[i - start]));
            return None;
        }
        let next = value * 10 + (c - 48) as u32;
        assert(d[i - start] == c);
        assert(d.take(i + 1 - start).drop_last() =~= d.take(i - start));
        assert(digits_value(d.take(i + 1 - start)) == next);
        if next > 65535 {
            proof {
                if forall|j: int| 0 <= j < d.len() ==> is_digit(#[trigger] d[j]) {
                    lemma_digits_prefix(d, i + 1 - start);
                }
            }
            return None;
        }
        value = next;
        i = i + 1;
    }
    assert(d.take(i - start) =~= d);
    Some(value as u16)
}

/// Encoding chars into UTF-8 loses nothing.
proof fn lemma_encode_injective(a: Seq<char>, b: Seq<char>)
    requires
        encode_utf8(a) == encode_utf8(b),
    ensures
        a == b,
{
    encode_utf8_decode_utf8(a);
    encode_utf8_decode_utf8(b);
}

/// Whether `s` is the one ASCII char `c`.
fn is_ascii_char(s: &str, c: u8) -> (same: bool)
    requires
        c < 128,
    ensures
        same == (s@ == seq![c as char]),
{
    let b = s.as_bytes();
    proof {
        let one = seq![c as char];
        assert(vstd::utf8::is_ascii_chars(one));
        is_ascii_chars_encode_utf8(one);
        assert(encode_utf8(one) =~= seq![c]);
        if s@ == one {
            assert(b@ == seq![c]);
        }
        if b@ =~= seq![c] {
            lemma_encode_injective(s@, one);
        }
    }
    b.len() == 1 && b[0] == c
}

/// What a line of input asks for, given the channel count.
pub open spec fn command_of(line: Seq<char>, num_channels: u16) -> InputCommand {
    let input = trimmed(line);
    if input == seq!['q'] {
        InputCommand::Quit
    } else if input == seq!['d'] {
        InputCommand::Reconnect
    } else {
        match decimal_u16(encode_utf8(input)) {
            Some(channel) => if channel < num_channels {
                InputCommand::Choose(channel)
            } else {
                InputCommand::Invalid
            },
            None => InputCommand::Invalid,
        }
    }
}

/// Reads a line of keyboard input: `q`, `d`, or a channel number below
/// `num_channels`, with whitespace around it.
pub fn parse_command(line: &str, num_channels: u16) -> (command: InputCommand)
    ensures
        command == command_of(line@, num_channels),
{
    let input = trim_whitespace(line);
    if is_ascii_char(input, 113) {
        InputCommand::Quit
    } else if is_ascii_char(input, 100) {
        InputCommand::Reconnect
    } else {
        match parse_decimal_u16(input) {
            Some(channel) => if channel < num_channels {
                InputCommand::Choose(channel)
            } else {
                InputCommand::Invalid
            },
            None => InputCommand::Invalid,
        }
    }
}

/// The hello a client sends first, naming the UDP port it listens on.
pub fn hello_request(udp_port: u16) -> (bytes: Vec<u8>)
    ensures
        bytes@ == message_bytes(CMD_HELLO, udp_port),
{
    message_vec(CMD_HELLO, udp_port)
}

/// The request to watch `channel`.
pub fn choose_request(channel: u16) -> (bytes: Vec<u8>)
    ensures
        bytes@ == message_bytes(CMD_CHOOSE_CHANNEL, channel),
{
    message_vec(CMD_CHOOSE_CHANNEL, channel)
}

/// The channel count a three-byte reply announces, if it is a channel list.
pub open spec fn channel_list_of(reply: Seq<u8>) -> Option<u16> {
    if reply[0] == CMD_CHANNEL_LIST {
        Some(be_value(reply[1], reply[2]) as u16)
    } else {
        None
    }
}

/// What a reply to a channel request means, by its first byte.
pub open spec fn reply_meaning(reply: Seq<u8>) -> ServerReply {
    if reply[0] == INVALID_CHANNEL {
        ServerReply::InvalidChannel
    } else if reply[0] == CMD_CONNECTED {
        ServerReply::Connected
    } else {
        ServerReply::Unexpected(reply[0])
    }
}

/// The channel count of the server's first reply; `None` when that reply is
/// not a channel list.
pub fn expect_channel_list(reply: [u8; 3]) -> (count: Option<u16>)
    ensures
        count == channel_list_of(reply@),
{
    let (cmd, count) = decode_message(reply);
    if cmd == CMD_CHANNEL_LIST {
        Some(count)
    } else {
        None
    }
}

/// The channel count carried by a reply, whatever its command byte.
pub fn channel_count(reply: [u8; 3]) -> (count: u16)
    ensures
        count == be_value(reply@[1], reply@[2]),
{
    decode_message(reply).1
}

/// What the server's reply to a channel request means.
pub fn classify_reply(reply: [u8; 3]) -> (meaning: ServerReply)
    ensures
        meaning == reply_meaning(reply@),
{
    let cmd = reply[0];
    if cmd == INVALID_CHANNEL {
        ServerReply::InvalidChannel
    } else if cmd == CMD_CONNECTED {
        ServerReply::Connected
    } else {
        ServerReply::Unexpected(cmd)
    }
}

/// The highest channel number, for telling the user which numbers exist;
/// `None` when there are no channels.
pub fn highest_channel(num_channels: u16) -> (highest: Option<u16>)
    ensures
        highest == (if num_channels > 0 {
            Some((num_channels - 1) as u16)
        } else {
            None::<u16>
        }),
{
    if num_channels > 0 {
        Some(num_channels - 1)
    } else {
        None
    }
}

/// A line of input chooses a channel only when the channel exists.
pub proof fn lemma_chosen_channel_exists(line: Seq<char>, num_channels: u16, channel: u16)
    requires
        command_of(line, num_channels) == InputCommand::Choose(channel),
    ensures
        channel < num_channels,
{
}

/// Plain decimal digits whose value fits in a `u16` read as that value.
pub proof fn lemma_decimal_digits_read_back(d: Seq<u8>)
    requires
        d.len() > 0,
        forall|i: int| 0 <= i < d.len() ==> is_digit(#[trigger] d[i]),
        digits_value(d) <= u16::MAX,
    ensures
        decimal_u16(d) == Some(digits_value(d) as u16),
{
    assert(!is_digit(43));
}

/// Each ASCII digit `0` to `9` alone reads as its value, and no other
/// single byte reads as a number.
pub proof fn lemma_single_digit(c: u8)
    ensures
        48 <= c <= 57 ==> decimal_u16(seq![c]) == Some((c - 48) as u16),
        !(48 <= c <= 57) ==> decimal_u16(seq![c]) is None,
{
    let b = seq![c];
    assert(b.drop_last() =~= Seq::<u8>::empty());
    if c == 43 {
        assert(unsigned_digits(b) =~= Seq::<u8>::empty());
    } else {
        assert(unsigned_digits(b) == b);
        assert(b[0] == c);
        assert(b.last() == c);
        assert(digits_value(b) == digits_value(b.drop_last()) * 10 + (c - 48));
        assert(digits_value(b.drop_last()) == 0);
        if !(48 <= c <= 57) {
            assert(!is_digit(b[0]));
        }
    }
}

/// Writing one more digit after a number multiplies it by ten and adds the
/// digit, as long as the result fits in a `u16`; when it does not fit, the
/// longer text is no `u16`.
pub proof fn lemma_append_digit(b: Seq<u8>, c: u8, v: u16)
    requires
        decimal_u16(b) == Some(v),
        48 <= c <= 57,
    ensures
        v as int * 10 + (c - 48) <= 65535 ==> decimal_u16(b.push(c)) == Some(
            (v as int * 10 + (c - 48)) as u16,
        ),
        v as int * 10 + (c - 48) > 65535 ==> decimal_u16(b.push(c)) is None,
{
    let d = unsigned_digits(b);
    let e = unsigned_digits(b.push(c));
    assert(d.len() > 0);
    lemma_digits_prefix(d, d.len() as int);
    assert(d.take(d.len() as int) =~= d);
    assert(digits_value(d) == v);
    assert(b.len() > 0);
    assert(b.push(c)[0] == b[0]);
    if b[0] == 43 {
        assert(e =~= d.push(c));
    } else {
        assert(e =~= d.push(c));
    }
    assert(e.drop_last() =~= d);
    assert(e.last() == c);
    assert(digits_value(e) == digits_value(d) * 10 + (c - 48));
    assert forall|i: int| 0 <= i < e.len() implies is_digit(#[trigger] e[i]) by {
        if i < d.len() {
            assert(e[i] == d[i]);
        }
    }
}

/// A line that is just one digit `0` to `9` chooses that channel when it
/// exists, and is invalid otherwise.
pub proof fn lemma_digit_line(c: char, num_channels: u16)
    requires
        '0' <= c <= '9',
    ensures
        command_of(seq![c], num_channels) == (if (c as u32 - 48) < num_channels {
            InputCommand::Choose((c as u32 - 48) as u16)
        } else {
            InputCommand::Invalid
        }),
{
    let s = seq![c];
    assert(!is_whitespace(c));
    assert(leading_whitespace(s) == 0);
    assert(s.skip(0) =~= s);
    assert(s.last() == c);
    assert(trailing_whitespace(s) == 0);
    assert(s.take(1) =~= s);
    assert(trimmed(s) == s);
    assert(vstd::utf8::is_ascii_chars(s));
    is_ascii_chars_encode_utf8(s);
    assert(encode_utf8(s) =~= seq![c as u8]);
    lemma_single_digit(c as u8);
    assert(s[0] != 'q');
    assert(s != seq!['q']);
    assert(s != seq!['d']);
}

/// A line of digits with no whitespace is read whole: its trimmed form is
/// itself, and its UTF-8 bytes are its chars one by one.
pub proof fn lemma_digits_line_untrimmed(s: Seq<char>)
    requires
        s.len() > 0,
        forall|i: int| 0 <= i < s.len() ==> '0' <= #[trigger] s[i] <= '9',
    ensures
        trimmed(s) == s,
        encode_utf8(s).len() == s.len(),
        forall|i: int| 0 <= i < s.len() ==> encode_utf8(s)[i] == s[i] as u8,
{
    assert(!is_whitespace(s[0]));
    assert(leading_whitespace(s) == 0);
    assert(s.skip(0) =~= s);
    assert(!is_whitespace(s.last()));
    assert(trailing_whitespace(s) == 0);
    assert(s.take(s.len() as int) =~= s);
    assert(vstd::utf8::is_ascii_chars(s));
    is_ascii_chars_encode_utf8(s);
}

} // verus!
