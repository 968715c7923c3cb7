use beartv::protocol::{
    decode_message, encode_message, message_vec, u16_from_be, CMD_CHANNEL_LIST, CMD_CHOOSE_CHANNEL,
    CMD_CONNECTED, CMD_HELLO, INVALID_CHANNEL, NUM_CHANNELS,
};

#[test]
fn command_bytes_match_the_wire_protocol() {
    assert_eq!(CMD_HELLO, 33);
    assert_eq!(CMD_CHOOSE_CHANNEL, 34);
    assert_eq!(CMD_CONNECTED, 2);
    assert_eq!(INVALID_CHANNEL, 1);
    assert_eq!(CMD_CHANNEL_LIST, 0);
    assert_eq!(NUM_CHANNELS, 12);
}

#[test]
fn u16_is_read_big_endian() {
    assert_eq!(u16_from_be(0x12, 0x34), 0x1234);
    assert_eq!(u16_from_be(0, 12), 12);
    assert_eq!(u16_from_be(0xff, 0xff), u16::MAX);
    assert_eq!(u16_from_be(1, 0), 256);
}

#[test]
fn encode_message_puts_value_big_endian_after_command() {
    assert_eq!(encode_message(CMD_HELLO, 0x1f90), [33, 0x1f, 0x90]);
    assert_eq!(encode_message(CMD_CHANNEL_LIST, NUM_CHANNELS), [0, 0, 12]);
    assert_eq!(message_vec(CMD_CONNECTED, 7), vec![2, 0, 7]);
    assert_eq!(message_vec(CMD_CHOOSE_CHANNEL, 300), vec![34, 1, 44]);
}

#[test]
fn decode_message_undoes_encode_message() {
    for value in [0u16, 1, 255, 256, 8080, 54321, u16::MAX] {
        for cmd in [0u8, 2, 33, 34, 200] {
            assert_eq!(decode_message(encode_message(cmd, value)), (cmd, value));
        }
    }
}

#[test]
fn encode_message_undoes_decode_message() {
    for bytes in [[0u8, 0, 0], [33, 0xab, 0xcd], [255, 255, 255], [34, 0, 11]] {
        let (cmd, value) = decode_message(bytes);
        assert_eq!(encode_message(cmd, value), bytes);
    }
}
