use beartv::protocol::{encode_message, CMD_CHOOSE_CHANNEL, CMD_HELLO};
use beartv::session::{
    ClientAddr, ClientIp, SessionAction, SessionEvent, SessionState, SubscriptionTable,
};

fn peer() -> ClientIp {
    ClientIp::V4(0x7f00_0001)
}

fn served(port: u16) -> SessionState {
    SessionState::Serving { client: ClientAddr { ip: peer(), port } }
}

#[test]
fn hello_starts_serving_at_the_named_port() {
    let s = SessionState::new(peer());
    let (next, action) = s.step(&SessionEvent::Received(encode_message(CMD_HELLO, 40000)));
    assert_eq!(next, served(40000));
    assert_eq!(action, SessionAction::SendChannelList);
    assert_eq!(action.reply(), Some(vec![0, 0, 12]));
}

#[test]
fn other_first_message_closes_quietly() {
    let s = SessionState::new(peer());
    let (next, action) = s.step(&SessionEvent::Received([34, 0, 1]));
    assert_eq!(next, SessionState::Finished);
    assert_eq!(action, SessionAction::Close);
    assert!(next.is_finished());
    assert_eq!(action.reply(), None);
}

#[test]
fn failed_first_read_is_an_error() {
    let s = SessionState::new(ClientIp::V6(1));
    let (next, action) = s.step(&SessionEvent::ReadFailed);
    assert_eq!(next, SessionState::Finished);
    assert_eq!(action, SessionAction::Fail);
}

#[test]
fn choosing_an_existing_channel_subscribes() {
    let s = served(5000);
    let (next, action) = s.step(&SessionEvent::Received(encode_message(CMD_CHOOSE_CHANNEL, 11)));
    assert_eq!(next, s);
    assert_eq!(
        action,
        SessionAction::Subscribe { client: ClientAddr { ip: peer(), port: 5000 }, channel: 11 }
    );
    assert_eq!(action.reply(), Some(vec![2, 0, 11]));
}

#[test]
fn choosing_a_missing_channel_is_refused_with_one_byte() {
    let s = served(5000);
    for channel in [12u16, 13, 256, u16::MAX] {
        let (next, action) =
            s.step(&SessionEvent::Received(encode_message(CMD_CHOOSE_CHANNEL, channel)));
        assert_eq!(next, s);
        assert_eq!(action, SessionAction::RejectChannel);
        assert_eq!(action.reply(), Some(vec![1]));
    }
}

#[test]
fn unknown_commands_are_ignored_while_serving() {
    let s = served(5000);
    for bytes in [[33u8, 0, 3], [0, 0, 0], [2, 0, 1]] {
        let (next, action) = s.step(&SessionEvent::Received(bytes));
        assert_eq!(next, s);
        assert_eq!(action, SessionAction::Ignore);
        assert_eq!(action.reply(), None);
    }
}

#[test]
fn disconnect_while_serving_unsubscribes() {
    let s = served(6000);
    let (next, action) = s.step(&SessionEvent::ReadFailed);
    assert_eq!(next, SessionState::Finished);
    assert_eq!(action, SessionAction::Unsubscribe { client: ClientAddr { ip: peer(), port: 6000 } });
}

#[test]
fn finished_stays_finished() {
    let (next, action) = SessionState::Finished.step(&SessionEvent::Received([33, 0, 1]));
    assert_eq!(next, SessionState::Finished);
    assert_eq!(action, SessionAction::Close);
}

#[test]
fn table_keeps_one_task_per_client() {
    let a = ClientAddr { ip: peer(), port: 1 };
    let b = ClientAddr { ip: peer(), port: 2 };
    let c = ClientAddr { ip: ClientIp::V6(1), port: 1 };
    let mut table: SubscriptionTable<&str> = SubscriptionTable::new();
    assert_eq!(table.len(), 0);
    assert_eq!(table.insert(a, "a on 3"), None);
    assert_eq!(table.insert(b, "b on 4"), None);
    assert_eq!(table.insert(c, "c on 0"), None);
    assert_eq!(table.len(), 3);
    assert_eq!(table.insert(a, "a on 7"), Some("a on 3"));
    assert_eq!(table.len(), 3);
    assert_eq!(table.remove(&a), Some("a on 7"));
    assert!(!table.contains(&a));
    assert!(table.contains(&b));
    assert_eq!(table.remove(&a), None);
    assert_eq!(table.remove(&c), Some("c on 0"));
    assert_eq!(table.len(), 1);
}

#[test]
fn resubscribing_replaces_the_old_task() {
    let a = ClientAddr { ip: peer(), port: 9 };
    let mut table: SubscriptionTable<u16> = SubscriptionTable::new();
    table.insert(a, 3);
    let old = table.remove(&a);
    assert_eq!(old, Some(3));
    assert_eq!(table.insert(a, 5), None);
    assert_eq!(table.remove(&a), Some(5));
    assert_eq!(table.len(), 0);
}
