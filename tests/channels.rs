use bevy_quinnet::channel::MessageChannel;
use bevy_quinnet::config::{ConnectionConfig, DEFAULT_KEEP_ALIVE_TIMEOUT_MULTIPLE};
use bevy_quinnet::connection::{Connection, ConnectionState};
use bevy_quinnet::{QuinnetError, DEFAULT_KEEP_ALIVE_INTERVAL_S, DEFAULT_KILL_MESSAGE_QUEUE_SIZE, DEFAULT_MESSAGE_QUEUE_SIZE};

fn payload(i: usize) -> Vec<u8> {
    vec![(i % 256) as u8, (i / 256) as u8]
}

#[test]
fn defaults_match_constants() {
    let c = ConnectionConfig::new();
    assert_eq!(c.message_queue_size, 150);
    assert_eq!(c.kill_message_queue_size, 10);
    assert_eq!(c.keep_alive_interval_s, 4);
    assert_eq!(c.keep_alive_timeout_multiple, DEFAULT_KEEP_ALIVE_TIMEOUT_MULTIPLE);
    assert_eq!(DEFAULT_MESSAGE_QUEUE_SIZE, 150);
    assert_eq!(DEFAULT_KILL_MESSAGE_QUEUE_SIZE, 10);
    assert_eq!(DEFAULT_KEEP_ALIVE_INTERVAL_S, 4);
    assert_eq!(ConnectionConfig::default(), c);
}

#[test]
fn sends_below_capacity_arrive_in_order() {
    let mut ch = MessageChannel::new(10);
    for i in 0..7 {
        assert_eq!(ch.send(payload(i)), Ok(()));
    }
    assert_eq!(ch.len(), 7);
    let got = ch.drain();
    let want: Vec<Vec<u8>> = (0..7).map(payload).collect();
    assert_eq!(got, want);
    assert!(ch.is_empty());
}

#[test]
fn try_recv_takes_oldest_first() {
    let mut ch = MessageChannel::new(3);
    assert_eq!(ch.try_recv(), None);
    ch.send(vec![1]).unwrap();
    ch.send(vec![2]).unwrap();
    assert_eq!(ch.try_recv(), Some(vec![1]));
    assert_eq!(ch.try_recv(), Some(vec![2]));
    assert_eq!(ch.try_recv(), None);
}

#[test]
fn full_channel_rejects_without_change() {
    let mut ch = MessageChannel::new(2);
    ch.send(vec![1]).unwrap();
    ch.send(vec![2]).unwrap();
    assert!(ch.is_full());
    assert_eq!(ch.send(vec![3]), Err(QuinnetError::FullQueue));
    assert_eq!(ch.len(), 2);
    assert_eq!(ch.drain(), vec![vec![1], vec![2]]);
}

#[test]
fn zero_capacity_channel_is_always_full() {
    let mut ch = MessageChannel::new(0);
    assert_eq!(ch.send(vec![1]), Err(QuinnetError::FullQueue));
    assert!(ch.is_empty());
}

#[test]
fn fresh_channel_takes_150_then_one_more_after_receive() {
    let mut ch = MessageChannel::new(DEFAULT_MESSAGE_QUEUE_SIZE);
    for i in 0..150 {
        assert_eq!(ch.send(payload(i)), Ok(()));
    }
    assert_eq!(ch.send(payload(150)), Err(QuinnetError::FullQueue));
    assert_eq!(ch.len(), 150);
    assert_eq!(ch.try_recv(), Some(payload(0)));
    assert_eq!(ch.send(payload(151)), Ok(()));
    assert_eq!(ch.send(payload(152)), Err(QuinnetError::FullQueue));
    let got = ch.drain();
    assert_eq!(got.len(), 150);
    assert_eq!(got[0], payload(1));
    assert_eq!(got[149], payload(151));
}

#[test]
fn closed_channel_rejects_but_still_drains() {
    let mut ch = MessageChannel::new(4);
    ch.send(vec![9]).unwrap();
    ch.close();
    assert!(ch.is_closed());
    assert_eq!(ch.send(vec![10]), Err(QuinnetError::ChannelClosed));
    assert_eq!(ch.drain(), vec![vec![9]]);
    assert_eq!(ch.capacity(), 4);
}

#[test]
fn closed_full_channel_reports_closed() {
    let mut ch = MessageChannel::new(1);
    ch.send(vec![1]).unwrap();
    ch.close();
    assert_eq!(ch.send(vec![2]), Err(QuinnetError::ChannelClosed));
}

fn connected(now: u64) -> Connection {
    let mut c = Connection::new(&ConnectionConfig::new(), 2, 0);
    assert!(c.handshake_succeeded(now));
    c
}

#[test]
fn connection_lifecycle() {
    let mut c = Connection::new(&ConnectionConfig::new(), 2, 0);
    assert_eq!(c.state(), ConnectionState::Connecting);
    assert_eq!(c.num_channels(), 2);
    assert!(c.handshake_succeeded(1));
    assert_eq!(c.state(), ConnectionState::Connected);
    assert!(!c.handshake_succeeded(2));
    c.send_message(0, vec![1]).unwrap();
    c.close();
    assert_eq!(c.state(), ConnectionState::Disconnecting);
    assert_eq!(c.send_message(0, vec![2]), Err(QuinnetError::ChannelClosed));
    assert!(!c.finish_close(false));
    assert_eq!(c.next_outbound(0), Some(vec![1]));
    assert_eq!(c.next_outbound(0), None);
    assert!(c.finish_close(false));
    assert_eq!(c.state(), ConnectionState::Disconnected);
}

#[test]
fn disconnected_connection_rejects_sends() {
    let mut c = connected(0);
    c.send_message(1, vec![5]).unwrap();
    c.close();
    assert!(c.finish_close(true));
    assert_eq!(c.state(), ConnectionState::Disconnected);
    assert_eq!(c.send_message(0, vec![1]), Err(QuinnetError::ChannelClosed));
    assert_eq!(c.send_message(1, vec![1]), Err(QuinnetError::ChannelClosed));
    assert_eq!(c.next_outbound(0), None);
    assert_eq!(c.next_outbound(1), Some(vec![5]));
    assert_eq!(c.next_outbound(1), None);
    assert_eq!(c.deliver_inbound(0, vec![3]), Err(QuinnetError::ChannelClosed));
    assert!(c.poll_inbound(0).is_empty());
}

#[test]
fn failed_handshake_disconnects_at_once() {
    let mut c = Connection::new(&ConnectionConfig::new(), 1, 0);
    assert!(c.handshake_failed());
    assert_eq!(c.state(), ConnectionState::Disconnected);
    assert_eq!(c.send_message(0, vec![1]), Err(QuinnetError::ChannelClosed));
    assert!(!c.handshake_failed());
    assert!(!c.handshake_succeeded(3));
}

#[test]
fn inbound_is_polled_in_order_per_channel() {
    let mut c = connected(0);
    c.deliver_inbound(0, vec![1]).unwrap();
    c.deliver_inbound(1, vec![7]).unwrap();
    c.deliver_inbound(0, vec![2]).unwrap();
    assert_eq!(c.poll_inbound(0), vec![vec![1], vec![2]]);
    assert!(c.poll_inbound(0).is_empty());
    assert_eq!(c.poll_inbound(1), vec![vec![7]]);
}

#[test]
fn keep_alive_timing() {
    let mut c = connected(100);
    assert!(!c.is_keep_alive_due(103));
    assert!(c.is_keep_alive_due(104));
    c.record_keep_alive_sent(104);
    assert!(!c.is_keep_alive_due(107));
    assert!(c.is_keep_alive_due(108));
    assert!(!c.is_keep_alive_expired(112));
    assert!(c.is_keep_alive_expired(113));
    c.record_activity(110);
    c.record_activity(50);
    assert!(!c.is_keep_alive_expired(122));
    assert!(c.is_keep_alive_expired(123));
    assert!(!c.check_keep_alive(122));
    assert_eq!(c.state(), ConnectionState::Connected);
    assert!(c.check_keep_alive(123));
    assert_eq!(c.state(), ConnectionState::Disconnecting);
    assert_eq!(c.send_message(0, vec![1]), Err(QuinnetError::ChannelClosed));
}

#[test]
fn keep_alive_limit_that_overflows_never_expires() {
    let config = ConnectionConfig {
        message_queue_size: 1,
        kill_message_queue_size: 1,
        keep_alive_interval_s: u64::MAX,
        keep_alive_timeout_multiple: 2,
    };
    let mut c = Connection::new(&config, 1, 0);
    assert!(c.handshake_succeeded(0));
    assert!(!c.is_keep_alive_expired(u64::MAX));
    assert!(!c.is_keep_alive_due(u64::MAX - 1));
    assert!(c.is_keep_alive_due(u64::MAX));
}

#[test]
fn close_queues_one_termination_signal() {
    let mut c = connected(0);
    assert_eq!(c.next_kill_signal(), None);
    c.close();
    c.close();
    assert_eq!(c.next_kill_signal(), Some(vec![]));
    assert_eq!(c.next_kill_signal(), None);
}
