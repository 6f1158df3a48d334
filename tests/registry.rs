use bevy_quinnet::certificate::{CertificateAction, CertificateInteractionEvent};
use bevy_quinnet::config::ConnectionConfig;
use bevy_quinnet::connection::{Connection, ConnectionState};
use bevy_quinnet::registry::ClientRegistry;
use bevy_quinnet::{ClientId, QuinnetError};

fn connected(now: u64) -> Connection {
    let mut c = Connection::new(&ConnectionConfig::new(), 1, now);
    assert!(c.handshake_succeeded(now));
    c
}

#[test]
fn assigned_ids_are_distinct() {
    let mut reg = ClientRegistry::new(1);
    let mut ids: Vec<ClientId> = Vec::new();
    for _ in 0..100 {
        ids.push(reg.register(connected(0)));
    }
    for _ in 0..20 {
        ids.push(reg.assign());
    }
    let first = ids[0];
    for i in 0..ids.len() {
        for j in (i + 1)..ids.len() {
            assert_ne!(ids[i], ids[j]);
        }
    }
    assert!(reg.remove(first));
    let again = reg.register(connected(0));
    assert!(!ids.contains(&again));
    assert_eq!(again, 120);
}

#[test]
fn lookup_and_remove() {
    let mut reg = ClientRegistry::new(1);
    let a = reg.register(connected(0));
    let b = reg.register(connected(0));
    assert_eq!(a, 0);
    assert_eq!(b, 1);
    assert!(reg.contains(a));
    assert_eq!(reg.lookup(b).map(|c| c.state()), Some(ConnectionState::Connected));
    assert!(reg.lookup(7).is_none());
    assert!(reg.remove(a));
    assert!(!reg.remove(a));
    assert!(!reg.contains(a));
    assert!(reg.contains(b));
    assert_eq!(reg.send_message(a, 0, vec![1]), Err(QuinnetError::UnknownClient(a)));
    assert_eq!(reg.poll_inbound(a, 0), Err(QuinnetError::UnknownClient(a)));
    assert_eq!(reg.disconnect(a), Err(QuinnetError::UnknownClient(a)));
}

#[test]
fn registry_routes_messages() {
    let mut reg = ClientRegistry::new(1);
    let a = reg.register(connected(0));
    reg.send_message(a, 0, vec![4]).unwrap();
    reg.deliver_inbound(a, 0, vec![8]).unwrap();
    assert_eq!(reg.poll_inbound(a, 0), Ok(vec![vec![8]]));
    assert_eq!(reg.poll_inbound(a, 0), Ok(vec![]));
    reg.disconnect(a).unwrap();
    assert_eq!(reg.lookup(a).map(|c| c.state()), Some(ConnectionState::Disconnecting));
    assert_eq!(reg.send_message(a, 0, vec![5]), Err(QuinnetError::ChannelClosed));
    assert_eq!(reg.deliver_inbound(9, 0, vec![1]), Err(QuinnetError::UnknownClient(9)));
}

#[test]
fn silent_peer_is_removed_and_becomes_unknown() {
    let mut reg = ClientRegistry::new(1);
    let quiet = reg.register(connected(0));
    let chatty = reg.register(connected(0));
    reg.record_activity(chatty, 10).unwrap();
    assert!(reg.expire_idle(12).is_empty());
    let idle = reg.idle_clients(13);
    assert_eq!(idle, vec![quiet]);
    let removed = reg.expire_idle(13);
    assert_eq!(removed, vec![quiet]);
    assert!(reg.lookup(quiet).is_none());
    assert_eq!(reg.send_message(quiet, 0, vec![1]), Err(QuinnetError::UnknownClient(quiet)));
    assert!(reg.contains(chatty));
    assert_eq!(reg.expire_idle(23), vec![chatty]);
    assert!(!reg.contains(chatty));
    assert_eq!(reg.record_activity(chatty, 30), Err(QuinnetError::UnknownClient(chatty)));
}

#[test]
fn second_certificate_decision_is_rejected() {
    let mut ev = CertificateInteractionEvent::new("example.org".to_string(), vec![1, 2, 3]);
    assert!(!ev.is_applied());
    assert_eq!(ev.apply_cert_action(CertificateAction::AcceptOnly), Ok(()));
    assert_eq!(ev.decision(), Some(CertificateAction::AcceptOnly));
    assert_eq!(
        ev.apply_cert_action(CertificateAction::Abort),
        Err(QuinnetError::CertificateActionAlreadyApplied)
    );
    assert_eq!(ev.decision(), Some(CertificateAction::AcceptOnly));
    assert_eq!(ev.server_name(), "example.org");
    assert_eq!(ev.fingerprint(), &vec![1, 2, 3]);
}

#[test]
fn poisoned_lock_maps_to_lock_failure() {
    let e: QuinnetError = std::sync::PoisonError::new(3u8).into();
    assert_eq!(e, QuinnetError::LockAcquisitionFailure);
    let ok: Result<u8, std::sync::PoisonError<u8>> = Ok(5);
    assert_eq!(QuinnetError::from_lock_result(ok), Ok(5));
    let bad: Result<u8, std::sync::PoisonError<u8>> = Err(std::sync::PoisonError::new(5));
    assert_eq!(QuinnetError::from_lock_result(bad), Err(QuinnetError::LockAcquisitionFailure));
}

#[test]
fn poll_received_drains_all_channels_in_order() {
    let mut reg = ClientRegistry::new(3);
    let mut conn = Connection::new(&ConnectionConfig::new(), 3, 0);
    assert!(conn.handshake_succeeded(0));
    let a = reg.register(conn);
    assert_eq!(reg.len(), 1);
    assert_eq!(reg.num_channels(), 3);
    reg.deliver_inbound(a, 2, vec![20]).unwrap();
    reg.deliver_inbound(a, 0, vec![1]).unwrap();
    reg.deliver_inbound(a, 2, vec![21]).unwrap();
    reg.deliver_inbound(a, 0, vec![2]).unwrap();
    let got = reg.poll_received(a).unwrap();
    assert_eq!(got, vec![(0, vec![1]), (0, vec![2]), (2, vec![20]), (2, vec![21])]);
    assert_eq!(reg.poll_received(a), Ok(vec![]));
    assert_eq!(reg.poll_received(a + 1), Err(QuinnetError::UnknownClient(a + 1)));
}

#[test]
fn inbound_queue_full_is_reported() {
    let config = ConnectionConfig {
        message_queue_size: 2,
        kill_message_queue_size: 1,
        keep_alive_interval_s: 4,
        keep_alive_timeout_multiple: 3,
    };
    let mut conn = Connection::new(&config, 1, 0);
    conn.deliver_inbound(0, vec![1]).unwrap();
    conn.deliver_inbound(0, vec![2]).unwrap();
    assert_eq!(conn.deliver_inbound(0, vec![3]), Err(QuinnetError::FullQueue));
    assert_eq!(conn.poll_received(), vec![(0, vec![1]), (0, vec![2])]);
}
