use codec::connection::{ConnectionData, ConnectionState, SyncStep};

#[test]
fn fresh_connection_is_offline() {
    let c = ConnectionData::new();
    assert_eq!(c.state, ConnectionState::Offline);
    assert!(c.access_token.is_none());
    assert!(c.next_batch.is_none());
    assert!(!c.past);
}

#[test]
fn login_without_position_reads_everything() {
    let mut c = ConnectionData::new();
    c.start_login();
    assert_eq!(c.state, ConnectionState::Login);
    assert_eq!(c.on_sync("ignored".to_string()), SyncStep::Ignored);
    assert_eq!(c.state, ConnectionState::Login);
    c.next_batch = None;
    c.on_login("tok".to_string());
    assert_eq!(c.state, ConnectionState::SyncAll);
    assert_eq!(c.access_token, Some("tok".to_string()));
    assert_eq!(c.on_sync("s1".to_string()), SyncStep::FullSync);
    assert_eq!(c.state, ConnectionState::SyncLoop);
    assert_eq!(c.next_batch, Some("s1".to_string()));
    assert_eq!(c.on_sync("s2".to_string()), SyncStep::Incremental(false));
    assert_eq!(c.next_batch, Some("s2".to_string()));
}

#[test]
fn login_with_position_asks_history_once() {
    let mut c = ConnectionData::new();
    c.next_batch = Some("kept".to_string());
    c.on_login("tok".to_string());
    assert_eq!(c.state, ConnectionState::SyncFirst);
    assert_eq!(c.on_sync("s1".to_string()), SyncStep::Incremental(true));
    assert_eq!(c.on_sync("s2".to_string()), SyncStep::Incremental(false));
    assert_eq!(c.state, ConnectionState::SyncLoop);
}
