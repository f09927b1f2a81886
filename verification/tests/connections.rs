use tokio_tungstenite::tungstenite;
use websockit::connection_id::ConnectionId;
use websockit::connections::{ConnectionTable, DeliveryProgress, DeliveryStep};
use websockit::error::WebsocKitError;

#[test]
fn connection_id_text_is_hyphenated_lowercase() {
    let id = ConnectionId::from_u128(0xa1a2a3a4b1b2c1c2d1d2d3d4d5d6d7d8);
    assert_eq!(id.to_string(), "a1a2a3a4-b1b2-c1c2-d1d2-d3d4d5d6d7d8");
    assert_eq!(id.as_u128(), 0xa1a2a3a4b1b2c1c2d1d2d3d4d5d6d7d8);
}

#[test]
fn nil_connection_id_is_zero() {
    let id = ConnectionId::nil();
    assert_eq!(id.as_u128(), 0);
    assert_eq!(id.to_string(), "00000000-0000-0000-0000-000000000000");
}

const V4: u128 = 0x0000_0000_0000_4000_8000_0000_0000_0000;

#[test]
fn register_with_random_uuid_value() {
    let value = uuid::Uuid::new_v4().as_u128();
    let mut table: ConnectionTable<u8> = ConnectionTable::new();
    let id = table.register_with(value, 1);
    assert_eq!(id.as_u128(), value);
    assert_eq!(table.get(id), Some(&1));
}

#[test]
fn register_with_replaces_sender_under_same_value() {
    let mut table: ConnectionTable<u8> = ConnectionTable::new();
    let first = table.register_with(V4 + 1, 1);
    let again = table.register_with(V4 + 1, 2);
    assert!(first == again);
    assert_eq!(table.get(first), Some(&2));
    assert_eq!(table.connection_ids().len(), 1);
}

#[test]
fn delivery_progress_counts_sends() {
    let mut progress = DeliveryProgress::new();
    assert_eq!(progress.sent, 0);
    assert!(!progress.last_failed);
    progress.record_send(true);
    assert_eq!(progress.sent, 1);
    assert!(!progress.last_failed);
    progress.record_send(false);
    assert_eq!(progress.sent, 2);
    assert!(progress.last_failed);
}

#[test]
fn register_get_and_discard() {
    let mut table: ConnectionTable<&'static str> = ConnectionTable::new();
    let id = table.register_with(V4 + 11, "sender");
    assert!(table.contains(id));
    assert_eq!(table.get(id), Some(&"sender"));
    assert_eq!(table.connection_ids(), vec![id]);
    assert_eq!(table.discard(id), Some("sender"));
    assert!(!table.contains(id));
    assert_eq!(table.discard(id), None);
    assert!(table.connection_ids().is_empty());
}

#[test]
fn connection_ids_lists_every_open_connection() {
    let mut table: ConnectionTable<u8> = ConnectionTable::new();
    let a = table.register_with(V4 + 12, 1);
    let b = table.register_with(V4 + 13, 2);
    let c = table.register_with(V4 + 14, 3);
    table.discard(b);
    let mut ids: Vec<u128> = table.connection_ids().iter().map(|id| id.as_u128()).collect();
    ids.sort();
    let mut expected = vec![a.as_u128(), c.as_u128()];
    expected.sort();
    assert_eq!(ids, expected);
}

#[test]
fn delivery_to_no_targets_finishes_well() {
    let table: ConnectionTable<u8> = ConnectionTable::new();
    assert!(matches!(table.next_delivery(&vec![], 0, false), DeliveryStep::Finish(Ok(()))));
}

#[test]
fn delivery_goes_through_targets_in_order() {
    let mut table: ConnectionTable<u8> = ConnectionTable::new();
    let a = table.register_with(V4 + 15, 1);
    let b = table.register_with(V4 + 16, 2);
    let targets = vec![a, b];
    assert!(matches!(table.next_delivery(&targets, 0, false), DeliveryStep::Deliver(id) if id == a));
    assert!(matches!(table.next_delivery(&targets, 1, false), DeliveryStep::Deliver(id) if id == b));
    assert!(matches!(table.next_delivery(&targets, 2, false), DeliveryStep::Finish(Ok(()))));
}

#[test]
fn delivery_stops_quietly_after_failed_send() {
    let mut table: ConnectionTable<u8> = ConnectionTable::new();
    let a = table.register_with(V4 + 17, 1);
    let b = table.register_with(V4 + 18, 2);
    assert!(matches!(table.next_delivery(&vec![a, b], 1, true), DeliveryStep::Finish(Ok(()))));
}

#[test]
fn delivery_to_unknown_connection_fails() {
    let mut table: ConnectionTable<u8> = ConnectionTable::new();
    let a = table.register_with(V4 + 19, 1);
    let unknown = ConnectionId::from_u128(5);
    let targets = vec![a, unknown];
    assert!(matches!(table.next_delivery(&targets, 0, false), DeliveryStep::Deliver(_)));
    assert!(matches!(
        table.next_delivery(&targets, 1, false),
        DeliveryStep::Finish(Err(WebsocKitError::ConnectionDoesNotExist(id))) if id == unknown
    ));
}

#[test]
fn error_messages() {
    let id = ConnectionId::from_u128(1);
    assert_eq!(
        WebsocKitError::ConnectionDoesNotExist(id).to_string(),
        "No websocket connection exists with id: '00000000-0000-0000-0000-000000000001'"
    );
    assert_eq!(
        WebsocKitError::TextMessagesNotAllowed(id, "hello".to_string()).to_string(),
        "Terminated websocket '00000000-0000-0000-0000-000000000001' because it sent a non-binary text message: 'hello'"
    );
    let protocol: WebsocKitError = tungstenite::Error::ConnectionClosed.into();
    assert!(matches!(protocol, WebsocKitError::TungsteniteError(tungstenite::Error::ConnectionClosed)));
    assert_eq!(protocol.to_string(), "Tungstenite error: 'Connection closed normally'");
}

#[test]
fn finish_connection_after_normal_end_forgets_it() {
    let mut table: ConnectionTable<u8> = ConnectionTable::new();
    let id = table.register_with(V4 + 20, 4);
    assert!(matches!(table.finish_connection(id, Ok(())), Ok(Some(4))));
    assert!(!table.contains(id));
    assert!(matches!(table.finish_connection(id, Ok(())), Ok(None)));
}

#[test]
fn finish_connection_after_error_forgets_it() {
    let mut table: ConnectionTable<u8> = ConnectionTable::new();
    let id = table.register_with(V4 + 21, 4);
    let failed = Err(WebsocKitError::TextMessagesNotAllowed(id, "x".to_string()));
    assert!(matches!(
        table.finish_connection(id, failed),
        Err(WebsocKitError::TextMessagesNotAllowed(_, _))
    ));
    assert!(!table.contains(id));
}

#[test]
fn protocol_error_message_wraps_description() {
    assert_eq!(
        websockit::error::protocol_error_message("boom"),
        "Tungstenite error: 'boom'"
    );
}
