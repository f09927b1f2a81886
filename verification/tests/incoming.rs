use websockit::connection_id::ConnectionId;
use websockit::error::WebsocKitError;
use websockit::incoming::{next_listen_action, read_outcome, IncomingMessage, ListenAction, ListenEvent};

#[test]
fn binary_message_is_forwarded_with_its_connection() {
    let id = ConnectionId::from_u128(9);
    match next_listen_action(id, ListenEvent::Received(IncomingMessage::Binary(vec![1, 2, 3]))) {
        ListenAction::Forward(message) => {
            assert!(message.connection_id == id);
            assert_eq!(message.payload, vec![1, 2, 3]);
        }
        _ => panic!("expected the payload to be forwarded"),
    }
}

#[test]
fn text_message_ends_listening_with_error() {
    let id = ConnectionId::from_u128(9);
    match next_listen_action(id, ListenEvent::Received(IncomingMessage::Text("hi".to_string()))) {
        ListenAction::Finish(Err(WebsocKitError::TextMessagesNotAllowed(from, text))) => {
            assert!(from == id);
            assert_eq!(text, "hi");
        }
        _ => panic!("expected an error"),
    }
}

#[test]
fn close_and_stream_end_finish_well() {
    let id = ConnectionId::from_u128(9);
    assert!(matches!(
        next_listen_action(id, ListenEvent::Received(IncomingMessage::Close)),
        ListenAction::Finish(Ok(()))
    ));
    assert!(matches!(next_listen_action(id, ListenEvent::StreamEnded), ListenAction::Finish(Ok(()))));
    assert!(matches!(next_listen_action(id, ListenEvent::ForwardFailed), ListenAction::Finish(Ok(()))));
}

#[test]
fn ping_pong_and_forwarded_continue() {
    let id = ConnectionId::from_u128(9);
    assert!(matches!(next_listen_action(id, ListenEvent::Received(IncomingMessage::Ping)), ListenAction::Continue));
    assert!(matches!(next_listen_action(id, ListenEvent::Received(IncomingMessage::Pong)), ListenAction::Continue));
    assert!(matches!(next_listen_action(id, ListenEvent::Forwarded), ListenAction::Continue));
}

#[test]
fn client_read_outcomes() {
    assert_eq!(read_outcome(Some(IncomingMessage::Binary(vec![4]))).unwrap(), Some(vec![4]));
    assert_eq!(read_outcome(Some(IncomingMessage::Close)).unwrap(), None);
    assert_eq!(read_outcome(Some(IncomingMessage::Ping)).unwrap(), None);
    assert_eq!(read_outcome(Some(IncomingMessage::Pong)).unwrap(), None);
    assert_eq!(read_outcome(Some(IncomingMessage::Frame)).unwrap(), None);
    assert_eq!(read_outcome(None).unwrap(), None);
    match read_outcome(Some(IncomingMessage::Text("t".to_string()))) {
        Err(WebsocKitError::TextMessagesNotAllowed(id, text)) => {
            assert_eq!(id.as_u128(), 0);
            assert_eq!(text, "t");
        }
        _ => panic!("expected an error"),
    }
}
