use vstd::prelude::*;

use crate::connection_id::ConnectionId;
use crate::error::{WebsocKitError, WebsocKitResult};
use crate::message::WebsocKitMessage;

verus! {

/// A message as it arrives from a websocket peer, reduced to what the
/// decisions below read.
pub enum IncomingMessage {
    Binary(Vec<u8>),
    Text(String),
    Ping,
    Pong,
    Close,
    /// A raw frame, which only a client-side reader can see.
    Frame,
}

/// What happened since the last decision while listening to a connection.
pub enum ListenEvent {
    /// The connection delivered a message.
    Received(IncomingMessage),
    /// The connection ended or failed before delivering another message.
    StreamEnded,
    /// The last binary payload was handed to the payload listener.
    Forwarded,
    /// The payload listener is gone and could not take the last payload.
    ForwardFailed,
}

/// What to do next while listening to a connection.
pub enum ListenAction {
    /// Hand this message to the payload listener.
    Forward(WebsocKitMessage),
    /// Wait for the connection's next message.
    Continue,
    /// Stop listening, with this result.
    Finish(WebsocKitResult<()>),
}

/// The listening decision for connection `connection_id`: binary payloads are
/// forwarded; a close, the end of the stream, or a payload listener that is
/// gone ends listening normally; a text message ends it with an error; pings,
/// pongs and raw frames are passed over.
pub fn next_listen_action(connection_id: ConnectionId, event: ListenEvent) -> (action: ListenAction)
    ensures
        match event {
            ListenEvent::Received(IncomingMessage::Binary(payload)) => action == ListenAction::Forward(
                (WebsocKitMessage { connection_id, payload }),
            ),
            ListenEvent::Received(IncomingMessage::Text(text)) => action == ListenAction::Finish(
                Err(WebsocKitError::TextMessagesNotAllowed(connection_id, text)),
            ),
            ListenEvent::Received(IncomingMessage::Close) => action == ListenAction::Finish(Ok(())),
            ListenEvent::Received(_) => action == ListenAction::Continue,
            ListenEvent::StreamEnded => action == ListenAction::Finish(Ok(())),
            ListenEvent::Forwarded => action == ListenAction::Continue,
            ListenEvent::ForwardFailed => action == ListenAction::Finish(Ok(())),
        },
{
    match event {
        ListenEvent::Received(message) => match message {
            IncomingMessage::Binary(payload) => ListenAction::Forward(WebsocKitMessage { connection_id, payload }),
            IncomingMessage::Text(text) => ListenAction::Finish(
                Err(WebsocKitError::TextMessagesNotAllowed(connection_id, text)),
            ),
            IncomingMessage::Close => ListenAction::Finish(Ok(())),
            IncomingMessage::Ping => ListenAction::Continue,
            IncomingMessage::Pong => ListenAction::Continue,
            IncomingMessage::Frame => ListenAction::Continue,
        },
        ListenEvent::StreamEnded => ListenAction::Finish(Ok(())),
        ListenEvent::Forwarded => ListenAction::Continue,
        ListenEvent::ForwardFailed => ListenAction::Finish(Ok(())),
    }
}

/// What a client read yields for the message it received (`None` when the
/// connection ended or failed first): the payload of a binary message; an
/// error for a text message, under the nil identifier since a client knows
/// no connection identifiers; nothing for any other message.
pub fn read_outcome(received: Option<IncomingMessage>) -> (outcome: WebsocKitResult<Option<Vec<u8>>>)
    ensures
        match received {
            Some(IncomingMessage::Binary(payload)) => outcome == Ok::<Option<Vec<u8>>, WebsocKitError>(Some(payload)),
            Some(IncomingMessage::Text(text)) => outcome matches Err(WebsocKitError::TextMessagesNotAllowed(id, t)) && id@
                == 0 && t == text,
            _ => outcome == Ok::<Option<Vec<u8>>, WebsocKitError>(None),
        },
{
    match received {
        Some(IncomingMessage::Binary(payload)) => Ok(Some(payload)),
        Some(IncomingMessage::Text(text)) => Err(WebsocKitError::TextMessagesNotAllowed(ConnectionId::nil(), text)),
        _ => Ok(None),
    }
}

} // verus!
