use vstd::prelude::*;
use vstd::string::*;
use tokio_tungstenite::tungstenite;

use crate::connection_id::{ConnectionId, uuid_text};

verus! {

#[verifier::external_type_specification]
#[verifier::external_body]
pub struct ExTungsteniteError(tungstenite::Error);

pub type WebsocKitResult<T> = Result<T, WebsocKitError>;

/// What can go wrong on a websocket connection.
#[derive(Debug)]
pub enum WebsocKitError {
    /// The websocket protocol layer failed.
    TungsteniteError(tungstenite::Error),
    /// No connection is known under this identifier.
    ConnectionDoesNotExist(ConnectionId),
    /// The peer sent a text message, which this protocol does not allow.
    TextMessagesNotAllowed(ConnectionId, String),
}

/// The text of `tungstenite::Error`'s `Display`. What it says depends on the
/// error, whose contents Verus does not see, so nothing is stated of it.
#[verifier::external_body]
fn tungstenite_error_text(error: &tungstenite::Error) -> String {
    error.to_string()
}

/// The message for a connection that does not exist.
pub open spec fn missing_connection_text(id: u128) -> Seq<char> {
    "No websocket connection exists with id: '"@ + uuid_text(id) + "'"@
}

/// The message for a connection that was closed because it sent text.
pub open spec fn text_not_allowed_text(id: u128, text: Seq<char>) -> Seq<char> {
    "Terminated websocket '"@ + uuid_text(id) + "' because it sent a non-binary text message: '"@ + text + "'"@
}

/// The message for a protocol error whose own description is `description`.
pub open spec fn protocol_error_text(description: Seq<char>) -> Seq<char> {
    "Tungstenite error: '"@ + description + "'"@
}

/// The message for a protocol error whose own description is `description`.
pub fn protocol_error_message(description: &str) -> (text: String)
    ensures
        text@ == protocol_error_text(description@),
{
    let text = String::from_str("Tungstenite error: '");
    let text = text.concat(description);
    text.concat("'")
}

impl WebsocKitError {
    /// The human-readable message for this error. A protocol error's message
    /// is `protocol_error_message` of the protocol layer's own description.
    pub fn to_string(&self) -> (text: String)
        ensures
            match self {
                WebsocKitError::TungsteniteError(_) => exists|description: Seq<char>|
                    text@ == protocol_error_text(description),
                WebsocKitError::ConnectionDoesNotExist(id) => text@ == missing_connection_text(id@),
                WebsocKitError::TextMessagesNotAllowed(id, message) => text@ == text_not_allowed_text(id@, message@),
            },
    {
        match self {
            WebsocKitError::TungsteniteError(error) => {
                let description = tungstenite_error_text(error);
                protocol_error_message(description.as_str())
            },
            WebsocKitError::ConnectionDoesNotExist(id) => {
                let text = String::from_str("No websocket connection exists with id: '");
                let text = text.concat(id.to_string().as_str());
                text.concat("'")
            },
            WebsocKitError::TextMessagesNotAllowed(id, message) => {
                let text = String::from_str("Terminated websocket '");
                let text = text.concat(id.to_string().as_str());
                let text = text.concat("' because it sent a non-binary text message: '");
                let text = text.concat(message.as_str());
                text.concat("'")
            },
        }
    }
}

impl From<tungstenite::Error> for WebsocKitError {
    fn from(error: tungstenite::Error) -> (wrapped: Self) {
        WebsocKitError::TungsteniteError(error)
    }
}

impl vstd::std_specs::convert::FromSpecImpl<tungstenite::Error> for WebsocKitError {
    open spec fn obeys_from_spec() -> bool {
        true
    }

    open spec fn from_spec(error: tungstenite::Error) -> WebsocKitError {
        WebsocKitError::TungsteniteError(error)
    }
}

} // verus!
