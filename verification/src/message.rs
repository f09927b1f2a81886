use vstd::prelude::*;

use crate::connection_id::ConnectionId;

verus! {

/// A binary payload received from a websocket connection.
pub struct WebsocKitMessage {
    pub connection_id: ConnectionId,
    pub payload: Vec<u8>,
}

} // verus!
