//! Bookkeeping for a websocket hub: connection identifiers, subscription
//! counts per connection, and the decisions that the asynchronous shell acts on.

pub mod connection_id;
pub mod subscription;
pub mod subscriptions;
pub mod message;
pub mod error;
pub mod incoming;
pub mod connections;
