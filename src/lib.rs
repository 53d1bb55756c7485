//! Verified core of a gossip node that spreads identity-share records:
//! the record data, content-addressed message ids, the explicit-peer set,
//! the local record store and the dispatcher that ties them together.
pub mod record;
pub mod message_id;
pub mod peers;
pub mod store;
pub mod dispatcher;
pub mod channel;

pub use record::{SharesType, User};
