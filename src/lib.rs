//! A real-time broadcast hub: every text event that one connected client
//! sends is fanned out to every subscribed client.
//!
//! The crate holds the verified logic: the message model and its wire codec,
//! the client registry, the bounded drop-oldest fan-out hub, the connection
//! session state machine and the request sniffing of the listener. Beside
//! them stand the small grid and arithmetic helpers of the browser demo.
pub mod arith;
pub mod codec;
pub mod dispatch;
pub mod grid;
pub mod hub;
pub mod message;
pub mod registry;
pub mod session;

pub use arith::{add, factorial};
pub use codec::{decode, decode_fields, encode, DecodeError, JsonField};
pub use dispatch::{http_response, is_upgrade_request, request_path, route, ContentType, Route};
pub use grid::Grid;
pub use hub::{Hub, QUEUE_CAPACITY};
pub use message::{Number, WsMessage};
pub use registry::{Registry, RegistryError};
pub use session::{
    inbound_action, inbound_message, next_state, resolve_inbound, step, Broker, FrameKind, InboundAction,
    SessionAction, SessionEvent, SessionState,
};
