//! An intercepting proxy for a header-framed JSON-RPC protocol: the wire framing, the
//! message model, the correlation of responses to requests, the dispatch of messages to
//! per-method hooks, and the rules by which a session's read loops end.

pub mod codec;
pub mod hooks;
pub mod json;
pub mod message;
pub mod processed_message;
pub mod proxy;
pub mod session;

pub use hooks::{HookError, HookOutput, HookResult};
pub use json::Json;
pub use message::{Direction, Message, Notification, Request, Response};
pub use proxy::{Proxy, ProxyBuilder};
