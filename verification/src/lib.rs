//! A per-connection gateway pipeline that turns database change
//! notifications into an authenticated, ordered, real-time push stream:
//! wire-level request parsing and frame formatting, capability-based
//! authorization with attenuating caveats, catch-up replay of missed events,
//! and the forward-only session state machine that sequences them.

pub mod authz;
pub mod bytes;
pub mod capability;
pub mod datalog;
pub mod frames;
pub mod http;
pub mod ids;
pub mod replay;
pub mod session;
pub mod tokens;
