//! A bounded pool of time-limited ledger sessions.
//!
//! The pool's decisions (which idle session serves which waiting caller,
//! when a new session may be created, when one is evicted, how a failed
//! transport call is retried, and when the worker stops) are verified
//! state machines here; the asynchronous plumbing that drives them lives
//! with the application.

mod channel;
mod pool;
mod retry;
mod session;
mod shutdown;

pub use pool::{
    expired_tail, holds_id, ids_distinct, live_sessions_within_ceiling, request_session,
    return_session, returned_session_is_served_next, PoolCommand, PoolCore, PoolError, RequestOutcome,
};
pub use retry::{
    after_failure, backoff_ms, class_of, classify, retry_schedule, start_token, step_after,
    ErrorClass, RetryStep, TransportFailure, BACKOFF_UNIT_MS, MAX_ATTEMPTS,
};
pub use session::{session_valid_at, Session, SESSION_LIFETIME_MS};
pub use shutdown::{close_is_idempotent, PoolEndFuture};
