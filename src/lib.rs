//! A real-time text relay: every connected client receives every text frame
//! that any client sends.
//!
//! - `registry`: the connection registry and fan-out broadcaster. It keeps one
//!   outbound queue handle per live connection, offers each broadcast frame to
//!   all of them in registration order, and prunes the handles whose receiving
//!   side has gone away.
//! - `outbox`: one connection's outbound queue handle, with a record of
//!   every frame offered to it and every frame its queue accepted.
//! - `laws`: what holds of the registry over sequences of operations.
//! - `relay`: the per-connection decisions: what the inbound side does with a
//!   frame, and the connection lifecycle.
//! - `auth`: login form checks, password hashing, session identifiers and
//!   cookies.
//!
//! Policies: broadcasting is echo-inclusive (the sender's own connection gets
//! its frame back, since the registry has no notion of a sender), and each
//! connection's outbound queue is unbounded, so a broadcast never waits on a
//! slow receiver.
pub mod auth;
pub mod laws;
pub mod outbox;
pub mod registry;
pub mod relay;
