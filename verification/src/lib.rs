//! Verified core of a handful of small TCP services: a multi-user line-based
//! chat room, a prime-check RPC and a time-series mean-query store.
//!
//! Everything here is pure: each function maps plain values to plain values
//! and states what it returns in its contract. Sockets, tasks and locks are
//! the caller's business.

pub mod acceptor;
pub mod username;
pub mod wire;
pub mod chatroom;
pub mod session;
pub mod lines;
pub mod means;
pub mod prime;
