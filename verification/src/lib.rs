//! Core of a terminal input listener: a background worker polls a terminal
//! for decoded keystrokes and republishes each one as an application event on
//! a channel, until a shutdown signal is observed on an idle iteration.
//!
//! This crate holds the worker's decision logic, verified: what one polling
//! iteration does (`listener::decide`), how the loop reacts to a send outcome
//! (`listener::after_forward`), and a replay of the loop over a recorded
//! trace of observations (`listener::replay`), with proofs that keys are
//! forwarded exactly once and in order, that no event is fabricated, that a
//! pending key is never lost to a racing shutdown, and that shutdown on an
//! idle iteration stops the loop. The thread, the terminal handle and the
//! channels themselves are plumbing that a thin unverified shell supplies.

pub mod event;
pub mod listener;
