//! Verified core of a distributed ice-cream shop order-fulfillment network.
//!
//! Three process types cooperate over newline-delimited JSON on TCP: screens
//! submit orders, a leader-elected cluster of robot dispatchers forwards them,
//! and a single shop process runs a transactional stock engine with deferred
//! commits while a backup snapshot is in progress.  This crate holds the
//! decision logic of all three: the stock engine, the per-session order
//! router, the bully-style leader election, the screen order driver, and the
//! wire codec.  Sockets, files and timers live outside, in thin unverified
//! shells that hand plain values in and out.
//!
//! Beyond the per-function contracts, a few public proof functions state the
//! properties the system leans on: the stock counters stay within the
//! committed stock (`stock::lemma_counters_bounded`), a confirmation outside
//! a backup moves exactly its units out of the stock
//! (`stock::lemma_confirm_commits_to_stock`), a cancellation releases exactly
//! its units and never touches the stock
//! (`stock::lemma_cancel_releases_reserve`), nothing lowers any stock while a
//! backup runs (`stock::lemma_backup_defers_stock`), reserving and confirming
//! in two halves ends like doing it at once
//! (`stock::lemma_split_reserve_confirm`), order states only move forward
//! (`screen::lemma_order_state_monotone`), an election settles within as many
//! forwards as there are robots (`robot::lemma_election_forwards_bounded`),
//! and writing any message on the wire and reading it back gives the original
//! (`codec::lemma_request_round_trip` and its four siblings).

pub mod args;
pub mod codec;
pub mod draws;
pub mod robot;
pub mod router;
pub mod screen;
pub mod stock;
pub mod summary;
pub mod text;
pub mod wire;

pub use wire::Request;
pub use wire::Response;
pub use wire::RobotRequest;
pub use wire::RobotResponse;
pub use wire::ShopRequest;
pub use wire::ShopResponse;
