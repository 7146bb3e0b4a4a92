//! A small publish/subscribe client core: ordered publishing through
//! per-key lanes, acknowledgement tracking for a receive loop, and
//! cooperative cancellation.
//!
//! The library performs no I/O. Each component is a state machine that a
//! driver feeds with what the broker answered and that tells the driver what
//! to do next; every transition is specified over a mathematical view of the
//! state, and what holds over any sequence of transitions is proved beside
//! it.
//!
//! - [`message`], [`error`]: the values that pass between the parts.
//! - [`client`]: the names of topics and subscriptions, and making sure
//!   that they exist.
//! - [`publisher`]: tickets, lanes and the order of sending.
//! - [`subscriber`]: the receive loop and its acknowledgement handles.
//! - [`cancel`]: the stop token.
//! - [`broker`]: a broker in memory that the other parts can be run against.
//! - [`ident`], [`lookup`]: identifiers in decimal, and finding the first
//!   element of a sequence that meets a condition.

pub mod broker;
pub mod cancel;
pub mod client;
pub mod error;
pub mod ident;
pub mod lookup;
pub mod message;
pub mod publisher;
pub mod subscriber;
