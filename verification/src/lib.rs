//! A small message board core: messages are created, listed and deleted by
//! identifier, and every failure reaches the caller as one opaque error.
//!
//! The crate holds the rules of the board and proves them:
//!
//! * [`message`] is the data: a message and the input that creates one;
//! * [`id`] reads an identifier from text;
//! * [`store`] is the table of messages together with the counter that hands
//!   out identifiers;
//! * [`routes`] are the three operations of the board;
//! * [`markup`] is what the operations hand to the presentation layer;
//! * [`error`] is the single error that the boundary reports;
//! * [`laws`] states what holds across operations.

pub mod error;
pub mod id;
pub mod laws;
pub mod markup;
pub mod message;
pub mod routes;
pub mod store;

pub use error::{AppError, AppResult};
pub use message::{CreateMessage, Message};
