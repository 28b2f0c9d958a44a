//! What the operations hand to the presentation layer.
//!
//! Rendering is not done here. These types only fix what each rendering is
//! given: the page of the board gets every message, the fragment for a new
//! message gets that one message. A delete hands over nothing.

use crate::message::Message;
use vstd::prelude::*;

verus! {

/// The data of the board's page: the messages, in the order of the listing.
#[derive(Debug, PartialEq, Eq)]
pub struct IndexTemplate {
    pub messages: Vec<Message>,
}

/// The data of the fragment that shows one message.
#[derive(Debug, PartialEq, Eq)]
pub struct MessageItemTemplate {
    pub message: Message,
}

} // verus!
