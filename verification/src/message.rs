//! The one entity of the board, and the input that creates it.

use vstd::prelude::*;

verus! {

/// What a caller submits to create a message.
#[derive(Debug, PartialEq, Eq)]
pub struct CreateMessage {
    pub content: String,
}

/// A stored message. The store assigns `id`; `content` is kept exactly as it
/// was submitted.
#[derive(Debug, PartialEq, Eq)]
pub struct Message {
    pub id: i64,
    pub content: String,
}

/// The mathematical value of a [`Message`].
pub struct Row {
    pub id: int,
    pub content: Seq<char>,
}

impl View for Message {
    type V = Row;

    open spec fn view(&self) -> Row {
        Row { id: self.id as int, content: self.content@ }
    }
}

impl Clone for Message {
    fn clone(&self) -> (copy: Self)
        ensures
            copy == *self,
    {
        Message { id: self.id, content: self.content.clone() }
    }
}

/// The rows that a sequence of messages stands for, in the same order.
pub open spec fn rows_of(messages: Seq<Message>) -> Seq<Row> {
    messages.map_values(|m: Message| m@)
}

} // verus!
