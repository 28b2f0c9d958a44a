//! The operations of the board: list, create, delete.
//!
//! Each operation makes exactly one call to the store and never retries.
//! What the store answers is turned into the operation's result by
//! [`listed`], [`created`] and [`deleted`]; a server that keeps its messages
//! elsewhere makes the call itself and hands the answer to the same three
//! functions. A failure of the store passes through unchanged, wrapped in an
//! [`AppError`].

use crate::error::{AppError, AppResult, Cause, IdError, StorageError};
use crate::id::{id_of, parse_id};
use crate::laws::lemma_delete_of_absent_changes_nothing;
use crate::markup::{IndexTemplate, MessageItemTemplate};
use crate::message::{rows_of, CreateMessage, Message};
use crate::store::MessageStore;
use vstd::prelude::*;
use vstd::std_specs::convert::FromSpec;

verus! {

/// The result of a listing, given what the store answered.
pub fn listed(outcome: Result<Vec<Message>, StorageError>) -> (result: AppResult<IndexTemplate>)
    ensures
        result == match outcome {
            Ok(messages) => Ok::<IndexTemplate, AppError>(IndexTemplate { messages }),
            Err(err) => Err(AppError::from_spec(err)),
        },
{
    match outcome {
        Ok(messages) => Ok(IndexTemplate { messages }),
        Err(err) => Err(AppError::from(err)),
    }
}

/// The result of a create, given what the store answered: the new message
/// as the store returned it.
pub fn created(outcome: Result<Message, StorageError>) -> (result: AppResult<MessageItemTemplate>)
    ensures
        result == match outcome {
            Ok(message) => Ok::<MessageItemTemplate, AppError>(MessageItemTemplate { message }),
            Err(err) => Err(AppError::from_spec(err)),
        },
{
    match outcome {
        Ok(message) => Ok(MessageItemTemplate { message }),
        Err(err) => Err(AppError::from(err)),
    }
}

/// The result of a delete, given what the store answered. The number of
/// rows removed is dropped: to the caller, deleting a message that is not
/// there is the same as deleting one that is.
pub fn deleted(outcome: Result<u64, StorageError>) -> (result: AppResult<()>)
    ensures
        result == match outcome {
            Ok(_) => Ok::<(), AppError>(()),
            Err(err) => Err(AppError::from_spec(err)),
        },
{
    match outcome {
        Ok(_) => Ok(()),
        Err(err) => Err(AppError::from(err)),
    }
}

/// The identifier that a delete was asked for, read from the text it came
/// as. A text that denotes no identifier is an error that holds the text.
pub fn requested_id(message_id: String) -> (result: AppResult<i64>)
    ensures
        match result {
            Ok(id) => id_of(message_id@) == Some(id as int),
            Err(err) => {
                &&& id_of(message_id@) is None
                &&& err == AppError::from_spec(IdError { text: message_id })
            },
        },
{
    match parse_id(message_id.as_str()) {
        Some(id) => Ok(id),
        None => Err(AppError::from(IdError { text: message_id })),
    }
}

/// Lists the board: every stored message, in the order of the store.
///
/// Fails exactly when the store does, with the store's failure as cause.
pub fn root(store: &MessageStore) -> (result: AppResult<IndexTemplate>)
    requires
        store.wf(),
    ensures
        match result {
            Ok(page) => {
                &&& store@.access_failure() is None
                &&& rows_of(page.messages@) == store@.rows
            },
            Err(err) => {
                &&& err.cause matches Cause::Storage(failure)
                &&& store@.access_failure() == Some(failure.detail@)
            },
        },
{
    listed(store.list_all())
}

/// Creates a message that holds `input.content` unchanged, and returns it
/// with the identifier that the store gave it.
///
/// Fails exactly when the store does, with the store's failure as cause; the
/// store is then as it was.
pub fn create_message(store: &mut MessageStore, input: CreateMessage) -> (result: AppResult<
    MessageItemTemplate,
>)
    requires
        old(store).wf(),
    ensures
        final(store).wf(),
        match result {
            Ok(item) => {
                &&& old(store)@.insert_failure() is None
                &&& item.message@ == old(store)@.new_row(input.content@)
                &&& final(store)@ == old(store)@.inserted(input.content@)
            },
            Err(err) => {
                &&& err.cause matches Cause::Storage(failure)
                &&& old(store)@.insert_failure() == Some(failure.detail@)
                &&& final(store)@ == old(store)@
            },
        },
{
    created(store.insert(input.content))
}

/// Deletes the message that `message_id` denotes. That there is no such
/// message is no error: the store is then left as it was.
///
/// Fails when `message_id` denotes no identifier, without a call to the
/// store, and otherwise exactly when the store does. The store is as it was
/// after either failure.
pub fn delete_message(store: &mut MessageStore, message_id: String) -> (result: AppResult<()>)
    requires
        old(store).wf(),
    ensures
        final(store).wf(),
        match result {
            Ok(_) => {
                &&& id_of(message_id@) matches Some(id)
                &&& old(store)@.access_failure() is None
                &&& final(store)@ == old(store)@.deleted(id)
                &&& !old(store)@.holds(id) ==> final(store)@ == old(store)@
            },
            Err(err) => {
                &&& final(store)@ == old(store)@
                &&& match id_of(message_id@) {
                    Some(_) => {
                        &&& err.cause matches Cause::Storage(failure)
                        &&& old(store)@.access_failure() == Some(failure.detail@)
                    },
                    None => err == AppError::from_spec(IdError { text: message_id }),
                }
            },
        },
{
    match requested_id(message_id) {
        Ok(id) => {
            proof {
                if !store@.holds(id as int) {
                    lemma_delete_of_absent_changes_nothing(store@, id as int);
                }
            }
            deleted(store.delete_by_id(id))
        },
        Err(err) => Err(err),
    }
}

} // verus!
