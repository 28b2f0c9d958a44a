//! The error that the boundary reports, and the failures it is made from.
//!
//! Lower layers fail in their own ways: the store with a [`StorageError`], the
//! reading of an identifier with an [`IdError`]. Each converts into the one
//! [`AppError`], which keeps the failure whole as its `cause`. Only at the
//! boundary is an `AppError` turned into what a client sees: always the same
//! status, and a text meant for operators.

use vstd::prelude::*;
use vstd::std_specs::convert::FromSpecImpl;
use vstd::string::StringExecFns;

verus! {

/// The status that every failure is reported with.
pub const INTERNAL_SERVER_ERROR: u16 = 500;

/// The store's only failure signal. The store does not sort its failures into
/// kinds for the caller; `detail` describes what happened, for operators.
#[derive(Debug, PartialEq, Eq)]
pub struct StorageError {
    pub detail: String,
}

/// A text that was given as a message identifier and denotes none.
#[derive(Debug, PartialEq, Eq)]
pub struct IdError {
    pub text: String,
}

/// What went wrong beneath the boundary.
#[derive(Debug, PartialEq, Eq)]
pub enum Cause {
    Storage(StorageError),
    MalformedId(IdError),
}

/// The single error of the board: a wrapper around one cause.
#[derive(Debug, PartialEq, Eq)]
pub struct AppError {
    pub cause: Cause,
}

pub type AppResult<T> = Result<T, AppError>;

/// The words that every boundary message starts with.
pub open spec fn message_prefix() -> Seq<char> {
    "Something went wrong: "@
}

/// The words that introduce a text that is no identifier.
pub open spec fn malformed_id_prefix() -> Seq<char> {
    "not a message id: "@
}

impl Cause {
    /// The description of the cause, as the boundary message includes it.
    pub open spec fn description(self) -> Seq<char> {
        match self {
            Cause::Storage(err) => err.detail@,
            Cause::MalformedId(err) => malformed_id_prefix() + err.text@,
        }
    }

    /// Writes the description out.
    pub fn describe(&self) -> (text: String)
        ensures
            text@ == self.description(),
    {
        match self {
            Cause::Storage(err) => err.detail.clone(),
            Cause::MalformedId(err) => {
                let mut text = String::from_str("not a message id: ");
                text.append(err.text.as_str());
                text
            },
        }
    }
}

impl AppError {
    /// The body that the boundary sends with the status.
    pub open spec fn message_text(self) -> Seq<char> {
        message_prefix() + self.cause.description()
    }

    /// Turns the error into what the boundary sends: the status, which is the
    /// same for every error, and a body made of a fixed opening and the
    /// description of the cause. The body is meant for operators; clients
    /// are promised the status only.
    pub fn into_response(self) -> (response: (u16, String))
        ensures
            response.0 == INTERNAL_SERVER_ERROR,
            response.1@ == self.message_text(),
    {
        let mut text = String::from_str("Something went wrong: ");
        let description = self.cause.describe();
        text.append(description.as_str());
        (INTERNAL_SERVER_ERROR, text)
    }
}

impl From<StorageError> for AppError {
    fn from(err: StorageError) -> (e: AppError) {
        AppError { cause: Cause::Storage(err) }
    }
}

impl FromSpecImpl<StorageError> for AppError {
    open spec fn obeys_from_spec() -> bool {
        true
    }

    open spec fn from_spec(err: StorageError) -> AppError {
        AppError { cause: Cause::Storage(err) }
    }
}

impl From<IdError> for AppError {
    fn from(err: IdError) -> (e: AppError) {
        AppError { cause: Cause::MalformedId(err) }
    }
}

impl FromSpecImpl<IdError> for AppError {
    open spec fn obeys_from_spec() -> bool {
        true
    }

    open spec fn from_spec(err: IdError) -> AppError {
        AppError { cause: Cause::MalformedId(err) }
    }
}

} // verus!
