//! The errors of the library.
use vstd::prelude::*;

verus! {

/// What went wrong, with a message for whoever reads it.
#[derive(Debug)]
pub enum ErrorCode {
    /// The library gave up on its own account.
    Internal(String),
    /// Bytes are not what they should be.
    BadBytes(String),
    /// A sequence does not exist.
    UnknownSequence(String),
    /// The `parquet` crate rejected its input, with its message.
    Parquet(String),
    /// A storage, catalog or role service failed, with its message.
    Service(String),
}

impl ErrorCode {
    /// The message of the error.
    pub open spec fn text(self) -> Seq<char> {
        match self {
            ErrorCode::Internal(text) => text@,
            ErrorCode::BadBytes(text) => text@,
            ErrorCode::UnknownSequence(text) => text@,
            ErrorCode::Parquet(text) => text@,
            ErrorCode::Service(text) => text@,
        }
    }

    /// The message of the error.
    pub fn message(&self) -> (message: String)
        ensures
            message@ == self.text(),
            match self {
                ErrorCode::Internal(text) => message@ == text@,
                ErrorCode::BadBytes(text) => message@ == text@,
                ErrorCode::UnknownSequence(text) => message@ == text@,
                ErrorCode::Parquet(text) => message@ == text@,
                ErrorCode::Service(text) => message@ == text@,
            },
    {
        match self {
            ErrorCode::Internal(text) => text.clone(),
            ErrorCode::BadBytes(text) => text.clone(),
            ErrorCode::UnknownSequence(text) => text.clone(),
            ErrorCode::Parquet(text) => text.clone(),
            ErrorCode::Service(text) => text.clone(),
        }
    }
}

/// The outcome of a call into the `parquet` crate, whose error is known by its text,
/// with that error as an [`ErrorCode`].
pub open spec fn is_outcome<T>(res: Result<T, ErrorCode>, outcome: Result<T, Seq<char>>) -> bool {
    match outcome {
        Ok(value) => res == Ok::<T, ErrorCode>(value),
        Err(text) => res matches Err(ErrorCode::Parquet(message)) && message@ == text,
    }
}

/// Turns the error of a call into the `parquet` crate into an [`ErrorCode`].
pub fn map_parquet_error<T>(outcome: Result<T, String>) -> (res: Result<T, ErrorCode>)
    ensures
        match outcome {
            Ok(value) => res == Ok::<T, ErrorCode>(value),
            Err(text) => res == Err::<T, ErrorCode>(ErrorCode::Parquet(text)),
        },
{
    match outcome {
        Ok(value) => Ok(value),
        Err(text) => Err(ErrorCode::Parquet(text)),
    }
}

/// The message of an error is the text that it was made with, of whatever sort it is.
pub proof fn law_message_is_the_text_of_the_error(text: String)
    ensures
        ErrorCode::Internal(text).text() == text@,
        ErrorCode::BadBytes(text).text() == text@,
        ErrorCode::UnknownSequence(text).text() == text@,
        ErrorCode::Parquet(text).text() == text@,
        ErrorCode::Service(text).text() == text@,
{
}

/// What a call into the `parquet` crate gives comes through as it is: a value as the same
/// value, an error as one with the same text, and neither as the other.
pub proof fn law_outcome_comes_through<T>(
    res: Result<T, ErrorCode>,
    outcome: Result<T, Seq<char>>,
)
    requires
        is_outcome(res, outcome),
    ensures
        res is Ok <==> outcome is Ok,
        outcome is Ok ==> res->Ok_0 == outcome->Ok_0,
        outcome is Err ==> res->Err_0 is Parquet && res->Err_0->Parquet_0@ == outcome->Err_0,
{
}

} // verus!
