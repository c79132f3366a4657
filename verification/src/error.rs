//! What can be wrong with the contents of a `.ncm` file.
use vstd::prelude::*;

verus! {

/// The bytes at hand are not a `.ncm` container.
#[derive(Debug)]
pub enum NcmError {
    /// The contents are malformed; the message says where.
    Invalid(String),
}

impl View for NcmError {
    type V = Seq<char>;

    open spec fn view(&self) -> Seq<char> {
        match self {
            NcmError::Invalid(message) => message@,
        }
    }
}

impl NcmError {
    /// The message of the error.
    pub fn message(&self) -> (message: &String)
        ensures
            message@ == self@,
    {
        match self {
            NcmError::Invalid(message) => message,
        }
    }
}

/// Malformed contents, described by `message`.
pub(crate) fn invalid(message: &str) -> (error: NcmError)
    ensures
        error@ == message@,
{
    NcmError::Invalid(message.to_string())
}

/// A result of this library by what its contents stand for.
pub open spec fn outcome(result: Result<Vec<u8>, NcmError>) -> Result<Seq<u8>, Seq<char>> {
    match result {
        Ok(bytes) => Ok(bytes@),
        Err(error) => Err(error@),
    }
}

/// A result stands for its whole bytes, an error for its whole message.
pub proof fn law_outcome_is_faithful(bytes: Vec<u8>, message: String)
    ensures
        outcome(Ok(bytes)) == Ok::<Seq<u8>, Seq<char>>(bytes@),
        outcome(Err(NcmError::Invalid(message))) == Err::<Seq<u8>, Seq<char>>(message@),
{
}

} // verus!
