use vstd::prelude::*;

verus! {

/// The I/O error carried by [`PictorError::IoError`].
#[verifier::external_type_specification]
#[verifier::external_body]
pub struct ExIoError(std::io::Error);

/// Errors reported by the codecs.
#[non_exhaustive]
#[derive(Debug)]
pub enum PictorError {
    InvalidArgument { msg: &'static str },
    IoError { err: std::io::Error },
    IntegerError { err: std::num::TryFromIntError },
    /// A `checked_mul` on image dimensions overflowed.
    MulOverflow { op: &'static str },
    FileSizeExceeded,
    InvalidFormat { msg: String },
}

pub type PictorResult<T> = Result<T, PictorError>;

impl PictorError {
    /// An `InvalidFormat` error with the given message.
    pub fn invalid_format(msg: &str) -> (e: PictorError)
        ensures
            e is InvalidFormat,
    {
        PictorError::InvalidFormat { msg: msg.to_string() }
    }
}

impl From<std::io::Error> for PictorError {
    fn from(value: std::io::Error) -> (r: PictorError)
        ensures
            r == (PictorError::IoError { err: value }),
    {
        PictorError::IoError { err: value }
    }
}

impl vstd::std_specs::convert::FromSpecImpl<std::io::Error> for PictorError {
    open spec fn obeys_from_spec() -> bool {
        true
    }

    open spec fn from_spec(v: std::io::Error) -> PictorError {
        PictorError::IoError { err: v }
    }
}

impl From<std::num::TryFromIntError> for PictorError {
    fn from(value: std::num::TryFromIntError) -> (r: PictorError)
        ensures
            r == (PictorError::IntegerError { err: value }),
    {
        PictorError::IntegerError { err: value }
    }
}

impl vstd::std_specs::convert::FromSpecImpl<std::num::TryFromIntError> for PictorError {
    open spec fn obeys_from_spec() -> bool {
        true
    }

    open spec fn from_spec(v: std::num::TryFromIntError) -> PictorError {
        PictorError::IntegerError { err: v }
    }
}

} // verus!
