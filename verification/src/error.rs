//! Status codes of host operations and the error kinds they stand for.

use vstd::prelude::*;

use crate::bytesrepr::Error;
use crate::cl_value::CLValueError;

verus! {

/// The status code that the first user error stands for.
pub const USER_ERROR_MIN: u32 = 65536;

/// The status code that the last user error stands for.
pub const USER_ERROR_MAX: u32 = 131071;

/// An error kind that a status code can stand for.
#[derive(Clone, Copy, Debug, PartialEq, Eq, Structural)]
pub enum ApiError {
    /// An optional value was absent where one was required.
    NoValue,
    /// An argument was not supplied.
    MissingArgument,
    /// An argument was not of the required form.
    InvalidArgument,
    /// Bytes could not be decoded.
    Deserialize,
    /// A value could not be read.
    Read,
    /// No value is stored under the key.
    ValueNotFound,
    /// No contract is stored under the key.
    ContractNotFound,
    /// A named key could not be resolved.
    GetKey,
    /// The key is of a kind that the operation does not accept.
    UnexpectedKeyVariant,
    /// The stored value is of a kind that the operation does not accept.
    UnexpectedValueVariant,
    /// The contract reference is of a kind that the operation does not accept.
    UnexpectedContractRefVariant,
    /// The purse name is not valid.
    InvalidPurseName,
    /// The purse is not valid.
    InvalidPurse,
    /// The contract at the reference could not be replaced.
    UpgradeContractAtURef,
    /// A transfer failed.
    Transfer,
    /// The capability does not carry the right that the operation needs, or
    /// was never issued to the running context.
    NoAccessRights,
    /// A value could not be converted.
    ValueConversion,
    /// The envelope holds a value of another type.
    CLTypeMismatch,
    /// The input ended before the value was complete.
    EarlyEndOfStream,
    /// The bytes do not denote a value of the requested type.
    Formatting,
    /// Bytes were left over after a complete value.
    LeftOverBytes,
    /// The encoding would be too long.
    OutOfMemory,
    /// Any status code that stands for no other kind.
    Unhandled,
    /// An error of the contract's own making.
    User(u16),
}

/// The status code that stands for an error.
pub open spec fn spec_code(e: ApiError) -> u32 {
    match e {
        ApiError::NoValue => 1,
        ApiError::MissingArgument => 2,
        ApiError::InvalidArgument => 3,
        ApiError::Deserialize => 4,
        ApiError::Read => 5,
        ApiError::ValueNotFound => 6,
        ApiError::ContractNotFound => 7,
        ApiError::GetKey => 8,
        ApiError::UnexpectedKeyVariant => 9,
        ApiError::UnexpectedValueVariant => 10,
        ApiError::UnexpectedContractRefVariant => 11,
        ApiError::InvalidPurseName => 12,
        ApiError::InvalidPurse => 13,
        ApiError::UpgradeContractAtURef => 14,
        ApiError::Transfer => 15,
        ApiError::NoAccessRights => 16,
        ApiError::ValueConversion => 17,
        ApiError::CLTypeMismatch => 18,
        ApiError::EarlyEndOfStream => 19,
        ApiError::Formatting => 20,
        ApiError::LeftOverBytes => 21,
        ApiError::OutOfMemory => 22,
        ApiError::Unhandled => 31,
        ApiError::User(n) => (65536 + n) as u32,
    }
}

/// The error that a status code other than 0 stands for.
pub open spec fn spec_from_code(code: u32) -> ApiError {
    if code == 1 {
        ApiError::NoValue
    } else if code == 2 {
        ApiError::MissingArgument
    } else if code == 3 {
        ApiError::InvalidArgument
    } else if code == 4 {
        ApiError::Deserialize
    } else if code == 5 {
        ApiError::Read
    } else if code == 6 {
        ApiError::ValueNotFound
    } else if code == 7 {
        ApiError::ContractNotFound
    } else if code == 8 {
        ApiError::GetKey
    } else if code == 9 {
        ApiError::UnexpectedKeyVariant
    } else if code == 10 {
        ApiError::UnexpectedValueVariant
    } else if code == 11 {
        ApiError::UnexpectedContractRefVariant
    } else if code == 12 {
        ApiError::InvalidPurseName
    } else if code == 13 {
        ApiError::InvalidPurse
    } else if code == 14 {
        ApiError::UpgradeContractAtURef
    } else if code == 15 {
        ApiError::Transfer
    } else if code == 16 {
        ApiError::NoAccessRights
    } else if code == 17 {
        ApiError::ValueConversion
    } else if code == 18 {
        ApiError::CLTypeMismatch
    } else if code == 19 {
        ApiError::EarlyEndOfStream
    } else if code == 20 {
        ApiError::Formatting
    } else if code == 21 {
        ApiError::LeftOverBytes
    } else if code == 22 {
        ApiError::OutOfMemory
    } else if USER_ERROR_MIN <= code <= USER_ERROR_MAX {
        ApiError::User((code - USER_ERROR_MIN) as u16)
    } else {
        ApiError::Unhandled
    }
}

/// What a status code says: success for 0, an error for anything else.
pub open spec fn spec_result_from(status: i32) -> Result<(), ApiError> {
    if status == 0 {
        Ok(())
    } else if status < 0 {
        Err(ApiError::Unhandled)
    } else {
        Err(spec_from_code(status as u32))
    }
}

/// The error kind that a decoding failure is reported as.
pub open spec fn spec_from_bytesrepr(e: Error) -> ApiError {
    match e {
        Error::EarlyEndOfStream => ApiError::EarlyEndOfStream,
        Error::FormattingError => ApiError::Formatting,
        Error::LeftOverBytes => ApiError::LeftOverBytes,
        Error::OutOfMemoryError => ApiError::OutOfMemory,
    }
}

/// The error kind that a failure to open an envelope is reported as.
pub open spec fn spec_from_cl_value_error(e: CLValueError) -> ApiError {
    match e {
        CLValueError::Serialization(inner) => spec_from_bytesrepr(inner),
        CLValueError::Type(_) => ApiError::CLTypeMismatch,
    }
}

/// No error has the code of success, and each error is the one that its code stands for.
pub proof fn lemma_code_round_trip(e: ApiError)
    ensures
        spec_code(e) != 0,
        spec_code(e) <= USER_ERROR_MAX,
        spec_from_code(spec_code(e)) == e,
        spec_result_from(spec_code(e) as i32) == Err::<(), ApiError>(e),
{
}

impl ApiError {
    /// The status code that stands for this error.
    pub fn code(&self) -> (r: u32)
        ensures
            r == spec_code(*self),
            r != 0,
            r <= USER_ERROR_MAX,
    {
        match self {
            ApiError::NoValue => 1,
            ApiError::MissingArgument => 2,
            ApiError::InvalidArgument => 3,
            ApiError::Deserialize => 4,
            ApiError::Read => 5,
            ApiError::ValueNotFound => 6,
            ApiError::ContractNotFound => 7,
            ApiError::GetKey => 8,
            ApiError::UnexpectedKeyVariant => 9,
            ApiError::UnexpectedValueVariant => 10,
            ApiError::UnexpectedContractRefVariant => 11,
            ApiError::InvalidPurseName => 12,
            ApiError::InvalidPurse => 13,
            ApiError::UpgradeContractAtURef => 14,
            ApiError::Transfer => 15,
            ApiError::NoAccessRights => 16,
            ApiError::ValueConversion => 17,
            ApiError::CLTypeMismatch => 18,
            ApiError::EarlyEndOfStream => 19,
            ApiError::Formatting => 20,
            ApiError::LeftOverBytes => 21,
            ApiError::OutOfMemory => 22,
            ApiError::Unhandled => 31,
            ApiError::User(n) => USER_ERROR_MIN + *n as u32,
        }
    }

    /// The status code of this error as a host operation returns it.
    pub fn status(&self) -> (r: i32)
        ensures
            r == spec_code(*self),
            r != 0,
            spec_result_from(r) == Err::<(), ApiError>(*self),
    {
        self.code() as i32
    }

    /// The error that a status code other than 0 stands for.
    pub fn from_code(code: u32) -> (r: ApiError)
        ensures
            r == spec_from_code(code),
    {
        if code == 1 {
            ApiError::NoValue
        } else if code == 2 {
            ApiError::MissingArgument
        } else if code == 3 {
            ApiError::InvalidArgument
        } else if code == 4 {
            ApiError::Deserialize
        } else if code == 5 {
            ApiError::Read
        } else if code == 6 {
            ApiError::ValueNotFound
        } else if code == 7 {
            ApiError::ContractNotFound
        } else if code == 8 {
            ApiError::GetKey
        } else if code == 9 {
            ApiError::UnexpectedKeyVariant
        } else if code == 10 {
            ApiError::UnexpectedValueVariant
        } else if code == 11 {
            ApiError::UnexpectedContractRefVariant
        } else if code == 12 {
            ApiError::InvalidPurseName
        } else if code == 13 {
            ApiError::InvalidPurse
        } else if code == 14 {
            ApiError::UpgradeContractAtURef
        } else if code == 15 {
            ApiError::Transfer
        } else if code == 16 {
            ApiError::NoAccessRights
        } else if code == 17 {
            ApiError::ValueConversion
        } else if code == 18 {
            ApiError::CLTypeMismatch
        } else if code == 19 {
            ApiError::EarlyEndOfStream
        } else if code == 20 {
            ApiError::Formatting
        } else if code == 21 {
            ApiError::LeftOverBytes
        } else if code == 22 {
            ApiError::OutOfMemory
        } else if USER_ERROR_MIN <= code && code <= USER_ERROR_MAX {
            ApiError::User((code - USER_ERROR_MIN) as u16)
        } else {
            ApiError::Unhandled
        }
    }

    /// The error kind that a decoding failure is reported as.
    pub fn from_bytesrepr(e: Error) -> (r: ApiError)
        ensures
            r == spec_from_bytesrepr(e),
    {
        match e {
            Error::EarlyEndOfStream => ApiError::EarlyEndOfStream,
            Error::FormattingError => ApiError::Formatting,
            Error::LeftOverBytes => ApiError::LeftOverBytes,
            Error::OutOfMemoryError => ApiError::OutOfMemory,
        }
    }

    /// The error kind that a failure to open an envelope is reported as.
    pub fn from_cl_value_error(e: &CLValueError) -> (r: ApiError)
        ensures
            r == spec_from_cl_value_error(*e),
    {
        match e {
            CLValueError::Serialization(inner) => ApiError::from_bytesrepr(*inner),
            CLValueError::Type(_) => ApiError::CLTypeMismatch,
        }
    }
}

/// Reads a status code: success for 0, the error it stands for otherwise.
pub fn result_from(status: i32) -> (r: Result<(), ApiError>)
    ensures
        r == spec_result_from(status),
{
    if status == 0 {
        Ok(())
    } else if status < 0 {
        Err(ApiError::Unhandled)
    } else {
        Err(ApiError::from_code(status as u32))
    }
}

} // verus!
