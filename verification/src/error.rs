//! The errors of the processor.

use vstd::prelude::*;

verus! {

/// Why an update was turned down. The record is unchanged in every case.
#[derive(Clone, Copy, Debug, PartialEq, Eq, Structural, Hash)]
pub enum ProcessError {
    /// The update does not start with a well-formed list of keys, or the
    /// list is longer than an update can carry.
    InvalidRequestData,
    /// No account came with the update.
    MissingAccounts,
    /// The record belongs to another program.
    InvalidOwner,
    /// The record does not start with a well-formed list of keys.
    InvalidStoredData,
    /// A signature that the update needs was not given.
    MissingRequiredSignature,
    /// The update names the same key with the same flag twice.
    DuplicateAuthorizationEntry,
    /// The update is longer than the record.
    RequestTooLarge,
}

/// Errors that the program reports under a code of its own.
#[derive(Clone, Copy, Debug, PartialEq, Eq, Structural, Hash)]
pub enum ConfigError {
    /// Instruction modified data of a read-only account.
    ReadonlyDataModified,
}

/// A number that is the code of no error.
#[derive(Clone, Copy, Debug, PartialEq, Eq, Structural, Hash)]
pub struct UnknownCode(pub u32);

impl ConfigError {
    /// The code under which the error is reported.
    pub open spec fn spec_code(self) -> u32 {
        match self {
            ConfigError::ReadonlyDataModified => 0u32,
        }
    }

    /// The code under which the error is reported.
    pub fn code(&self) -> (code: u32)
        ensures
            code == self.spec_code(),
    {
        match self {
            ConfigError::ReadonlyDataModified => 0,
        }
    }

    /// What the error means, in words.
    pub fn to_str(&self) -> (text: &'static str)
        ensures
            *self == ConfigError::ReadonlyDataModified ==> text@
                == "Instruction modified data of a read-only account"@,
    {
        match self {
            ConfigError::ReadonlyDataModified => "Instruction modified data of a read-only account",
        }
    }
}

impl TryFrom<u32> for ConfigError {
    type Error = UnknownCode;

    /// The error with the given code.
    fn try_from(code: u32) -> (r: Result<ConfigError, UnknownCode>) {
        if code == 0 {
            Ok(ConfigError::ReadonlyDataModified)
        } else {
            Err(UnknownCode(code))
        }
    }
}

impl vstd::std_specs::convert::TryFromSpecImpl<u32> for ConfigError {
    open spec fn obeys_try_from_spec() -> bool {
        true
    }

    open spec fn try_from_spec(code: u32) -> Result<ConfigError, UnknownCode> {
        if code == 0 {
            Ok(ConfigError::ReadonlyDataModified)
        } else {
            Err(UnknownCode(code))
        }
    }
}

} // verus!
