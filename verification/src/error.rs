//! The failure taxonomy of the instruction processor.

use vstd::prelude::*;

verus! {

/// Every way an instruction can be rejected by this program's own checks.
#[derive(Clone, Copy, Debug, PartialEq, Eq, Structural)]
pub enum OnchainMetadataError {
    /// The account passed in was already initialized.
    AlreadyInitialized,
    /// The account passed isn't initialized.
    NotInitialized,
    /// The key for the JSON metadata account is invalid.
    MetadataDerivedKeyInvalid,
    /// The system program account is invalid.
    InvalidSystemProgram,
    /// The JSON data is invalid.
    InvalidJson,
    /// A stored record could not be encoded or decoded.
    BorshSerializeError,
    /// The payer does not have authority to perform this action.
    InvalidAuthority,
}

impl OnchainMetadataError {
    /// The stable numeric code under which the host surfaces this error.
    pub fn code(&self) -> (c: u32)
        ensures
            c == self.spec_code(),
    {
        match self {
            OnchainMetadataError::AlreadyInitialized => 0,
            OnchainMetadataError::NotInitialized => 1,
            OnchainMetadataError::MetadataDerivedKeyInvalid => 2,
            OnchainMetadataError::InvalidSystemProgram => 3,
            OnchainMetadataError::InvalidJson => 4,
            OnchainMetadataError::BorshSerializeError => 5,
            OnchainMetadataError::InvalidAuthority => 6,
        }
    }

    pub open spec fn spec_code(&self) -> u32 {
        match self {
            OnchainMetadataError::AlreadyInitialized => 0,
            OnchainMetadataError::NotInitialized => 1,
            OnchainMetadataError::MetadataDerivedKeyInvalid => 2,
            OnchainMetadataError::InvalidSystemProgram => 3,
            OnchainMetadataError::InvalidJson => 4,
            OnchainMetadataError::BorshSerializeError => 5,
            OnchainMetadataError::InvalidAuthority => 6,
        }
    }

    /// A human-readable description, in place of a `Display` impl.
    pub fn message(&self) -> (s: &'static str) {
        match self {
            OnchainMetadataError::AlreadyInitialized => "The account has already been initialized",
            OnchainMetadataError::NotInitialized => "The account has not yet been initialized",
            OnchainMetadataError::MetadataDerivedKeyInvalid => {
                "The key for the JSON metadata account is invalid."
            },
            OnchainMetadataError::InvalidSystemProgram => "The system program account is invalid.",
            OnchainMetadataError::InvalidJson => "The JSON data is invalid.",
            OnchainMetadataError::BorshSerializeError => {
                "Borsh failed to serialize this account."
            },
            OnchainMetadataError::InvalidAuthority => {
                "The payer does not have authority to perform this action."
            },
        }
    }
}

/// The full failure type of one dispatched instruction: either one of this
/// program's own errors or a check the host runtime defines.
#[derive(Clone, Copy, Debug, PartialEq, Eq, Structural)]
pub enum ProgramFailure {
    /// One of this program's own errors.
    Custom(OnchainMetadataError),
    /// The payer account did not carry a verified signer flag.
    MissingRequiredSignature,
    /// The instruction payload could not be decoded.
    BorshIoError,
    /// The instruction was handed fewer accounts than its schema requires.
    NotEnoughAccountKeys,
}

} // verus!
