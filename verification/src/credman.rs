//! Status and parameter records of the device's credential store.
//!
//! The store itself lives outside this crate; here stand the closed
//! status table its calls answer with and the plain records that carry
//! credential material into it.

use vstd::prelude::*;

verus! {

/// The outcome of a credential-store call.
#[derive(Clone, Copy, Debug, PartialEq, Eq, Structural)]
pub enum CredmanStatus {
    /// The call succeeded.
    CredmanOK,
    /// A credential with this tag and type already exists.
    CredmanExist,
    /// The store has no room left.
    CredmanNoSpace,
    /// No credential with this tag and type exists.
    CredmanNotFound,
    /// The credential's material is invalid.
    CredmanInvalid,
    /// The credential's type is not known to the store.
    CredmanTypeUnknown,
    /// The call failed for another reason.
    CredmanError,
    /// The status value itself is not one the store defines.
    CredmanStatusUnknown,
}

impl CredmanStatus {
    /// The classification of a store's numeric status.
    pub open spec fn spec_from_value(n: i32) -> CredmanStatus {
        if n == 0 {
            CredmanStatus::CredmanOK
        } else if n == -1 {
            CredmanStatus::CredmanExist
        } else if n == -2 {
            CredmanStatus::CredmanNoSpace
        } else if n == -3 {
            CredmanStatus::CredmanNotFound
        } else if n == -4 {
            CredmanStatus::CredmanInvalid
        } else if n == -5 {
            CredmanStatus::CredmanTypeUnknown
        } else if n == -6 {
            CredmanStatus::CredmanError
        } else {
            CredmanStatus::CredmanStatusUnknown
        }
    }

    /// Classifies the store's numeric status; every value outside the
    /// table is [`CredmanStatus::CredmanStatusUnknown`], never a panic.
    pub fn from_value(n: i32) -> (r: Self)
        ensures
            r == Self::spec_from_value(n),
    {
        match n {
            0 => CredmanStatus::CredmanOK,
            -1 => CredmanStatus::CredmanExist,
            -2 => CredmanStatus::CredmanNoSpace,
            -3 => CredmanStatus::CredmanNotFound,
            -4 => CredmanStatus::CredmanInvalid,
            -5 => CredmanStatus::CredmanTypeUnknown,
            -6 => CredmanStatus::CredmanError,
            _ => CredmanStatus::CredmanStatusUnknown,
        }
    }
}

/// The type of a stored credential.
#[derive(Clone, Copy, Debug, PartialEq, Eq, Structural)]
pub enum CredmanType {
    /// An empty slot.
    CredmanTypeEmpty,
    /// A pre-shared key.
    CredmanTypePSK,
    /// An ECDSA key pair.
    CredmanTypeECDSA,
}

/// The material of a pre-shared-key credential.
pub struct PskParams {
    pub key: Vec<u8>,
    pub id: Vec<u8>,
    pub hint: Vec<u8>,
}

/// The public half of an ECDSA key pair, as its two coordinates.
pub struct EcdsaPublicKey {
    pub x: Vec<u8>,
    pub y: Vec<u8>,
}

} // verus!
