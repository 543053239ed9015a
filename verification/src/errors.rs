//! The conditions that the library reports to its caller.

use vstd::prelude::*;

verus! {

/// Why a set of cost parameters or a pattern table is refused at start-up.
#[derive(Clone, Copy, Debug, PartialEq, Eq, Structural)]
pub enum ConfigurationError {
    /// There is no lane.
    LanesTooFew,
    /// There are more lanes than the key-derivation function supports.
    LanesTooMany,
    /// The memory cost is under eight blocks per lane.
    MemoryTooLittle,
    /// The working memory would not fit in this machine's address space.
    MemoryTooMuch,
    /// There is no pass.
    TimeTooSmall,
    /// The source of the blacklist table is no valid pattern.
    MalformedBlacklist,
    /// The source of the profanity table is no valid pattern.
    MalformedProfanity,
    /// The source of the table of registered names is no valid pattern.
    MalformedRegistered,
}

/// Why text is refused as a hash record: it is not the text of any record
/// that the key-derivation function could run on.
#[derive(Clone, Copy, Debug, PartialEq, Eq, Structural)]
pub struct DecodeError;

/// Why a password could not be hashed.
#[derive(Clone, Copy, Debug, PartialEq, Eq, Structural)]
pub enum HashError {
    /// The password has more bytes than fit in 32 bits.
    PasswordTooLong,
    /// The salt has under eight bytes, or more than fit in 32 bits.
    SaltOutOfRange,
}

/// Why a password was not accepted for a record.
#[derive(Clone, Copy, Debug, PartialEq, Eq, Structural)]
pub enum AuthFailure {
    /// The record is sound and the password is not the one it was made for.
    AuthorizationFailed,
    /// The text is no hash record.
    DecodeError,
}

} // verus!
